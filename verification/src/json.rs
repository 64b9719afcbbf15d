//! The document tree: a JSON value whose objects keep their members in order.

use vstd::prelude::*;

verus! {

/// `serde_json::Number`, carried through the tree unread.
#[verifier::external_type_specification]
#[verifier::external_body]
pub struct ExNumber(serde_json::Number);

/// A JSON document as a mathematical value.
pub ghost enum Node {
    Null,
    Bool(bool),
    Number(serde_json::Number),
    Text(Seq<char>),
    Sequence(Seq<Node>),
    Mapping(Seq<(Seq<char>, Node)>),
}

/// A JSON document.
#[derive(Debug, PartialEq)]
pub enum Json {
    Null,
    Bool(bool),
    Number(serde_json::Number),
    String(String),
    Array(Vec<Json>),
    Object(Vec<(String, Json)>),
}

impl View for Json {
    type V = Node;

    open spec fn view(&self) -> Node
        decreases self,
    {
        match self {
            Json::Null => Node::Null,
            Json::Bool(b) => Node::Bool(*b),
            Json::Number(n) => Node::Number(*n),
            Json::String(s) => Node::Text(s@),
            Json::Array(items) => Node::Sequence(
                Seq::new(
                    items.len() as nat,
                    |i: int| if 0 <= i < items.len() { items[i]@ } else { Node::Null },
                ),
            ),
            Json::Object(members) => Node::Mapping(
                Seq::new(
                    members.len() as nat,
                    |i: int|
                        (
                            members[i].0@,
                            if 0 <= i < members.len() {
                                members[i].1@
                            } else {
                                Node::Null
                            },
                        ),
                ),
            ),
        }
    }
}

/// The view of an array's items.
pub open spec fn items_view(items: Vec<Json>) -> Seq<Node> {
    Json::Array(items)@->Sequence_0
}

/// The view of an object's members.
pub open spec fn members_view(members: Vec<(String, Json)>) -> Seq<(Seq<char>, Node)> {
    Json::Object(members)@->Mapping_0
}

/// The view of an array holds the views of its items, in order.
pub broadcast proof fn lemma_items_view(items: Vec<Json>)
    ensures
        (#[trigger] items_view(items)).len() == items.len(),
        forall|i: int| 0 <= i < items.len() ==> #[trigger] items_view(items)[i] == items[i]@,
{
}

/// The view of an object holds the keys and the views of its members, in order.
pub broadcast proof fn lemma_members_view(members: Vec<(String, Json)>)
    ensures
        (#[trigger] members_view(members)).len() == members.len(),
        forall|i: int|
            0 <= i < members.len() ==> #[trigger] members_view(members)[i] == (
                members[i].0@,
                members[i].1@,
            ),
{
}

} // verus!
