//! Structural paths: walking from the root of a document to one of its
//! sequences, and emptying the sequence found there.

use vstd::prelude::*;
use crate::json::Json;
use crate::json::Node;
use crate::json::members_view;
use crate::json::items_view;
use crate::json::lemma_members_view;
use crate::json::lemma_items_view;

verus! {

/// One step of a path, as a mathematical value.
pub ghost enum Hop {
    /// Look a key up in a mapping.
    Key(Seq<char>),
    /// Take the element at an index of a sequence.
    Index(nat),
}

/// One step of a path.
#[derive(Debug, PartialEq, Eq)]
pub enum Step {
    Key(String),
    Index(usize),
}

impl View for Step {
    type V = Hop;

    open spec fn view(&self) -> Hop {
        match self {
            Step::Key(k) => Hop::Key(k@),
            Step::Index(i) => Hop::Index(*i as nat),
        }
    }
}

/// Why a path does not lead to a sequence.
#[derive(Debug, Clone, Copy, PartialEq, Eq, Structural)]
pub enum Fault {
    /// The mapping has no member with the key asked for.
    MissingKey,
    /// The sequence is too short for the index asked for.
    MissingIndex,
    /// The node is not of the kind that the step expects: a mapping for a
    /// key, a sequence for an index, a sequence at the end of the path.
    WrongKind,
}

/// The views of the steps of a path.
pub open spec fn hops(path: Seq<Step>) -> Seq<Hop> {
    path.map_values(|s: Step| s@)
}

/// The index of the first member at or after `from` whose key is `key`.
pub open spec fn key_index(members: Seq<(Seq<char>, Node)>, key: Seq<char>, from: int) -> Option<
    int,
>
    decreases members.len() - from,
{
    if from < 0 || from >= members.len() {
        None
    } else if members[from].0 == key {
        Some(from)
    } else {
        key_index(members, key, from + 1)
    }
}

/// The child of `node` that `hop` leads to, by its position in `node`.
pub open spec fn descend(node: Node, hop: Hop) -> Result<int, Fault> {
    match hop {
        Hop::Key(key) => match node {
            Node::Mapping(members) => match key_index(members, key, 0) {
                Some(i) => Ok(i),
                None => Err(Fault::MissingKey),
            },
            _ => Err(Fault::WrongKind),
        },
        Hop::Index(i) => match node {
            Node::Sequence(items) => if i < items.len() {
                Ok(i as int)
            } else {
                Err(Fault::MissingIndex)
            },
            _ => Err(Fault::WrongKind),
        },
    }
}

/// The number of children of a node.
pub open spec fn arity(node: Node) -> nat {
    match node {
        Node::Mapping(members) => members.len(),
        Node::Sequence(items) => items.len(),
        _ => 0,
    }
}

/// The child at position `i` of a mapping or a sequence.
pub open spec fn child(node: Node, i: int) -> Node {
    match node {
        Node::Mapping(members) => members[i].1,
        Node::Sequence(items) => items[i],
        _ => node,
    }
}

/// `node` with the child at position `i` replaced by `by`.
pub open spec fn with_child(node: Node, i: int, by: Node) -> Node {
    match node {
        Node::Mapping(members) => Node::Mapping(members.update(i, (members[i].0, by))),
        Node::Sequence(items) => Node::Sequence(items.update(i, by)),
        _ => node,
    }
}

/// What lies at the end of `path`, walked from its step `hop` on: the length
/// of the sequence found there, or the number of the step that failed and why.
pub open spec fn queue_len(node: Node, path: Seq<Hop>, hop: nat) -> Result<nat, (nat, Fault)>
    decreases path.len() - hop,
{
    if hop >= path.len() {
        match node {
            Node::Sequence(items) => Ok(items.len()),
            _ => Err((hop, Fault::WrongKind)),
        }
    } else {
        match descend(node, path[hop as int]) {
            Ok(i) => queue_len(child(node, i), path, hop + 1),
            Err(fault) => Err((hop, fault)),
        }
    }
}

/// `node` with the sequence at the end of `path` emptied; `node` itself where
/// the path does not lead to a sequence.
pub open spec fn emptied(node: Node, path: Seq<Hop>, hop: nat) -> Node
    decreases path.len() - hop,
{
    if hop >= path.len() {
        match node {
            Node::Sequence(_) => Node::Sequence(Seq::empty()),
            _ => node,
        }
    } else {
        match descend(node, path[hop as int]) {
            Ok(i) => with_child(node, i, emptied(child(node, i), path, hop + 1)),
            Err(_) => node,
        }
    }
}

/// What `key_index` finds is the first member from `from` on with the key.
pub proof fn lemma_key_index(members: Seq<(Seq<char>, Node)>, key: Seq<char>, from: int)
    requires
        0 <= from,
    ensures
        match key_index(members, key, from) {
            Some(i) => {
                &&& from <= i < members.len()
                &&& members[i].0 == key
                &&& forall|j: int| from <= j < i ==> members[j].0 != key
            },
            None => forall|j: int| from <= j < members.len() ==> members[j].0 != key,
        },
    decreases members.len() - from,
{
    if from < members.len() && members[from].0 != key {
        lemma_key_index(members, key, from + 1);
    }
}

/// Two mappings with the same keys in the same order hold a key at the same
/// position.
pub proof fn lemma_key_index_by_keys(
    a: Seq<(Seq<char>, Node)>,
    b: Seq<(Seq<char>, Node)>,
    key: Seq<char>,
    from: int,
)
    requires
        0 <= from,
        a.len() == b.len(),
        forall|j: int| 0 <= j < a.len() ==> a[j].0 == b[j].0,
    ensures
        key_index(a, key, from) == key_index(b, key, from),
    decreases a.len() - from,
{
    if from < a.len() && a[from].0 != key {
        lemma_key_index_by_keys(a, b, key, from + 1);
    }
}

/// A step leads to a child that the node has.
pub proof fn lemma_descend(node: Node, hop: Hop)
    ensures
        match descend(node, hop) {
            Ok(i) => 0 <= i < arity(node) && match node {
                Node::Mapping(members) => hop == Hop::Key(members[i].0),
                Node::Sequence(_) => hop == Hop::Index(i as nat),
                _ => false,
            },
            Err(_) => true,
        },
{
    match (node, hop) {
        (Node::Mapping(members), Hop::Key(key)) => lemma_key_index(members, key, 0),
        _ => {},
    }
}

/// Replacing a child changes neither where a step leads nor the other
/// children.
pub proof fn lemma_with_child(node: Node, i: int, by: Node, hop: Hop)
    requires
        0 <= i < arity(node),
    ensures
        descend(with_child(node, i, by), hop) == descend(node, hop),
        child(with_child(node, i, by), i) == by,
        forall|j: int|
            0 <= j < arity(node) && j != i ==> child(with_child(node, i, by), j) == child(node, j),
{
    match (node, hop) {
        (Node::Mapping(members), Hop::Key(key)) => {
            lemma_key_index_by_keys(members, members.update(i, (members[i].0, by)), key, 0);
        },
        _ => {},
    }
}

/// After a sequence was emptied, its path leads to an empty sequence; a path
/// that failed fails as before.
pub proof fn lemma_emptied_is_empty(node: Node, path: Seq<Hop>, hop: nat)
    ensures
        queue_len(emptied(node, path, hop), path, hop) == match queue_len(node, path, hop) {
            Ok(_) => Ok::<nat, (nat, Fault)>(0),
            Err(e) => Err(e),
        },
    decreases path.len() - hop,
{
    if hop < path.len() {
        match descend(node, path[hop as int]) {
            Ok(i) => {
                lemma_descend(node, path[hop as int]);
                lemma_emptied_is_empty(child(node, i), path, hop + 1);
                lemma_with_child(
                    node,
                    i,
                    emptied(child(node, i), path, hop + 1),
                    path[hop as int],
                );
            },
            Err(_) => {},
        }
    }
}

/// Emptying a second time changes nothing.
pub proof fn lemma_emptied_twice(node: Node, path: Seq<Hop>, hop: nat)
    ensures
        emptied(emptied(node, path, hop), path, hop) == emptied(node, path, hop),
    decreases path.len() - hop,
{
    if hop < path.len() {
        match descend(node, path[hop as int]) {
            Ok(i) => {
                let below = emptied(child(node, i), path, hop + 1);
                lemma_descend(node, path[hop as int]);
                lemma_emptied_twice(child(node, i), path, hop + 1);
                lemma_with_child(node, i, below, path[hop as int]);
                match node {
                    Node::Mapping(members) => {
                        let once = members.update(i, (members[i].0, below));
                        assert(once.update(i, (once[i].0, below)) =~= once);
                    },
                    Node::Sequence(items) => {
                        assert(items.update(i, below).update(i, below) =~= items.update(i, below));
                    },
                    _ => {},
                }
            },
            Err(_) => {},
        }
    }
}

/// Emptying the sequence at the end of one path leaves what lies at the end
/// of another as it was, if the two paths part at their last step, each with
/// a key of its own.
pub proof fn lemma_sibling_untouched(node: Node, path: Seq<Hop>, other: Seq<Hop>, hop: nat)
    requires
        path.len() == other.len(),
        hop < path.len(),
        forall|i: int| hop <= i < path.len() - 1 ==> path[i] == other[i],
        path.last() is Key,
        other.last() is Key,
        path.last() != other.last(),
    ensures
        queue_len(emptied(node, path, hop), other, hop) == queue_len(node, other, hop),
    decreases path.len() - hop,
{
    let step = path[hop as int];
    match descend(node, step) {
        Ok(i) => {
            let below = emptied(child(node, i), path, hop + 1);
            lemma_descend(node, step);
            lemma_descend(node, other[hop as int]);
            lemma_with_child(node, i, below, other[hop as int]);
            if hop < path.len() - 1 {
                lemma_sibling_untouched(child(node, i), path, other, hop + 1);
            }
        },
        Err(_) => {},
    }
}

/// Two paths that part at their last step, each with a key of its own, can
/// be emptied in either order.
pub proof fn lemma_siblings_commute(node: Node, path: Seq<Hop>, other: Seq<Hop>, hop: nat)
    requires
        path.len() == other.len(),
        hop < path.len(),
        forall|i: int| hop <= i < path.len() - 1 ==> path[i] == other[i],
        path.last() is Key,
        other.last() is Key,
        path.last() != other.last(),
    ensures
        emptied(emptied(node, path, hop), other, hop) == emptied(
            emptied(node, other, hop),
            path,
            hop,
        ),
    decreases path.len() - hop,
{
    let step = path[hop as int];
    let other_step = other[hop as int];
    lemma_descend(node, step);
    lemma_descend(node, other_step);
    match (descend(node, step), descend(node, other_step)) {
        (Ok(i), Ok(j)) => {
            let below = emptied(child(node, i), path, hop + 1);
            let other_below = emptied(child(node, j), other, hop + 1);
            lemma_with_child(node, i, below, other_step);
            lemma_with_child(node, j, other_below, step);
            if hop < path.len() - 1 {
                lemma_siblings_commute(child(node, i), path, other, hop + 1);
            }
            match node {
                Node::Mapping(members) => {
                    let one = members.update(i, (members[i].0, below));
                    let two = members.update(j, (members[j].0, other_below));
                    if i == j {
                        let both = emptied(below, other, hop + 1);
                        assert(one.update(i, (one[i].0, both)) =~= two.update(
                            i,
                            (two[i].0, both),
                        ));
                    } else {
                        assert(one.update(j, (one[j].0, other_below)) =~= two.update(
                            i,
                            (two[i].0, below),
                        ));
                    }
                },
                Node::Sequence(items) => {
                    let one = items.update(i, below);
                    let two = items.update(j, other_below);
                    if i == j {
                        let both = emptied(below, other, hop + 1);
                        assert(one.update(i, both) =~= two.update(i, both));
                    } else {
                        assert(one.update(j, other_below) =~= two.update(i, below));
                    }
                },
                _ => {},
            }
        },
        (Ok(i), Err(_)) => {
            lemma_with_child(node, i, emptied(child(node, i), path, hop + 1), other_step);
        },
        (Err(_), Ok(j)) => {
            lemma_with_child(node, j, emptied(child(node, j), other, hop + 1), step);
        },
        (Err(_), Err(_)) => {},
    }
}

/// The position of the first member of `members` whose key is `key`.
pub fn find_member(members: &Vec<(String, Json)>, key: &String) -> (r: Option<usize>)
    ensures
        match r {
            Some(i) => i < members.len() && key_index(members_view(*members), key@, 0) == Some(
                i as int,
            ),
            None => key_index(members_view(*members), key@, 0) is None,
        },
{
    broadcast use lemma_members_view;

    let mut i: usize = 0;
    while i < members.len()
        invariant
            i <= members.len(),
            key_index(members_view(*members), key@, 0) == key_index(
                members_view(*members),
                key@,
                i as int,
            ),
        decreases members.len() - i,
    {
        if members[i].0 == *key {
            return Some(i);
        }
        i += 1;
    }
    None
}

/// Takes one step from `node`: to the member with the step's key, or to the
/// item at the step's index.
pub fn step_into<'a>(node: &'a mut Json, step: &Step) -> (r: Result<&'a mut Json, Fault>)
    ensures
        match r {
            Ok(below) => {
                &&& descend(old(node)@, step@) is Ok
                &&& below@ == child(old(node)@, descend(old(node)@, step@)->Ok_0)
                &&& final(node)@ == with_child(
                    old(node)@,
                    descend(old(node)@, step@)->Ok_0,
                    final(below)@,
                )
            },
            Err(fault) => descend(old(node)@, step@) == Err::<int, Fault>(fault) && final(node)@
                == old(node)@,
        },
{
    broadcast use {lemma_members_view, lemma_items_view};

    match step {
        Step::Key(key) => match node {
            Json::Object(members) => match find_member(members, key) {
                Some(i) => {
                    proof {
                        let before = *members;
                        assert forall|after: Vec<(String, Json)>|
                            after@ == before@.update(
                                i as int,
                                (before[i as int].0, after[i as int].1),
                            ) implies #[trigger] Json::Object(after)@ == with_child(
                            Json::Object(before)@,
                            i as int,
                            after[i as int].1@,
                        ) by {
                            assert(members_view(after) =~= members_view(before).update(
                                i as int,
                                (before[i as int].0@, after[i as int].1@),
                            ));
                        }
                    }
                    Ok(&mut members[i].1)
                },
                None => Err(Fault::MissingKey),
            },
            _ => Err(Fault::WrongKind),
        },
        Step::Index(i) => match node {
            Json::Array(items) => if *i < items.len() {
                proof {
                    let before = *items;
                    assert forall|after: Vec<Json>|
                        after@ == before@.update(
                            *i as int,
                            after[*i as int],
                        ) implies #[trigger] Json::Array(after)@ == with_child(
                        Json::Array(before)@,
                        *i as int,
                        after[*i as int]@,
                    ) by {
                        assert(items_view(after) =~= items_view(before).update(
                            *i as int,
                            after[*i as int]@,
                        ));
                    }
                }
                Ok(&mut items[*i])
            } else {
                Err(Fault::MissingIndex)
            },
            _ => Err(Fault::WrongKind),
        },
    }
}

/// Empties `node` if it is a sequence, and returns how many items it held.
pub fn clear_array(node: &mut Json) -> (r: Result<usize, Fault>)
    ensures
        match r {
            Ok(n) => old(node)@ is Sequence && old(node)@->Sequence_0.len() == n && final(node)@
                == Node::Sequence(Seq::empty()),
            Err(fault) => !(old(node)@ is Sequence) && fault == Fault::WrongKind && final(node)@
                == old(node)@,
        },
{
    broadcast use lemma_items_view;

    match node {
        Json::Array(items) => {
            let n: usize = items.len();
            items.clear();
            assert(items_view(*items) =~= Seq::empty());
            Ok(n)
        },
        _ => Err(Fault::WrongKind),
    }
}

/// Empties the sequence at the end of `path`, walked from its step `hop` on,
/// and returns how many items it held. Where the path does not lead to a
/// sequence, `node` stays as it is, and the number of the failing step is
/// returned with its fault.
pub fn clear_at(node: &mut Json, path: &Vec<Step>, hop: usize) -> (r: Result<
    usize,
    (usize, Fault),
>)
    ensures
        match r {
            Ok(n) => queue_len(old(node)@, hops(path@), hop as nat) == Ok::<nat, (nat, Fault)>(
                n as nat,
            ),
            Err((at, fault)) => queue_len(old(node)@, hops(path@), hop as nat) == Err::<
                nat,
                (nat, Fault),
            >((at as nat, fault)),
        },
        final(node)@ == emptied(old(node)@, hops(path@), hop as nat),
    decreases path.len() - hop,
{
    if hop >= path.len() {
        match clear_array(node) {
            Ok(n) => Ok(n),
            Err(fault) => Err((hop, fault)),
        }
    } else {
        match step_into(node, &path[hop]) {
            Ok(below) => clear_at(below, path, hop + 1),
            Err(fault) => Err((hop, fault)),
        }
    }
}

} // verus!
