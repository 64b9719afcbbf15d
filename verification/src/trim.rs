//! The two notification queues of a save document, and the trim that
//! empties them.

use vstd::prelude::*;
use vstd::string::StringExecFns;
use crate::json::Json;
use crate::json::Node;
use crate::error::Failure;
use crate::error::TrimError;
use crate::path::clear_at;
use crate::path::lemma_emptied_is_empty;
use crate::path::lemma_emptied_twice;
use crate::path::lemma_sibling_untouched;
use crate::path::lemma_siblings_commute;
use crate::path::emptied;
use crate::path::hops;
use crate::path::queue_len;
use crate::path::Fault;
use crate::path::Hop;
use crate::path::Step;

verus! {

/// One of the two queues that a trim empties.
#[derive(Debug, Clone, Copy, PartialEq, Eq, Structural)]
pub enum Queue {
    /// `notificationSummaryQueue`
    Summary,
    /// `timerNotificationQueue`
    Timer,
}

/// A path that does not lead to its queue: which queue, how many steps were
/// taken before the one that failed, and why that one failed. A `hop` equal
/// to the length of the path means that the path was walked to its end and
/// what lies there is not a sequence.
#[derive(Debug, Clone, Copy, PartialEq, Eq, Structural)]
pub struct StructuralError {
    pub queue: Queue,
    pub hop: usize,
    pub fault: Fault,
}

impl Queue {
    /// The key under which the queue lies.
    pub open spec fn key(self) -> Seq<char> {
        match self {
            Queue::Summary => "notificationSummaryQueue"@,
            Queue::Timer => "timerNotificationQueue"@,
        }
    }

    /// The path from the root of a save document to the queue.
    pub open spec fn path(self) -> Seq<Hop> {
        seq![
            Hop::Key("gamestates"@),
            Hop::Key("PavonisInteractive.TerraInvicta.TINotificationQueueState"@),
            Hop::Index(0),
            Hop::Key("Value"@),
            Hop::Key(self.key()),
        ]
    }

    /// The key under which the queue lies.
    pub fn name(self) -> (name: &'static str)
        ensures
            name@ == self.key(),
    {
        match self {
            Queue::Summary => "notificationSummaryQueue",
            Queue::Timer => "timerNotificationQueue",
        }
    }

    /// The path from the root of a save document to the queue.
    pub fn steps(self) -> (path: Vec<Step>)
        ensures
            hops(path@) == self.path(),
    {
        let mut path: Vec<Step> = Vec::new();
        path.push(Step::Key(String::from_str("gamestates")));
        path.push(
            Step::Key(
                String::from_str("PavonisInteractive.TerraInvicta.TINotificationQueueState"),
            ),
        );
        path.push(Step::Index(0));
        path.push(Step::Key(String::from_str("Value")));
        path.push(Step::Key(String::from_str(self.name())));
        assert(hops(path@) =~= self.path());
        path
    }
}

/// What a trim finds at the end of the path to `queue`: the number of
/// entries in the queue, or the step at which the path fails.
pub open spec fn queue_outcome(doc: Node, queue: Queue) -> Result<nat, StructuralError> {
    match queue_len(doc, queue.path(), 0) {
        Ok(n) => Ok(n),
        Err((hop, fault)) => Err(StructuralError { queue, hop: hop as usize, fault }),
    }
}

/// A count as a mathematical number.
pub open spec fn counted(r: Result<usize, StructuralError>) -> Result<nat, StructuralError> {
    match r {
        Ok(n) => Ok(n as nat),
        Err(e) => Err(e),
    }
}

/// `doc` with `queue` emptied, or `doc` itself where the path to the queue
/// fails.
pub open spec fn without(doc: Node, queue: Queue) -> Node {
    emptied(doc, queue.path(), 0)
}

/// Empties `queue` and returns how many entries it held. Where the path to
/// the queue fails, the document stays as it is.
pub fn clear_queue(doc: &mut Json, queue: Queue) -> (r: Result<usize, StructuralError>)
    ensures
        counted(r) == queue_outcome(old(doc)@, queue),
        final(doc)@ == without(old(doc)@, queue),
{
    let path = queue.steps();
    match clear_at(doc, &path, 0) {
        Ok(n) => Ok(n),
        Err((hop, fault)) => Err(StructuralError { queue, hop, fault }),
    }
}

/// The two queues have keys of their own.
pub proof fn lemma_keys_differ()
    ensures
        Queue::Summary.key() != Queue::Timer.key(),
{
    reveal_strlit("notificationSummaryQueue");
    reveal_strlit("timerNotificationQueue");
    assert(Queue::Summary.key().len() != Queue::Timer.key().len());
}

/// Emptying one queue changes nothing in what a trim finds of the other.
pub proof fn lemma_queues_independent(doc: Node, gone: Queue, other: Queue)
    requires
        gone != other,
    ensures
        queue_outcome(without(doc, gone), other) == queue_outcome(doc, other),
{
    lemma_keys_differ();
    lemma_sibling_untouched(doc, gone.path(), other.path(), 0);
}

/// A queue that was emptied is found empty; a path that failed fails as
/// before.
pub proof fn lemma_emptied_queue(doc: Node, queue: Queue)
    ensures
        queue_outcome(without(doc, queue), queue) == match queue_outcome(doc, queue) {
            Ok(_) => Ok::<nat, StructuralError>(0),
            Err(e) => Err(e),
        },
{
    lemma_emptied_is_empty(doc, queue.path(), 0);
}

/// `doc` with both queues emptied, as far as their paths lead to them.
pub open spec fn trimmed(doc: Node) -> Node {
    without(without(doc, Queue::Summary), Queue::Timer)
}

/// The two queues can be emptied in either order.
pub proof fn lemma_emptying_commutes(doc: Node, a: Queue, b: Queue)
    ensures
        without(without(doc, a), b) == without(without(doc, b), a),
{
    if a != b {
        lemma_keys_differ();
        lemma_siblings_commute(doc, a.path(), b.path(), 0);
    }
}

/// Trimming a trimmed document changes nothing.
pub proof fn lemma_trimmed_twice(doc: Node)
    ensures
        trimmed(trimmed(doc)) == trimmed(doc),
{
    let first = without(doc, Queue::Summary);
    lemma_emptied_twice(first, Queue::Timer.path(), 0);
    lemma_emptied_twice(doc, Queue::Summary.path(), 0);
    lemma_emptying_commutes(first, Queue::Timer, Queue::Summary);
}

/// What a trim found of each queue.
#[derive(Debug, Clone, Copy, PartialEq, Eq)]
pub struct TrimReport {
    pub summary: Result<usize, StructuralError>,
    pub timer: Result<usize, StructuralError>,
}

/// Empties both queues, each on its own: a path that fails leaves the other
/// queue's trim as it is. The report says of each queue how many entries it
/// held in the document as it came in, or where its path fails.
pub fn trim_notifications(doc: &mut Json) -> (report: TrimReport)
    ensures
        counted(report.summary) == queue_outcome(old(doc)@, Queue::Summary),
        counted(report.timer) == queue_outcome(old(doc)@, Queue::Timer),
        final(doc)@ == trimmed(old(doc)@),
{
    let summary = clear_queue(doc, Queue::Summary);
    let timer = clear_queue(doc, Queue::Timer);
    proof {
        lemma_queues_independent(old(doc)@, Queue::Summary, Queue::Timer);
    }
    TrimReport { summary, timer }
}

/// When a trim counts as done.
#[derive(Debug, Clone, Copy, PartialEq, Eq, Structural)]
pub enum Policy {
    /// One queue is enough: a queue whose path fails counts as empty.
    RequireAny,
    /// Both paths must lead to their queues.
    RequireBoth,
}

/// The entries that a queue adds to the total: none where its path fails.
pub open spec fn contribution(outcome: Result<nat, StructuralError>) -> nat {
    match outcome {
        Ok(n) => n,
        Err(_) => 0,
    }
}

/// The verdict on what a trim found of the two queues: the number of
/// entries removed, or why the trim does not count. Under `RequireBoth` a
/// path that fails is an error, that of the summary queue first. Under either
/// policy a total of zero is an error of its own.
pub open spec fn tallied(
    summary: Result<nat, StructuralError>,
    timer: Result<nat, StructuralError>,
    policy: Policy,
) -> Result<nat, Failure> {
    if policy == Policy::RequireBoth && summary is Err {
        Err(Failure::Structure(summary->Err_0))
    } else if policy == Policy::RequireBoth && timer is Err {
        Err(Failure::Structure(timer->Err_0))
    } else if contribution(summary) + contribution(timer) == 0 {
        Err(Failure::NothingTrimmed)
    } else {
        Ok(contribution(summary) + contribution(timer))
    }
}

/// The verdict on a trim of `doc`.
pub open spec fn trim_outcome(doc: Node, policy: Policy) -> Result<nat, Failure> {
    tallied(queue_outcome(doc, Queue::Summary), queue_outcome(doc, Queue::Timer), policy)
}

/// A number as far as `usize` holds it.
pub open spec fn clipped(n: nat) -> usize {
    if n > usize::MAX {
        usize::MAX
    } else {
        n as usize
    }
}

/// An executable verdict says what `outcome` says: the same error, or the
/// same count as far as `usize` holds it.
pub open spec fn agrees(r: Result<usize, TrimError>, outcome: Result<nat, Failure>) -> bool {
    match r {
        Ok(n) => outcome is Ok && n == clipped(outcome->Ok_0),
        Err(e) => outcome == Err::<nat, Failure>(e@),
    }
}

impl TrimReport {
    /// The verdict on the report under `policy`.
    pub fn tally(&self, policy: Policy) -> (r: Result<usize, TrimError>)
        ensures
            agrees(r, tallied(counted(self.summary), counted(self.timer), policy)),
    {
        let summary: usize = match self.summary {
            Ok(n) => n,
            Err(e) => {
                if policy == Policy::RequireBoth {
                    return Err(TrimError::Structure(e));
                }
                0
            },
        };
        let timer: usize = match self.timer {
            Ok(n) => n,
            Err(e) => {
                if policy == Policy::RequireBoth {
                    return Err(TrimError::Structure(e));
                }
                0
            },
        };
        let total: usize = summary.saturating_add(timer);
        if total == 0 {
            Err(TrimError::NothingTrimmed)
        } else {
            Ok(total)
        }
    }
}

/// Empties both queues and gives the verdict under `policy`. The document is
/// trimmed whatever the verdict.
pub fn trim(doc: &mut Json, policy: Policy) -> (r: Result<usize, TrimError>)
    ensures
        agrees(r, trim_outcome(old(doc)@, policy)),
        final(doc)@ == trimmed(old(doc)@),
{
    let report = trim_notifications(doc);
    report.tally(policy)
}

/// A document whose queues are both empty has nothing to trim, under either
/// policy.
pub proof fn lemma_empty_queues_nothing_to_trim(doc: Node, policy: Policy)
    requires
        queue_outcome(doc, Queue::Summary) == Ok::<nat, StructuralError>(0),
        queue_outcome(doc, Queue::Timer) == Ok::<nat, StructuralError>(0),
    ensures
        trim_outcome(doc, policy) == Err::<nat, Failure>(Failure::NothingTrimmed),
{
}

/// A trim of a trimmed document never counts: under `RequireAny` there is
/// nothing to trim; under `RequireBoth` a path that failed fails again, and
/// where both led to their queues there is nothing to trim.
pub proof fn lemma_second_trim_fails(doc: Node, policy: Policy)
    ensures
        trim_outcome(trimmed(doc), policy) is Err,
        policy == Policy::RequireAny || trim_outcome(doc, policy) is Ok ==> trim_outcome(
            trimmed(doc),
            policy,
        ) == Err::<nat, Failure>(Failure::NothingTrimmed),
        trim_outcome(doc, policy) is Err && trim_outcome(doc, policy) != Err::<nat, Failure>(
            Failure::NothingTrimmed,
        ) ==> trim_outcome(trimmed(doc), policy) == trim_outcome(doc, policy),
{
    let first = without(doc, Queue::Summary);
    lemma_emptied_queue(doc, Queue::Summary);
    lemma_queues_independent(first, Queue::Timer, Queue::Summary);
    lemma_queues_independent(doc, Queue::Summary, Queue::Timer);
    lemma_emptied_queue(first, Queue::Timer);
}

/// A document that lacks the timer queue beside a summary queue of `n`
/// entries, `n` not zero: under `RequireAny` the trim counts `n`; under
/// `RequireBoth` it fails on the missing key.
pub proof fn lemma_lone_summary_queue(doc: Node, n: nat, missing: StructuralError)
    requires
        n > 0,
        queue_outcome(doc, Queue::Summary) == Ok::<nat, StructuralError>(n),
        queue_outcome(doc, Queue::Timer) == Err::<nat, StructuralError>(missing),
    ensures
        trim_outcome(doc, Policy::RequireAny) == Ok::<nat, Failure>(n),
        trim_outcome(doc, Policy::RequireBoth) == Err::<nat, Failure>(
            Failure::Structure(missing),
        ),
{
}

} // verus!
