//! Trying one thing after another until one succeeds.

use vstd::prelude::*;

verus! {

/// What to do next.
#[derive(Debug, Clone, Copy, PartialEq, Eq, Structural)]
pub enum Attempt {
    /// Try the candidate of this index.
    Try(usize),
    /// Nothing: a candidate succeeded.
    Succeeded,
    /// Nothing: every candidate failed.
    Failed,
}

/// What to do first, with the given number of candidates.
pub open spec fn first_attempt(count: usize) -> Attempt {
    if count > 0 {
        Attempt::Try(0)
    } else {
        Attempt::Failed
    }
}

/// What to do after an attempt that succeeded or failed.
pub open spec fn after_attempt(attempt: Attempt, succeeded: bool, count: usize) -> Attempt {
    match attempt {
        Attempt::Try(i) => if succeeded {
            Attempt::Succeeded
        } else if i + 1 < count {
            Attempt::Try((i + 1) as usize)
        } else {
            Attempt::Failed
        },
        other => other,
    }
}

/// What to do first, with `count` candidates.
pub fn begin_attempts(count: usize) -> (r: Attempt)
    ensures
        r == first_attempt(count),
{
    if count > 0 {
        Attempt::Try(0)
    } else {
        Attempt::Failed
    }
}

/// What to do after `attempt`, which succeeded or failed, of `count`
/// candidates.
pub fn continue_attempts(attempt: Attempt, succeeded: bool, count: usize) -> (r: Attempt)
    ensures
        r == after_attempt(attempt, succeeded, count),
{
    match attempt {
        Attempt::Try(i) => if succeeded {
            Attempt::Succeeded
        } else if i < count && i + 1 < count {
            Attempt::Try(i + 1)
        } else {
            Attempt::Failed
        },
        Attempt::Succeeded => Attempt::Succeeded,
        Attempt::Failed => Attempt::Failed,
    }
}

/// What to do after the given outcomes, from the given attempt on.
pub open spec fn run_from(attempt: Attempt, outcomes: Seq<bool>, count: usize) -> Attempt
    decreases outcomes.len(),
{
    if outcomes.len() == 0 {
        attempt
    } else {
        run_from(after_attempt(attempt, outcomes[0], count), outcomes.drop_first(), count)
    }
}

/// The candidates are tried in their order, each once at most: after as many
/// failures as there were attempts, the next one is tried.
pub proof fn law_candidates_are_tried_in_order(outcomes: Seq<bool>, count: usize)
    requires
        outcomes.len() < count,
        forall|i: int| 0 <= i < outcomes.len() ==> !outcomes[i],
    ensures
        run_from(first_attempt(count), outcomes, count) == Attempt::Try(outcomes.len() as usize),
{
    lemma_failures(0, outcomes, count);
}

/// Failures lead to the next candidate.
proof fn lemma_failures(from: usize, outcomes: Seq<bool>, count: usize)
    requires
        from + outcomes.len() < count,
        forall|i: int| 0 <= i < outcomes.len() ==> !outcomes[i],
    ensures
        run_from(Attempt::Try(from), outcomes, count) == Attempt::Try(
            (from + outcomes.len()) as usize,
        ),
    decreases outcomes.len(),
{
    if outcomes.len() > 0 {
        let rest = outcomes.drop_first();
        assert forall|i: int| 0 <= i < rest.len() implies !rest[i] by {
            assert(!outcomes[i + 1]);
        }
        lemma_failures((from + 1) as usize, rest, count);
    }
}

/// What has ended stays as it is: nothing more is tried after a success, nor
/// after every candidate failed.
pub proof fn law_nothing_is_tried_afterwards(attempt: Attempt, outcomes: Seq<bool>, count: usize)
    requires
        !(attempt is Try),
    ensures
        run_from(attempt, outcomes, count) == attempt,
    decreases outcomes.len(),
{
    if outcomes.len() > 0 {
        law_nothing_is_tried_afterwards(attempt, outcomes.drop_first(), count);
    }
}

/// It is given up only once every candidate has failed, and it succeeds as
/// soon as one does.
pub proof fn law_first_success_counts(outcomes: Seq<bool>, count: usize)
    requires
        outcomes.len() == count,
    ensures
        run_from(first_attempt(count), outcomes, count) is Succeeded <==> outcomes.contains(true),
        run_from(first_attempt(count), outcomes, count) is Failed <==> !outcomes.contains(true),
{
    if count > 0 {
        lemma_success(0, outcomes, count);
    }
}

/// From a candidate on, with an outcome for each that is left.
proof fn lemma_success(from: usize, outcomes: Seq<bool>, count: usize)
    requires
        from < count,
        from + outcomes.len() == count,
    ensures
        run_from(Attempt::Try(from), outcomes, count) is Succeeded <==> outcomes.contains(true),
        run_from(Attempt::Try(from), outcomes, count) is Failed <==> !outcomes.contains(true),
    decreases outcomes.len(),
{
    let rest = outcomes.drop_first();
    let next = after_attempt(Attempt::Try(from), outcomes[0], count);
    assert(outcomes.contains(true) <==> outcomes[0] || rest.contains(true)) by {
        if outcomes.contains(true) {
            let i = choose|i: int| 0 <= i < outcomes.len() && outcomes[i] == true;
            if i > 0 {
                assert(rest[i - 1] == true);
            }
        }
        if rest.contains(true) {
            let i = choose|i: int| 0 <= i < rest.len() && rest[i] == true;
            assert(outcomes[i + 1] == true);
        }
    }
    if next is Try {
        lemma_success((from + 1) as usize, rest, count);
    } else {
        law_nothing_is_tried_afterwards(next, rest, count);
    }
}

} // verus!
