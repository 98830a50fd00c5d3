//! Optimistic-concurrency retries: the decisions of a read-modify-write loop
//! whose attempts are version-conditioned writes. The caller performs each
//! attempt and hands its outcome back.

use vstd::prelude::*;

verus! {

/// Outcome of one optimistic attempt.
#[derive(Debug)]
pub enum Attempt<T> {
    /// The conditional write went through; stop with this value.
    Done(T),
    /// The version condition was rejected; re-read and try again.
    Retry,
}

/// What a retry loop does next.
pub enum Next<T, E> {
    /// Perform another attempt and hand its outcome to the state.
    Run(Retrying<E>),
    /// Stop with this result.
    Finish(Result<T, E>),
}

/// A retry loop with attempts left.
pub struct Retrying<E> {
    remaining: usize,
    conflict: E,
}

impl<E> Retrying<E> {
    /// The attempts left, this one included.
    pub closed spec fn left(self) -> nat {
        self.remaining as nat
    }

    /// The error returned once the attempts are used up.
    pub closed spec fn conflict_error(self) -> E {
        self.conflict
    }

    /// A running loop always has an attempt left.
    pub closed spec fn well_formed(self) -> bool {
        self.remaining > 0
    }
}

/// How a loop with `remaining` attempts settles on `outcomes`: `None` when
/// it needs more outcomes than given. Errors stop it at once, a completed
/// attempt stops it with its value, and only a rejected attempt uses one up.
pub open spec fn settle<T, E>(
    remaining: nat,
    conflict: E,
    outcomes: Seq<Result<Attempt<T>, E>>,
) -> Option<Result<T, E>>
    decreases outcomes.len(),
{
    if remaining == 0 {
        Some(Err(conflict))
    } else if outcomes.len() == 0 {
        None
    } else {
        match outcomes[0] {
            Err(e) => Some(Err(e)),
            Ok(Attempt::Done(v)) => Some(Ok(v)),
            Ok(Attempt::Retry) => settle((remaining - 1) as nat, conflict, outcomes.drop_first()),
        }
    }
}

/// Starts a loop that retries rejected attempts at most `attempts` times
/// before failing with `conflict`.
pub fn start<T, E>(attempts: usize, conflict: E) -> (n: Next<T, E>)
    ensures
        attempts == 0 ==> n == Next::<T, E>::Finish(Err(conflict)),
        attempts > 0 ==> (n matches Next::Run(r) && r.well_formed() && r.left() == attempts
            && r.conflict_error() == conflict),
{
    if attempts == 0 {
        Next::Finish(Err(conflict))
    } else {
        Next::Run(Retrying { remaining: attempts, conflict })
    }
}

impl<E> Retrying<E> {
    /// Takes the outcome of one attempt: an error or a completed attempt
    /// stops the loop; a rejected attempt uses one up, and the last one
    /// stops it with the conflict error.
    pub fn step<T>(self, outcome: Result<Attempt<T>, E>) -> (n: Next<T, E>)
        requires
            self.well_formed(),
        ensures
            match outcome {
                Err(e) => n == Next::<T, E>::Finish(Err(e)),
                Ok(Attempt::Done(v)) => n == Next::<T, E>::Finish(Ok(v)),
                Ok(Attempt::Retry) => if self.left() == 1 {
                    n == Next::<T, E>::Finish(Err(self.conflict_error()))
                } else {
                    n matches Next::Run(r) && r.well_formed() && r.left() == self.left() - 1
                        && r.conflict_error() == self.conflict_error()
                },
            },
    {
        match outcome {
            Err(e) => Next::Finish(Err(e)),
            Ok(Attempt::Done(v)) => Next::Finish(Ok(v)),
            Ok(Attempt::Retry) => {
                if self.remaining == 1 {
                    Next::Finish(Err(self.conflict))
                } else {
                    Next::Run(Retrying { remaining: self.remaining - 1, conflict: self.conflict })
                }
            },
        }
    }
}

/// One step of the loop moves along `settle`: the loop's eventual result
/// after an outcome is what `settle` gives for the outcomes from there on.
pub proof fn law_step_follows_settle<T, E>(
    r: Retrying<E>,
    outcome: Result<Attempt<T>, E>,
    rest: Seq<Result<Attempt<T>, E>>,
    next: Next<T, E>,
)
    requires
        r.well_formed(),
        match outcome {
            Err(e) => next == Next::<T, E>::Finish(Err(e)),
            Ok(Attempt::Done(v)) => next == Next::<T, E>::Finish(Ok(v)),
            Ok(Attempt::Retry) => if r.left() == 1 {
                next == Next::<T, E>::Finish(Err(r.conflict_error()))
            } else {
                next matches Next::Run(s) && s.well_formed() && s.left() == r.left() - 1
                    && s.conflict_error() == r.conflict_error()
            },
        },
    ensures
        settle(r.left(), r.conflict_error(), seq![outcome] + rest) == match next {
            Next::Finish(x) => Some(x),
            Next::Run(s) => settle(s.left(), s.conflict_error(), rest),
        },
{
    let all = seq![outcome] + rest;
    assert(all[0] == outcome);
    assert(all.drop_first() =~= rest);
    if outcome matches Ok(Attempt::Retry) && r.left() == 1 {
        assert(settle((r.left() - 1) as nat, r.conflict_error(), rest) == Some(
            Err::<T, E>(r.conflict_error()),
        ));
    }
}

/// Only rejected attempts use attempts up: after `attempts` rejections in a
/// row the loop fails with the conflict error, and otherwise it ends with
/// the first error or completed value among its first `attempts` outcomes.
pub proof fn law_only_retries_consume_attempts<T, E>(
    attempts: nat,
    conflict: E,
    outcomes: Seq<Result<Attempt<T>, E>>,
)
    requires
        outcomes.len() >= attempts,
    ensures
        (forall|i: int| 0 <= i < attempts ==> #[trigger] outcomes[i] == Ok::<Attempt<T>, E>(Attempt::Retry))
            ==> settle(attempts, conflict, outcomes) == Some(Err::<T, E>(conflict)),
        forall|i: int|
            0 <= i < attempts && !(outcomes[i] == Ok::<Attempt<T>, E>(Attempt::Retry)) && (forall|
                k: int,
            |
                0 <= k < i ==> #[trigger] outcomes[k] == Ok::<Attempt<T>, E>(Attempt::Retry))
                ==> settle(attempts, conflict, outcomes) == Some(
                match #[trigger] outcomes[i] {
                    Ok(Attempt::Done(v)) => Ok::<T, E>(v),
                    Ok(Attempt::Retry) => Err::<T, E>(conflict),
                    Err(e) => Err::<T, E>(e),
                },
            ),
    decreases attempts,
{
    if attempts > 0 {
        let rest = outcomes.drop_first();
        law_only_retries_consume_attempts((attempts - 1) as nat, conflict, rest);
        assert forall|i: int|
            0 <= i < attempts && !(outcomes[i] == Ok::<Attempt<T>, E>(Attempt::Retry)) && (forall|
                k: int,
            |
                0 <= k < i ==> #[trigger] outcomes[k] == Ok::<Attempt<T>, E>(Attempt::Retry))
                implies settle(attempts, conflict, outcomes) == Some(
            match #[trigger] outcomes[i] {
                Ok(Attempt::Done(v)) => Ok::<T, E>(v),
                Ok(Attempt::Retry) => Err::<T, E>(conflict),
                Err(e) => Err::<T, E>(e),
            },
        ) by {
            if i > 0 {
                assert(outcomes[0] == Ok::<Attempt<T>, E>(Attempt::Retry));
                assert(rest[i - 1] == outcomes[i]);
                assert forall|k: int| 0 <= k < i - 1 implies #[trigger] rest[k] == Ok::<
                    Attempt<T>,
                    E,
                >(Attempt::Retry) by {
                    assert(rest[k] == outcomes[k + 1]);
                }
            }
        }
        if forall|i: int| 0 <= i < attempts ==> #[trigger] outcomes[i] == Ok::<Attempt<T>, E>(Attempt::Retry) {
            assert(outcomes[0] == Ok::<Attempt<T>, E>(Attempt::Retry));
            assert forall|i: int| 0 <= i < attempts - 1 implies #[trigger] rest[i] == Ok::<
                Attempt<T>,
                E,
            >(Attempt::Retry) by {
                assert(rest[i] == outcomes[i + 1]);
            }
        }
    }
}

} // verus!
