use keygrip::error::Error;
use keygrip::occ::{start, Attempt, Next};

/// Drives a retry loop, performing each attempt with `attempt` and counting
/// the attempts made.
fn drive<T>(
    attempts: usize,
    conflict: Error,
    mut attempt: impl FnMut(usize) -> Result<Attempt<T>, Error>,
) -> (Result<T, Error>, usize) {
    let mut made = 0;
    let mut next = start(attempts, conflict);
    loop {
        match next {
            Next::Finish(result) => return (result, made),
            Next::Run(state) => {
                made += 1;
                next = state.step(attempt(made));
            },
        }
    }
}

#[test]
fn retries_only_conflicted_attempts() {
    let (result, attempts) = drive(3, Error::Conflict("conflict"), |made| {
        if made < 3 {
            Ok(Attempt::Retry)
        } else {
            Ok(Attempt::Done("done"))
        }
    });

    assert_eq!(result.ok().unwrap(), "done");
    assert_eq!(attempts, 3);
}

#[test]
fn returns_conflict_after_the_attempt_limit() {
    let (result, _) = drive::<()>(2, Error::Conflict("conflict"), |_| Ok(Attempt::Retry));

    assert!(matches!(result, Err(Error::Conflict("conflict"))));
}

#[test]
fn errors_stop_the_loop_at_once() {
    let (result, attempts) = drive::<()>(5, Error::Conflict("conflict"), |made| {
        if made < 2 {
            Ok(Attempt::Retry)
        } else {
            Err(Error::Unavailable("down".to_string()))
        }
    });

    assert!(matches!(result, Err(Error::Unavailable(text)) if text == "down"));
    assert_eq!(attempts, 2);
}

#[test]
fn zero_attempts_fail_without_trying() {
    let (result, attempts) = drive::<()>(0, Error::Conflict("conflict"), |_| Ok(Attempt::Done(())));

    assert!(matches!(result, Err(Error::Conflict("conflict"))));
    assert_eq!(attempts, 0);
}

#[test]
fn exhausting_attempts_makes_exactly_that_many() {
    let (result, attempts) = drive::<()>(4, Error::Conflict("busy"), |_| Ok(Attempt::Retry));

    assert!(matches!(result, Err(Error::Conflict("busy"))));
    assert_eq!(attempts, 4);
}
