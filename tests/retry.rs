use novel_reader::error::AppError;
use novel_reader::retry::{into_upstream, Retry, RetryStep, BACKOFF_STEP_MS, MAX_ATTEMPTS};

/// Drives the policy against a fetch whose successive calls return `outcomes`;
/// gives the calls made, the pauses taken, and the final result.
fn drive(outcomes: Vec<Result<u32, AppError>>) -> (usize, Vec<u64>, Result<u32, AppError>) {
    let mut retry = Retry::new();
    let mut calls = 0usize;
    let mut delays = Vec::new();
    let mut outcomes = outcomes.into_iter();
    loop {
        let outcome = outcomes.next().expect("the fetch was called too often");
        calls += 1;
        match retry.record(outcome) {
            RetryStep::Return(v) => return (calls, delays, Ok(v)),
            RetryStep::Backoff { delay_ms } => delays.push(delay_ms),
            RetryStep::GiveUp(e) => return (calls, delays, Err(e)),
        }
    }
}

fn upstream(m: &str) -> AppError {
    AppError::Upstream(m.to_string())
}

#[test]
fn two_failures_then_success_returns_value() {
    let (calls, delays, result) =
        drive(vec![Err(upstream("a")), Err(upstream("b")), Ok(7), Ok(8)]);
    assert_eq!(calls, 3);
    assert_eq!(delays, vec![500, 1000]);
    assert_eq!(result, Ok(7));
}

#[test]
fn three_failures_give_up_without_fourth_call() {
    let (calls, delays, result) = drive(vec![
        Err(upstream("a")),
        Err(AppError::BadRequest("b".to_string())),
        Err(AppError::Internal("last".to_string())),
        Ok(1),
    ]);
    assert_eq!(calls, 3);
    assert_eq!(delays, vec![500, 1000]);
    assert_eq!(result, Err(upstream("last")));
}

#[test]
fn first_success_returns_at_once() {
    let (calls, delays, result) = drive(vec![Ok(3)]);
    assert_eq!(calls, 1);
    assert!(delays.is_empty());
    assert_eq!(result, Ok(3));
}

#[test]
fn retry_counts_attempts() {
    let mut r = Retry::new();
    assert_eq!(r.attempts(), 0);
    let _ = r.record::<u8>(Err(upstream("x")));
    assert_eq!(r.attempts(), 1);
    assert_eq!(MAX_ATTEMPTS, 3);
    assert_eq!(BACKOFF_STEP_MS, 500);
}

#[test]
fn into_upstream_keeps_message() {
    assert_eq!(into_upstream(AppError::NotFound("gone".to_string())), upstream("gone"));
    assert_eq!(into_upstream(AppError::BadRequest("bad".to_string())).message(), "bad");
}
