use vstd::prelude::*;

use crate::error::AppError;

verus! {

/// How many times a fetch is attempted in all.
pub const MAX_ATTEMPTS: u32 = 3;

/// The pause after the `i`-th failed attempt is `i` times this, in milliseconds.
pub const BACKOFF_STEP_MS: u64 = 500;

/// What to do after an attempt.
#[derive(Debug)]
pub enum RetryStep<T> {
    /// The attempt succeeded: hand this value on.
    Return(T),
    /// The attempt failed: wait this long, then attempt again.
    Backoff { delay_ms: u64 },
    /// The last attempt failed: report this upstream failure.
    GiveUp(AppError),
}

/// The upstream failure reported after the last attempt, carrying the message
/// of the last error.
pub open spec fn upstream_of(e: AppError) -> AppError {
    match e {
        AppError::BadRequest(m) => AppError::Upstream(m),
        AppError::Upstream(m) => AppError::Upstream(m),
        AppError::NotFound(m) => AppError::Upstream(m),
        AppError::Internal(m) => AppError::Upstream(m),
    }
}

/// The step after an attempt with `outcome`, when `attempts` attempts came
/// before it: any error is retried, after `500 ms` times the number of
/// attempts made, until [`MAX_ATTEMPTS`] have been made.
pub open spec fn retry_step<T>(attempts: nat, outcome: Result<T, AppError>) -> RetryStep<T> {
    match outcome {
        Ok(v) => RetryStep::Return(v),
        Err(e) => if attempts + 1 < MAX_ATTEMPTS {
            RetryStep::Backoff { delay_ms: (BACKOFF_STEP_MS * (attempts + 1)) as u64 }
        } else {
            RetryStep::GiveUp(upstream_of(e))
        },
    }
}

/// A run of the policy against a fetch whose successive calls return
/// `outcomes`: the number of calls made, the pauses between them, and the
/// final step (`None` if the outcomes ran out first).
pub open spec fn retry_run<T>(attempts: nat, outcomes: Seq<Result<T, AppError>>) -> (
    nat,
    Seq<u64>,
    Option<RetryStep<T>>,
)
    decreases outcomes.len(),
{
    if outcomes.len() == 0 {
        (0, Seq::empty(), None)
    } else {
        match retry_step(attempts, outcomes[0]) {
            RetryStep::Backoff { delay_ms } => {
                let rest = retry_run(attempts + 1, outcomes.drop_first());
                (rest.0 + 1, seq![delay_ms] + rest.1, rest.2)
            },
            step => (1, Seq::empty(), Some(step)),
        }
    }
}

/// The attempts made so far at one fetch.
#[derive(Debug, Clone, Copy)]
pub struct Retry {
    attempts: u32,
}

impl Retry {
    pub closed spec fn spec_attempts(self) -> nat {
        self.attempts as nat
    }

    /// No attempt made yet.
    pub fn new() -> (r: Retry)
        ensures
            r.spec_attempts() == 0,
    {
        Retry { attempts: 0 }
    }

    /// The number of attempts made so far.
    pub fn attempts(&self) -> (r: u32)
        ensures
            r == self.spec_attempts(),
    {
        self.attempts
    }

    /// Records the outcome of one more attempt and says what to do next.
    pub fn record<T>(&mut self, outcome: Result<T, AppError>) -> (r: RetryStep<T>)
        ensures
            r == retry_step(old(self).spec_attempts(), outcome),
            final(self).spec_attempts() == if old(self).spec_attempts() < MAX_ATTEMPTS {
                old(self).spec_attempts() + 1
            } else {
                old(self).spec_attempts()
            },
    {
        let before = self.attempts;
        if self.attempts < MAX_ATTEMPTS {
            self.attempts = self.attempts + 1;
        }
        match outcome {
            Ok(v) => RetryStep::Return(v),
            Err(e) => {
                if before < MAX_ATTEMPTS - 1 {
                    RetryStep::Backoff { delay_ms: BACKOFF_STEP_MS * (before as u64 + 1) }
                } else {
                    RetryStep::GiveUp(into_upstream(e))
                }
            },
        }
    }
}

/// The upstream failure carrying the message of `e`.
pub fn into_upstream(e: AppError) -> (r: AppError)
    ensures
        r == upstream_of(e),
{
    match e {
        AppError::BadRequest(m) => AppError::Upstream(m),
        AppError::Upstream(m) => AppError::Upstream(m),
        AppError::NotFound(m) => AppError::Upstream(m),
        AppError::Internal(m) => AppError::Upstream(m),
    }
}

proof fn lemma_calls_bounded<T>(attempts: nat, outcomes: Seq<Result<T, AppError>>)
    requires
        attempts < MAX_ATTEMPTS,
    ensures
        retry_run(attempts, outcomes).0 <= MAX_ATTEMPTS - attempts,
    decreases outcomes.len(),
{
    if outcomes.len() > 0 {
        if let RetryStep::Backoff { .. } = retry_step(attempts, outcomes[0]) {
            lemma_calls_bounded(attempts + 1, outcomes.drop_first());
        }
    }
}

/// A fetch is called at most [`MAX_ATTEMPTS`] times, whatever it returns.
/// One that fails twice and then succeeds is called three times, with pauses
/// of 500 ms and 1000 ms, and its value is returned; one that fails three
/// times is called three times with the same pauses, never a fourth, and an
/// upstream failure carrying the last error is reported.
pub proof fn law_retry_bounded<T>(outcomes: Seq<Result<T, AppError>>)
    ensures
        retry_run(0, outcomes).0 <= MAX_ATTEMPTS,
        outcomes.len() >= 3 && outcomes[0] is Err && outcomes[1] is Err && outcomes[2] is Ok
            ==> retry_run(0, outcomes) == (
            3nat,
            seq![500u64, 1000u64],
            Some(RetryStep::Return(outcomes[2]->Ok_0)),
        ),
        outcomes.len() >= 3 && outcomes[0] is Err && outcomes[1] is Err && outcomes[2] is Err
            ==> retry_run(0, outcomes) == (
            3nat,
            seq![500u64, 1000u64],
            Some(RetryStep::<T>::GiveUp(upstream_of(outcomes[2]->Err_0))),
        ),
{
    lemma_calls_bounded(0, outcomes);
    if outcomes.len() >= 3 && outcomes[0] is Err && outcomes[1] is Err {
        let o1 = outcomes.drop_first();
        let o2 = o1.drop_first();
        assert(o1[0] == outcomes[1]);
        assert(o2[0] == outcomes[2]);
        let last = retry_run(2, o2);
        assert(last.0 == 1 && last.1 == Seq::<u64>::empty());
        assert(retry_run(1, o1).1 =~= seq![1000u64]);
        assert(retry_run(0, outcomes).1 =~= seq![500u64, 1000u64]);
    }
}

} // verus!
