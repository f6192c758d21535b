use vstd::prelude::*;

use crate::cache::{
    after_lookup, copy_value, expiry_for, lookup, stored, Cache, CacheEntry,
};
use crate::error::AppError;
use crate::retry::{retry_step, Retry, RetryStep, MAX_ATTEMPTS};
use serde_json::Value;

verus! {

/// What a cache-backed read does next.
#[derive(Debug)]
pub enum ReadStep {
    /// Hand this document to the caller.
    Serve(Value),
    /// Call the upstream fetch (again).
    Fetch,
    /// Wait this long, then call the upstream fetch again.
    Backoff { delay_ms: u64 },
    /// Report this failure to the caller.
    Fail(AppError),
}

/// One read of a cached resource: the key and time-to-live it is cached
/// under, and the fetch attempts made for it.
pub struct ReadThrough {
    key: String,
    ttl_seconds: u64,
    retry: Retry,
}

impl ReadThrough {
    pub closed spec fn spec_key(&self) -> Seq<char> {
        self.key@
    }

    pub closed spec fn spec_ttl(&self) -> u64 {
        self.ttl_seconds
    }

    pub closed spec fn spec_attempts(&self) -> nat {
        self.retry.spec_attempts()
    }

    /// A cache-backed read of `key`: a document still fresh at `now` is
    /// served at once (a stale one is dropped), anything else is fetched.
    pub fn start(cache: &mut Cache, key: &str, ttl_seconds: u64, now: u64) -> (r: (
        ReadThrough,
        ReadStep,
    ))
        requires
            old(cache).wf(),
        ensures
            final(cache).wf(),
            final(cache).spec_capacity() == old(cache).spec_capacity(),
            final(cache)@ == after_lookup(old(cache)@, key@, now),
            r.0.spec_key() == key@,
            r.0.spec_ttl() == ttl_seconds,
            r.0.spec_attempts() == 0,
            match lookup(old(cache)@, key@, now) {
                Some(v) => r.1 == ReadStep::Serve(v),
                None => r.1 == ReadStep::Fetch,
            },
    {
        let read = ReadThrough::refresh(key, ttl_seconds);
        match cache.get(key, now) {
            Some(v) => (read, ReadStep::Serve(v)),
            None => (read, ReadStep::Fetch),
        }
    }

    /// A write-through refresh of `key`: the cache is not read, but a fetched
    /// document is stored all the same.
    pub fn refresh(key: &str, ttl_seconds: u64) -> (r: ReadThrough)
        ensures
            r.spec_key() == key@,
            r.spec_ttl() == ttl_seconds,
            r.spec_attempts() == 0,
    {
        ReadThrough { key: String::from_str(key), ttl_seconds, retry: Retry::new() }
    }

    /// Records the outcome of one fetch made at `now`. A fetched document is
    /// stored under the key with the read's time-to-live, then served; a
    /// failure is retried after a pause, until the attempts are used up.
    pub fn on_fetched(&mut self, cache: &mut Cache, outcome: Result<Value, AppError>, now: u64) -> (r:
        ReadStep)
        requires
            old(cache).wf(),
        ensures
            final(cache).wf(),
            final(cache).spec_capacity() == old(cache).spec_capacity(),
            final(self).spec_key() == old(self).spec_key(),
            final(self).spec_ttl() == old(self).spec_ttl(),
            final(self).spec_attempts() == if old(self).spec_attempts() < MAX_ATTEMPTS {
                old(self).spec_attempts() + 1
            } else {
                old(self).spec_attempts()
            },
            match retry_step(old(self).spec_attempts(), outcome) {
                RetryStep::Return(v) => {
                    &&& r == ReadStep::Serve(v)
                    &&& stored(
                        old(cache)@,
                        final(cache)@,
                        old(self).spec_key(),
                        CacheEntry { value: v, expires_at: expiry_for(now, Some(old(self).spec_ttl())) },
                        old(cache).spec_capacity(),
                    )
                },
                RetryStep::Backoff { delay_ms } => {
                    &&& r == ReadStep::Backoff { delay_ms }
                    &&& final(cache)@ == old(cache)@
                },
                RetryStep::GiveUp(e) => {
                    &&& r == ReadStep::Fail(e)
                    &&& final(cache)@ == old(cache)@
                },
            },
    {
        match self.retry.record(outcome) {
            RetryStep::Return(v) => {
                let served = copy_value(&v);
                cache.set(self.key.as_str(), v, Some(self.ttl_seconds), now);
                ReadStep::Serve(served)
            },
            RetryStep::Backoff { delay_ms } => ReadStep::Backoff { delay_ms },
            RetryStep::GiveUp(e) => ReadStep::Fail(e),
        }
    }
}

} // verus!
