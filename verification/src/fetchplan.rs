//! Retry and backoff decisions for the bounded HTTP fetch loop.
//!
//! The loop itself suspends and sleeps outside the library; every decision it
//! takes — how a status is classified, how long to wait, when to give up — is
//! a verified function here.

use vstd::prelude::*;

use crate::strutil::{chars_of, parse_u64, spec_parse_u64, spec_trim, trim_vec};

verus! {

/// Total attempts before a throttled fetch fails for good.
pub const MAX_FETCH_ATTEMPTS: u32 = 5;

/// First backoff wait, in milliseconds.
pub const FIRST_BACKOFF_MS: u64 = 250;

/// Ceiling on the exponential backoff, in milliseconds.
pub const BACKOFF_CEILING_MS: u64 = 10000;

/// How one HTTP response is acted on.
#[derive(Debug, Clone, Copy, PartialEq, Eq, Structural)]
pub enum StatusClass {
    /// Any 2xx: the response body is the result.
    Success,
    /// 429 or 503: wait, then retry while attempts remain.
    Throttle,
    /// Every other status: fail at once, without retrying.
    Fatal,
}

/// Classification of an HTTP status code.
pub open spec fn spec_classify(status: u16) -> StatusClass {
    if 200 <= status <= 299 {
        StatusClass::Success
    } else if status == 429 || status == 503 {
        StatusClass::Throttle
    } else {
        StatusClass::Fatal
    }
}

/// Classifies an HTTP status code.
pub fn classify_status(status: u16) -> (r: StatusClass)
    ensures
        r == spec_classify(status),
{
    if 200 <= status && status <= 299 {
        StatusClass::Success
    } else if status == 429 || status == 503 {
        StatusClass::Throttle
    } else {
        StatusClass::Fatal
    }
}

/// The value of a `Retry-After` header given in seconds, if it parses.
pub open spec fn spec_retry_after_secs(h: Seq<char>) -> Option<u64> {
    spec_parse_u64(spec_trim(h))
}

/// Parses a `Retry-After` header value given in seconds.
pub fn parse_retry_after(h: &str) -> (r: Option<u64>)
    ensures
        r == spec_retry_after_secs(h@),
{
    let v = chars_of(h);
    let t = trim_vec(&v);
    parse_u64(&t)
}

/// Retry state of one fetch: the attempt now running and the next backoff.
pub struct RetryPolicy {
    pub attempt: u32,
    pub backoff_ms: u64,
}

impl RetryPolicy {
    /// A fetch starts at attempt one with the first backoff pending.
    pub fn new() -> (r: RetryPolicy)
        ensures
            r.attempt == 1,
            r.backoff_ms == FIRST_BACKOFF_MS,
    {
        RetryPolicy { attempt: 1, backoff_ms: FIRST_BACKOFF_MS }
    }

    /// How long a throttled attempt waits: the server's `Retry-After`
    /// seconds when present, else the current backoff.
    pub fn wait_ms(&self, retry_after_secs: Option<u64>) -> (r: u64)
        ensures
            r == (match retry_after_secs {
                Some(s) => (if s <= u64::MAX as int / 1000 {
                    (s * 1000) as u64
                } else {
                    u64::MAX
                }),
                None => self.backoff_ms,
            }),
    {
        match retry_after_secs {
            Some(s) => {
                if s <= u64::MAX / 1000 {
                    s * 1000
                } else {
                    u64::MAX
                }
            },
            None => self.backoff_ms,
        }
    }

    /// Records a throttled attempt: the backoff doubles up to its ceiling,
    /// the attempt count advances, and the result says whether another
    /// attempt is allowed.
    pub fn on_throttle(&mut self) -> (more: bool)
        requires
            old(self).attempt >= 1,
        ensures
            more == (old(self).attempt < MAX_FETCH_ATTEMPTS),
            final(self).attempt == (if old(self).attempt < MAX_FETCH_ATTEMPTS {
                (old(self).attempt + 1) as u32
            } else {
                old(self).attempt
            }),
            final(self).backoff_ms == (if old(self).backoff_ms * 2 <= BACKOFF_CEILING_MS {
                (old(self).backoff_ms * 2) as u64
            } else {
                BACKOFF_CEILING_MS
            }),
    {
        self.backoff_ms = if self.backoff_ms <= BACKOFF_CEILING_MS / 2 {
            self.backoff_ms * 2
        } else {
            BACKOFF_CEILING_MS
        };
        if self.attempt < MAX_FETCH_ATTEMPTS {
            self.attempt = self.attempt + 1;
            true
        } else {
            false
        }
    }
}

} // verus!
