//! Transport errors and the decisions of the retry loops.
//!
//! The process around the library performs the HTTP calls and the sleeps;
//! these machines decide, from plain outcomes, whether to retry, how long to
//! back off, and when to give up.

use vstd::prelude::*;

verus! {

/// A transport failure: a message and the HTTP status, when one was seen.
pub struct SolrError {
    pub details: String,
    pub code: Option<u16>,
}

impl SolrError {
    pub fn from(message: String) -> (r: Self)
        ensures
            r.details@ == message@,
            r.code is None,
    {
        SolrError { details: message, code: None }
    }

    pub fn new(message: String, error_code: u16) -> (r: Self)
        ensures
            r.details@ == message@,
            r.code == Some(error_code),
    {
        SolrError { details: message, code: Some(error_code) }
    }

    /// The message, for display by the caller.
    pub fn say(&self) -> (r: String)
        ensures
            r@ == self.details@,
    {
        self.details.clone()
    }

    /// A server-side failure that retrying will not mend; an unavailable
    /// service answers 503 and is worth retrying.
    pub fn is_fatal(&self) -> (r: bool)
        ensures
            r == (match self.code {
                Some(status) => status >= 500 && status != 503,
                None => false,
            }),
    {
        if let Some(status) = self.code {
            status >= 500 && status != 503
        } else {
            false
        }
    }
}

/// What the transport should do after one response.
pub enum RetryDecision {
    /// Try the same request again after this many seconds.
    Retry { wait_secs: u64 },
    /// Hand the failure to the caller.
    GiveUp,
}

/// The retry budget one transport carries across requests.
pub struct RetryBudget {
    pub max_retries: u64,
    pub retry_count: u64,
}

impl RetryBudget {
    /// A fresh budget: nothing consumed yet.
    pub fn new(max_retries: u64) -> (r: Self)
        ensures
            r.max_retries == max_retries,
            r.retry_count == 0,
    {
        RetryBudget { max_retries, retry_count: 0 }
    }

    /// Sustained success re-credits the budget one step at a time.
    pub fn on_success(&mut self)
        ensures
            final(self).max_retries == old(self).max_retries,
            final(self).retry_count == (if old(self).retry_count > 0 {
                old(self).retry_count - 1
            } else {
                0
            }),
    {
        if self.retry_count > 0 {
            self.retry_count = self.retry_count - 1;
        }
    }

    /// Decides what one failure means: a non-fatal failure within budget is
    /// retried after a backoff that grows with the consumed budget
    /// (`wait_unit` seconds per step); anything else is given up.
    pub fn on_failure(&mut self, fatal: bool, wait_unit: u64) -> (r: RetryDecision)
        ensures
            final(self).max_retries == old(self).max_retries,
            !fatal && old(self).retry_count < old(self).max_retries ==> {
                &&& final(self).retry_count == old(self).retry_count + 1
                &&& r == (RetryDecision::Retry {
                    wait_secs: (if wait_unit * final(self).retry_count <= u64::MAX {
                        (wait_unit * final(self).retry_count) as u64
                    } else {
                        u64::MAX
                    }),
                })
            },
            fatal || old(self).retry_count >= old(self).max_retries ==> final(self).retry_count
                == old(self).retry_count && r == RetryDecision::GiveUp,
    {
        if !fatal && self.retry_count < self.max_retries {
            self.retry_count = self.retry_count + 1;
            proof {
                vstd::arithmetic::mul::lemma_mul_upper_bound(
                    wait_unit as int,
                    u64::MAX as int,
                    self.retry_count as int,
                    u64::MAX as int,
                );
                vstd::arithmetic::mul::lemma_mul_nonnegative(
                    wait_unit as int,
                    self.retry_count as int,
                );
            }
            let wide: u128 = (wait_unit as u128) * (self.retry_count as u128);
            let wait_secs: u64 = if wide <= 0xffff_ffff_ffff_ffffu128 {
                wide as u64
            } else {
                u64::MAX
            };
            RetryDecision::Retry { wait_secs }
        } else {
            RetryDecision::GiveUp
        }
    }
}

impl vstd::std_specs::cmp::PartialEqSpecImpl for RetryDecision {
    open spec fn obeys_eq_spec() -> bool {
        true
    }

    open spec fn eq_spec(&self, other: &RetryDecision) -> bool {
        *self == *other
    }
}

impl PartialEq for RetryDecision {
    fn eq(&self, other: &RetryDecision) -> (r: bool)
        ensures
            r == (*self == *other),
    {
        match (self, other) {
            (RetryDecision::Retry { wait_secs: a }, RetryDecision::Retry { wait_secs: b }) => a
                == b,
            (RetryDecision::GiveUp, RetryDecision::GiveUp) => true,
            _ => false,
        }
    }
}

/// What the extractor should do with one fetched page when the shard
/// workaround is on.
pub enum FetchDecision {
    /// Use the page.
    Accept,
    /// Fetch the page again after this many seconds.
    RetryAfter { secs: u64 },
}

/// The shard-workaround state of one fetch: the count every replica must
/// answer with, and how many re-fetches were already spent on this page.
pub struct ShardProbe {
    pub must_match: u64,
    pub times: u64,
}

impl ShardProbe {
    /// A fresh probe for one page; a `must_match` of zero disables the
    /// workaround.
    pub fn new(must_match: u64) -> (r: Self)
        ensures
            r.must_match == must_match,
            r.times == 0,
    {
        ShardProbe { must_match, times: 0 }
    }

    /// Decides what one page's reported count means: a stale count is
    /// re-fetched with a backoff growing a second per attempt, up to
    /// thirteen attempts; after that the page is taken as it came.
    pub fn on_count(&mut self, num_found: u64) -> (r: FetchDecision)
        ensures
            final(self).must_match == old(self).must_match,
            old(self).must_match == 0 || num_found == old(self).must_match || old(self).times
                >= 13 ==> r == FetchDecision::Accept && final(self).times == old(self).times,
            old(self).must_match != 0 && num_found != old(self).must_match && old(self).times
                < 13 ==> final(self).times == old(self).times + 1 && r == (
            FetchDecision::RetryAfter { secs: final(self).times }),
    {
        if self.must_match == 0 || num_found == self.must_match || self.times >= 13 {
            FetchDecision::Accept
        } else {
            self.times = self.times + 1;
            FetchDecision::RetryAfter { secs: self.times }
        }
    }
}

/// The per-worker error budget of the extractor pool.
pub struct ErrorBudget {
    pub count: u64,
    pub max: u64,
}

impl ErrorBudget {
    /// A fresh budget: no errors seen.
    pub fn new(max: u64) -> (r: Self)
        ensures
            r.max == max,
            r.count == 0,
    {
        ErrorBudget { count: 0, max }
    }

    /// Counts one error; the worker goes on while the budget lasts.
    pub fn on_error(&mut self) -> (keep_going: bool)
        ensures
            final(self).max == old(self).max,
            old(self).count < old(self).max ==> keep_going && final(self).count == old(self).count
                + 1,
            old(self).count >= old(self).max ==> !keep_going && final(self).count == old(
                self,
            ).count,
    {
        if self.count < self.max {
            self.count = self.count + 1;
            true
        } else {
            false
        }
    }
}

/// Whether the loader pool must stop after an error: the shared error count
/// `current` has passed the configured budget.
pub fn loader_should_stop(current: u64, max_errors: u64) -> (r: bool)
    ensures
        r == (current > max_errors),
{
    current > max_errors
}

} // verus!
