//! Dispatcher and worker bookkeeping of one load-test run.
//!
//! The network work itself happens outside this module; here each worker's
//! decisions (how many requests to issue, how a response is classified, what
//! is recorded) and the merge of all worker fragments are stated and proved.

use vstd::prelude::*;

verus! {

/// Status code of an HTTP "Found" redirect, counted as a success.
pub const FOUND: u16 = 302;

/// A response is a success iff its status is 2xx or exactly 302.
pub open spec fn is_success_status(status: u16) -> bool {
    (200 <= status && status <= 299) || status == FOUND
}

/// How one request attempt ended.
#[derive(Clone, Copy, Debug, PartialEq, Eq, Structural)]
pub enum Outcome {
    /// The target answered with this status code.
    Status(u16),
    /// No response: connection refused, timeout, DNS or TLS failure.
    TransportFailure,
}

impl Outcome {
    pub open spec fn spec_is_success(self) -> bool {
        match self {
            Outcome::Status(s) => is_success_status(s),
            Outcome::TransportFailure => false,
        }
    }

    /// Classifies the outcome: success iff a 2xx or 302 status came back.
    pub fn is_success(&self) -> (r: bool)
        ensures
            r == self.spec_is_success(),
    {
        match self {
            Outcome::Status(s) => (200 <= *s && *s <= 299) || *s == FOUND,
            Outcome::TransportFailure => false,
        }
    }
}

/// One completed request: its latency in nanoseconds and its classification.
#[derive(Clone, Copy, Debug, PartialEq, Eq, Structural)]
pub struct Sample {
    pub latency_nanos: u64,
    pub success: bool,
}

/// Number of error samples in `s`.
pub open spec fn error_count(s: Seq<Sample>) -> nat
    decreases s.len(),
{
    if s.len() == 0 {
        0
    } else {
        error_count(s.drop_last()) + if s.last().success { 0nat } else { 1nat }
    }
}

/// Latencies of `s`, in the same order.
pub open spec fn latencies_of(s: Seq<Sample>) -> Seq<u64> {
    s.map_values(|x: Sample| x.latency_nanos)
}

pub proof fn lemma_error_count_bounded(s: Seq<Sample>)
    ensures
        error_count(s) <= s.len(),
    decreases s.len(),
{
    if s.len() > 0 {
        lemma_error_count_bounded(s.drop_last());
    }
}

/// Errors of a concatenation are the errors of its parts.
pub proof fn lemma_error_count_concat(a: Seq<Sample>, b: Seq<Sample>)
    ensures
        error_count(a + b) == error_count(a) + error_count(b),
    decreases b.len(),
{
    if b.len() > 0 {
        assert((a + b).drop_last() =~= a + b.drop_last());
        lemma_error_count_concat(a, b.drop_last());
    } else {
        assert(a + b =~= a);
    }
}


/// Configuration of one run, fixed once created.
pub struct HarnessConfig {
    url: String,
    concurrency: usize,
    requests: usize,
}

/// A configuration that cannot start a run.
#[derive(Clone, Copy, Debug, PartialEq, Eq, Structural)]
pub enum ConfigError {
    /// At least one worker is needed.
    ZeroConcurrency,
}

/// Requests issued by each worker: `floor(requests / concurrency)`.
pub open spec fn quota_of(requests: int, concurrency: int) -> int {
    requests / concurrency
}

impl HarnessConfig {
    pub closed spec fn spec_url(&self) -> Seq<char> {
        self.url@
    }

    pub closed spec fn spec_concurrency(&self) -> int {
        self.concurrency as int
    }

    pub closed spec fn spec_requests(&self) -> int {
        self.requests as int
    }

    /// Checks and stores a configuration; a concurrency of zero is refused.
    pub fn new(url: String, concurrency: usize, requests: usize) -> (r: Result<HarnessConfig, ConfigError>)
        ensures
            concurrency == 0 <==> r is Err,
            r matches Err(e) ==> e == ConfigError::ZeroConcurrency,
            r matches Ok(c) ==> c.wf() && c.spec_url() == url@ && c.spec_concurrency() == concurrency
                && c.spec_requests() == requests,
    {
        if concurrency == 0 {
            Err(ConfigError::ZeroConcurrency)
        } else {
            Ok(HarnessConfig { url, concurrency, requests })
        }
    }

    pub fn url(&self) -> (r: &str)
        ensures
            r@ == self.spec_url(),
    {
        self.url.as_str()
    }

    pub fn concurrency(&self) -> (r: usize)
        ensures
            r == self.spec_concurrency(),
    {
        self.concurrency
    }

    pub fn requests(&self) -> (r: usize)
        ensures
            r == self.spec_requests(),
    {
        self.requests
    }

    pub closed spec fn wf(&self) -> bool {
        self.concurrency >= 1
    }

    /// Requests issued by each worker.
    pub fn quota(&self) -> (r: usize)
        requires
            self.wf(),
        ensures
            r == quota_of(self.spec_requests(), self.spec_concurrency()),
    {
        self.requests / self.concurrency
    }

    /// Requests issued by the whole run: `concurrency * quota`, never above `requests`.
    pub fn planned_total(&self) -> (r: usize)
        requires
            self.wf(),
        ensures
            r == self.spec_concurrency() * quota_of(self.spec_requests(), self.spec_concurrency()),
            r <= self.spec_requests(),
    {
        proof {
            lemma_planned_total(self.requests as int, self.concurrency as int);
        }
        self.concurrency * (self.requests / self.concurrency)
    }

    /// One quota per worker: `concurrency` entries, each `floor(requests / concurrency)`.
    pub fn worker_quotas(&self) -> (r: Vec<usize>)
        requires
            self.wf(),
        ensures
            r@.len() == self.spec_concurrency(),
            forall|i: int| 0 <= i < r@.len() ==> r@[i] == quota_of(self.spec_requests(), self.spec_concurrency()),
    {
        let q = self.quota();
        let mut r: Vec<usize> = Vec::new();
        let mut i: usize = 0;
        while i < self.concurrency
            invariant
                i <= self.concurrency,
                r@.len() == i,
                forall|j: int| 0 <= j < r@.len() ==> r@[j] == q,
            decreases self.concurrency - i,
        {
            r.push(q);
            i = i + 1;
        }
        r
    }
}

/// The run issues `concurrency * floor(requests / concurrency)` requests: never
/// more than `requests`, and exactly `requests` iff `concurrency` divides it.
pub proof fn lemma_planned_total(requests: int, concurrency: int)
    requires
        requests >= 0,
        concurrency >= 1,
    ensures
        concurrency * quota_of(requests, concurrency) <= requests,
        concurrency * quota_of(requests, concurrency) == requests <==> requests % concurrency == 0,
{
    assert(requests == concurrency * (requests / concurrency) + requests % concurrency) by (nonlinear_arith)
        requires
            concurrency >= 1,
    ;
    assert(0 <= requests % concurrency) by (nonlinear_arith)
        requires
            concurrency >= 1,
    ;
}

/// The samples one worker produced, with its error tally.
pub struct Fragment {
    samples: Vec<Sample>,
    errors: usize,
}

impl View for Fragment {
    type V = Seq<Sample>;

    closed spec fn view(&self) -> Seq<Sample> {
        self.samples@
    }
}

impl Fragment {
    pub closed spec fn wf(&self) -> bool {
        self.errors == error_count(self.samples@)
    }

    /// An empty fragment, before the worker's first request.
    pub fn new() -> (r: Fragment)
        ensures
            r.wf(),
            r@ == Seq::<Sample>::empty(),
    {
        Fragment { samples: Vec::new(), errors: 0 }
    }

    /// Records one finished attempt; the tally grows by one exactly when it failed.
    pub fn record(&mut self, latency_nanos: u64, outcome: Outcome)
        requires
            old(self).wf(),
        ensures
            final(self).wf(),
            final(self)@ == old(self)@.push(
                Sample { latency_nanos, success: outcome.spec_is_success() },
            ),
            error_count(final(self)@) == error_count(old(self)@) + if outcome.spec_is_success() {
                0int
            } else {
                1int
            },
    {
        let success = outcome.is_success();
        let ghost before = self.samples@;
        self.samples.push(Sample { latency_nanos, success });
        let _len = self.samples.len(); // bounds the tally below
        proof {
            assert(self.samples@.drop_last() =~= before);
            lemma_error_count_bounded(before);
        }
        if !success {
            self.errors = self.errors + 1;
        }
    }

    /// Number of samples recorded.
    pub fn len(&self) -> (r: usize)
        ensures
            r == self@.len(),
    {
        self.samples.len()
    }

    /// Number of failed attempts recorded.
    pub fn errors(&self) -> (r: usize)
        requires
            self.wf(),
        ensures
            r == error_count(self@),
    {
        self.errors
    }
}

/// One worker's progress through its quota: it issues requests strictly one
/// after another, never retries, and records every attempt.
pub struct Worker {
    quota: usize,
    remaining: usize,
    fragment: Fragment,
}

impl Worker {
    pub closed spec fn spec_quota(&self) -> int {
        self.quota as int
    }

    pub closed spec fn spec_remaining(&self) -> int {
        self.remaining as int
    }

    pub closed spec fn spec_fragment(&self) -> Fragment {
        self.fragment
    }

    pub closed spec fn wf(&self) -> bool {
        &&& self.fragment.wf()
        &&& self.fragment@.len() + self.remaining == self.quota
    }

    /// A worker that has `quota` requests ahead of it and nothing recorded.
    pub fn new(quota: usize) -> (r: Worker)
        ensures
            r.wf(),
            r.spec_quota() == quota,
            r.spec_remaining() == quota,
            r.spec_fragment()@ == Seq::<Sample>::empty(),
    {
        Worker { quota, remaining: quota, fragment: Fragment::new() }
    }

    /// Whether another request is due.
    pub fn wants_request(&self) -> (r: bool)
        ensures
            r == (self.spec_remaining() > 0),
    {
        self.remaining > 0
    }

    /// Records the attempt that was just made and counts it against the quota.
    pub fn complete(&mut self, latency_nanos: u64, outcome: Outcome)
        requires
            old(self).wf(),
            old(self).spec_remaining() > 0,
        ensures
            final(self).wf(),
            final(self).spec_quota() == old(self).spec_quota(),
            final(self).spec_remaining() == old(self).spec_remaining() - 1,
            final(self).spec_fragment()@ == old(self).spec_fragment()@.push(
                Sample { latency_nanos, success: outcome.spec_is_success() },
            ),
    {
        self.fragment.record(latency_nanos, outcome);
        self.remaining = self.remaining - 1;
    }

    /// The fragment of a worker that has used up its quota: exactly `quota` samples.
    pub fn finish(self) -> (r: Fragment)
        requires
            self.wf(),
            self.spec_remaining() == 0,
        ensures
            r.wf(),
            r == self.spec_fragment(),
            r@.len() == self.spec_quota(),
    {
        self.fragment
    }
}

/// All worker fragments laid end to end, in the order given.
pub open spec fn merged(frags: Seq<Seq<Sample>>) -> Seq<Sample>
    decreases frags.len(),
{
    if frags.len() == 0 {
        Seq::empty()
    } else {
        merged(frags.drop_last()) + frags.last()
    }
}

/// The views of a sequence of fragments.
pub open spec fn fragment_views(frags: Seq<Fragment>) -> Seq<Seq<Sample>> {
    frags.map_values(|f: Fragment| f@)
}

/// Merging `c` fragments of `q` samples each yields `c * q` samples.
pub proof fn lemma_merged_len(frags: Seq<Seq<Sample>>, q: int)
    requires
        forall|i: int| 0 <= i < frags.len() ==> #[trigger] frags[i].len() == q,
    ensures
        merged(frags).len() == frags.len() * q,
    decreases frags.len(),
{
    if frags.len() > 0 {
        lemma_merged_len(frags.drop_last(), q);
        assert(frags.len() * q == (frags.len() - 1) * q + q) by (nonlinear_arith);
    }
}

/// A run of `concurrency` workers that each used up their quota yields
/// `concurrency * floor(requests / concurrency)` samples: at most `requests`,
/// and exactly `requests` iff `concurrency` divides it.
pub proof fn lemma_executed_count(frags: Seq<Seq<Sample>>, requests: int, concurrency: int)
    requires
        requests >= 0,
        concurrency >= 1,
        frags.len() == concurrency,
        forall|i: int| 0 <= i < frags.len() ==> #[trigger] frags[i].len() == quota_of(requests, concurrency),
    ensures
        merged(frags).len() == concurrency * quota_of(requests, concurrency),
        merged(frags).len() <= requests,
        merged(frags).len() == requests <==> requests % concurrency == 0,
{
    lemma_merged_len(frags, quota_of(requests, concurrency));
    lemma_planned_total(requests, concurrency);
}

/// The merged samples of a whole run, with the total error tally.
pub struct RunResult {
    samples: Vec<Sample>,
    errors: usize,
}

impl View for RunResult {
    type V = Seq<Sample>;

    closed spec fn view(&self) -> Seq<Sample> {
        self.samples@
    }
}

impl RunResult {
    pub closed spec fn wf(&self) -> bool {
        self.errors == error_count(self.samples@)
    }

    /// Merges the fragments losslessly: their samples end to end, in the given order.
    pub fn merge(frags: Vec<Fragment>) -> (r: RunResult)
        requires
            forall|i: int| 0 <= i < frags@.len() ==> #[trigger] frags@[i].wf(),
        ensures
            r.wf(),
            r@ == merged(fragment_views(frags@)),
    {
        let mut samples: Vec<Sample> = Vec::new();
        let mut errors: usize = 0;
        let mut i: usize = 0;
        while i < frags.len()
            invariant
                i <= frags@.len(),
                forall|k: int| 0 <= k < frags@.len() ==> #[trigger] frags@[k].wf(),
                samples@ == merged(fragment_views(frags@.take(i as int))),
                errors == error_count(samples@),
            decreases frags@.len() - i,
        {
            let f = &frags[i];
            assert(frags@[i as int].wf());
            assert(f.errors == error_count(f.samples@));
            let ghost before = samples@;
            let mut j: usize = 0;
            while j < f.samples.len()
                invariant
                    j <= f.samples@.len(),
                    samples@ == before + f.samples@.take(j as int),
                decreases f.samples@.len() - j,
            {
                samples.push(f.samples[j]);
                assert(f.samples@.take(j + 1) =~= f.samples@.take(j as int).push(f.samples@[j as int]));
                j = j + 1;
            }
            assert(f.samples@.take(j as int) =~= f.samples@);
            assert(samples@ == before + f.samples@);
            let _len = samples.len(); // bounds the tally below
            proof {
                lemma_error_count_concat(before, f.samples@);
                lemma_error_count_bounded(samples@);
                assert(fragment_views(frags@.take(i + 1)).drop_last() =~= fragment_views(frags@.take(i as int)));
            }
            errors = errors + f.errors;
            i = i + 1;
        }
        assert(frags@.take(i as int) =~= frags@);
        RunResult { samples, errors }
    }

    /// Number of samples merged.
    pub fn count(&self) -> (r: usize)
        ensures
            r == self@.len(),
    {
        self.samples.len()
    }

    /// Number of failed attempts merged; never above the sample count.
    pub fn errors(&self) -> (r: usize)
        requires
            self.wf(),
        ensures
            r == error_count(self@),
            r <= self@.len(),
    {
        proof {
            lemma_error_count_bounded(self.samples@);
        }
        self.errors
    }

    /// Latencies in merge order.
    pub fn latencies(&self) -> (r: Vec<u64>)
        ensures
            r@ == latencies_of(self@),
    {
        let mut r: Vec<u64> = Vec::new();
        let mut i: usize = 0;
        while i < self.samples.len()
            invariant
                i <= self.samples@.len(),
                r@ == latencies_of(self.samples@.take(i as int)),
            decreases self.samples@.len() - i,
        {
            r.push(self.samples[i].latency_nanos);
            assert(latencies_of(self.samples@.take(i + 1)) =~= latencies_of(self.samples@.take(i as int)).push(self.samples@[i as int].latency_nanos));
            i = i + 1;
        }
        assert(self.samples@.take(i as int) =~= self.samples@);
        r
    }
}

} // verus!
