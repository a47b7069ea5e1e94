//! Metrics of the gateway in Prometheus text form.
//!
//! Histograms have fixed buckets. Observations are floating-point numbers; the
//! caller hands over what the buckets need of one, and the texts of the numbers
//! that are floating-point in the output.

use crate::json::{json_of, member};
use crate::text::{append_decimal, decimal_text, lemma_number_before_stop};
use serde_json::Value;
use vstd::prelude::*;
use vstd::string::StringExecFns;

verus! {

/// Number of bounded buckets.
pub const N_BUCKETS: usize = 12;

/// Upper bounds of the buckets, in milliseconds. The last bucket has none.
pub open spec fn bucket_bounds() -> Seq<u64> {
    seq![10u64, 25, 50, 100, 250, 500, 1000, 2500, 5000, 10000, 30000, 60000]
}

/// Upper bound of bucket `i`.
pub fn bucket_bound(i: usize) -> (r: u64)
    requires
        i < N_BUCKETS,
    ensures
        r == bucket_bounds()[i as int],
{
    if i == 0 {
        10
    } else if i == 1 {
        25
    } else if i == 2 {
        50
    } else if i == 3 {
        100
    } else if i == 4 {
        250
    } else if i == 5 {
        500
    } else if i == 6 {
        1000
    } else if i == 7 {
        2500
    } else if i == 8 {
        5000
    } else if i == 9 {
        10000
    } else if i == 10 {
        30000
    } else {
        60000
    }
}

/// A finite number that is not negative: rounded up, which is what an integral
/// bound compares with, and in thousandths, rounded down.
#[derive(Debug, Clone, Copy, PartialEq, Eq, Structural)]
pub struct Observation {
    pub ceil: u64,
    pub milli: u64,
}

/// Fixed-bucket histogram.
#[derive(Debug)]
pub struct Histogram {
    pub buckets: Vec<u64>,
    /// Observations past the last bound.
    pub inf: u64,
    /// Sum of the observations in thousandths.
    pub sum_milli: u64,
}

/// The bucket of an observation: the first whose bound it does not pass.
pub open spec fn bucket_of(ceil: u64, i: int) -> bool {
    &&& 0 <= i < N_BUCKETS
    &&& ceil <= bucket_bounds()[i]
    &&& forall|j: int| 0 <= j < i ==> ceil > #[trigger] bucket_bounds()[j]
}

/// Sum of the first `n` buckets.
pub open spec fn cumulative(b: Seq<u64>, n: int) -> int
    decreases n,
{
    if n <= 0 {
        0
    } else {
        cumulative(b, n - 1) + b[n - 1]
    }
}

impl Default for Histogram {
    /// No observations.
    fn default() -> (h: Histogram)
        ensures
            h.wf(),
            h.empty(),
    {
        let mut buckets: Vec<u64> = Vec::new();
        while buckets.len() < N_BUCKETS
            invariant
                buckets@.len() <= N_BUCKETS,
                buckets@ =~= Seq::new(buckets@.len(), |i: int| 0u64),
            decreases N_BUCKETS - buckets@.len(),
        {
            buckets.push(0);
        }
        Histogram { buckets, inf: 0, sum_milli: 0 }
    }
}

impl Histogram {
    /// There is one counter per bucket.
    pub open spec fn wf(&self) -> bool {
        self.buckets@.len() == N_BUCKETS
    }

    /// Nothing was observed.
    pub open spec fn empty(&self) -> bool {
        &&& self.buckets@ == Seq::new(N_BUCKETS as nat, |i: int| 0u64)
        &&& self.inf == 0
        &&& self.sum_milli == 0
    }

    /// Number of observations.
    pub open spec fn total(&self) -> int {
        cumulative(self.buckets@, N_BUCKETS as int) + self.inf
    }

    /// Counts one observation. What is not a number, infinite or negative is no
    /// observation. Counters wrap around.
    pub fn observe(&mut self, value: Option<Observation>)
        requires
            old(self).wf(),
        ensures
            final(self).wf(),
            match value {
                None => *final(self) == *old(self),
                Some(v) => {
                    &&& final(self).sum_milli == old(self).sum_milli.wrapping_add(v.milli)
                    &&& forall|i: int|
                        0 <= i < N_BUCKETS ==> #[trigger] final(self).buckets@[i] == if bucket_of(
                            v.ceil,
                            i,
                        ) {
                            old(self).buckets@[i].wrapping_add(1)
                        } else {
                            old(self).buckets@[i]
                        }
                    &&& final(self).inf == if v.ceil > 60000 {
                        old(self).inf.wrapping_add(1)
                    } else {
                        old(self).inf
                    }
                },
            },
    {
        match value {
            None => {},
            Some(v) => {
                self.sum_milli = self.sum_milli.wrapping_add(v.milli);
                let mut i: usize = 0;
                while i < N_BUCKETS && v.ceil > bucket_bound(i)
                    invariant
                        i <= N_BUCKETS,
                        forall|j: int| 0 <= j < i ==> v.ceil > #[trigger] bucket_bounds()[j],
                    decreases N_BUCKETS - i,
                {
                    i = i + 1;
                }
                if i < N_BUCKETS {
                    assert(bucket_of(v.ceil, i as int));
                    assert forall|k: int| k != i implies !bucket_of(v.ceil, k) by {
                        if bucket_of(v.ceil, k) && k < i {
                            assert(v.ceil > bucket_bounds()[k]);
                        }
                        if bucket_of(v.ceil, k) && k > i {
                            assert(v.ceil > bucket_bounds()[i as int]);
                        }
                    }
                    proof {
                        if v.ceil > 60000 {
                            lemma_bounds_ascend(i as int);
                        }
                    }
                    let n: u64 = self.buckets[i];
                    self.buckets[i] = n.wrapping_add(1);
                } else {
                    assert(v.ceil > bucket_bounds()[11]);
                    assert forall|k: int| !bucket_of(v.ceil, k) by {
                        if 0 <= k < N_BUCKETS {
                            assert(v.ceil > bucket_bounds()[k]);
                        }
                    }
                    self.inf = self.inf.wrapping_add(1);
                }
            },
        }
    }

    /// Number of observations.
    pub fn count(&self) -> (r: u64)
        requires
            self.wf(),
            self.total() <= u64::MAX,
        ensures
            r == self.total(),
    {
        let mut n: u64 = 0;
        let mut i: usize = 0;
        while i < N_BUCKETS
            invariant
                i <= N_BUCKETS,
                self.wf(),
                self.total() <= u64::MAX,
                n == cumulative(self.buckets@, i as int),
            decreases N_BUCKETS - i,
        {
            proof {
                lemma_cumulative_monotone(self.buckets@, i + 1, N_BUCKETS as int);
            }
            n = n + self.buckets[i];
            i = i + 1;
        }
        n + self.inf
    }
}

proof fn lemma_bounds_ascend(i: int)
    requires
        0 <= i < N_BUCKETS,
    ensures
        bucket_bounds()[i] <= 60000,
{
    assert(bucket_bounds() =~= seq![
        10u64,
        25,
        50,
        100,
        250,
        500,
        1000,
        2500,
        5000,
        10000,
        30000,
        60000,
    ]);
}

proof fn lemma_cumulative_monotone(b: Seq<u64>, i: int, n: int)
    requires
        0 <= i <= n <= b.len(),
    ensures
        0 <= cumulative(b, i) <= cumulative(b, n),
    decreases n,
{
    if i < n {
        lemma_cumulative_monotone(b, i, n - 1);
    } else if n > 0 {
        lemma_cumulative_monotone(b, i - 1, n - 1);
    }
}

// ---- Text form ----

/// The first two lines of a series.
pub open spec fn header_text(name: Seq<char>, help: Seq<char>, kind: Seq<char>) -> Seq<char> {
    "# HELP "@ + name + " "@ + help + "\n# TYPE "@ + name + " "@ + kind + "\n"@
}

/// A series with a single value.
pub open spec fn single_text(
    name: Seq<char>,
    help: Seq<char>,
    kind: Seq<char>,
    value: Seq<char>,
) -> Seq<char> {
    header_text(name, help, kind) + name + " "@ + value + "\n"@
}

/// The lines of the first `n` buckets: each with all observations up to its
/// bound.
pub open spec fn bucket_lines(name: Seq<char>, b: Seq<u64>, n: int) -> Seq<char>
    decreases n,
{
    if n <= 0 {
        Seq::empty()
    } else {
        bucket_lines(name, b, n - 1) + name + "_bucket{le=\""@ + decimal_text(
            bucket_bounds()[n - 1] as int,
        ) + "\"} "@ + decimal_text(cumulative(b, n)) + "\n"@
    }
}

/// A histogram: cumulative buckets, then sum and count.
pub open spec fn histogram_text(
    h: Histogram,
    name: Seq<char>,
    help: Seq<char>,
    sum: Seq<char>,
) -> Seq<char> {
    header_text(name, help, "histogram"@) + bucket_lines(name, h.buckets@, N_BUCKETS as int) + name
        + "_bucket{le=\"+Inf\"} "@ + decimal_text(h.total()) + "\n"@ + name + "_sum "@ + sum
        + "\n"@ + name + "_count "@ + decimal_text(h.total()) + "\n"@
}

fn append_header(out: &mut String, name: &str, help: &str, kind: &str)
    ensures
        final(out)@ == old(out)@ + header_text(name@, help@, kind@),
{
    let ghost before = out@;
    out.append("# HELP ");
    out.append(name);
    out.append(" ");
    out.append(help);
    out.append("\n# TYPE ");
    out.append(name);
    out.append(" ");
    out.append(kind);
    out.append("\n");
    assert(out@ =~= before + header_text(name@, help@, kind@));
}

fn append_single(out: &mut String, name: &str, help: &str, kind: &str, value: &str)
    ensures
        final(out)@ == old(out)@ + single_text(name@, help@, kind@, value@),
{
    let ghost before = out@;
    append_header(out, name, help, kind);
    out.append(name);
    out.append(" ");
    out.append(value);
    out.append("\n");
    assert(out@ =~= before + single_text(name@, help@, kind@, value@));
}

fn append_counter(out: &mut String, name: &str, help: &str, value: u64)
    ensures
        final(out)@ == old(out)@ + single_text(
            name@,
            help@,
            "counter"@,
            decimal_text(value as int),
        ),
{
    let v: String = crate::text::decimal(value);
    append_single(out, name, help, "counter", v.as_str());
}

impl Histogram {
    /// Appends the histogram in text form. `sum` is the text of the sum of the
    /// observations.
    pub fn render(&self, out: &mut String, name: &str, help: &str, sum: &str)
        requires
            self.wf(),
            self.total() <= u64::MAX,
        ensures
            final(out)@ == old(out)@ + histogram_text(*self, name@, help@, sum@),
    {
        let ghost before = out@;
        append_header(out, name, help, "histogram");
        let ghost head = out@;
        let mut running: u64 = 0;
        let mut i: usize = 0;
        assert(head + bucket_lines(name@, self.buckets@, 0) =~= head);
        while i < N_BUCKETS
            invariant
                i <= N_BUCKETS,
                self.wf(),
                self.total() <= u64::MAX,
                running == cumulative(self.buckets@, i as int),
                out@ == head + bucket_lines(name@, self.buckets@, i as int),
            decreases N_BUCKETS - i,
        {
            let ghost mid = out@;
            proof {
                lemma_cumulative_monotone(self.buckets@, i + 1, N_BUCKETS as int);
            }
            running = running + self.buckets[i];
            out.append(name);
            out.append("_bucket{le=\"");
            append_decimal(out, bucket_bound(i));
            out.append("\"} ");
            append_decimal(out, running);
            out.append("\n");
            i = i + 1;
            assert(out@ =~= head + bucket_lines(name@, self.buckets@, i as int));
        }
        let total: u64 = running + self.inf;
        out.append(name);
        out.append("_bucket{le=\"+Inf\"} ");
        append_decimal(out, total);
        out.append("\n");
        out.append(name);
        out.append("_sum ");
        out.append(sum);
        out.append("\n");
        out.append(name);
        out.append("_count ");
        append_decimal(out, total);
        out.append("\n");
        assert(out@ =~= before + histogram_text(*self, name@, help@, sum@));
    }
}

/// The member of a completion report that holds its decode throughput: the
/// report's shape depends on the path it comes from.
pub fn decode_throughput(done: &Value) -> (r: Option<&Value>)
    ensures
        match r {
            Some(v) => match json_of(*done).member("decode_tok_s"@) {
                Some(m) => json_of(*v) == m,
                None => json_of(*done).member("tok_s"@) == Some(json_of(*v)),
            },
            None => json_of(*done).member("decode_tok_s"@) is None && json_of(*done).member(
                "tok_s"@,
            ) is None,
        },
{
    match member(done, "decode_tok_s") {
        Some(v) => Some(v),
        None => member(done, "tok_s"),
    }
}

/// The member of a completion report that holds its prefill throughput.
pub fn prefill_throughput(done: &Value) -> (r: Option<&Value>)
    ensures
        match r {
            Some(v) => json_of(*done).member("prefill_tok_s"@) == Some(json_of(*v)),
            None => json_of(*done).member("prefill_tok_s"@) is None,
        },
{
    member(done, "prefill_tok_s")
}

/// Everything the gateway reports on its own.
#[derive(Debug)]
pub struct Metrics {
    pub ttft_ms: Histogram,
    pub latency_ms: Histogram,
    pub decode_tok_s: Histogram,
    pub prefill_tok_s: Histogram,
    pub requests_total: u64,
    pub requests_failed: u64,
    pub admission_rejected: u64,
}

/// Texts of the numbers that are floating-point in the output.
pub struct FloatTexts {
    pub queue_depth: String,
    pub queue_capacity: String,
    pub uptime_seconds: String,
    pub ttft_sum: String,
    pub latency_sum: String,
    pub decode_sum: String,
    pub prefill_sum: String,
}

impl Default for Metrics {
    /// Nothing counted.
    fn default() -> (m: Metrics)
        ensures
            m.wf(),
            m.renderable(),
            m.ttft_ms.empty(),
            m.latency_ms.empty(),
            m.decode_tok_s.empty(),
            m.prefill_tok_s.empty(),
            m.requests_total == 0,
            m.requests_failed == 0,
            m.admission_rejected == 0,
    {
        let m = Metrics {
            ttft_ms: Histogram::default(),
            latency_ms: Histogram::default(),
            decode_tok_s: Histogram::default(),
            prefill_tok_s: Histogram::default(),
            requests_total: 0,
            requests_failed: 0,
            admission_rejected: 0,
        };
        proof {
            lemma_zero(m.ttft_ms.buckets@, N_BUCKETS as int);
            lemma_zero(m.latency_ms.buckets@, N_BUCKETS as int);
            lemma_zero(m.decode_tok_s.buckets@, N_BUCKETS as int);
            lemma_zero(m.prefill_tok_s.buckets@, N_BUCKETS as int);
        }
        m
    }
}

proof fn lemma_zero(b: Seq<u64>, n: int)
    requires
        0 <= n <= b.len(),
        b == Seq::new(N_BUCKETS as nat, |i: int| 0u64),
    ensures
        cumulative(b, n) == 0,
    decreases n,
{
    if n > 0 {
        lemma_zero(b, n - 1);
    }
}

impl Metrics {
    /// The histograms are well-formed.
    pub open spec fn wf(&self) -> bool {
        self.ttft_ms.wf() && self.latency_ms.wf() && self.decode_tok_s.wf()
            && self.prefill_tok_s.wf()
    }

    /// The histograms' totals are machine words.
    pub open spec fn renderable(&self) -> bool {
        self.ttft_ms.total() <= u64::MAX && self.latency_ms.total() <= u64::MAX
            && self.decode_tok_s.total() <= u64::MAX && self.prefill_tok_s.total() <= u64::MAX
    }

    /// Counts one completed request. A throughput that it did not report
    /// contributes nothing: a zero would make the histogram lie in the
    /// reassuring direction.
    pub fn observe_done(
        &mut self,
        decode_tok_s: Option<Observation>,
        prefill_tok_s: Option<Observation>,
    )
        requires
            old(self).wf(),
        ensures
            final(self).wf(),
            final(self).requests_total == old(self).requests_total.wrapping_add(1),
            final(self).requests_failed == old(self).requests_failed,
            final(self).admission_rejected == old(self).admission_rejected,
            final(self).ttft_ms == old(self).ttft_ms,
            final(self).latency_ms == old(self).latency_ms,
            decode_tok_s is None ==> final(self).decode_tok_s == old(self).decode_tok_s,
            decode_tok_s is Some ==> observed(
                old(self).decode_tok_s,
                final(self).decode_tok_s,
                decode_tok_s->Some_0,
            ),
            prefill_tok_s is None ==> final(self).prefill_tok_s == old(self).prefill_tok_s,
            prefill_tok_s is Some ==> observed(
                old(self).prefill_tok_s,
                final(self).prefill_tok_s,
                prefill_tok_s->Some_0,
            ),
    {
        self.requests_total = self.requests_total.wrapping_add(1);
        self.decode_tok_s.observe(decode_tok_s);
        self.prefill_tok_s.observe(prefill_tok_s);
    }

    /// Counts the timing of one attempt, measured at the gateway. An attempt
    /// without a token has no time to its first one.
    pub fn observe_timing(&mut self, ttft_ms: Option<Observation>, latency_ms: Option<Observation>)
        requires
            old(self).wf(),
        ensures
            final(self).wf(),
            final(self).requests_total == old(self).requests_total,
            final(self).requests_failed == old(self).requests_failed,
            final(self).admission_rejected == old(self).admission_rejected,
            final(self).decode_tok_s == old(self).decode_tok_s,
            final(self).prefill_tok_s == old(self).prefill_tok_s,
            ttft_ms is None ==> final(self).ttft_ms == old(self).ttft_ms,
            ttft_ms is Some ==> observed(
                old(self).ttft_ms,
                final(self).ttft_ms,
                ttft_ms->Some_0,
            ),
            latency_ms is None ==> final(self).latency_ms == old(self).latency_ms,
            latency_ms is Some ==> observed(
                old(self).latency_ms,
                final(self).latency_ms,
                latency_ms->Some_0,
            ),
    {
        self.ttft_ms.observe(ttft_ms);
        self.latency_ms.observe(latency_ms);
    }

    /// Counts a request that ended in an error response.
    pub fn record_failure(&mut self)
        ensures
            final(self).requests_failed == old(self).requests_failed.wrapping_add(1),
            *final(self) == (Metrics {
                requests_failed: final(self).requests_failed,
                ..*old(self)
            }),
    {
        self.requests_failed = self.requests_failed.wrapping_add(1);
    }

    /// Counts a request refused by admission control.
    pub fn record_admission_rejected(&mut self)
        ensures
            final(self).admission_rejected == old(self).admission_rejected.wrapping_add(1),
            *final(self) == (Metrics {
                admission_rejected: final(self).admission_rejected,
                ..*old(self)
            }),
    {
        self.admission_rejected = self.admission_rejected.wrapping_add(1);
    }

    /// The whole exposition.
    pub open spec fn exposition(&self, t: FloatTexts, model_loaded: bool) -> Seq<char> {
        single_text(
            "hipfire_requests_total"@,
            "Completed generation requests."@,
            "counter"@,
            decimal_text(self.requests_total as int),
        ) + single_text(
            "hipfire_requests_failed_total"@,
            "Requests that ended in an error response."@,
            "counter"@,
            decimal_text(self.requests_failed as int),
        ) + single_text(
            "hipfire_admission_rejected_total"@,
            "Requests refused by admission control (queue full or model mismatch)."@,
            "counter"@,
            decimal_text(self.admission_rejected as int),
        ) + single_text(
            "hipfire_queue_depth"@,
            "Requests currently in flight or queued."@,
            "gauge"@,
            t.queue_depth@,
        ) + single_text(
            "hipfire_queue_capacity"@,
            "Admission control capacity."@,
            "gauge"@,
            t.queue_capacity@,
        ) + single_text(
            "hipfire_uptime_seconds"@,
            "Seconds since the gateway started."@,
            "gauge"@,
            t.uptime_seconds@,
        ) + single_text(
            "hipfire_model_loaded"@,
            "1 when a model is resident, 0 otherwise."@,
            "gauge"@,
            if model_loaded {
                "1"@
            } else {
                "0"@
            },
        ) + histogram_text(
            self.ttft_ms,
            "hipfire_ttft_milliseconds"@,
            "Time to first token, per request."@,
            t.ttft_sum@,
        ) + histogram_text(
            self.latency_ms,
            "hipfire_request_latency_milliseconds"@,
            "Wall time per request."@,
            t.latency_sum@,
        ) + histogram_text(
            self.decode_tok_s,
            "hipfire_decode_tokens_per_second"@,
            "Decode throughput per request."@,
            t.decode_sum@,
        ) + histogram_text(
            self.prefill_tok_s,
            "hipfire_prefill_tokens_per_second"@,
            "Prefill throughput per request."@,
            t.prefill_sum@,
        )
    }

    /// All series in text form.
    pub fn render(&self, t: &FloatTexts, model_loaded: bool) -> (r: String)
        requires
            self.wf(),
            self.renderable(),
        ensures
            r@ == self.exposition(*t, model_loaded),
    {
        let mut out: String = String::new();
        append_counter(
            &mut out,
            "hipfire_requests_total",
            "Completed generation requests.",
            self.requests_total,
        );
        append_counter(
            &mut out,
            "hipfire_requests_failed_total",
            "Requests that ended in an error response.",
            self.requests_failed,
        );
        append_counter(
            &mut out,
            "hipfire_admission_rejected_total",
            "Requests refused by admission control (queue full or model mismatch).",
            self.admission_rejected,
        );
        append_single(
            &mut out,
            "hipfire_queue_depth",
            "Requests currently in flight or queued.",
            "gauge",
            t.queue_depth.as_str(),
        );
        append_single(
            &mut out,
            "hipfire_queue_capacity",
            "Admission control capacity.",
            "gauge",
            t.queue_capacity.as_str(),
        );
        append_single(
            &mut out,
            "hipfire_uptime_seconds",
            "Seconds since the gateway started.",
            "gauge",
            t.uptime_seconds.as_str(),
        );
        append_single(
            &mut out,
            "hipfire_model_loaded",
            "1 when a model is resident, 0 otherwise.",
            "gauge",
            if model_loaded {
                "1"
            } else {
                "0"
            },
        );
        self.ttft_ms.render(
            &mut out,
            "hipfire_ttft_milliseconds",
            "Time to first token, per request.",
            t.ttft_sum.as_str(),
        );
        self.latency_ms.render(
            &mut out,
            "hipfire_request_latency_milliseconds",
            "Wall time per request.",
            t.latency_sum.as_str(),
        );
        self.decode_tok_s.render(
            &mut out,
            "hipfire_decode_tokens_per_second",
            "Decode throughput per request.",
            t.decode_sum.as_str(),
        );
        self.prefill_tok_s.render(
            &mut out,
            "hipfire_prefill_tokens_per_second",
            "Prefill throughput per request.",
            t.prefill_sum.as_str(),
        );
        assert(out@ =~= self.exposition(*t, model_loaded));
        out
    }
}

/// `after` is `before` with one more observation.
pub open spec fn observed(before: Histogram, after: Histogram, v: Observation) -> bool {
    &&& after.wf()
    &&& after.sum_milli == before.sum_milli.wrapping_add(v.milli)
    &&& forall|i: int|
        0 <= i < N_BUCKETS ==> #[trigger] after.buckets@[i] == if bucket_of(v.ceil, i) {
            before.buckets@[i].wrapping_add(1)
        } else {
            before.buckets@[i]
        }
    &&& after.inf == if v.ceil > 60000 {
        before.inf.wrapping_add(1)
    } else {
        before.inf
    }
}

/// Every observation counts once: as long as no counter wraps around, the total
/// grows by one.
pub proof fn law_observations_count_once(before: Histogram, after: Histogram, v: Observation)
    requires
        before.wf(),
        observed(before, after, v),
        before.total() < u64::MAX,
    ensures
        after.total() == before.total() + 1,
{
    let a = after.buckets@;
    let b = before.buckets@;
    lemma_cumulative_monotone(b, N_BUCKETS as int, N_BUCKETS as int);
    if v.ceil > 60000 {
        assert forall|i: int| 0 <= i < N_BUCKETS implies !bucket_of(v.ceil, i) by {
            lemma_bounds_ascend(i);
        }
        lemma_same_cumulative(b, a, N_BUCKETS as int);
    } else {
        let k = first_bucket(v.ceil, 0);
        lemma_first_bucket(v.ceil, 0);
        lemma_one_more(b, a, v.ceil, k, N_BUCKETS as int);
    }
}

spec fn first_bucket(ceil: u64, i: int) -> int
    decreases N_BUCKETS - i,
{
    if i >= N_BUCKETS || ceil <= bucket_bounds()[i] {
        i
    } else {
        first_bucket(ceil, i + 1)
    }
}

proof fn lemma_first_bucket(ceil: u64, i: int)
    requires
        0 <= i < N_BUCKETS,
        ceil <= 60000,
        forall|j: int| 0 <= j < i ==> ceil > #[trigger] bucket_bounds()[j],
    ensures
        bucket_of(ceil, first_bucket(ceil, i)),
    decreases N_BUCKETS - i,
{
    if ceil > bucket_bounds()[i] {
        assert(bucket_bounds()[11] == 60000);
        lemma_first_bucket(ceil, i + 1);
    }
}

proof fn lemma_same_cumulative(b: Seq<u64>, a: Seq<u64>, n: int)
    requires
        0 <= n <= b.len(),
        b.len() == a.len(),
        forall|i: int| 0 <= i < n ==> #[trigger] a[i] == b[i],
    ensures
        cumulative(a, n) == cumulative(b, n),
    decreases n,
{
    if n > 0 {
        lemma_same_cumulative(b, a, n - 1);
    }
}

proof fn lemma_one_more(b: Seq<u64>, a: Seq<u64>, ceil: u64, k: int, n: int)
    requires
        0 <= n <= N_BUCKETS,
        b.len() == N_BUCKETS,
        a.len() == N_BUCKETS,
        bucket_of(ceil, k),
        cumulative(b, N_BUCKETS as int) < u64::MAX,
        forall|i: int|
            0 <= i < N_BUCKETS ==> #[trigger] a[i] == if bucket_of(ceil, i) {
                b[i].wrapping_add(1)
            } else {
                b[i]
            },
    ensures
        cumulative(a, n) == cumulative(b, n) + if k < n {
            1int
        } else {
            0
        },
    decreases n,
{
    if n > 0 {
        lemma_one_more(b, a, ceil, k, n - 1);
        let i = n - 1;
        if i != k {
            if bucket_of(ceil, i) {
                if i < k {
                    assert(ceil > bucket_bounds()[i]);
                } else {
                    assert(ceil > bucket_bounds()[k]);
                }
            }
        } else {
            lemma_cumulative_monotone(b, n, N_BUCKETS as int);
            lemma_cumulative_monotone(b, n - 1, n);
            assert(b[i] < u64::MAX);
        }
        assert(a[i] == if bucket_of(ceil, i) {
            b[i].wrapping_add(1)
        } else {
            b[i]
        });
    }
}

// ---- Laws of the exposition, over its lines ----

/// The text is empty or ends with a line.
pub open spec fn ends_line(t: Seq<char>) -> bool {
    t.len() == 0 || t.last() == '\n'
}

/// `line` is one of the lines of `t`.
#[verifier::opaque]
pub open spec fn has_line(t: Seq<char>, line: Seq<char>) -> bool {
    exists|i: int| #[trigger] line_at(t, line, i)
}

/// `line` is the line of `t` that starts at `i`.
pub open spec fn line_at(t: Seq<char>, line: Seq<char>, i: int) -> bool {
    &&& 0 <= i
    &&& i + line.len() < t.len()
    &&& t.subrange(i, i + line.len()) == line
    &&& t[i + line.len()] == '\n'
    &&& i == 0 || t[i - 1] == '\n'
}

proof fn lemma_line_within(a: Seq<char>, t: Seq<char>, b: Seq<char>, line: Seq<char>)
    requires
        ends_line(a),
        has_line(t, line),
    ensures
        has_line(a + t + b, line),
{
    reveal(has_line);
    let i = choose|i: int| #[trigger] line_at(t, line, i);
    let all = a + t + b;
    let j = a.len() + i;
    assert(all.subrange(j, j + line.len()) =~= t.subrange(i, i + line.len()));
    assert(line_at(all, line, j));
}

proof fn lemma_line_between(a: Seq<char>, line: Seq<char>, b: Seq<char>)
    requires
        ends_line(a),
    ensures
        has_line(a + (line + "\n"@) + b, line),
        ends_line(a + (line + "\n"@)),
{
    reveal_strlit("\n");
    let t = line + "\n"@;
    assert(t.subrange(0, line.len() as int) =~= line);
    reveal(has_line);
    assert(line_at(t, line, 0));
    lemma_line_within(a, t, b, line);
}

proof fn lemma_assoc(a: Seq<char>, b: Seq<char>, c: Seq<char>)
    ensures
        (a + b) + c == a + (b + c),
{
    assert((a + b) + c =~= a + (b + c));
}

proof fn lemma_nothing_after(a: Seq<char>)
    ensures
        a + Seq::<char>::empty() == a,
        Seq::<char>::empty() + a == a,
{
    assert(a + Seq::<char>::empty() =~= a);
    assert(Seq::<char>::empty() + a =~= a);
}

proof fn lemma_ends_line(a: Seq<char>)
    ensures
        ends_line(a + "\n"@),
{
    reveal_strlit("\n");
}

/// The line of a series with one value.
pub open spec fn value_line(name: Seq<char>, value: Seq<char>) -> Seq<char> {
    name + " "@ + value
}

/// The line of a histogram's bucket.
pub open spec fn bucket_line(name: Seq<char>, bound: Seq<char>, count: int) -> Seq<char> {
    name + "_bucket{le=\""@ + bound + "\"} "@ + decimal_text(count)
}

#[verifier::spinoff_prover]
#[verifier::rlimit(60)]
proof fn lemma_single_lines(
    name: Seq<char>,
    help: Seq<char>,
    kind: Seq<char>,
    value: Seq<char>,
)
    ensures
        ends_line(header_text(name, help, kind)),
        ends_line(single_text(name, help, kind, value)),
        has_line(single_text(name, help, kind, value), value_line(name, value)),
{
    let head = header_text(name, help, kind);
    let nl = "\n"@;
    let line = value_line(name, value);
    lemma_ends_line("# HELP "@ + name + " "@ + help + "\n# TYPE "@ + name + " "@ + kind);
    lemma_line_between(head, line, Seq::<char>::empty());
    lemma_nothing_after(head + (line + nl));
    lemma_assoc(head, line, nl);
    lemma_assoc(head, name + " "@, value);
    lemma_assoc(head, name, " "@);
}

#[verifier::spinoff_prover]
#[verifier::rlimit(60)]
proof fn lemma_bucket_lines(name: Seq<char>, b: Seq<u64>, n: int, i: int)
    requires
        0 <= n <= N_BUCKETS,
    ensures
        ends_line(bucket_lines(name, b, n)),
        0 <= i < n ==> has_line(
            bucket_lines(name, b, n),
            bucket_line(name, decimal_text(bucket_bounds()[i] as int), cumulative(b, i + 1)),
        ),
    decreases n,
{
    reveal_strlit("\n");
    if n > 0 {
        lemma_bucket_lines(name, b, n - 1, i);
        let before = bucket_lines(name, b, n - 1);
        let none = Seq::<char>::empty();
        let last = bucket_line(
            name,
            decimal_text(bucket_bounds()[n - 1] as int),
            cumulative(b, n),
        );
        assert(bucket_lines(name, b, n) =~= before + (last + "\n"@) + none);
        lemma_line_between(before, last, none);
        if 0 <= i < n - 1 {
            lemma_line_within(
                none,
                before,
                last + "\n"@,
                bucket_line(
                    name,
                    decimal_text(bucket_bounds()[i] as int),
                    cumulative(b, i + 1),
                ),
            );
            assert(none + before + (last + "\n"@) =~= bucket_lines(name, b, n));
        }
    }
}

#[verifier::spinoff_prover]
#[verifier::rlimit(60)]
proof fn lemma_histogram_lines(
    h: Histogram,
    name: Seq<char>,
    help: Seq<char>,
    sum: Seq<char>,
    i: int,
)
    requires
        0 <= i < N_BUCKETS,
    ensures
        ends_line(histogram_text(h, name, help, sum)),
        has_line(
            histogram_text(h, name, help, sum),
            bucket_line(
                name,
                decimal_text(bucket_bounds()[i] as int),
                cumulative(h.buckets@, i + 1),
            ),
        ),
        has_line(histogram_text(h, name, help, sum), bucket_line(name, "+Inf"@, h.total())),
        has_line(histogram_text(h, name, help, sum), value_line(name + "_sum"@, sum)),
        has_line(
            histogram_text(h, name, help, sum),
            value_line(name + "_count"@, decimal_text(h.total())),
        ),
{
    reveal_strlit("\n");
    reveal_strlit("+Inf");
    reveal_strlit("_bucket{le=\"");
    reveal_strlit("_bucket{le=\"+Inf\"} ");
    reveal_strlit("\"} ");
    reveal_strlit("_sum ");
    reveal_strlit("_sum");
    reveal_strlit("_count ");
    reveal_strlit("_count");
    reveal_strlit(" ");
    assert("_bucket{le=\"+Inf\"} "@ =~= "_bucket{le=\""@ + "+Inf"@ + "\"} "@);
    assert("_sum "@ =~= "_sum"@ + " "@);
    assert("_count "@ =~= "_count"@ + " "@);
    let head = header_text(name, help, "histogram"@);
    let buckets = bucket_lines(name, h.buckets@, N_BUCKETS as int);
    let total = decimal_text(h.total());
    let inf = bucket_line(name, "+Inf"@, h.total());
    let sums = value_line(name + "_sum"@, sum);
    let count = value_line(name + "_count"@, total);
    let nl = "\n"@;
    let none = Seq::<char>::empty();
    let whole = histogram_text(h, name, help, sum);
    lemma_ends_line("# HELP "@ + name + " "@ + help + "\n# TYPE "@ + name + " "@ + "histogram"@);
    lemma_bucket_lines(name, h.buckets@, N_BUCKETS as int, i);
    let a1 = head + buckets;
    let a2 = a1 + (inf + nl);
    let a3 = a2 + (sums + nl);
    // The text, line by line.
    lemma_assoc(name, "_bucket{le=\""@, "+Inf"@);
    lemma_assoc(name, "_bucket{le=\""@ + "+Inf"@, "\"} "@);
    lemma_assoc(a1, name, "_bucket{le=\"+Inf\"} "@);
    lemma_assoc(a1, name + "_bucket{le=\"+Inf\"} "@, total);
    lemma_assoc(a1, inf, nl);
    assert(a1 + name + "_bucket{le=\"+Inf\"} "@ + total + nl == a2);
    lemma_assoc(name, "_sum"@, " "@);
    lemma_assoc(a2, name, "_sum "@);
    lemma_assoc(a2, name + "_sum "@, sum);
    lemma_assoc(a2, sums, nl);
    assert(a2 + name + "_sum "@ + sum + nl == a3);
    lemma_assoc(name, "_count"@, " "@);
    lemma_assoc(a3, name, "_count "@);
    lemma_assoc(a3, name + "_count "@, total);
    lemma_assoc(a3, count, nl);
    assert(whole == a3 + (count + nl));
    lemma_line_between(a1, inf, none);
    lemma_nothing_after(a2);
    lemma_line_between(a2, sums, none);
    lemma_nothing_after(a3);
    lemma_line_between(a3, count, none);
    lemma_nothing_after(whole);
    lemma_nothing_after(a1);
    lemma_line_within(
        head,
        buckets,
        none,
        bucket_line(name, decimal_text(bucket_bounds()[i] as int), cumulative(h.buckets@, i + 1)),
    );
    lemma_line_goes_on(
        a1,
        inf + nl,
        bucket_line(name, decimal_text(bucket_bounds()[i] as int), cumulative(h.buckets@, i + 1)),
    );
    lemma_line_goes_on(
        a2,
        sums + nl,
        bucket_line(name, decimal_text(bucket_bounds()[i] as int), cumulative(h.buckets@, i + 1)),
    );
    lemma_line_goes_on(
        a3,
        count + nl,
        bucket_line(name, decimal_text(bucket_bounds()[i] as int), cumulative(h.buckets@, i + 1)),
    );
    lemma_line_goes_on(a2, sums + nl, inf);
    lemma_line_goes_on(a3, count + nl, inf);
    lemma_line_goes_on(a3, count + nl, sums);
}

proof fn lemma_line_goes_on(t: Seq<char>, b: Seq<char>, line: Seq<char>)
    requires
        has_line(t, line),
    ensures
        has_line(t + b, line),
{
    let none = Seq::<char>::empty();
    lemma_line_within(none, t, b, line);
    lemma_nothing_after(t);
}

/// A series: what of the exposition comes before it, and what after.
proof fn lemma_series(parts: Seq<Seq<char>>, k: int, line: Seq<char>)
    requires
        0 <= k < parts.len(),
        forall|i: int| 0 <= i < parts.len() ==> ends_line(#[trigger] parts[i]),
        has_line(parts[k], line),
    ensures
        has_line(joined(parts, parts.len() as int), line),
{
    lemma_joined_ends(parts, k);
    lemma_joined_from(parts, parts.len() as int, k, line);
}

spec fn joined(parts: Seq<Seq<char>>, n: int) -> Seq<char>
    decreases n,
{
    if n <= 0 {
        Seq::empty()
    } else if n == 1 {
        parts[0]
    } else {
        joined(parts, n - 1) + parts[n - 1]
    }
}

proof fn lemma_joined_ends(parts: Seq<Seq<char>>, n: int)
    requires
        0 <= n <= parts.len(),
        forall|i: int| 0 <= i < parts.len() ==> ends_line(#[trigger] parts[i]),
    ensures
        ends_line(joined(parts, n)),
    decreases n,
{
    if n > 1 {
        lemma_joined_ends(parts, n - 1);
        assert(ends_line(parts[n - 1]));
    } else if n == 1 {
        assert(ends_line(parts[0]));
    }
}

proof fn lemma_joined_from(parts: Seq<Seq<char>>, n: int, k: int, line: Seq<char>)
    requires
        0 <= k < n <= parts.len(),
        forall|i: int| 0 <= i < parts.len() ==> ends_line(#[trigger] parts[i]),
        has_line(parts[k], line),
    ensures
        has_line(joined(parts, n), line),
    decreases n,
{
    let none = Seq::<char>::empty();
    if n > 1 {
        let before = joined(parts, n - 1);
        if k < n - 1 {
            lemma_joined_from(parts, n - 1, k, line);
            lemma_line_within(none, before, parts[n - 1], line);
            assert(none + before + parts[n - 1] =~= joined(parts, n));
        } else {
            lemma_joined_ends(parts, n - 1);
            lemma_line_within(before, parts[n - 1], none, line);
            assert(before + parts[n - 1] + none =~= joined(parts, n));
        }
    }
}

spec fn series(m: Metrics, t: FloatTexts, model_loaded: bool) -> Seq<Seq<char>> {
    seq![
        single_text(
            "hipfire_requests_total"@,
            "Completed generation requests."@,
            "counter"@,
            decimal_text(m.requests_total as int),
        ),
        single_text(
            "hipfire_requests_failed_total"@,
            "Requests that ended in an error response."@,
            "counter"@,
            decimal_text(m.requests_failed as int),
        ),
        single_text(
            "hipfire_admission_rejected_total"@,
            "Requests refused by admission control (queue full or model mismatch)."@,
            "counter"@,
            decimal_text(m.admission_rejected as int),
        ),
        single_text(
            "hipfire_queue_depth"@,
            "Requests currently in flight or queued."@,
            "gauge"@,
            t.queue_depth@,
        ),
        single_text(
            "hipfire_queue_capacity"@,
            "Admission control capacity."@,
            "gauge"@,
            t.queue_capacity@,
        ),
        single_text(
            "hipfire_uptime_seconds"@,
            "Seconds since the gateway started."@,
            "gauge"@,
            t.uptime_seconds@,
        ),
        single_text(
            "hipfire_model_loaded"@,
            "1 when a model is resident, 0 otherwise."@,
            "gauge"@,
            if model_loaded {
                "1"@
            } else {
                "0"@
            },
        ),
        histogram_text(
            m.ttft_ms,
            "hipfire_ttft_milliseconds"@,
            "Time to first token, per request."@,
            t.ttft_sum@,
        ),
        histogram_text(
            m.latency_ms,
            "hipfire_request_latency_milliseconds"@,
            "Wall time per request."@,
            t.latency_sum@,
        ),
        histogram_text(
            m.decode_tok_s,
            "hipfire_decode_tokens_per_second"@,
            "Decode throughput per request."@,
            t.decode_sum@,
        ),
        histogram_text(
            m.prefill_tok_s,
            "hipfire_prefill_tokens_per_second"@,
            "Prefill throughput per request."@,
            t.prefill_sum@,
        ),
    ]
}

#[verifier::rlimit(90)]
proof fn lemma_exposition_is_its_series(m: Metrics, t: FloatTexts, model_loaded: bool)
    ensures
        m.exposition(t, model_loaded) == joined(series(m, t, model_loaded), 11),
        series(m, t, model_loaded).len() == 11,
{
    lemma_join(series(m, t, model_loaded));
}

proof fn lemma_join(p: Seq<Seq<char>>)
    requires
        p.len() == 11,
    ensures
        joined(p, 11) == p[0] + p[1] + p[2] + p[3] + p[4] + p[5] + p[6] + p[7] + p[8] + p[9]
            + p[10],
{
    reveal_with_fuel(joined, 12);
}

proof fn lemma_part(m: Metrics, t: FloatTexts, model_loaded: bool, k: int)
    requires
        0 <= k < 11,
    ensures
        ends_line(series(m, t, model_loaded)[k]),
        k < 7 ==> has_line(
            series(m, t, model_loaded)[k],
            value_line(single_name(k), single_value(m, t, model_loaded, k)),
        ),
{
    let p = series(m, t, model_loaded)[k];
    if k < 7 {
        let (help, kind) = if k == 0 {
            ("Completed generation requests."@, "counter"@)
        } else if k == 1 {
            ("Requests that ended in an error response."@, "counter"@)
        } else if k == 2 {
            (
                "Requests refused by admission control (queue full or model mismatch)."@,
                "counter"@,
            )
        } else if k == 3 {
            ("Requests currently in flight or queued."@, "gauge"@)
        } else if k == 4 {
            ("Admission control capacity."@, "gauge"@)
        } else if k == 5 {
            ("Seconds since the gateway started."@, "gauge"@)
        } else {
            ("1 when a model is resident, 0 otherwise."@, "gauge"@)
        };
        lemma_single_lines(single_name(k), help, kind, single_value(m, t, model_loaded, k));
    } else if k == 7 {
        lemma_histogram_lines(
            m.ttft_ms,
            "hipfire_ttft_milliseconds"@,
            "Time to first token, per request."@,
            t.ttft_sum@,
            0,
        );
    } else if k == 8 {
        lemma_histogram_lines(
            m.latency_ms,
            "hipfire_request_latency_milliseconds"@,
            "Wall time per request."@,
            t.latency_sum@,
            0,
        );
    } else if k == 9 {
        lemma_histogram_lines(
            m.decode_tok_s,
            "hipfire_decode_tokens_per_second"@,
            "Decode throughput per request."@,
            t.decode_sum@,
            0,
        );
    } else {
        lemma_histogram_lines(
            m.prefill_tok_s,
            "hipfire_prefill_tokens_per_second"@,
            "Prefill throughput per request."@,
            t.prefill_sum@,
            0,
        );
    }
}

proof fn lemma_parts_end(m: Metrics, t: FloatTexts, model_loaded: bool)
    ensures
        forall|k: int| 0 <= k < 11 ==> ends_line(#[trigger] series(m, t, model_loaded)[k]),
{
    assert forall|k: int| 0 <= k < 11 implies ends_line(
        #[trigger] series(m, t, model_loaded)[k],
    ) by {
        lemma_part(m, t, model_loaded, k);
    }
}

spec fn single_name(k: int) -> Seq<char> {
    if k == 0 {
        "hipfire_requests_total"@
    } else if k == 1 {
        "hipfire_requests_failed_total"@
    } else if k == 2 {
        "hipfire_admission_rejected_total"@
    } else if k == 3 {
        "hipfire_queue_depth"@
    } else if k == 4 {
        "hipfire_queue_capacity"@
    } else if k == 5 {
        "hipfire_uptime_seconds"@
    } else {
        "hipfire_model_loaded"@
    }
}

spec fn single_value(m: Metrics, t: FloatTexts, model_loaded: bool, k: int) -> Seq<char> {
    if k == 0 {
        decimal_text(m.requests_total as int)
    } else if k == 1 {
        decimal_text(m.requests_failed as int)
    } else if k == 2 {
        decimal_text(m.admission_rejected as int)
    } else if k == 3 {
        t.queue_depth@
    } else if k == 4 {
        t.queue_capacity@
    } else if k == 5 {
        t.uptime_seconds@
    } else if model_loaded {
        "1"@
    } else {
        "0"@
    }
}

/// Each counter and gauge is exposed under its own name.
#[verifier::rlimit(60)]
pub proof fn law_counters_are_exposed_under_their_names(
    m: Metrics,
    t: FloatTexts,
    model_loaded: bool,
)
    ensures
        ({
            let text = m.exposition(t, model_loaded);
            &&& has_line(
                text,
                "hipfire_requests_total"@ + " "@ + decimal_text(m.requests_total as int),
            )
            &&& has_line(
                text,
                "hipfire_requests_failed_total"@ + " "@ + decimal_text(m.requests_failed as int),
            )
            &&& has_line(
                text,
                "hipfire_admission_rejected_total"@ + " "@ + decimal_text(
                    m.admission_rejected as int,
                ),
            )
            &&& has_line(text, "hipfire_queue_depth"@ + " "@ + t.queue_depth@)
            &&& has_line(text, "hipfire_queue_capacity"@ + " "@ + t.queue_capacity@)
            &&& has_line(text, "hipfire_uptime_seconds"@ + " "@ + t.uptime_seconds@)
            &&& model_loaded ==> has_line(text, "hipfire_model_loaded"@ + " "@ + "1"@)
            &&& !model_loaded ==> has_line(text, "hipfire_model_loaded"@ + " "@ + "0"@)
        }),
{
    lemma_exposition_is_its_series(m, t, model_loaded);
    lemma_single_is_exposed(m, t, model_loaded, 0);
    lemma_single_is_exposed(m, t, model_loaded, 1);
    lemma_single_is_exposed(m, t, model_loaded, 2);
    lemma_single_is_exposed(m, t, model_loaded, 3);
    lemma_single_is_exposed(m, t, model_loaded, 4);
    lemma_single_is_exposed(m, t, model_loaded, 5);
    lemma_single_is_exposed(m, t, model_loaded, 6);
}

proof fn lemma_single_is_exposed(m: Metrics, t: FloatTexts, model_loaded: bool, k: int)
    requires
        0 <= k < 7,
    ensures
        has_line(
            joined(series(m, t, model_loaded), 11),
            single_name(k) + " "@ + single_value(m, t, model_loaded, k),
        ),
{
    lemma_parts_end(m, t, model_loaded);
    lemma_part(m, t, model_loaded, k);
    lemma_series(
        series(m, t, model_loaded),
        k,
        value_line(single_name(k), single_value(m, t, model_loaded, k)),
    );
}

/// The lines of a histogram's series: a cumulative count under each bound, the
/// number of observations under no bound, their sum and their number.
pub open spec fn tells_histogram(
    text: Seq<char>,
    name: Seq<char>,
    h: Histogram,
    sum: Seq<char>,
    i: int,
) -> bool {
    &&& has_line(
        text,
        bucket_line(
            name,
            decimal_text(bucket_bounds()[i] as int),
            cumulative(h.buckets@, i + 1),
        ),
    )
    &&& has_line(text, bucket_line(name, "+Inf"@, h.total()))
    &&& has_line(text, value_line(name + "_sum"@, sum))
    &&& has_line(text, value_line(name + "_count"@, decimal_text(h.total())))
}

/// Each histogram is exposed under its own name: the buckets, sum and count of a
/// series are those of the observations that the series is named for.
#[verifier::rlimit(90)]
pub proof fn law_histograms_are_exposed_under_their_names(
    m: Metrics,
    t: FloatTexts,
    model_loaded: bool,
    i: int,
)
    requires
        0 <= i < N_BUCKETS,
    ensures
        ({
            let text = m.exposition(t, model_loaded);
            &&& tells_histogram(
                text,
                "hipfire_ttft_milliseconds"@,
                m.ttft_ms,
                t.ttft_sum@,
                i,
            )
            &&& tells_histogram(
                text,
                "hipfire_request_latency_milliseconds"@,
                m.latency_ms,
                t.latency_sum@,
                i,
            )
            &&& tells_histogram(
                text,
                "hipfire_decode_tokens_per_second"@,
                m.decode_tok_s,
                t.decode_sum@,
                i,
            )
            &&& tells_histogram(
                text,
                "hipfire_prefill_tokens_per_second"@,
                m.prefill_tok_s,
                t.prefill_sum@,
                i,
            )
        }),
{
    let text = m.exposition(t, model_loaded);
    let p = series(m, t, model_loaded);
    lemma_exposition_is_its_series(m, t, model_loaded);
    lemma_parts_end(m, t, model_loaded);
    lemma_series_of_histogram(
        p,
        7,
        m.ttft_ms,
        "hipfire_ttft_milliseconds"@,
        "Time to first token, per request."@,
        t.ttft_sum@,
        i,
    );
    lemma_series_of_histogram(
        p,
        8,
        m.latency_ms,
        "hipfire_request_latency_milliseconds"@,
        "Wall time per request."@,
        t.latency_sum@,
        i,
    );
    lemma_series_of_histogram(
        p,
        9,
        m.decode_tok_s,
        "hipfire_decode_tokens_per_second"@,
        "Decode throughput per request."@,
        t.decode_sum@,
        i,
    );
    lemma_series_of_histogram(
        p,
        10,
        m.prefill_tok_s,
        "hipfire_prefill_tokens_per_second"@,
        "Prefill throughput per request."@,
        t.prefill_sum@,
        i,
    );
}

proof fn lemma_series_of_histogram(
    p: Seq<Seq<char>>,
    k: int,
    h: Histogram,
    name: Seq<char>,
    help: Seq<char>,
    sum: Seq<char>,
    i: int,
)
    requires
        p.len() == 11,
        0 <= k < 11,
        0 <= i < N_BUCKETS,
        forall|k: int| 0 <= k < 11 ==> ends_line(#[trigger] p[k]),
        p[k] == histogram_text(h, name, help, sum),
    ensures
        tells_histogram(joined(p, 11), name, h, sum, i),
{
    lemma_histogram_lines(h, name, help, sum, i);
    lemma_series(
        p,
        k,
        bucket_line(name, decimal_text(bucket_bounds()[i] as int), cumulative(h.buckets@, i + 1)),
    );
    lemma_series(p, k, bucket_line(name, "+Inf"@, h.total()));
    lemma_series(p, k, value_line(name + "_sum"@, sum));
    lemma_series(p, k, value_line(name + "_count"@, decimal_text(h.total())));
}

/// Buckets are cumulative: an observation counts under every bound that it does
/// not pass, and under no other.
pub proof fn law_buckets_count_up_to_their_bound(
    before: Histogram,
    after: Histogram,
    v: Observation,
    i: int,
)
    requires
        before.wf(),
        observed(before, after, v),
        before.total() < u64::MAX,
        0 <= i < N_BUCKETS,
    ensures
        cumulative(after.buckets@, i + 1) == cumulative(before.buckets@, i + 1) + if v.ceil
            <= bucket_bounds()[i] {
            1int
        } else {
            0
        },
{
    let a = after.buckets@;
    let b = before.buckets@;
    let n = i + 1;
    lemma_cumulative_monotone(b, N_BUCKETS as int, N_BUCKETS as int);
    lemma_bounds_ascend(i);
    if v.ceil > 60000 {
        assert forall|k: int| 0 <= k < n implies #[trigger] a[k] == b[k] by {
            lemma_bounds_ascend(k);
        }
        lemma_same_cumulative(b, a, n);
    } else {
        let k = first_bucket(v.ceil, 0);
        lemma_first_bucket(v.ceil, 0);
        lemma_one_more(b, a, v.ceil, k, n);
        if k < i {
            lemma_bounds_increase(k, i);
        }
        if i < k {
            assert(v.ceil > bucket_bounds()[i]);
        }
    }
}

proof fn lemma_bounds_increase(i: int, j: int)
    requires
        0 <= i < j < N_BUCKETS,
    ensures
        bucket_bounds()[i] < bucket_bounds()[j],
{
    assert(bucket_bounds() =~= seq![
        10u64,
        25,
        50,
        100,
        250,
        500,
        1000,
        2500,
        5000,
        10000,
        30000,
        60000,
    ]);
}

/// A histogram's lines add up: each bucket's count is that of the bucket before
/// and its own, and the count of all is that of the last bucket and what passed
/// its bound.
pub proof fn law_counts_add_up(h: Histogram, i: int)
    requires
        h.wf(),
        0 <= i < N_BUCKETS,
    ensures
        cumulative(h.buckets@, 0) == 0,
        cumulative(h.buckets@, i + 1) == cumulative(h.buckets@, i) + h.buckets@[i],
        h.total() == cumulative(h.buckets@, N_BUCKETS as int) + h.inf,
        forall|j: int|
            0 <= j < i ==> #[trigger] bucket_bounds()[j] < bucket_bounds()[i],
{
    assert forall|j: int| 0 <= j < i implies #[trigger] bucket_bounds()[j]
        < bucket_bounds()[i] by {
        lemma_bounds_increase(j, i);
    }
}

proof fn lemma_same_rest(x: Seq<char>, r1: Seq<char>, r2: Seq<char>)
    requires
        x + r1 == x + r2,
    ensures
        r1 == r2,
{
    assert(r1 =~= (x + r1).skip(x.len() as int));
    assert(r2 =~= (x + r2).skip(x.len() as int));
}

/// Equal texts that hold a number between the same words hold the same number.
proof fn lemma_number_between(
    head: Seq<char>,
    a: int,
    b: int,
    stop: Seq<char>,
    r1: Seq<char>,
    r2: Seq<char>,
)
    requires
        a >= 0,
        b >= 0,
        stop.len() > 0,
        !('0' <= stop[0] <= '9'),
        head + decimal_text(a) + stop + r1 == head + decimal_text(b) + stop + r2,
    ensures
        a == b,
        r1 == r2,
{
    assert(head + decimal_text(a) + stop + r1 =~= head + (decimal_text(a) + (stop + r1)));
    assert(head + decimal_text(b) + stop + r2 =~= head + (decimal_text(b) + (stop + r2)));
    lemma_same_rest(head, decimal_text(a) + (stop + r1), decimal_text(b) + (stop + r2));
    lemma_number_before_stop(a, b, stop[0], stop + r1, stop + r2);
    lemma_same_rest(stop, r1, r2);
}

proof fn lemma_single_apart(
    name: Seq<char>,
    help: Seq<char>,
    kind: Seq<char>,
    a: int,
    b: int,
    r1: Seq<char>,
    r2: Seq<char>,
)
    requires
        a >= 0,
        b >= 0,
        single_text(name, help, kind, decimal_text(a)) + r1 == single_text(
            name,
            help,
            kind,
            decimal_text(b),
        ) + r2,
    ensures
        a == b,
        r1 == r2,
{
    reveal_strlit("\n");
    lemma_number_between(header_text(name, help, kind) + name + " "@, a, b, "\n"@, r1, r2);
}

#[verifier::spinoff_prover]
#[verifier::rlimit(60)]
proof fn lemma_buckets_apart(
    name: Seq<char>,
    x: Seq<u64>,
    y: Seq<u64>,
    n: int,
    r1: Seq<char>,
    r2: Seq<char>,
    i: int,
)
    requires
        0 <= n <= N_BUCKETS,
        x.len() == N_BUCKETS,
        y.len() == N_BUCKETS,
        bucket_lines(name, x, n) + r1 == bucket_lines(name, y, n) + r2,
    ensures
        r1 == r2,
        0 <= i < n ==> cumulative(x, i + 1) == cumulative(y, i + 1),
    decreases n,
{
    reveal_strlit("\n");
    let none = Seq::<char>::empty();
    if n > 0 {
        let head = name + "_bucket{le=\""@ + decimal_text(bucket_bounds()[n - 1] as int)
            + "\"} "@;
        let s1 = head + decimal_text(cumulative(x, n)) + "\n"@ + r1;
        let s2 = head + decimal_text(cumulative(y, n)) + "\n"@ + r2;
        assert(bucket_lines(name, x, n) + r1 =~= bucket_lines(name, x, n - 1) + s1);
        assert(bucket_lines(name, y, n) + r2 =~= bucket_lines(name, y, n - 1) + s2);
        lemma_buckets_apart(name, x, y, n - 1, s1, s2, i);
        lemma_cumulative_monotone(x, n, N_BUCKETS as int);
        lemma_cumulative_monotone(y, n, N_BUCKETS as int);
        lemma_number_between(head, cumulative(x, n), cumulative(y, n), "\n"@, r1, r2);
    } else {
        assert(bucket_lines(name, x, n) + r1 =~= r1);
        assert(bucket_lines(name, y, n) + r2 =~= r2);
    }
}

/// Buckets with the same count before and after them hold the same.
proof fn lemma_same_bucket(x: Seq<u64>, y: Seq<u64>, i: int)
    requires
        0 <= i < x.len(),
        i < y.len(),
        cumulative(x, i + 1) == cumulative(y, i + 1),
        i > 0 ==> cumulative(x, (i - 1) + 1) == cumulative(y, (i - 1) + 1),
    ensures
        x[i] == y[i],
{
    assert((i - 1) + 1 == i);
    assert(cumulative(x, i + 1) == cumulative(x, i) + x[i]);
    assert(cumulative(y, i + 1) == cumulative(y, i) + y[i]);
}

/// Equal texts of a histogram, whatever follows, tell the same counts.
#[verifier::spinoff_prover]
#[verifier::rlimit(60)]
proof fn lemma_histograms_apart(
    g: Histogram,
    h: Histogram,
    name: Seq<char>,
    help: Seq<char>,
    sum: Seq<char>,
    r1: Seq<char>,
    r2: Seq<char>,
)
    requires
        g.wf(),
        h.wf(),
        histogram_text(g, name, help, sum) + r1 == histogram_text(h, name, help, sum) + r2,
    ensures
        g.buckets@ == h.buckets@,
        g.inf == h.inf,
        r1 == r2,
{
    reveal_strlit("\n");
    let head = header_text(name, help, "histogram"@);
    let n = N_BUCKETS as int;
    let inf = name + "_bucket{le=\"+Inf\"} "@;
    let sums = between_counts(name, sum);
    let t1 = histogram_tail(name, sum, g.total(), r1);
    let t2 = histogram_tail(name, sum, h.total(), r2);
    lemma_histogram_split(g, name, help, sum, r1);
    lemma_histogram_split(h, name, help, sum, r2);
    lemma_same_rest(
        head,
        bucket_lines(name, g.buckets@, n) + t1,
        bucket_lines(name, h.buckets@, n) + t2,
    );
    lemma_buckets_apart(name, g.buckets@, h.buckets@, n, t1, t2, n - 1);
    lemma_cumulative_monotone(g.buckets@, n, n);
    lemma_cumulative_monotone(h.buckets@, n, n);
    assert(sums[0] == '\n');
    lemma_number_between(
        inf,
        g.total(),
        h.total(),
        sums,
        decimal_text(g.total()) + ("\n"@ + r1),
        decimal_text(h.total()) + ("\n"@ + r2),
    );
    lemma_same_rest(decimal_text(g.total()), "\n"@ + r1, "\n"@ + r2);
    lemma_same_rest("\n"@, r1, r2);
    assert forall|i: int| 0 <= i < n implies g.buckets@[i] == h.buckets@[i] by {
        lemma_buckets_apart(name, g.buckets@, h.buckets@, n, t1, t2, i);
        lemma_buckets_apart(name, g.buckets@, h.buckets@, n, t1, t2, i - 1);
        lemma_same_bucket(g.buckets@, h.buckets@, i);
    }
    assert(g.buckets@ =~= h.buckets@);
}

/// What stands between the two counts of a histogram.
spec fn between_counts(name: Seq<char>, sum: Seq<char>) -> Seq<char> {
    "\n"@ + name + "_sum "@ + sum + "\n"@ + name + "_count "@
}

/// What follows a histogram's bounded buckets.
spec fn histogram_tail(name: Seq<char>, sum: Seq<char>, total: int, r: Seq<char>) -> Seq<char> {
    name + "_bucket{le=\"+Inf\"} "@ + decimal_text(total) + between_counts(name, sum) + (
    decimal_text(total) + ("\n"@ + r))
}

#[verifier::spinoff_prover]
#[verifier::rlimit(60)]
proof fn lemma_histogram_split(
    h: Histogram,
    name: Seq<char>,
    help: Seq<char>,
    sum: Seq<char>,
    r: Seq<char>,
)
    ensures
        histogram_text(h, name, help, sum) + r == header_text(name, help, "histogram"@) + (
        bucket_lines(name, h.buckets@, N_BUCKETS as int) + histogram_tail(
            name,
            sum,
            h.total(),
            r,
        )),
{
    let head = header_text(name, help, "histogram"@);
    let buckets = bucket_lines(name, h.buckets@, N_BUCKETS as int);
    let total = decimal_text(h.total());
    let nl = "\n"@;
    let a = head + buckets;
    let inf = name + "_bucket{le=\"+Inf\"} "@;
    let b = a + inf + total;
    let x = total + (nl + r);
    lemma_assoc(a, name, "_bucket{le=\"+Inf\"} "@);
    let sums = between_counts(name, sum);
    lemma_assoc(b, nl, name);
    lemma_assoc(b, nl + name, "_sum "@);
    lemma_assoc(b, nl + name + "_sum "@, sum);
    lemma_assoc(b, nl + name + "_sum "@ + sum, nl);
    lemma_assoc(b, nl + name + "_sum "@ + sum + nl, name);
    lemma_assoc(b, nl + name + "_sum "@ + sum + nl + name, "_count "@);
    let c = b + sums;
    assert(histogram_text(h, name, help, sum) == c + total + nl);
    lemma_assoc(c + total, nl, r);
    lemma_assoc(c, total, nl + r);
    assert(histogram_text(h, name, help, sum) + r == c + x);
    lemma_assoc(a + inf, total, sums);
    lemma_assoc(a, inf, total + sums);
    lemma_assoc(inf, total, sums);
    assert(c == a + (inf + total + sums));
    lemma_assoc(a, inf + total + sums, x);
    lemma_assoc(head, buckets, inf + total + sums + x);
}

/// The parts from `k` on.
spec fn from_part(p: Seq<Seq<char>>, k: int) -> Seq<char>
    decreases p.len() - k,
{
    if k >= p.len() {
        Seq::empty()
    } else {
        p[k] + from_part(p, k + 1)
    }
}

proof fn lemma_from_part(p: Seq<Seq<char>>, n: int)
    requires
        1 <= n <= p.len(),
    ensures
        joined(p, n) + from_part(p, n) == p[0] + from_part(p, 1),
        n == p.len() ==> joined(p, n) == p[0] + from_part(p, 1),
    decreases n,
{
    if n > 1 {
        lemma_from_part(p, n - 1);
        lemma_assoc(joined(p, n - 1), p[n - 1], from_part(p, n));
    }
    if n == p.len() {
        lemma_nothing_after(joined(p, n));
    }
}

/// Nothing that was counted is hidden: metrics that differ in a counter or in the
/// counts of a histogram have different expositions.
pub proof fn law_expositions_tell_metrics_apart(
    a: Metrics,
    b: Metrics,
    t: FloatTexts,
    model_loaded: bool,
)
    requires
        a.wf(),
        b.wf(),
        a.exposition(t, model_loaded) == b.exposition(t, model_loaded),
    ensures
        a.requests_total == b.requests_total,
        a.requests_failed == b.requests_failed,
        a.admission_rejected == b.admission_rejected,
        a.ttft_ms.buckets@ == b.ttft_ms.buckets@,
        a.ttft_ms.inf == b.ttft_ms.inf,
        a.latency_ms.buckets@ == b.latency_ms.buckets@,
        a.latency_ms.inf == b.latency_ms.inf,
        a.decode_tok_s.buckets@ == b.decode_tok_s.buckets@,
        a.decode_tok_s.inf == b.decode_tok_s.inf,
        a.prefill_tok_s.buckets@ == b.prefill_tok_s.buckets@,
        a.prefill_tok_s.inf == b.prefill_tok_s.inf,
{
    lemma_exposition_is_its_series(a, t, model_loaded);
    lemma_exposition_is_its_series(b, t, model_loaded);
    lemma_series_apart(series(a, t, model_loaded), series(b, t, model_loaded), a, b, t);
}

#[verifier::rlimit(90)]
proof fn lemma_series_apart(
    p: Seq<Seq<char>>,
    q: Seq<Seq<char>>,
    a: Metrics,
    b: Metrics,
    t: FloatTexts,
)
    requires
        a.wf(),
        b.wf(),
        exists|model_loaded: bool|
            p == #[trigger] series(a, t, model_loaded) && q == series(b, t, model_loaded),
        p.len() == 11,
        q.len() == 11,
        joined(p, 11) == joined(q, 11),
    ensures
        a.requests_total == b.requests_total,
        a.requests_failed == b.requests_failed,
        a.admission_rejected == b.admission_rejected,
        a.ttft_ms.buckets@ == b.ttft_ms.buckets@,
        a.ttft_ms.inf == b.ttft_ms.inf,
        a.latency_ms.buckets@ == b.latency_ms.buckets@,
        a.latency_ms.inf == b.latency_ms.inf,
        a.decode_tok_s.buckets@ == b.decode_tok_s.buckets@,
        a.decode_tok_s.inf == b.decode_tok_s.inf,
        a.prefill_tok_s.buckets@ == b.prefill_tok_s.buckets@,
        a.prefill_tok_s.inf == b.prefill_tok_s.inf,
{
    let (p1, q1) = (from_part(p, 1), from_part(q, 1));
    let (p2, q2) = (from_part(p, 2), from_part(q, 2));
    let (p3, q3) = (from_part(p, 3), from_part(q, 3));
    let (p4, q4) = (from_part(p, 4), from_part(q, 4));
    let (p5, q5) = (from_part(p, 5), from_part(q, 5));
    let (p6, q6) = (from_part(p, 6), from_part(q, 6));
    let (p7, q7) = (from_part(p, 7), from_part(q, 7));
    let (p8, q8) = (from_part(p, 8), from_part(q, 8));
    let (p9, q9) = (from_part(p, 9), from_part(q, 9));
    let (p10, q10) = (from_part(p, 10), from_part(q, 10));
    let none = Seq::<char>::empty();
    lemma_from_part(p, 11);
    lemma_from_part(q, 11);
    lemma_single_apart(
        "hipfire_requests_total"@,
        "Completed generation requests."@,
        "counter"@,
        a.requests_total as int,
        b.requests_total as int,
        p1,
        q1,
    );
    lemma_single_apart(
        "hipfire_requests_failed_total"@,
        "Requests that ended in an error response."@,
        "counter"@,
        a.requests_failed as int,
        b.requests_failed as int,
        p2,
        q2,
    );
    lemma_single_apart(
        "hipfire_admission_rejected_total"@,
        "Requests refused by admission control (queue full or model mismatch)."@,
        "counter"@,
        a.admission_rejected as int,
        b.admission_rejected as int,
        p3,
        q3,
    );
    lemma_same_rest(p[3], p4, q4);
    lemma_same_rest(p[4], p5, q5);
    lemma_same_rest(p[5], p6, q6);
    lemma_same_rest(p[6], p7, q7);
    lemma_histograms_apart(
        a.ttft_ms,
        b.ttft_ms,
        "hipfire_ttft_milliseconds"@,
        "Time to first token, per request."@,
        t.ttft_sum@,
        p8,
        q8,
    );
    lemma_histograms_apart(
        a.latency_ms,
        b.latency_ms,
        "hipfire_request_latency_milliseconds"@,
        "Wall time per request."@,
        t.latency_sum@,
        p9,
        q9,
    );
    lemma_histograms_apart(
        a.decode_tok_s,
        b.decode_tok_s,
        "hipfire_decode_tokens_per_second"@,
        "Decode throughput per request."@,
        t.decode_sum@,
        p10,
        q10,
    );
    lemma_histograms_apart(
        a.prefill_tok_s,
        b.prefill_tok_s,
        "hipfire_prefill_tokens_per_second"@,
        "Prefill throughput per request."@,
        t.prefill_sum@,
        none,
        none,
    );
}

/// Each bucket takes the observations between the bound before and its own; what
/// passes a minute is in none.
pub proof fn law_buckets_split_the_range(ms: u64, i: int)
    ensures
        bucket_of(ms, 0) <==> ms <= 10,
        bucket_of(ms, 1) <==> 10 < ms <= 25,
        bucket_of(ms, 2) <==> 25 < ms <= 50,
        bucket_of(ms, 3) <==> 50 < ms <= 100,
        bucket_of(ms, 4) <==> 100 < ms <= 250,
        bucket_of(ms, 5) <==> 250 < ms <= 500,
        bucket_of(ms, 6) <==> 500 < ms <= 1000,
        bucket_of(ms, 7) <==> 1000 < ms <= 2500,
        bucket_of(ms, 8) <==> 2500 < ms <= 5000,
        bucket_of(ms, 9) <==> 5000 < ms <= 10000,
        bucket_of(ms, 10) <==> 10000 < ms <= 30000,
        bucket_of(ms, 11) <==> 30000 < ms <= 60000,
        bucket_of(ms, i) ==> ms <= 60000 && 0 <= i < 12,
{
    let b = bucket_bounds();
    assert(b[0] == 10 && b[1] == 25 && b[2] == 50 && b[3] == 100 && b[4] == 250 && b[5] == 500);
    assert(b[6] == 1000 && b[7] == 2500 && b[8] == 5000 && b[9] == 10000 && b[10] == 30000);
    assert(b[11] == 60000);
    if bucket_of(ms, i) {
        lemma_bounds_ascend(i);
    }
}

/// An observation adds its value to the sum and leaves every other bucket alone.
pub proof fn law_observations_add_to_the_sum(
    before: Histogram,
    after: Histogram,
    v: Observation,
    i: int,
)
    requires
        before.wf(),
        observed(before, after, v),
        before.sum_milli + v.milli <= u64::MAX,
        0 <= i < N_BUCKETS,
    ensures
        after.sum_milli == before.sum_milli + v.milli,
        v.ceil > bucket_bounds()[i] ==> after.buckets@[i] == before.buckets@[i],
        v.ceil <= 60000 ==> after.inf == before.inf,
        v.ceil > 60000 && before.inf < u64::MAX ==> after.inf == before.inf + 1,
{
}

} // verus!
