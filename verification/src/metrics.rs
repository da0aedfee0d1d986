//! The metrics engine: per-container counters, bounded time series with a
//! sample-count and a retention bound, least-squares trend analysis over
//! exact rationals, threshold alerts and anomaly queries.

use vstd::prelude::*;
use crate::value::str_eq;

verus! {

broadcast use vstd::std_specs::vec::group_vec_axioms, vstd::seq::group_seq_axioms;

/// One metadata tag of a sample.
pub struct MetaPair {
    pub key: String,
    pub val: String,
}

/// One recorded sample: a millisecond timestamp and an integer value.
pub struct MetricSample {
    pub timestamp: u64,
    pub value: i64,
    pub meta: Vec<MetaPair>,
}

/// A bounded, time-ordered series of samples: at most `max_samples` are
/// kept, and none older than `retention_ms` before the latest add.
pub struct TimeSeries {
    pub samples: Vec<MetricSample>,
    pub max_samples: usize,
    pub retention_ms: u64,
}

/// Timestamps never decrease and the count bound holds.
pub open spec fn series_wf(s: TimeSeries) -> bool {
    &&& s.samples@.len() <= s.max_samples
    &&& forall|i: int, j: int|
        0 <= i < j < s.samples@.len() ==> s.samples@[i].timestamp <= s.samples@[j].timestamp
}

/// Index of the first sample at or after `i` whose timestamp reaches
/// `cutoff`, or the length.
pub open spec fn expire_idx(s: Seq<MetricSample>, i: int, cutoff: u64) -> int
    decreases s.len() - i,
{
    if i < 0 || i >= s.len() {
        s.len() as int
    } else if s[i].timestamp >= cutoff {
        i
    } else {
        expire_idx(s, i + 1, cutoff)
    }
}

pub proof fn lemma_expire_idx_props(s: Seq<MetricSample>, i: int, cutoff: u64)
    requires
        0 <= i <= s.len(),
    ensures
        i <= expire_idx(s, i, cutoff) <= s.len(),
        expire_idx(s, i, cutoff) < s.len() ==> s[expire_idx(s, i, cutoff)].timestamp >= cutoff,
        forall|j: int| i <= j < expire_idx(s, i, cutoff) ==> s[j].timestamp < cutoff,
    decreases s.len() - i,
{
    if i < s.len() && s[i].timestamp < cutoff {
        lemma_expire_idx_props(s, i + 1, cutoff);
    }
}

impl TimeSeries {
    /// An empty series bounded by a sample count and a retention window.
    pub fn new(max_samples: usize, retention_ms: u64) -> (r: TimeSeries)
        ensures
            series_wf(r),
            r.samples@.len() == 0,
            r.max_samples == max_samples,
            r.retention_ms == retention_ms,
    {
        TimeSeries { samples: Vec::new(), max_samples, retention_ms }
    }

    /// Append a sample at time `now` (timestamps are monotonised against the
    /// latest kept sample), then enforce both bounds: at most `max_samples`
    /// stay, and none older than the retention window before `now`. The
    /// oldest samples leave first.
    #[verifier::loop_isolation(false)]
    #[verifier::rlimit(50)]
    pub fn add_sample(&mut self, value: i64, meta: Vec<MetaPair>, now: u64)
        requires
            series_wf(*old(self)),
        ensures
            series_wf(*final(self)),
            final(self).max_samples == old(self).max_samples,
            final(self).retention_ms == old(self).retention_ms,
            final(self).samples@.len() <= final(self).max_samples,
            ({
                let cutoff: u64 = if now >= old(self).retention_ms {
                    (now - old(self).retention_ms) as u64
                } else {
                    0
                };
                forall|i: int|
                    0 <= i < final(self).samples@.len()
                        ==> (#[trigger] final(self).samples@[i]).timestamp >= cutoff
            }),
            old(self).max_samples >= 1 ==> final(self).samples@.len() > 0
                && final(self).samples@.last().value == value && final(self).samples@.last().meta
                == meta,
            ({
                let ts: u64 = if old(self).samples@.len() > 0 && old(self).samples@.last().timestamp
                    > now {
                    old(self).samples@.last().timestamp
                } else {
                    now
                };
                old(self).max_samples >= 1 ==> final(self).samples@.last().timestamp == ts
            }),
            ({
                let ts: u64 = if old(self).samples@.len() > 0 && old(self).samples@.last().timestamp
                    > now {
                    old(self).samples@.last().timestamp
                } else {
                    now
                };
                let pushed = old(self).samples@.push(MetricSample { timestamp: ts, value, meta });
                let d1: int = if pushed.len() > old(self).max_samples {
                    pushed.len() - old(self).max_samples
                } else {
                    0
                };
                let trimmed = pushed.skip(d1);
                let cutoff: u64 = if now >= old(self).retention_ms {
                    (now - old(self).retention_ms) as u64
                } else {
                    0
                };
                final(self).samples@ == trimmed.skip(expire_idx(trimmed, 0, cutoff))
            }),
            vals_bounded(old(self).samples@, 0x100000) && -0x100000 <= value <= 0x100000
                ==> vals_bounded(final(self).samples@, 0x100000),
    {
        let n0 = self.samples.len();
        let ts: u64 = if n0 > 0 {
            let last_ts = self.samples[n0 - 1].timestamp;
            if last_ts > now {
                last_ts
            } else {
                now
            }
        } else {
            now
        };
        self.samples.push(MetricSample { timestamp: ts, value, meta });
        let ghost pushed = self.samples@;
        if self.samples.len() > self.max_samples {
            let dropn = self.samples.len() - self.max_samples;
            let tail = self.samples.split_off(dropn);
            self.samples = tail;
        }
        proof {
            assert(self.samples@ == pushed.skip(
                if pushed.len() > self.max_samples as int {
                    pushed.len() - self.max_samples
                } else {
                    0
                },
            )) by {
                if pushed.len() <= self.max_samples as int {
                    assert(pushed.skip(0) =~= pushed);
                }
            }
        }
        let ghost trimmed = self.samples@;
        let cutoff: u64 = if now >= self.retention_ms {
            now - self.retention_ms
        } else {
            0
        };
        let mut j: usize = 0;
        let n = self.samples.len();
        while j < n && self.samples[j].timestamp < cutoff
            invariant
                j <= n,
                n == self.samples@.len(),
                self.samples@ == trimmed,
                expire_idx(trimmed, 0, cutoff) == expire_idx(trimmed, j as int, cutoff),
            decreases n - j,
        {
            j += 1;
        }
        proof {
            lemma_expire_idx_props(trimmed, 0, cutoff);
            if old(self).max_samples >= 1 {
                assert(trimmed.len() >= 1);
                assert(trimmed.last() == pushed.last());
                assert(ts >= cutoff);
                assert(expire_idx(trimmed, 0, cutoff) < trimmed.len()) by {
                    if expire_idx(trimmed, 0, cutoff) == trimmed.len() {
                        assert(trimmed[trimmed.len() - 1].timestamp < cutoff);
                    }
                }
            }
        }
        if j > 0 {
            let tail = self.samples.split_off(j);
            self.samples = tail;
        } else {
            proof {
                assert(trimmed.skip(0) =~= trimmed);
            }
        }
        proof {
            if vals_bounded(old(self).samples@, 0x100000) && -0x100000 <= value <= 0x100000 {
                assert forall|t: int| 0 <= t < self.samples@.len() implies -0x100000 <= (
                #[trigger] self.samples@[t]).value <= 0x100000 by {
                    assert(self.samples@[t] == trimmed[expire_idx(trimmed, 0, cutoff) + t]);
                    let p = expire_idx(trimmed, 0, cutoff) + t + (pushed.len() - trimmed.len());
                    assert(trimmed[expire_idx(trimmed, 0, cutoff) + t] == pushed[p]);
                    if p < old(self).samples@.len() {
                        assert(pushed[p] == old(self).samples@[p]);
                    } else {
                        assert(pushed[p] == pushed.last());
                    }
                }
            }
        }
    }

    /// Drop the samples older than the retention window before `now`; the
    /// newer samples stay, in order.
    #[verifier::loop_isolation(false)]
    pub fn prune(&mut self, now: u64)
        requires
            series_wf(*old(self)),
        ensures
            series_wf(*final(self)),
            final(self).max_samples == old(self).max_samples,
            final(self).retention_ms == old(self).retention_ms,
            ({
                let cutoff: u64 = if now >= old(self).retention_ms {
                    (now - old(self).retention_ms) as u64
                } else {
                    0
                };
                &&& final(self).samples@ == old(self).samples@.skip(
                    expire_idx(old(self).samples@, 0, cutoff),
                )
                &&& forall|i: int|
                    0 <= i < final(self).samples@.len()
                        ==> (#[trigger] final(self).samples@[i]).timestamp >= cutoff
            }),
            vals_bounded(old(self).samples@, 0x100000) ==> vals_bounded(
                final(self).samples@,
                0x100000,
            ),
    {
        let ghost s0 = self.samples@;
        let cutoff: u64 = if now >= self.retention_ms {
            now - self.retention_ms
        } else {
            0
        };
        let mut j: usize = 0;
        let n = self.samples.len();
        while j < n && self.samples[j].timestamp < cutoff
            invariant
                j <= n,
                n == self.samples@.len(),
                self.samples@ == s0,
                self.max_samples == old(self).max_samples,
                self.retention_ms == old(self).retention_ms,
                expire_idx(s0, 0, cutoff) == expire_idx(s0, j as int, cutoff),
            decreases n - j,
        {
            j += 1;
        }
        proof {
            lemma_expire_idx_props(s0, 0, cutoff);
        }
        if j > 0 {
            let tail = self.samples.split_off(j);
            self.samples = tail;
        } else {
            proof {
                assert(s0.skip(0) =~= s0);
            }
        }
        proof {
            if vals_bounded(s0, 0x100000) {
                assert forall|t: int| 0 <= t < self.samples@.len() implies -0x100000 <= (
                #[trigger] self.samples@[t]).value <= 0x100000 by {
                    assert(self.samples@[t] == s0[expire_idx(s0, 0, cutoff) + t]);
                }
            }
        }
    }

    /// The most recent sample, if any.
    pub fn get_latest(&self) -> (r: Option<&MetricSample>)
        ensures
            match r {
                Some(s) => self.samples@.len() > 0 && *s == self.samples@.last(),
                None => self.samples@.len() == 0,
            },
    {
        if self.samples.len() > 0 {
            Some(&self.samples[self.samples.len() - 1])
        } else {
            None
        }
    }

    /// All kept samples, oldest first.
    pub fn get_samples(&self) -> (r: &Vec<MetricSample>)
        ensures
            r == &self.samples,
    {
        &self.samples
    }
}

/// The sum of the values of `s[i..]`.
pub open spec fn sum_vals(s: Seq<MetricSample>, i: int) -> int
    decreases s.len() - i,
{
    if i < 0 || i >= s.len() {
        0
    } else {
        s[i].value + sum_vals(s, i + 1)
    }
}

/// The sum of the squared values of `s[i..]`.
pub open spec fn sum_sqrs(s: Seq<MetricSample>, i: int) -> int
    decreases s.len() - i,
{
    if i < 0 || i >= s.len() {
        0
    } else {
        s[i].value * s[i].value + sum_sqrs(s, i + 1)
    }
}

/// Every sample value within plus or minus `b`.
pub open spec fn vals_bounded(s: Seq<MetricSample>, b: int) -> bool {
    forall|i: int| 0 <= i < s.len() ==> -b <= (#[trigger] s[i]).value <= b
}

/// Is `v` an anomaly in `s`: more than `k` standard deviations above the
/// mean? Exactly, with n the count, S the sum and Q the sum of squares:
/// `n*v - S > 0` and `(n*v - S)^2 > k^2 * (n*Q - S^2)`.
pub open spec fn is_anomaly(s: Seq<MetricSample>, v: int, k: int) -> bool {
    let n = s.len() as int;
    let d = n * v - sum_vals(s, 0);
    d > 0 && d * d > k * k * (n * sum_sqrs(s, 0) - sum_vals(s, 0) * sum_vals(s, 0))
}

pub proof fn lemma_sums_bounded(s: Seq<MetricSample>, i: int)
    requires
        0 <= i <= s.len(),
        vals_bounded(s, 0x100000),
    ensures
        -(s.len() - i) * 0x100000 <= sum_vals(s, i) <= (s.len() - i) * 0x100000,
        0 <= sum_sqrs(s, i) <= (s.len() - i) * 0x10000000000,
    decreases s.len() - i,
{
    if i < s.len() {
        lemma_sums_bounded(s, i + 1);
        assert(s[i].value * s[i].value <= 0x10000000000 && s[i].value * s[i].value >= 0)
            by (nonlinear_arith)
            requires
                -0x100000 <= s[i].value <= 0x100000,
        ;
    }
}

impl TimeSeries {
    /// The truncating mean of the samples in the last `window_minutes`
    /// before `now`; 0 without any.
    #[verifier::loop_isolation(false)]
    pub fn calculate_average(&self, window_minutes: u64, now: u64) -> (r: i64)
        requires
            vals_bounded(self.samples@, 0x100000),
            self.samples@.len() <= 0x100000,
            window_minutes <= 0x10000000,
        ensures
            r as int == window_avg(
                self.samples@,
                if now >= window_minutes * 60000 {
                    (now - window_minutes * 60000) as u64
                } else {
                    0
                },
            ),
    {
        let start: u64 = if now >= window_minutes * 60000 {
            now - window_minutes * 60000
        } else {
            0
        };
        let ghost s = self.samples@;
        let mut sum: i128 = 0;
        let mut count: u64 = 0;
        let mut i: usize = 0;
        while i < self.samples.len()
            invariant
                i <= s.len(),
                s == self.samples@,
                vals_bounded(s, 0x100000),
                s.len() <= 0x100000,
                sum == win_sum(s, 0, start) - win_sum(s, i as int, start),
                count == win_count(s, 0, start) - win_count(s, i as int, start),
            decreases s.len() - i,
        {
            proof {
                lemma_win_bounds(s, 0, start);
                lemma_win_bounds(s, i as int, start);
                lemma_win_bounds(s, i as int + 1, start);
            }
            if self.samples[i].timestamp >= start {
                sum = sum + (self.samples[i].value as i128);
                count = count + 1;
            }
            i += 1;
        }
        proof {
            lemma_win_bounds(s, 0, start);
            lemma_win_bounds(s, s.len() as int, start);
        }
        if count == 0 {
            0
        } else {
            proof {
                let si = sum as int;
                let ci = count as int;
                assert(si >= 0 ==> 0 <= si / ci <= si) by (nonlinear_arith)
                    requires
                        ci > 0,
                ;
                assert(si < 0 ==> 0 <= (-si) / ci <= -si) by (nonlinear_arith)
                    requires
                        ci > 0,
                ;
            }
            let q = if sum >= 0 {
                sum / (count as i128)
            } else {
                -((-sum) / (count as i128))
            };
            q as i64
        }
    }

    /// The samples whose value lies more than `k` standard deviations above
    /// the series mean.
    #[verifier::loop_isolation(false)]
    pub fn detect_anomalies(&self, k: u32) -> (r: Vec<MetricSample>)
        requires
            vals_bounded(self.samples@, 0x100000),
            self.samples@.len() <= 0x1000,
            k <= 0x400,
        ensures
            forall|t: int|
                0 <= t < r@.len() ==> is_anomaly(self.samples@, (#[trigger] r@[t]).value as int, k as int),
            forall|t: int|
                #![trigger r@[t]]
                0 <= t < r@.len() ==> exists|j: int|
                    0 <= j < self.samples@.len() && r@[t].value == (
                    #[trigger] self.samples@[j]).value && r@[t].timestamp
                        == self.samples@[j].timestamp,
            forall|j: int|
                0 <= j < self.samples@.len() && is_anomaly(
                    self.samples@,
                    (#[trigger] self.samples@[j]).value as int,
                    k as int,
                ) ==> exists|t: int| 0 <= t < r@.len() && (#[trigger] r@[t]).value == self.samples@[j].value,
    {
        let mut out: Vec<MetricSample> = Vec::new();
        let n = self.samples.len();
        let ghost s = self.samples@;
        let mut sum: i128 = 0;
        let mut sq: i128 = 0;
        let mut i: usize = 0;
        while i < n
            invariant
                i <= n,
                n == s.len(),
                s == self.samples@,
                vals_bounded(s, 0x100000),
                n <= 0x1000,
                sum == sum_vals(s, 0) - sum_vals(s, i as int),
                sq == sum_sqrs(s, 0) - sum_sqrs(s, i as int),
            decreases n - i,
        {
            proof {
                lemma_sums_bounded(s, 0);
                lemma_sums_bounded(s, i as int);
                lemma_sums_bounded(s, i as int + 1);
            }
            sum = sum + (self.samples[i].value as i128);
            sq = sq + (self.samples[i].value as i128) * (self.samples[i].value as i128);
            i += 1;
        }
        proof {
            lemma_sums_bounded(s, 0);
            lemma_sums_bounded(s, n as int);
        }
        let ghost mut wits: Seq<int> = Seq::empty();
        let nn = n as i128;
        let kk = k as i128;
        proof {
            assert(0 <= sum * sum <= 0x10000000000000000) by (nonlinear_arith)
                requires
                    -0x100000000 <= sum as int <= 0x100000000,
            ;
            assert(0 <= (nn as int) * (sq as int) <= 0x10000000000000000) by (nonlinear_arith)
                requires
                    0 <= nn as int <= 0x1000,
                    0 <= sq as int <= 0x10000000000000,
            ;
        }
        let var_scaled: i128 = nn * sq - sum * sum;
        let mut j: usize = 0;
        while j < n
            invariant
                j <= n,
                n == s.len(),
                s == self.samples@,
                vals_bounded(s, 0x100000),
                n <= 0x1000,
                nn == n as i128,
                kk == k as i128,
                sum == sum_vals(s, 0),
                sq == sum_sqrs(s, 0),
                var_scaled == nn * sq - sum * sum,
                wits.len() == out@.len(),
                forall|t: int|
                    0 <= t < out@.len() ==> is_anomaly(s, (#[trigger] out@[t]).value as int, k as int),
                forall|t: int|
                    #![trigger wits[t]]
                    0 <= t < out@.len() ==> 0 <= wits[t] < s.len() && out@[t].value
                        == s[wits[t]].value && out@[t].timestamp == s[wits[t]].timestamp,
                forall|p: int|
                    0 <= p < j && is_anomaly(s, (#[trigger] s[p]).value as int, k as int)
                        ==> exists|t: int|
                        0 <= t < out@.len() && (#[trigger] out@[t]).value == s[p].value,
            decreases n - j,
        {
            proof {
                lemma_sums_bounded(s, 0);
            }
            let v = self.samples[j].value as i128;
            proof {
                assert(-0x100000000 <= (nn as int) * (v as int) <= 0x100000000) by (nonlinear_arith)
                    requires
                        0 <= nn as int <= 0x1000,
                        -0x100000 <= v as int <= 0x100000,
                ;
            }
            let d: i128 = nn * v - sum;
            proof {
                assert(0 <= (d as int) * (d as int) <= 0x400000000000000000) by (nonlinear_arith)
                    requires
                        -0x200000000 <= d as int <= 0x200000000,
                ;
                assert(0 <= (kk as int) * (kk as int) <= 0x100000) by (nonlinear_arith)
                    requires
                        0 <= kk as int <= 0x400,
                ;
                assert(-0x2000000000000000000000 <= ((kk as int) * (kk as int)) * (
                var_scaled as int) <= 0x2000000000000000000000) by (nonlinear_arith)
                    requires
                        0 <= (kk as int) * (kk as int) <= 0x100000,
                        -0x20000000000000000 <= var_scaled as int <= 0x20000000000000000,
                ;
            }
            let ghost before = out@;
            if d > 0 && d * d > kk * kk * var_scaled {
                let mut meta: Vec<MetaPair> = Vec::new();
                let mut m: usize = 0;
                while m < self.samples[j].meta.len()
                    invariant
                        m <= self.samples@[j as int].meta@.len(),
                        s == self.samples@,
                        j < s.len(),
                        meta@.len() == m,
                    decreases self.samples@[j as int].meta@.len() - m,
                {
                    meta.push(
                        MetaPair {
                            key: self.samples[j].meta[m].key.clone(),
                            val: self.samples[j].meta[m].val.clone(),
                        },
                    );
                    m += 1;
                }
                out.push(
                    MetricSample {
                        timestamp: self.samples[j].timestamp,
                        value: self.samples[j].value,
                        meta,
                    },
                );
                proof {
                    wits = wits.push(j as int);
                }
            }
            proof {
                assert forall|p: int|
                    0 <= p < j + 1 && is_anomaly(s, (#[trigger] s[p]).value as int, k as int) implies exists|
                    t: int,
                |
                    0 <= t < out@.len() && (#[trigger] out@[t]).value == s[p].value by {
                    if p < j {
                        let t0 = choose|t: int|
                            0 <= t < before.len() && (#[trigger] before[t]).value == s[p].value;
                        assert(out@[t0].value == s[p].value);
                    } else {
                        assert(out@[out@.len() - 1].value == s[p].value);
                    }
                }
            }
            j += 1;
        }
        proof {
            assert forall|t: int| #![trigger out@[t]] 0 <= t < out@.len() implies exists|p: int|
                0 <= p < s.len() && out@[t].value == (#[trigger] s[p]).value && out@[t].timestamp
                    == s[p].timestamp by {
                assert(out@[t].value == s[wits[t]].value);
                assert(out@[t].timestamp == s[wits[t]].timestamp);
            }
        }
        out
    }
}

/// How many samples from index `i` on have a value at most `v`.
pub open spec fn count_le(s: Seq<MetricSample>, i: int, v: int) -> int
    decreases s.len() - i,
{
    if i < 0 || i >= s.len() {
        0
    } else {
        (if s[i].value as int <= v {
            1int
        } else {
            0int
        }) + count_le(s, i + 1, v)
    }
}

/// How many samples from index `i` on have a value below `v`.
pub open spec fn count_lt(s: Seq<MetricSample>, i: int, v: int) -> int
    decreases s.len() - i,
{
    if i < 0 || i >= s.len() {
        0
    } else {
        (if (s[i].value as int) < v {
            1int
        } else {
            0int
        }) + count_lt(s, i + 1, v)
    }
}

pub proof fn lemma_counts_bounded(s: Seq<MetricSample>, i: int, v: int)
    requires
        0 <= i <= s.len(),
    ensures
        0 <= count_le(s, i, v) <= s.len() - i,
        0 <= count_lt(s, i, v) <= count_le(s, i, v),
    decreases s.len() - i,
{
    if i < s.len() {
        lemma_counts_bounded(s, i + 1, v);
    }
}

/// A non-empty series has a sample of maximal value.
proof fn lemma_max_exists(s: Seq<MetricSample>, i: int)
    requires
        0 <= i < s.len(),
    ensures
        exists|m: int|
            #![trigger s[m]]
            i <= m < s.len() && (forall|j: int|
                i <= j < s.len() ==> (#[trigger] s[j]).value <= s[m].value),
    decreases s.len() - i,
{
    if i + 1 == s.len() {
        assert(i <= i < s.len() && (forall|j: int|
            i <= j < s.len() ==> (#[trigger] s[j]).value <= s[i].value));
    } else {
        lemma_max_exists(s, i + 1);
        let m0 = choose|m: int|
            #![trigger s[m]]
            i + 1 <= m < s.len() && (forall|j: int|
                i + 1 <= j < s.len() ==> (#[trigger] s[j]).value <= s[m].value);
        if s[i].value <= s[m0].value {
            assert(forall|j: int| i <= j < s.len() ==> (#[trigger] s[j]).value <= s[m0].value);
        } else {
            assert(forall|j: int| i <= j < s.len() ==> (#[trigger] s[j]).value <= s[i].value);
        }
    }
}

/// When every sample from `i` on is at most `v`, all of them count.
proof fn lemma_count_le_all(s: Seq<MetricSample>, i: int, v: int)
    requires
        0 <= i <= s.len(),
        forall|j: int| i <= j < s.len() ==> (#[trigger] s[j]).value as int <= v,
    ensures
        count_le(s, i, v) == s.len() - i,
    decreases s.len() - i,
{
    if i < s.len() {
        lemma_count_le_all(s, i + 1, v);
    }
}

/// Among the samples below `v` there is a largest one.
#[verifier::rlimit(60)]
proof fn lemma_max_below(s: Seq<MetricSample>, i: int, v: int)
    requires
        0 <= i <= s.len(),
        count_lt(s, i, v) >= 1,
    ensures
        exists|m: int|
            #![trigger s[m]]
            i <= m < s.len() && (s[m].value as int) < v && (forall|j: int|
                i <= j < s.len() && ((#[trigger] s[j]).value as int) < v ==> s[j].value
                    <= s[m].value),
    decreases s.len() - i,
{
    if (s[i].value as int) < v {
        if count_lt(s, i + 1, v) >= 1 {
            lemma_max_below(s, i + 1, v);
            let m0 = choose|m: int|
                #![trigger s[m]]
                i + 1 <= m < s.len() && (s[m].value as int) < v && (forall|j: int|
                    i + 1 <= j < s.len() && ((#[trigger] s[j]).value as int) < v ==> s[j].value
                        <= s[m].value);
            if s[i].value <= s[m0].value {
                assert(forall|j: int|
                    i <= j < s.len() && ((#[trigger] s[j]).value as int) < v ==> s[j].value
                        <= s[m0].value);
            } else {
                assert(forall|j: int|
                    i <= j < s.len() && ((#[trigger] s[j]).value as int) < v ==> s[j].value
                        <= s[i].value);
            }
        } else {
            lemma_counts_bounded(s, i + 1, v);
            assert forall|j: int|
                i <= j < s.len() && ((#[trigger] s[j]).value as int) < v implies s[j].value
                <= s[i].value by {
                if j > i {
                    lemma_count_lt_member(s, i + 1, v, j);
                }
            }
        }
    } else {
        lemma_max_below(s, i + 1, v);
        let m0 = choose|m: int|
            #![trigger s[m]]
            i + 1 <= m < s.len() && (s[m].value as int) < v && (forall|j: int|
                i + 1 <= j < s.len() && ((#[trigger] s[j]).value as int) < v ==> s[j].value
                    <= s[m].value);
        assert(i <= m0 < s.len() && (s[m0].value as int) < v && (forall|j: int|
            i <= j < s.len() && ((#[trigger] s[j]).value as int) < v ==> s[j].value
                <= s[m0].value));
    }
}

/// A sample below `v` at or after `i` makes the below-count positive.
proof fn lemma_count_lt_member(s: Seq<MetricSample>, i: int, v: int, j: int)
    requires
        0 <= i <= j < s.len(),
        (s[j].value as int) < v,
    ensures
        count_lt(s, i, v) >= 1,
    decreases j - i,
{
    if i < j {
        lemma_count_lt_member(s, i + 1, v, j);
        lemma_counts_bounded(s, i + 1, v);
    } else {
        lemma_counts_bounded(s, i + 1, v);
    }
}

/// When every sample below `v` is at most `u`, the at-most-`u` count covers
/// the below-`v` count.
proof fn lemma_count_le_ge_lt(s: Seq<MetricSample>, i: int, u: int, v: int)
    requires
        0 <= i <= s.len(),
        forall|j: int| 0 <= j < s.len() && ((#[trigger] s[j]).value as int) < v ==> s[j].value
            as int <= u,
    ensures
        count_le(s, i, u) >= count_lt(s, i, v),
    decreases s.len() - i,
{
    if i < s.len() {
        lemma_count_le_ge_lt(s, i + 1, u, v);
    }
}

/// How many stored samples have a value at most `v`.
fn count_le_exec(samples: &Vec<MetricSample>, v: i64) -> (r: u64)
    requires
        samples@.len() <= 0x1000,
    ensures
        r as int == count_le(samples@, 0, v as int),
{
    let ghost s = samples@;
    let mut c: u64 = 0;
    let mut i: usize = 0;
    while i < samples.len()
        invariant
            i <= s.len(),
            s == samples@,
            s.len() <= 0x1000,
            c as int == count_le(s, 0, v as int) - count_le(s, i as int, v as int),
        decreases s.len() - i,
    {
        proof {
            lemma_counts_bounded(s, 0, v as int);
            lemma_counts_bounded(s, i as int, v as int);
            lemma_counts_bounded(s, i as int + 1, v as int);
        }
        if samples[i].value <= v {
            c = c + 1;
        }
        i += 1;
    }
    proof {
        lemma_counts_bounded(s, s.len() as int, v as int);
    }
    c
}

impl TimeSeries {
    /// The nearest-rank percentile of the stored values: with n samples and
    /// the percentage clamped to one hundred, the index is
    /// `(percent * (n-1) + 50) / 100`, and the result is the value with at
    /// least index-plus-one samples at or below it and at most index samples
    /// below it — the index-th smallest. An empty series answers zero.
    #[verifier::loop_isolation(false)]
    pub fn calculate_percentile(&self, percent: u32) -> (r: i64)
        requires
            self.samples@.len() <= 0x1000,
        ensures
            self.samples@.len() == 0 ==> r == 0,
            self.samples@.len() > 0 ==> ({
                let n = self.samples@.len() as int;
                let pc: int = if percent > 100 {
                    100
                } else {
                    percent as int
                };
                let idx = (pc * (n - 1) + 50) / 100;
                &&& exists|j: int| 0 <= j < n && (#[trigger] self.samples@[j]).value == r
                &&& count_le(self.samples@, 0, r as int) >= idx + 1
                &&& count_lt(self.samples@, 0, r as int) <= idx
            }),
    {
        let ghost s = self.samples@;
        let n = self.samples.len();
        if n == 0 {
            return 0;
        }
        let pc: u64 = if percent > 100 {
            100
        } else {
            percent as u64
        };
        proof {
            assert(0 <= (pc as int * (n - 1) + 50) / 100 <= n - 1) by (nonlinear_arith)
                requires
                    0 <= pc as int <= 100,
                    1 <= n as int <= 0x1000,
            ;
        }
        let idx: u64 = (pc * ((n - 1) as u64) + 50) / 100;
        let mut best: i64 = 0;
        let mut found: bool = false;
        let mut i: usize = 0;
        while i < n
            invariant
                i <= n,
                found == exists|j: int|
                    0 <= j < i && count_le(s, 0, (#[trigger] s[j]).value as int) >= idx + 1,
                found ==> exists|j: int|
                    0 <= j < i && (#[trigger] s[j]).value == best && count_le(s, 0, best as int)
                        >= idx + 1,
                found ==> forall|j: int|
                    0 <= j < i && count_le(s, 0, (#[trigger] s[j]).value as int) >= idx + 1
                        ==> best <= s[j].value,
            decreases n - i,
        {
            let v = self.samples[i].value;
            let c = count_le_exec(&self.samples, v);
            if c >= idx + 1 && (!found || v < best) {
                best = v;
                found = true;
            }
            i += 1;
        }
        proof {
            lemma_max_exists(s, 0);
            let m = choose|m: int|
                #![trigger s[m]]
                0 <= m < s.len() && (forall|j: int|
                    0 <= j < s.len() ==> (#[trigger] s[j]).value <= s[m].value);
            lemma_count_le_all(s, 0, s[m].value as int);
            assert(count_le(s, 0, s[m].value as int) >= idx + 1);
            assert(found);
            lemma_counts_bounded(s, 0, best as int);
            if count_lt(s, 0, best as int) > idx as int {
                lemma_max_below(s, 0, best as int);
                let u = choose|mu: int|
                    #![trigger s[mu]]
                    0 <= mu < s.len() && (s[mu].value as int) < best as int && (forall|j: int|
                        0 <= j < s.len() && ((#[trigger] s[j]).value as int) < best as int
                            ==> s[j].value <= s[mu].value);
                lemma_count_le_ge_lt(s, 0, s[u].value as int, best as int);
                assert(count_le(s, 0, s[u].value as int) >= idx + 1);
                assert(best <= s[u].value);
            }
        }
        best
    }
}

/// The sum of values of `s[i..]` whose timestamp reaches `start`.
pub open spec fn win_sum(s: Seq<MetricSample>, i: int, start: u64) -> int
    decreases s.len() - i,
{
    if i < 0 || i >= s.len() {
        0
    } else {
        (if s[i].timestamp >= start {
            s[i].value as int
        } else {
            0int
        }) + win_sum(s, i + 1, start)
    }
}

/// How many samples of `s[i..]` fall in the window.
pub open spec fn win_count(s: Seq<MetricSample>, i: int, start: u64) -> int
    decreases s.len() - i,
{
    if i < 0 || i >= s.len() {
        0
    } else {
        (if s[i].timestamp >= start {
            1int
        } else {
            0int
        }) + win_count(s, i + 1, start)
    }
}

/// The truncating mean over the window, 0 when it is empty. Note the
/// windowed sums run from the start of the whole series.
pub open spec fn window_avg(s: Seq<MetricSample>, start: u64) -> int {
    let c = win_count(s, 0, start);
    let m = win_sum(s, 0, start);
    if c == 0 {
        0
    } else if m >= 0 {
        m / c
    } else {
        -((-m) / c)
    }
}

pub proof fn lemma_win_bounds(s: Seq<MetricSample>, i: int, start: u64)
    requires
        0 <= i <= s.len(),
        vals_bounded(s, 0x100000),
    ensures
        -(s.len() - i) * 0x100000 <= win_sum(s, i, start) <= (s.len() - i) * 0x100000,
        0 <= win_count(s, i, start) <= s.len() - i,
    decreases s.len() - i,
{
    if i < s.len() {
        lemma_win_bounds(s, i + 1, start);
    }
}


/// Rolling per-container counters, all integer-valued: times in
/// milliseconds, rates in percent.
#[derive(Clone, Copy)]
pub struct PerformanceMetrics {
    pub function_calls: u64,
    pub errors: u64,
    pub total_execution_time: u64,
    pub min_execution_time: u64,
    pub max_execution_time: u64,
    pub last_gc: u64,
    pub throughput_per_sec: u64,
    pub memory_pressure: u64,
    pub cpu_utilization: u64,
}

/// Fresh counters.
pub open spec fn fresh_metrics() -> PerformanceMetrics {
    PerformanceMetrics {
        function_calls: 0,
        errors: 0,
        total_execution_time: 0,
        min_execution_time: u64::MAX,
        max_execution_time: 0,
        last_gc: 0,
        throughput_per_sec: 0,
        memory_pressure: 0,
        cpu_utilization: 0,
    }
}

/// The mean execution time the alert rules judge: the time total over all
/// calls, rounded down; 0 without calls.
pub open spec fn avg_time_of(m: PerformanceMetrics) -> int {
    if m.function_calls > 0 {
        m.total_execution_time as int / m.function_calls as int
    } else {
        0
    }
}

/// The error rate the alert rules judge, in percent; 0 without calls and
/// 100 when the error count exceeds the call count.
pub open spec fn error_rate_of(m: PerformanceMetrics) -> int {
    if m.function_calls == 0 {
        0
    } else if m.errors > m.function_calls {
        100
    } else {
        100 - (m.function_calls - m.errors) * 100 / (m.function_calls as int)
    }
}

/// `r` is exactly the recommendation list the counters warrant, in fixed
/// order: a high-priority performance entry when the mean execution time
/// passes half a second, a medium memory entry past seventy percent
/// pressure, and a medium throughput entry under ten calls a second once
/// more than a hundred calls ran. Nothing else is recommended.
pub open spec fn recs_of(m: PerformanceMetrics, r: Seq<Recommendation>) -> bool {
    let c1 = avg_time_of(m) > 500;
    let c2 = m.memory_pressure > 70;
    let c3 = m.throughput_per_sec < 10 && m.function_calls > 100;
    let i2: int = if c1 {
        1
    } else {
        0
    };
    let i3: int = i2 + if c2 {
        1int
    } else {
        0
    };
    &&& r.len() == i3 + if c3 {
        1int
    } else {
        0
    }
    &&& (c1 ==> r[0].priority == RecommendationPriority::High && r[0].category@ == "performance"@)
    &&& (c2 ==> r[i2].priority == RecommendationPriority::Medium && r[i2].category@ == "memory"@)
    &&& (c3 ==> r[i3].priority == RecommendationPriority::Medium && r[i3].category@
        == "throughput"@)
}

/// `r` is exactly the alert list the thresholds raise on `m`, in fixed
/// order: mean execution time (warning), memory pressure (critical), error
/// rate (warning), processor use (warning). Each fires exactly when its
/// value crosses its threshold; nothing else is raised.
pub open spec fn alerts_of(th: Thresholds, m: PerformanceMetrics, r: Seq<Alert>) -> bool {
    let c1 = avg_time_of(m) > th.execution_time;
    let c2 = m.memory_pressure > th.memory_pressure;
    let c3 = error_rate_of(m) > th.error_rate;
    let c4 = m.cpu_utilization > th.cpu_utilization;
    let i2: int = if c1 {
        1
    } else {
        0
    };
    let i3: int = i2 + if c2 {
        1int
    } else {
        0
    };
    let i4: int = i3 + if c3 {
        1int
    } else {
        0
    };
    &&& r.len() == i4 + if c4 {
        1int
    } else {
        0
    }
    &&& (c1 ==> r[0].level == AlertLevel::Warning && r[0].metric@ == "execution_time"@
        && r[0].value as int == avg_time_of(m) && r[0].threshold == th.execution_time)
    &&& (c2 ==> r[i2].level == AlertLevel::Critical && r[i2].metric@ == "memory_pressure"@
        && r[i2].value == m.memory_pressure && r[i2].threshold == th.memory_pressure)
    &&& (c3 ==> r[i3].level == AlertLevel::Warning && r[i3].metric@ == "error_rate"@
        && r[i3].value as int == error_rate_of(m) && r[i3].threshold == th.error_rate)
    &&& (c4 ==> r[i4].level == AlertLevel::Warning && r[i4].metric@ == "cpu_utilization"@
        && r[i4].value == m.cpu_utilization && r[i4].threshold == th.cpu_utilization)
}

/// `post` is `pre` with one execution of `t` milliseconds folded in:
/// exactly what `record_execution` does.
pub open spec fn exec_recorded(
    pre: PerformanceMetrics,
    post: PerformanceMetrics,
    t: u64,
    success: bool,
) -> bool {
    &&& post.function_calls as int == if pre.function_calls == u64::MAX {
        u64::MAX as int
    } else {
        pre.function_calls + 1
    }
    &&& post.errors as int == if success {
        pre.errors as int
    } else if pre.errors == u64::MAX {
        u64::MAX as int
    } else {
        pre.errors + 1
    }
    &&& post.total_execution_time as int == if !success {
        pre.total_execution_time as int
    } else if pre.total_execution_time + t <= u64::MAX {
        pre.total_execution_time + t
    } else {
        u64::MAX as int
    }
    &&& post.min_execution_time == if success && t < pre.min_execution_time {
        t
    } else {
        pre.min_execution_time
    }
    &&& post.max_execution_time == if success && t > pre.max_execution_time {
        t
    } else {
        pre.max_execution_time
    }
    &&& post.last_gc == pre.last_gc
    &&& post.throughput_per_sec == pre.throughput_per_sec
    &&& post.memory_pressure == pre.memory_pressure
    &&& post.cpu_utilization == pre.cpu_utilization
}

impl PerformanceMetrics {
    /// Fresh counters: no calls, an empty time range.
    pub fn new() -> (r: PerformanceMetrics)
        ensures
            r == fresh_metrics(),
    {
        PerformanceMetrics {
            function_calls: 0,
            errors: 0,
            total_execution_time: 0,
            min_execution_time: u64::MAX,
            max_execution_time: 0,
            last_gc: 0,
            throughput_per_sec: 0,
            memory_pressure: 0,
            cpu_utilization: 0,
        }
    }

    /// Count one call: successes fold the time into the totals and the time
    /// range; failures only count the error. Counters saturate.
    pub fn record_execution(&mut self, execution_time: u64, success: bool)
        ensures
            final(self).function_calls as int == if old(self).function_calls == u64::MAX {
                u64::MAX as int
            } else {
                old(self).function_calls + 1
            },
            final(self).errors as int == if success {
                old(self).errors as int
            } else if old(self).errors == u64::MAX {
                u64::MAX as int
            } else {
                old(self).errors + 1
            },
            final(self).total_execution_time as int == if !success {
                old(self).total_execution_time as int
            } else if old(self).total_execution_time + execution_time <= u64::MAX {
                old(self).total_execution_time + execution_time
            } else {
                u64::MAX as int
            },
            final(self).min_execution_time == if success && execution_time < old(
                self,
            ).min_execution_time {
                execution_time
            } else {
                old(self).min_execution_time
            },
            final(self).max_execution_time == if success && execution_time > old(
                self,
            ).max_execution_time {
                execution_time
            } else {
                old(self).max_execution_time
            },
            final(self).last_gc == old(self).last_gc,
            final(self).throughput_per_sec == old(self).throughput_per_sec,
            final(self).memory_pressure == old(self).memory_pressure,
            final(self).cpu_utilization == old(self).cpu_utilization,
            exec_recorded(*old(self), *final(self), execution_time, success),
    {
        if self.function_calls < u64::MAX {
            self.function_calls = self.function_calls + 1;
        }
        if success {
            if self.total_execution_time <= u64::MAX - execution_time {
                self.total_execution_time = self.total_execution_time + execution_time;
            } else {
                self.total_execution_time = u64::MAX;
            }
            if execution_time < self.min_execution_time {
                self.min_execution_time = execution_time;
            }
            if execution_time > self.max_execution_time {
                self.max_execution_time = execution_time;
            }
        } else {
            if self.errors < u64::MAX {
                self.errors = self.errors + 1;
            }
        }
    }

    /// The mean successful execution time over all calls, rounded down.
    pub fn avg_execution_time(&self) -> (r: u64)
        ensures
            r as int == if self.function_calls > 0 {
                self.total_execution_time as int / self.function_calls as int
            } else {
                0
            },
    {
        if self.function_calls > 0 {
            self.total_execution_time / self.function_calls
        } else {
            0
        }
    }

    /// Successful calls as a percentage of all calls; 100 without calls.
    pub fn success_rate_percent(&self) -> (r: u64)
        ensures
            r as int == if self.function_calls > 0 && self.errors <= self.function_calls {
                (self.function_calls - self.errors) * 100 / (self.function_calls as int)
            } else if self.function_calls > 0 {
                0
            } else {
                100
            },
    {
        if self.function_calls == 0 {
            100
        } else if self.errors > self.function_calls {
            0
        } else {
            let succ = self.function_calls - self.errors;
            proof {
                assert((succ as int) * 100 / (self.function_calls as int) <= 100)
                    by (nonlinear_arith)
                    requires
                        0 < self.function_calls,
                        0 <= succ as int <= self.function_calls as int,
                ;
            }
            ((succ as u128 * 100) / (self.function_calls as u128)) as u64
        }
    }

    /// Failed calls as a percentage of all calls; 0 without calls.
    pub fn error_rate_percent(&self) -> (r: u64)
        ensures
            r as int == if self.function_calls > 0 && self.errors <= self.function_calls {
                100 - (self.function_calls - self.errors) * 100 / (self.function_calls as int)
            } else if self.function_calls > 0 {
                100
            } else {
                0
            },
    {
        if self.function_calls == 0 {
            0
        } else {
            let sr = self.success_rate_percent();
            proof {
                if self.errors <= self.function_calls {
                    assert((self.function_calls - self.errors) * 100 / (self.function_calls as int)
                        <= 100) by (nonlinear_arith)
                        requires
                            0 < self.function_calls,
                            0 <= self.function_calls - self.errors <= self.function_calls,
                    ;
                }
            }
            100 - sr
        }
    }

    /// Calls per second over the observation window, rounded down.
    pub fn update_throughput(&mut self, window_seconds: u64)
        ensures
            final(self).throughput_per_sec as int == if window_seconds > 0 {
                old(self).function_calls as int / window_seconds as int
            } else {
                old(self).throughput_per_sec as int
            },
            final(self).function_calls == old(self).function_calls,
            final(self).errors == old(self).errors,
            final(self).total_execution_time == old(self).total_execution_time,
            final(self).min_execution_time == old(self).min_execution_time,
            final(self).max_execution_time == old(self).max_execution_time,
            final(self).memory_pressure == old(self).memory_pressure,
            final(self).cpu_utilization == old(self).cpu_utilization,
            final(self).last_gc == old(self).last_gc,
    {
        if window_seconds > 0 {
            self.throughput_per_sec = self.function_calls / window_seconds;
        }
    }

    /// Record observed resource shares, clamped to 0..=100 percent.
    pub fn update_resource_usage(&mut self, memory_pressure: u64, cpu_utilization: u64)
        ensures
            final(self).memory_pressure == if memory_pressure > 100 {
                100u64
            } else {
                memory_pressure
            },
            final(self).cpu_utilization == if cpu_utilization > 100 {
                100u64
            } else {
                cpu_utilization
            },
            final(self).function_calls == old(self).function_calls,
            final(self).errors == old(self).errors,
            final(self).total_execution_time == old(self).total_execution_time,
            final(self).min_execution_time == old(self).min_execution_time,
            final(self).max_execution_time == old(self).max_execution_time,
            final(self).throughput_per_sec == old(self).throughput_per_sec,
            final(self).last_gc == old(self).last_gc,
    {
        self.memory_pressure = if memory_pressure > 100 {
            100
        } else {
            memory_pressure
        };
        self.cpu_utilization = if cpu_utilization > 100 {
            100
        } else {
            cpu_utilization
        };
    }

    /// Record a sweep at time `now`.
    pub fn record_gc(&mut self, now: u64)
        ensures
            final(self).last_gc == now,
            final(self).function_calls == old(self).function_calls,
            final(self).errors == old(self).errors,
            final(self).total_execution_time == old(self).total_execution_time,
            final(self).min_execution_time == old(self).min_execution_time,
            final(self).max_execution_time == old(self).max_execution_time,
            final(self).throughput_per_sec == old(self).throughput_per_sec,
            final(self).memory_pressure == old(self).memory_pressure,
            final(self).cpu_utilization == old(self).cpu_utilization,
    {
        self.last_gc = now;
    }

    /// Back to fresh counters.
    pub fn reset(&mut self)
        ensures
            *final(self) == fresh_metrics(),
    {
        self.function_calls = 0;
        self.errors = 0;
        self.total_execution_time = 0;
        self.min_execution_time = u64::MAX;
        self.max_execution_time = 0;
        self.last_gc = 0;
        self.throughput_per_sec = 0;
        self.memory_pressure = 0;
        self.cpu_utilization = 0;
    }
}

/// Where a trend points.
#[derive(Clone, Copy, Debug, PartialEq, Eq, Structural)]
pub enum TrendDirection {
    Increasing,
    Decreasing,
    Stable,
}

/// An ordinary-least-squares fit over sample index versus value, as exact
/// rationals: the slope is `slope_num/slope_den`, the coefficient of
/// determination is `r2_num/r2_den` (clamped to at most one).
pub struct TrendAnalysis {
    pub direction: TrendDirection,
    pub slope_num: i128,
    pub slope_den: i128,
    pub r2_num: i128,
    pub r2_den: i128,
}

/// The sum of the indices `0..n`.
pub open spec fn sum_x_to(n: int) -> int
    decreases n,
{
    if n <= 0 {
        0
    } else {
        sum_x_to(n - 1) + (n - 1)
    }
}

/// The sum of the squared indices `0..n`.
pub open spec fn sum_xx_to(n: int) -> int
    decreases n,
{
    if n <= 0 {
        0
    } else {
        sum_xx_to(n - 1) + (n - 1) * (n - 1)
    }
}

/// The sum of index-times-value over the first `i` samples.
pub open spec fn sum_xy_to(s: Seq<MetricSample>, i: int) -> int
    decreases i,
{
    if i <= 0 {
        0
    } else {
        sum_xy_to(s, i - 1) + (i - 1) * s[i - 1].value
    }
}

/// The least-squares slope numerator over `s`.
pub open spec fn slope_num_of(s: Seq<MetricSample>) -> int {
    let n = s.len() as int;
    n * sum_xy_to(s, n) - sum_x_to(n) * (sum_vals(s, 0) - sum_vals(s, n))
}

/// The least-squares slope denominator over `s`.
pub open spec fn slope_den_of(s: Seq<MetricSample>) -> int {
    let n = s.len() as int;
    n * sum_xx_to(n) - sum_x_to(n) * sum_x_to(n)
}

/// The scaled variance of the values of `s`: the count times the sum of
/// squares, less the squared sum.
pub open spec fn var_y_of(s: Seq<MetricSample>) -> int {
    s.len() as int * sum_sqrs(s, 0) - sum_vals(s, 0) * sum_vals(s, 0)
}

/// `t` is the least-squares trend of `s`: under two samples a stable trend
/// with no confidence; otherwise the exact rational slope, its direction
/// against the one-tenth bands, and the squared correlation clamped to one.
pub open spec fn trend_of(s: Seq<MetricSample>, t: TrendAnalysis) -> bool {
    if s.len() < 2 {
        t.direction == TrendDirection::Stable && t.slope_num == 0 && t.slope_den == 1 && t.r2_num
            == 0 && t.r2_den == 1
    } else {
        let num = slope_num_of(s);
        let den = slope_den_of(s);
        let rden = den * var_y_of(s);
        &&& t.slope_num as int == num
        &&& t.slope_den as int == den
        &&& t.direction == direction_of(num, den)
        &&& t.r2_den as int == if rden > 0 {
            rden
        } else {
            1
        }
        &&& t.r2_num as int == if rden > 0 {
            if num * num > rden {
                rden
            } else {
                num * num
            }
        } else {
            0
        }
    }
}

/// The direction the slope points: up past one tenth, down past minus one
/// tenth, else stable.
pub open spec fn direction_of(num: int, den: int) -> TrendDirection {
    if 10 * num > den {
        TrendDirection::Increasing
    } else if 10 * num < -den {
        TrendDirection::Decreasing
    } else {
        TrendDirection::Stable
    }
}

proof fn lemma_sum_x_bounds(n: int)
    requires
        0 <= n <= 0x1000,
    ensures
        0 <= sum_x_to(n) <= 0x1000000,
        0 <= sum_xx_to(n) <= 0x1000000000,
{
    lemma_sum_x_shape(n);
    lemma_sum_xx_shape(n);
}

proof fn lemma_sum_x_shape(n: int)
    requires
        0 <= n <= 0x1000,
    ensures
        0 <= sum_x_to(n) <= n * 0x1000,
    decreases n,
{
    if n > 0 {
        lemma_sum_x_shape(n - 1);
    }
}

proof fn lemma_sum_xx_shape(n: int)
    requires
        0 <= n <= 0x1000,
    ensures
        0 <= sum_xx_to(n) <= n * 0x1000000,
    decreases n,
{
    if n > 0 {
        lemma_sum_xx_shape(n - 1);
        assert(0 <= (n - 1) * (n - 1) <= 0x1000000) by (nonlinear_arith)
            requires
                0 <= n - 1 && n - 1 + 1 <= 0x1000,
        ;
    }
}

proof fn lemma_sum_xy_bounds(s: Seq<MetricSample>, i: int)
    requires
        0 <= i <= s.len(),
        s.len() <= 0x1000,
        vals_bounded(s, 0x100000),
    ensures
        -0x100000000000 <= sum_xy_to(s, i) <= 0x100000000000,
        -(i * 0x100000000) <= sum_xy_to(s, i) <= i * 0x100000000,
    decreases i,
{
    if i > 0 {
        lemma_sum_xy_bounds(s, i - 1);
        assert(-0x100000000 <= (i - 1) * s[i - 1].value <= 0x100000000) by (nonlinear_arith)
            requires
                0 <= i - 1 && i - 1 + 1 <= 0x1000,
                -0x100000 <= s[i - 1].value <= 0x100000,
        ;
        assert((i) * 0x100000000 == (i - 1) * 0x100000000 + 0x100000000) by (nonlinear_arith);
        assert(i * 0x100000000 <= 0x100000000000) by (nonlinear_arith)
            requires
                i <= 0x1000,
        ;
    } else {
        assert(i * 0x100000000 == 0) by (nonlinear_arith)
            requires
                i == 0,
        ;
    }
}

impl TimeSeries {
    /// An ordinary-least-squares trend over index versus value: the exact
    /// rational slope, its direction against the one-tenth bands, and the
    /// coefficient of determination as the squared correlation, clamped to
    /// one. Fewer than two samples are stable with no confidence.
    #[verifier::loop_isolation(false)]
    #[verifier::rlimit(50)]
    pub fn analyze_trend(&self) -> (r: TrendAnalysis)
        requires
            vals_bounded(self.samples@, 0x100000),
            self.samples@.len() <= 0x1000,
        ensures
            trend_of(self.samples@, r),
    {
        let n = self.samples.len();
        if n < 2 {
            return TrendAnalysis {
                direction: TrendDirection::Stable,
                slope_num: 0,
                slope_den: 1,
                r2_num: 0,
                r2_den: 1,
            };
        }
        let ghost s = self.samples@;
        let mut sx: i128 = 0;
        let mut sxx: i128 = 0;
        let mut sy: i128 = 0;
        let mut sxy: i128 = 0;
        let mut syy: i128 = 0;
        let mut i: usize = 0;
        while i < n
            invariant
                i <= n,
                sx == sum_x_to(i as int),
                sxx == sum_xx_to(i as int),
                sy == sum_vals(s, 0) - sum_vals(s, i as int),
                sxy == sum_xy_to(s, i as int),
                syy == sum_sqrs(s, 0) - sum_sqrs(s, i as int),
            decreases n - i,
        {
            proof {
                lemma_sum_x_bounds(i as int);
                lemma_sum_x_bounds(i as int + 1);
                lemma_sum_xy_bounds(s, i as int);
                lemma_sum_xy_bounds(s, i as int + 1);
                lemma_sums_bounded(s, 0);
                lemma_sums_bounded(s, i as int);
                lemma_sums_bounded(s, i as int + 1);
                assert(-0x100000000 <= (i as int) * (s[i as int].value as int) <= 0x100000000)
                    by (nonlinear_arith)
                    requires
                        0 <= i as int && i as int + 1 <= 0x1000,
                        -0x100000 <= s[i as int].value <= 0x100000,
                ;
            }
            let v = self.samples[i].value as i128;
            sx = sx + (i as i128);
            sxx = sxx + (i as i128) * (i as i128);
            sy = sy + v;
            sxy = sxy + (i as i128) * v;
            syy = syy + v * v;
            i += 1;
        }
        proof {
            lemma_sum_x_bounds(n as int);
            lemma_sum_xy_bounds(s, n as int);
            lemma_sums_bounded(s, 0);
            lemma_sums_bounded(s, n as int);
            assert(-0x100000000000000 <= (n as int) * (sxy as int) <= 0x100000000000000
                && -0x100000000000000 <= (sx as int) * (sy as int) <= 0x100000000000000
                && 0 <= (n as int) * (sxx as int) <= 0x1000000000000 && 0 <= (sx as int) * (
            sx as int) <= 0x1000000000000) by (nonlinear_arith)
                requires
                    0 <= n as int <= 0x1000,
                    -0x100000000000 <= sxy as int <= 0x100000000000,
                    0 <= sx as int <= 0x1000000,
                    -0x100000000 <= sy as int <= 0x100000000,
                    0 <= sxx as int <= 0x1000000000,
            ;
        }
        let nn = n as i128;
        let num: i128 = nn * sxy - sx * sy;
        let den: i128 = nn * sxx - sx * sx;
        let direction = if 10 * num > den {
            TrendDirection::Increasing
        } else if 10 * num < -den {
            TrendDirection::Decreasing
        } else {
            TrendDirection::Stable
        };
        proof {
            assert(0 <= (num as int) * (num as int) <= 0x40000000000000000000000000000)
                by (nonlinear_arith)
                requires
                    -0x200000000000000 <= num as int <= 0x200000000000000,
            ;
            assert(0 <= (nn as int) * (syy as int) <= 0x10000000000000000 && 0 <= (sy as int) * (
            sy as int) <= 0x10000000000000000) by (nonlinear_arith)
                requires
                    0 <= nn as int <= 0x1000,
                    0 <= syy as int <= 0x10000000000000,
                    -0x100000000 <= sy as int <= 0x100000000,
            ;
        }
        let rnum_raw: i128 = num * num;
        let vary: i128 = nn * syy - sy * sy;
        proof {
            assert(-0x40000000000000000000000000000 <= (den as int) * (vary as int)
                <= 0x40000000000000000000000000000) by (nonlinear_arith)
                requires
                    -0x2000000000000 <= den as int <= 0x2000000000000,
                    -0x20000000000000000 <= vary as int <= 0x20000000000000000,
            ;
        }
        let rden: i128 = den * vary;
        let (r2_num, r2_den) = if rden > 0 {
            if rnum_raw > rden {
                (rden, rden)
            } else {
                (rnum_raw, rden)
            }
        } else {
            (0, 1)
        };
        TrendAnalysis { direction, slope_num: num, slope_den: den, r2_num, r2_den }
    }
}


/// How loud an alert is.
#[derive(Clone, Copy, Debug, PartialEq, Eq, Structural)]
pub enum AlertLevel {
    Info,
    Warning,
    Critical,
}

/// One threshold alert.
pub struct Alert {
    pub level: AlertLevel,
    pub metric: String,
    pub value: u64,
    pub threshold: u64,
}

/// How urgent a recommendation is.
#[derive(Clone, Copy, Debug, PartialEq, Eq, Structural)]
pub enum RecommendationPriority {
    Low,
    Medium,
    High,
    Critical,
}

/// One canned recommendation.
pub struct Recommendation {
    pub priority: RecommendationPriority,
    pub category: String,
    pub title: String,
}

/// The five bounded series every container keeps.
pub struct SeriesSet {
    pub execution_time: TimeSeries,
    pub memory_usage: TimeSeries,
    pub cpu_usage: TimeSeries,
    pub throughput: TimeSeries,
    pub error_rate: TimeSeries,
}

/// One well-formed series of a collector: orderly, holding at least one
/// sample, small enough to analyse, its values within the analysed band.
pub open spec fn col_series_wf(ts: TimeSeries) -> bool {
    &&& series_wf(ts)
    &&& 1 <= ts.max_samples <= 0x1000
    &&& vals_bounded(ts.samples@, 0x100000)
}

/// All series of a set are well-formed.
pub open spec fn set_wf(ss: SeriesSet) -> bool {
    &&& col_series_wf(ss.execution_time)
    &&& col_series_wf(ss.memory_usage)
    &&& col_series_wf(ss.cpu_usage)
    &&& col_series_wf(ss.throughput)
    &&& col_series_wf(ss.error_rate)
}

/// One container's counters and series.
pub struct ContainerMetrics {
    pub id: String,
    pub metrics: PerformanceMetrics,
    pub series: SeriesSet,
}

/// The per-metric alert thresholds.
#[derive(Clone, Copy)]
pub struct Thresholds {
    pub execution_time: u64,
    pub memory_pressure: u64,
    pub error_rate: u64,
    pub cpu_utilization: u64,
}

/// The engine-wide collector.
pub struct MetricsCollector {
    pub entries: Vec<ContainerMetrics>,
    pub global_metrics: PerformanceMetrics,
    pub collection_start: u64,
    pub thresholds: Thresholds,
    pub monitoring_enabled: bool,
}

/// Index of the first entry at or after `i` for container `id`.
pub open spec fn cm_find_from(es: Seq<ContainerMetrics>, i: int, id: Seq<char>) -> int
    decreases es.len() - i,
{
    if i < 0 || i >= es.len() {
        es.len() as int
    } else if es[i].id@ == id {
        i
    } else {
        cm_find_from(es, i + 1, id)
    }
}

pub proof fn lemma_cm_find_props(es: Seq<ContainerMetrics>, i: int, id: Seq<char>)
    requires
        0 <= i <= es.len(),
    ensures
        i <= cm_find_from(es, i, id) <= es.len(),
        cm_find_from(es, i, id) < es.len() ==> es[cm_find_from(es, i, id)].id@ == id,
    decreases es.len() - i,
{
    if i < es.len() && es[i].id@ != id {
        lemma_cm_find_props(es, i + 1, id);
    }
}

/// Index of the entry for `id`, or `es.len()`.
pub fn find_cm(es: &Vec<ContainerMetrics>, id: &str) -> (r: usize)
    ensures
        r as int == cm_find_from(es@, 0, id@),
{
    let mut i: usize = 0;
    while i < es.len()
        invariant
            i <= es@.len(),
            cm_find_from(es@, 0, id@) == cm_find_from(es@, i as int, id@),
        decreases es@.len() - i,
    {
        if str_eq(es[i].id.as_str(), id) {
            return i;
        }
        i += 1;
    }
    i
}

impl MetricsCollector {
    /// Every container's series are well-formed.
    pub open spec fn wf(&self) -> bool {
        forall|i: int| 0 <= i < self.entries@.len() ==> set_wf((#[trigger] self.entries@[i]).series)
    }

    /// A fresh collector with the default thresholds: a second of execution
    /// time, ninety percent memory pressure, five percent errors, eighty
    /// percent processor use.
    pub fn new(now: u64) -> (r: MetricsCollector)
        ensures
            r.wf(),
            r.entries@.len() == 0,
            r.collection_start == now,
            r.monitoring_enabled,
            r.thresholds.execution_time == 1000,
            r.thresholds.memory_pressure == 90,
            r.thresholds.error_rate == 5,
            r.thresholds.cpu_utilization == 80,
    {
        MetricsCollector {
            entries: Vec::new(),
            global_metrics: PerformanceMetrics::new(),
            collection_start: now,
            thresholds: Thresholds {
                execution_time: 1000,
                memory_pressure: 90,
                error_rate: 5,
                cpu_utilization: 80,
            },
            monitoring_enabled: true,
        }
    }

    /// Register a container: fresh counters, five empty series bounded by a
    /// thousand samples and a day of retention.
    pub fn register_container(&mut self, container_id: &str)
        requires
            old(self).wf(),
        ensures
            final(self).wf(),
            final(self).entries@.len() == old(self).entries@.len() + 1,
            forall|j: int|
                0 <= j < old(self).entries@.len() ==> final(self).entries@[j] == old(
                    self,
                ).entries@[j],
            final(self).entries@.last().id@ == container_id@,
            final(self).entries@.last().metrics == fresh_metrics(),
            final(self).entries@.last().series.execution_time.samples@.len() == 0,
            final(self).entries@.last().series.execution_time.max_samples == 1000,
            final(self).entries@.last().series.execution_time.retention_ms == 86400000,
            final(self).global_metrics == old(self).global_metrics,
            final(self).thresholds == old(self).thresholds,
            final(self).monitoring_enabled == old(self).monitoring_enabled,
            final(self).collection_start == old(self).collection_start,
    {
        let series = SeriesSet {
            execution_time: TimeSeries::new(1000, 86400000),
            memory_usage: TimeSeries::new(1000, 86400000),
            cpu_usage: TimeSeries::new(1000, 86400000),
            throughput: TimeSeries::new(1000, 86400000),
            error_rate: TimeSeries::new(1000, 86400000),
        };
        self.entries.push(
            ContainerMetrics {
                id: container_id.to_owned(),
                metrics: PerformanceMetrics::new(),
                series,
            },
        );
    }

    /// Drop a container's metrics; unknown ids are ignored.
    pub fn unregister_container(&mut self, container_id: &str)
        requires
            old(self).wf(),
        ensures
            final(self).wf(),
            ({
                let es = old(self).entries@;
                let k = cm_find_from(es, 0, container_id@);
                if k < es.len() {
                    final(self).entries@ == es.remove(k)
                } else {
                    final(self).entries@ == es
                }
            }),
            final(self).global_metrics == old(self).global_metrics,
            final(self).thresholds == old(self).thresholds,
    {
        let k = find_cm(&self.entries, container_id);
        proof {
            lemma_cm_find_props(self.entries@, 0, container_id@);
        }
        if k < self.entries.len() {
            self.entries.remove(k);
        }
    }

    /// Record one call: success is decided against the execution-time
    /// threshold, the container's and the global counters are updated, the
    /// processor share is estimated from the call time, and a sample goes
    /// into the container's execution-time series (its value clamped to the
    /// million-millisecond band the series contracts carry). Disabled
    /// monitoring records nothing.
    pub fn record_function_call(
        &mut self,
        container_id: &str,
        function_name: &str,
        execution_time: u64,
        now: u64,
    )
        requires
            old(self).wf(),
        ensures
            final(self).wf(),
            !old(self).monitoring_enabled ==> *final(self) == *old(self),
            final(self).thresholds == old(self).thresholds,
            final(self).collection_start == old(self).collection_start,
            final(self).monitoring_enabled == old(self).monitoring_enabled,
            ({
                let es = old(self).entries@;
                let k = cm_find_from(es, 0, container_id@);
                old(self).monitoring_enabled && k == es.len() ==> *final(self) == *old(self)
            }),
            ({
                let es = old(self).entries@;
                let k = cm_find_from(es, 0, container_id@);
                old(self).monitoring_enabled && k < es.len() ==> {
                    let success = execution_time < old(self).thresholds.execution_time;
                    let m0 = es[k].metrics;
                    let m1 = final(self).entries@[k].metrics;
                    let sample = final(self).entries@[k].series.execution_time.samples@.last();
                    &&& final(self).entries@.len() == es.len()
                    &&& forall|j: int|
                        0 <= j < es.len() && j != k ==> final(self).entries@[j] == es[j]
                    &&& final(self).entries@[k].id == es[k].id
                    &&& exec_recorded(
                        old(self).global_metrics,
                        final(self).global_metrics,
                        execution_time,
                        success,
                    )
                    &&& m1.function_calls as int == if m0.function_calls == u64::MAX {
                        u64::MAX as int
                    } else {
                        m0.function_calls + 1
                    }
                    &&& m1.errors as int == if success {
                        m0.errors as int
                    } else if m0.errors == u64::MAX {
                        u64::MAX as int
                    } else {
                        m0.errors + 1
                    }
                    &&& m1.total_execution_time as int == if !success {
                        m0.total_execution_time as int
                    } else if m0.total_execution_time + execution_time <= u64::MAX {
                        m0.total_execution_time + execution_time
                    } else {
                        u64::MAX as int
                    }
                    &&& m1.min_execution_time == if success && execution_time
                        < m0.min_execution_time {
                        execution_time
                    } else {
                        m0.min_execution_time
                    }
                    &&& m1.max_execution_time == if success && execution_time
                        > m0.max_execution_time {
                        execution_time
                    } else {
                        m0.max_execution_time
                    }
                    &&& m1.last_gc == m0.last_gc
                    &&& m1.throughput_per_sec == m0.throughput_per_sec
                    &&& m1.memory_pressure == if m0.memory_pressure > 100 {
                        100u64
                    } else {
                        m0.memory_pressure
                    }
                    &&& m1.cpu_utilization as int == if execution_time / 10 > 100 {
                        100
                    } else {
                        execution_time as int / 10
                    }
                    &&& final(self).entries@[k].series.memory_usage == es[k].series.memory_usage
                    &&& final(self).entries@[k].series.cpu_usage == es[k].series.cpu_usage
                    &&& final(self).entries@[k].series.throughput == es[k].series.throughput
                    &&& final(self).entries@[k].series.error_rate == es[k].series.error_rate
                    &&& final(self).entries@[k].series.execution_time.samples@.len() > 0
                    &&& sample.value as int == if execution_time > 0x100000 {
                        0x100000
                    } else {
                        execution_time as int
                    }
                    &&& sample.meta@.len() == 2
                    &&& sample.meta@[0].key@ == "function"@
                    &&& sample.meta@[0].val@ == function_name@
                    &&& sample.meta@[1].key@ == "container"@
                    &&& sample.meta@[1].val@ == container_id@
                }
            }),
    {
        if !self.monitoring_enabled {
            return ;
        }
        let k = find_cm(&self.entries, container_id);
        proof {
            lemma_cm_find_props(self.entries@, 0, container_id@);
        }
        if k == self.entries.len() {
            return ;
        }
        let success = execution_time < self.thresholds.execution_time;
        let cpu_est: u64 = {
            let e = execution_time / 10;
            if e > 100 {
                100
            } else {
                e
            }
        };
        self.global_metrics.record_execution(execution_time, success);
        let entry = &mut self.entries[k];
        entry.metrics.record_execution(execution_time, success);
        entry.metrics.update_resource_usage(entry.metrics.memory_pressure, cpu_est);
        let clamped: i64 = if execution_time > 0x100000 {
            0x100000
        } else {
            execution_time as i64
        };
        let mut meta: Vec<MetaPair> = Vec::new();
        meta.push(MetaPair { key: "function".to_owned(), val: function_name.to_owned() });
        meta.push(MetaPair { key: "container".to_owned(), val: container_id.to_owned() });
        entry.series.execution_time.add_sample(clamped, meta, now);
    }

    /// Record a memory reading: the pressure percentage lands in the
    /// counters, the used bytes (clamped) in the memory series.
    pub fn record_memory_usage(&mut self, container_id: &str, used: u32, limit: u32, now: u64)
        requires
            old(self).wf(),
        ensures
            final(self).wf(),
            final(self).thresholds == old(self).thresholds,
            final(self).collection_start == old(self).collection_start,
            final(self).monitoring_enabled == old(self).monitoring_enabled,
            final(self).global_metrics == old(self).global_metrics,
            ({
                let es = old(self).entries@;
                let k = cm_find_from(es, 0, container_id@);
                k == es.len() ==> *final(self) == *old(self)
            }),
            ({
                let es = old(self).entries@;
                let k = cm_find_from(es, 0, container_id@);
                k < es.len() ==> {
                    let pressure: int = if limit > 0 {
                        used as int * 100 / limit as int
                    } else {
                        0
                    };
                    let m0 = es[k].metrics;
                    let m1 = final(self).entries@[k].metrics;
                    &&& final(self).entries@.len() == es.len()
                    &&& forall|j: int|
                        0 <= j < es.len() && j != k ==> final(self).entries@[j] == es[j]
                    &&& final(self).entries@[k].id == es[k].id
                    &&& m1.memory_pressure as int == if pressure > 100 {
                        100
                    } else {
                        pressure
                    }
                    &&& m1.function_calls == m0.function_calls
                    &&& m1.errors == m0.errors
                    &&& m1.total_execution_time == m0.total_execution_time
                    &&& m1.min_execution_time == m0.min_execution_time
                    &&& m1.max_execution_time == m0.max_execution_time
                    &&& m1.last_gc == m0.last_gc
                    &&& m1.throughput_per_sec == m0.throughput_per_sec
                    &&& m1.cpu_utilization as int == if m0.cpu_utilization > 100 {
                        100
                    } else {
                        m0.cpu_utilization as int
                    }
                    &&& final(self).entries@[k].series.execution_time
                        == es[k].series.execution_time
                    &&& final(self).entries@[k].series.cpu_usage == es[k].series.cpu_usage
                    &&& final(self).entries@[k].series.throughput == es[k].series.throughput
                    &&& final(self).entries@[k].series.error_rate == es[k].series.error_rate
                    &&& final(self).entries@[k].series.memory_usage.samples@.len() > 0
                    &&& final(self).entries@[k].series.memory_usage.samples@.last().value as int
                        == if used > 0x100000 {
                        0x100000
                    } else {
                        used as int
                    }
                    &&& final(self).entries@[k].series.memory_usage.samples@.last().meta@.len()
                        == 0
                }
            }),
    {
        let k = find_cm(&self.entries, container_id);
        proof {
            lemma_cm_find_props(self.entries@, 0, container_id@);
        }
        if k == self.entries.len() {
            return ;
        }
        let pressure: u64 = if limit > 0 {
            (used as u64) * 100 / (limit as u64)
        } else {
            0
        };
        let entry = &mut self.entries[k];
        let cpu = entry.metrics.cpu_utilization;
        entry.metrics.update_resource_usage(pressure, cpu);
        let clamped: i64 = if used > 0x100000 {
            0x100000
        } else {
            used as i64
        };
        entry.series.memory_usage.add_sample(clamped, Vec::new(), now);
    }

    /// Refresh a container's throughput against the observation window and
    /// sample it.
    pub fn record_throughput(&mut self, container_id: &str, now: u64)
        requires
            old(self).wf(),
        ensures
            final(self).wf(),
            final(self).thresholds == old(self).thresholds,
            final(self).collection_start == old(self).collection_start,
            final(self).monitoring_enabled == old(self).monitoring_enabled,
            final(self).global_metrics == old(self).global_metrics,
            ({
                let es = old(self).entries@;
                let k = cm_find_from(es, 0, container_id@);
                k == es.len() ==> *final(self) == *old(self)
            }),
            ({
                let es = old(self).entries@;
                let k = cm_find_from(es, 0, container_id@);
                k < es.len() ==> {
                    let window: int = if now >= old(self).collection_start {
                        (now - old(self).collection_start) / 1000
                    } else {
                        0
                    };
                    let m0 = es[k].metrics;
                    let m1 = final(self).entries@[k].metrics;
                    let tput: int = if window > 0 {
                        m0.function_calls as int / window
                    } else {
                        m0.throughput_per_sec as int
                    };
                    &&& final(self).entries@.len() == es.len()
                    &&& forall|j: int|
                        0 <= j < es.len() && j != k ==> final(self).entries@[j] == es[j]
                    &&& final(self).entries@[k].id == es[k].id
                    &&& m1.throughput_per_sec as int == tput
                    &&& m1.function_calls == m0.function_calls
                    &&& m1.errors == m0.errors
                    &&& m1.total_execution_time == m0.total_execution_time
                    &&& m1.min_execution_time == m0.min_execution_time
                    &&& m1.max_execution_time == m0.max_execution_time
                    &&& m1.last_gc == m0.last_gc
                    &&& m1.memory_pressure == m0.memory_pressure
                    &&& m1.cpu_utilization == m0.cpu_utilization
                    &&& final(self).entries@[k].series.execution_time
                        == es[k].series.execution_time
                    &&& final(self).entries@[k].series.memory_usage == es[k].series.memory_usage
                    &&& final(self).entries@[k].series.cpu_usage == es[k].series.cpu_usage
                    &&& final(self).entries@[k].series.error_rate == es[k].series.error_rate
                    &&& final(self).entries@[k].series.throughput.samples@.len() > 0
                    &&& final(self).entries@[k].series.throughput.samples@.last().value as int
                        == if tput > 0x100000 {
                        0x100000
                    } else {
                        tput
                    }
                    &&& final(self).entries@[k].series.throughput.samples@.last().meta@.len() == 0
                }
            }),
    {
        let k = find_cm(&self.entries, container_id);
        proof {
            lemma_cm_find_props(self.entries@, 0, container_id@);
        }
        if k == self.entries.len() {
            return ;
        }
        let window: u64 = if now >= self.collection_start {
            (now - self.collection_start) / 1000
        } else {
            0
        };
        let entry = &mut self.entries[k];
        entry.metrics.update_throughput(window);
        let clamped: i64 = if entry.metrics.throughput_per_sec > 0x100000 {
            0x100000
        } else {
            entry.metrics.throughput_per_sec as i64
        };
        entry.series.throughput.add_sample(clamped, Vec::new(), now);
    }

    /// A copy of a container's counters.
    pub fn get_container_metrics(&self, container_id: &str) -> (r: Option<PerformanceMetrics>)
        ensures
            ({
                let es = self.entries@;
                let k = cm_find_from(es, 0, container_id@);
                match r {
                    Some(m) => k < es.len() && m == es[k].metrics,
                    None => k == es.len(),
                }
            }),
    {
        let k = find_cm(&self.entries, container_id);
        proof {
            lemma_cm_find_props(self.entries@, 0, container_id@);
        }
        if k < self.entries.len() {
            Some(self.entries[k].metrics)
        } else {
            None
        }
    }

    /// The engine-wide counters.
    pub fn get_global_metrics(&self) -> (r: &PerformanceMetrics)
        ensures
            r == &self.global_metrics,
    {
        &self.global_metrics
    }

    /// One of a container's five series, by its metric name.
    pub fn get_time_series(&self, container_id: &str, metric_name: &str) -> (r: Option<
        &TimeSeries,
    >)
        ensures
            ({
                let es = self.entries@;
                let k = cm_find_from(es, 0, container_id@);
                match r {
                    Some(ts) => k < es.len() && (ts == &es[k].series.execution_time || ts
                        == &es[k].series.memory_usage || ts == &es[k].series.cpu_usage || ts
                        == &es[k].series.throughput || ts == &es[k].series.error_rate),
                    None => true,
                }
            }),
    {
        let k = find_cm(&self.entries, container_id);
        proof {
            lemma_cm_find_props(self.entries@, 0, container_id@);
        }
        if k == self.entries.len() {
            return None;
        }
        let e = &self.entries[k];
        if str_eq(metric_name, "execution_time") {
            Some(&e.series.execution_time)
        } else if str_eq(metric_name, "memory_usage") {
            Some(&e.series.memory_usage)
        } else if str_eq(metric_name, "cpu_usage") {
            Some(&e.series.cpu_usage)
        } else if str_eq(metric_name, "throughput") {
            Some(&e.series.throughput)
        } else if str_eq(metric_name, "error_rate") {
            Some(&e.series.error_rate)
        } else {
            None
        }
    }

    /// Set one alert threshold by metric name; unknown names are ignored.
    pub fn set_alert_threshold(&mut self, metric: &str, value: u64)
        requires
            old(self).wf(),
        ensures
            final(self).wf(),
            final(self).entries == old(self).entries,
            metric@ == "execution_time"@ ==> final(self).thresholds.execution_time == value,
            metric@ == "memory_pressure"@ ==> final(self).thresholds.memory_pressure == value,
            metric@ == "error_rate"@ ==> final(self).thresholds.error_rate == value,
            metric@ == "cpu_utilization"@ ==> final(self).thresholds.cpu_utilization == value,
    {
        proof {
            reveal_strlit("execution_time");
            reveal_strlit("memory_pressure");
            reveal_strlit("error_rate");
            reveal_strlit("cpu_utilization");
        }
        if str_eq(metric, "execution_time") {
            self.thresholds.execution_time = value;
        }
        if str_eq(metric, "memory_pressure") {
            self.thresholds.memory_pressure = value;
        }
        if str_eq(metric, "error_rate") {
            self.thresholds.error_rate = value;
        }
        if str_eq(metric, "cpu_utilization") {
            self.thresholds.cpu_utilization = value;
        }
    }

    /// Switch recording on or off.
    pub fn enable_monitoring(&mut self, enabled: bool)
        requires
            old(self).wf(),
        ensures
            final(self).wf(),
            final(self).monitoring_enabled == enabled,
            final(self).entries == old(self).entries,
            final(self).thresholds == old(self).thresholds,
            final(self).global_metrics == old(self).global_metrics,
    {
        self.monitoring_enabled = enabled;
    }

    /// Reset one container's counters to fresh; the series stay.
    pub fn reset_container_metrics(&mut self, container_id: &str)
        requires
            old(self).wf(),
        ensures
            final(self).wf(),
            ({
                let es = old(self).entries@;
                let k = cm_find_from(es, 0, container_id@);
                k < es.len() ==> final(self).entries@[k].metrics == fresh_metrics()
                    && final(self).entries@[k].series == es[k].series && (forall|j: int|
                    0 <= j < es.len() && j != k ==> final(self).entries@[j] == es[j])
            }),
    {
        let k = find_cm(&self.entries, container_id);
        proof {
            lemma_cm_find_props(self.entries@, 0, container_id@);
        }
        if k == self.entries.len() {
            return ;
        }
        let entry = &mut self.entries[k];
        entry.metrics.reset();
    }

    /// Drop expired samples from every container's series.
    pub fn cleanup_old_data(&mut self, now: u64)
        requires
            old(self).wf(),
        ensures
            final(self).wf(),
            final(self).entries@.len() == old(self).entries@.len(),
            forall|j: int|
                0 <= j < final(self).entries@.len() ==> {
                    let e = #[trigger] final(self).entries@[j];
                    let cutoff: u64 = if now >= e.series.execution_time.retention_ms {
                        (now - e.series.execution_time.retention_ms) as u64
                    } else {
                        0
                    };
                    forall|t: int|
                        0 <= t < e.series.execution_time.samples@.len()
                            ==> (#[trigger] e.series.execution_time.samples@[t]).timestamp
                            >= cutoff
                },
            final(self).global_metrics == old(self).global_metrics,
            final(self).thresholds == old(self).thresholds,
            final(self).monitoring_enabled == old(self).monitoring_enabled,
    {
        let n = self.entries.len();
        let mut j: usize = 0;
        while j < n
            invariant
                j <= n,
                n == self.entries@.len(),
                self.wf(),
                self.entries@.len() == n,
                self.global_metrics == old(self).global_metrics,
                self.thresholds == old(self).thresholds,
                self.monitoring_enabled == old(self).monitoring_enabled,
                forall|q: int|
                    0 <= q < j ==> {
                        let e = #[trigger] self.entries@[q];
                        let cutoff: u64 = if now >= e.series.execution_time.retention_ms {
                            (now - e.series.execution_time.retention_ms) as u64
                        } else {
                            0
                        };
                        forall|t: int|
                            0 <= t < e.series.execution_time.samples@.len()
                                ==> (#[trigger] e.series.execution_time.samples@[t]).timestamp
                                >= cutoff
                    },
            decreases n - j,
        {
            let entry = &mut self.entries[j];
            entry.series.execution_time.prune(now);
            entry.series.memory_usage.prune(now);
            entry.series.cpu_usage.prune(now);
            entry.series.throughput.prune(now);
            entry.series.error_rate.prune(now);
            j += 1;
        }
    }

    /// The alerts the thresholds raise right now for one container's
    /// counters, in fixed order: a warning on mean execution time, a
    /// critical alert on memory pressure, a warning on the error rate, and a
    /// warning on processor use. Each fires exactly when its value crosses
    /// its threshold, and nothing else is raised.
    pub fn generate_alerts(&self, m: &PerformanceMetrics) -> (r: Vec<Alert>)
        ensures
            alerts_of(self.thresholds, *m, r@),
    {
        let mut out: Vec<Alert> = Vec::new();
        let avg = if m.function_calls > 0 {
            m.total_execution_time / m.function_calls
        } else {
            0
        };
        if avg > self.thresholds.execution_time {
            out.push(
                Alert {
                    level: AlertLevel::Warning,
                    metric: "execution_time".to_owned(),
                    value: avg,
                    threshold: self.thresholds.execution_time,
                },
            );
        }
        let ghost n2 = out@.len() as int;
        if m.memory_pressure > self.thresholds.memory_pressure {
            out.push(
                Alert {
                    level: AlertLevel::Critical,
                    metric: "memory_pressure".to_owned(),
                    value: m.memory_pressure,
                    threshold: self.thresholds.memory_pressure,
                },
            );
        }
        let er = if m.function_calls == 0 {
            0u64
        } else if m.errors > m.function_calls {
            100u64
        } else {
            let succ = m.function_calls - m.errors;
            proof {
                assert((succ as int) * 100 / (m.function_calls as int) <= 100) by (nonlinear_arith)
                    requires
                        0 < m.function_calls,
                        0 <= succ as int <= m.function_calls as int,
                ;
            }
            100 - ((succ as u128 * 100) / (m.function_calls as u128)) as u64
        };
        let ghost n3 = out@.len() as int;
        if er > self.thresholds.error_rate {
            out.push(
                Alert {
                    level: AlertLevel::Warning,
                    metric: "error_rate".to_owned(),
                    value: er,
                    threshold: self.thresholds.error_rate,
                },
            );
        }
        let ghost n4 = out@.len() as int;
        if m.cpu_utilization > self.thresholds.cpu_utilization {
            out.push(
                Alert {
                    level: AlertLevel::Warning,
                    metric: "cpu_utilization".to_owned(),
                    value: m.cpu_utilization,
                    threshold: self.thresholds.cpu_utilization,
                },
            );
        }
        proof {
            if avg > self.thresholds.execution_time {
                assert(out@[0].metric@ == "execution_time"@);
            }
            if m.memory_pressure > self.thresholds.memory_pressure {
                assert(out@[n2].metric@ == "memory_pressure"@);
            }
            if er > self.thresholds.error_rate {
                assert(out@[n3].metric@ == "error_rate"@);
            }
            if m.cpu_utilization > self.thresholds.cpu_utilization {
                assert(out@[n4].metric@ == "cpu_utilization"@);
            }
        }
        out
    }

    /// The canned recommendations for one container's counters: tuning past
    /// half a second of mean time, memory care past seventy percent
    /// pressure, batching under ten calls a second once traffic exists.
    pub fn generate_recommendations(&self, m: &PerformanceMetrics) -> (r: Vec<Recommendation>)
        ensures
            recs_of(*m, r@),
    {
        let mut out: Vec<Recommendation> = Vec::new();
        let avg = if m.function_calls > 0 {
            m.total_execution_time / m.function_calls
        } else {
            0
        };
        if avg > 500 {
            out.push(
                Recommendation {
                    priority: RecommendationPriority::High,
                    category: "performance".to_owned(),
                    title: "reduce the mean execution time".to_owned(),
                },
            );
        }
        let ghost n2 = out@.len() as int;
        if m.memory_pressure > 70 {
            out.push(
                Recommendation {
                    priority: RecommendationPriority::Medium,
                    category: "memory".to_owned(),
                    title: "sweep or raise the memory budget".to_owned(),
                },
            );
        }
        let ghost n3 = out@.len() as int;
        if m.throughput_per_sec < 10 && m.function_calls > 100 {
            out.push(
                Recommendation {
                    priority: RecommendationPriority::Medium,
                    category: "throughput".to_owned(),
                    title: "batch or parallelise the call stream".to_owned(),
                },
            );
        }
        proof {
            if avg > 500 {
                assert(out@[0].category@ == "performance"@);
            }
            if m.memory_pressure > 70 {
                assert(out@[n2].category@ == "memory"@);
            }
            if m.throughput_per_sec < 10 && m.function_calls > 100 {
                assert(out@[n3].category@ == "throughput"@);
            }
        }
        out
    }
}


/// One named trend of a report.
pub struct TrendEntry {
    pub metric: String,
    pub trend: TrendAnalysis,
}

/// A bundled view of one container: its counters, the trend of each of its
/// five series, the active alerts and the canned recommendations.
pub struct PerformanceReport {
    pub container_id: String,
    pub generated_at: u64,
    pub metrics: PerformanceMetrics,
    pub trends: Vec<TrendEntry>,
    pub alerts: Vec<Alert>,
    pub recommendations: Vec<Recommendation>,
}

impl MetricsCollector {
    /// Bundle one container's standing: a copy of its counters, the exact
    /// least-squares trend of each of its five series, the alerts its
    /// counters raise against the thresholds, and the recommendations.
    pub fn generate_performance_report(&self, container_id: &str, now: u64) -> (r: Option<
        PerformanceReport,
    >)
        requires
            self.wf(),
        ensures
            ({
                let es = self.entries@;
                let k = cm_find_from(es, 0, container_id@);
                match r {
                    Some(rep) => {
                        &&& k < es.len()
                        &&& rep.container_id@ == es[k].id@
                        &&& rep.generated_at == now
                        &&& rep.metrics == es[k].metrics
                        &&& rep.trends@.len() == 5
                        &&& rep.trends@[0].metric@ == "execution_time"@
                        &&& trend_of(es[k].series.execution_time.samples@, rep.trends@[0].trend)
                        &&& rep.trends@[1].metric@ == "memory_usage"@
                        &&& trend_of(es[k].series.memory_usage.samples@, rep.trends@[1].trend)
                        &&& rep.trends@[2].metric@ == "cpu_usage"@
                        &&& trend_of(es[k].series.cpu_usage.samples@, rep.trends@[2].trend)
                        &&& rep.trends@[3].metric@ == "throughput"@
                        &&& trend_of(es[k].series.throughput.samples@, rep.trends@[3].trend)
                        &&& rep.trends@[4].metric@ == "error_rate"@
                        &&& trend_of(es[k].series.error_rate.samples@, rep.trends@[4].trend)
                        &&& alerts_of(self.thresholds, es[k].metrics, rep.alerts@)
                        &&& recs_of(es[k].metrics, rep.recommendations@)
                    },
                    None => k == es.len(),
                }
            }),
    {
        let k = find_cm(&self.entries, container_id);
        proof {
            lemma_cm_find_props(self.entries@, 0, container_id@);
        }
        if k == self.entries.len() {
            return None;
        }
        let e = &self.entries[k];
        let m = e.metrics;
        let mut trends: Vec<TrendEntry> = Vec::new();
        trends.push(
            TrendEntry {
                metric: "execution_time".to_owned(),
                trend: e.series.execution_time.analyze_trend(),
            },
        );
        trends.push(
            TrendEntry {
                metric: "memory_usage".to_owned(),
                trend: e.series.memory_usage.analyze_trend(),
            },
        );
        trends.push(
            TrendEntry { metric: "cpu_usage".to_owned(), trend: e.series.cpu_usage.analyze_trend() },
        );
        trends.push(
            TrendEntry {
                metric: "throughput".to_owned(),
                trend: e.series.throughput.analyze_trend(),
            },
        );
        trends.push(
            TrendEntry {
                metric: "error_rate".to_owned(),
                trend: e.series.error_rate.analyze_trend(),
            },
        );
        let alerts = self.generate_alerts(&m);
        let recommendations = self.generate_recommendations(&m);
        Some(
            PerformanceReport {
                container_id: e.id.clone(),
                generated_at: now,
                metrics: m,
                trends,
                alerts,
                recommendations,
            },
        )
    }
}

} // verus!
