//! The process-wide performance monitor.
//!
//! One aggregator shared by every session: a byte target, a monotonically
//! increasing count of downloaded bytes, and a short window of samples for
//! the current speed. Every byte ever reported is kept in a ghost history,
//! and the count provably equals that history's sum.

use vstd::prelude::*;
use crate::json::JsonValue;

verus! {

/// Samples older than this window no longer shape the current speed.
pub const SPEED_WINDOW_MS: u64 = 2000;

/// Byte counts the monitor accepts; keeps every derived figure within
/// machine range.
pub const MAX_MONITOR_BYTES: i64 = 0x7FFF_FFFF_FFFF;

/// A sample sequence after trimming: samples that fell out of the speed
/// window are dropped from the front, but one sample is always kept.
pub open spec fn trim_window(s: Seq<(u64, i64)>, now_ms: int) -> Seq<(u64, i64)>
    decreases s.len(),
{
    if s.len() > 1 && s[0].0 + SPEED_WINDOW_MS < now_ms {
        trim_window(s.skip(1), now_ms)
    } else {
        s
    }
}

/// Sum of a history of byte deltas.
pub open spec fn sum_deltas(s: Seq<int>) -> int
    decreases s.len(),
{
    if s.len() == 0 {
        0
    } else {
        sum_deltas(s.drop_last()) + s.last()
    }
}

/// The shared aggregator.
pub struct PerformanceMonitor {
    pub total_bytes: i64,
    pub downloaded_bytes: i64,
    pub started: bool,
    pub start_time_ms: u64,
    pub last_now_ms: u64,
    pub samples: Vec<(u64, i64)>,
    pub history: Ghost<Seq<int>>,
}

impl PerformanceMonitor {
    /// The counters are in range, every sample lies at or below the
    /// running count and at or before the last seen time, and the count is
    /// exactly the sum of every delta ever added.
    pub open spec fn wf(self) -> bool {
        &&& 0 <= self.total_bytes
        &&& 0 <= self.downloaded_bytes <= MAX_MONITOR_BYTES
        &&& self.start_time_ms <= self.last_now_ms
        &&& forall|i: int|
            0 <= i < self.samples@.len() ==> 0 <= (#[trigger] self.samples@[i]).1
                <= self.downloaded_bytes && self.samples@[i].0 <= self.last_now_ms
        &&& self.downloaded_bytes == sum_deltas(self.history@)
    }

    /// A fresh monitor with nothing counted.
    pub fn new(now_ms: u64) -> (r: PerformanceMonitor)
        ensures
            r.wf(),
            r.total_bytes == 0,
            r.downloaded_bytes == 0,
            !r.started,
            r.samples@ =~= Seq::<(u64, i64)>::empty(),
            r.history@ =~= Seq::<int>::empty(),
            r.start_time_ms == now_ms,
            r.last_now_ms == now_ms,
    {
        PerformanceMonitor {
            total_bytes: 0,
            downloaded_bytes: 0,
            started: false,
            start_time_ms: now_ms,
            last_now_ms: now_ms,
            samples: Vec::new(),
            history: Ghost(Seq::empty()),
        }
    }

    /// Set the byte target; a new task may overwrite it.
    pub fn set_total_bytes(&mut self, n: i64)
        requires
            old(self).wf(),
            0 <= n,
        ensures
            final(self).wf(),
            final(self).total_bytes == n,
            final(self).downloaded_bytes == old(self).downloaded_bytes,
            final(self).history@ == old(self).history@,
            final(self).samples@ == old(self).samples@,
            final(self).started == old(self).started,
            final(self).start_time_ms == old(self).start_time_ms,
            final(self).last_now_ms == old(self).last_now_ms,
    {
        self.total_bytes = n;
    }

    /// Add a batch of downloaded bytes at time `now_ms`. The running count
    /// grows by exactly `delta` — it is monotone — and the delta joins the
    /// history; the first addition starts the clock; the new cumulative
    /// reading joins the sample window, whose stale head is trimmed away.
    pub fn add_bytes(&mut self, delta: i64, now_ms: u64)
        requires
            old(self).wf(),
            0 <= delta,
            old(self).downloaded_bytes + delta <= MAX_MONITOR_BYTES,
            old(self).last_now_ms <= now_ms,
        ensures
            final(self).wf(),
            final(self).downloaded_bytes == old(self).downloaded_bytes + delta,
            final(self).total_bytes == old(self).total_bytes,
            final(self).history@ == old(self).history@.push(delta as int),
            final(self).last_now_ms == now_ms,
            final(self).started,
            final(self).start_time_ms == (if old(self).started {
                old(self).start_time_ms as int
            } else {
                now_ms as int
            }),
            final(self).samples@ == trim_window(
                old(self).samples@.push((now_ms, (old(self).downloaded_bytes + delta) as i64)),
                now_ms as int,
            ),
    {
        if !self.started {
            self.started = true;
            self.start_time_ms = now_ms;
        }
        self.downloaded_bytes = self.downloaded_bytes + delta;
        self.last_now_ms = now_ms;
        self.samples.push((now_ms, self.downloaded_bytes));
        proof {
            self.history@ = self.history@.push(delta as int);
            assert(self.history@.drop_last() =~= old(self).history@);
        }
        let ghost pushed = self.samples@;
        let ghost start_kept = self.start_time_ms;
        while self.samples.len() > 1 && now_ms > SPEED_WINDOW_MS && self.samples[0].0 < now_ms
            - SPEED_WINDOW_MS
            invariant
                self.downloaded_bytes == old(self).downloaded_bytes + delta,
                self.total_bytes == old(self).total_bytes,
                self.started,
                self.start_time_ms == start_kept,
                self.start_time_ms <= self.last_now_ms,
                self.last_now_ms == now_ms,
                self.history@ == old(self).history@.push(delta as int),
                self.downloaded_bytes == sum_deltas(self.history@),
                0 <= self.total_bytes,
                0 <= self.downloaded_bytes <= MAX_MONITOR_BYTES,
                trim_window(pushed, now_ms as int) == trim_window(self.samples@, now_ms as int),
                forall|i: int|
                    0 <= i < self.samples@.len() ==> 0 <= (#[trigger] self.samples@[i]).1
                        <= self.downloaded_bytes && self.samples@[i].0 <= self.last_now_ms,
            decreases self.samples@.len(),
        {
            let ghost before = self.samples@;
            self.samples.remove(0);
            proof {
                assert(before.skip(1) =~= self.samples@);
                assert(trim_window(before, now_ms as int) == trim_window(
                    before.skip(1),
                    now_ms as int,
                ));
            }
        }
        proof {
            assert(trim_window(self.samples@, now_ms as int) == self.samples@);
        }
    }

    /// The slope over the sample window, in bytes per second.
    pub open spec fn spec_current_speed(self, now_ms: int) -> int {
        if self.samples@.len() > 0 && now_ms > self.samples@[0].0 {
            (self.downloaded_bytes - self.samples@[0].1) * 1000 / (now_ms - self.samples@[0].0 as int)
        } else {
            0
        }
    }

    /// The cumulative rate since the clock started, in bytes per second.
    pub open spec fn spec_average_speed(self, now_ms: int) -> int {
        if self.started && now_ms > self.start_time_ms {
            self.downloaded_bytes as int * 1000 / (now_ms - self.start_time_ms as int)
        } else {
            0
        }
    }

    /// The whole-per-cent progress toward the target.
    pub open spec fn spec_progress_percentage(self) -> int {
        if self.total_bytes > 0 {
            self.downloaded_bytes as int * 100 / (self.total_bytes as int)
        } else {
            0
        }
    }

    /// A self-consistent statistics snapshot, as the key/value payload of
    /// an `update` event. `Downloaded` is the legacy compatibility alias of
    /// `downloaded_bytes`: both appear, with the same value.
    pub fn get_stats(&self, now_ms: u64) -> (r: Vec<(String, JsonValue)>)
        requires
            self.wf(),
            self.last_now_ms <= now_ms,
        ensures
            r@.len() == 7,
            r@[0].0@ == "total_bytes"@ && r@[0].1 == JsonValue::Num(self.total_bytes as u64),
            r@[1].0@ == "downloaded_bytes"@ && r@[1].1 == JsonValue::Num(
                self.downloaded_bytes as u64,
            ),
            r@[2].0@ == "Downloaded"@ && r@[2].1 == JsonValue::Num(self.downloaded_bytes as u64),
            r@[2].1 == r@[1].1,
            r@[3].0@ == "current_speed_bps"@ && r@[3].1 == JsonValue::Num(
                self.spec_current_speed(now_ms as int) as u64,
            ),
            r@[4].0@ == "average_speed_bps"@ && r@[4].1 == JsonValue::Num(
                self.spec_average_speed(now_ms as int) as u64,
            ),
            r@[5].0@ == "elapsed_seconds"@ && r@[5].1 == JsonValue::Num(
                (if self.started {
                    (now_ms - self.start_time_ms) / 1000
                } else {
                    0
                }) as u64,
            ),
            r@[6].0@ == "progress_percentage"@ && r@[6].1 == JsonValue::Num(
                self.spec_progress_percentage() as u64,
            ),
    {
        let current: u64 = if self.samples.len() > 0 && now_ms > self.samples[0].0 {
            let base = self.samples[0];
            proof {
                vstd::arithmetic::div_mod::lemma_div_nonincreasing(
                    (self.downloaded_bytes - base.1) as int * 1000,
                    now_ms - base.0,
                );
                vstd::arithmetic::div_mod::lemma_div_pos_is_pos(
                    (self.downloaded_bytes - base.1) as int * 1000,
                    now_ms - base.0,
                );
            }
            (((self.downloaded_bytes - base.1) as i128 * 1000) / ((now_ms - base.0) as i128)) as u64
        } else {
            0
        };
        let average: u64 = if self.started && now_ms > self.start_time_ms {
            proof {
                vstd::arithmetic::div_mod::lemma_div_nonincreasing(
                    self.downloaded_bytes as int * 1000,
                    now_ms - self.start_time_ms,
                );
                vstd::arithmetic::div_mod::lemma_div_pos_is_pos(
                    self.downloaded_bytes as int * 1000,
                    now_ms - self.start_time_ms,
                );
            }
            ((self.downloaded_bytes as i128 * 1000) / ((now_ms - self.start_time_ms) as i128))
                as u64
        } else {
            0
        };
        let elapsed_seconds: u64 = if self.started {
            (now_ms - self.start_time_ms) / 1000
        } else {
            0
        };
        let percent: u64 = if self.total_bytes > 0 {
            proof {
                vstd::arithmetic::div_mod::lemma_div_nonincreasing(
                    self.downloaded_bytes as int * 100,
                    self.total_bytes as int,
                );
                vstd::arithmetic::div_mod::lemma_div_pos_is_pos(
                    self.downloaded_bytes as int * 100,
                    self.total_bytes as int,
                );
            }
            ((self.downloaded_bytes as i128 * 100) / (self.total_bytes as i128)) as u64
        } else {
            0
        };
        let mut r: Vec<(String, JsonValue)> = Vec::new();
        r.push((String::from_str("total_bytes"), JsonValue::Num(self.total_bytes as u64)));
        r.push(
            (String::from_str("downloaded_bytes"), JsonValue::Num(self.downloaded_bytes as u64)),
        );
        r.push((String::from_str("Downloaded"), JsonValue::Num(self.downloaded_bytes as u64)));
        r.push((String::from_str("current_speed_bps"), JsonValue::Num(current)));
        r.push((String::from_str("average_speed_bps"), JsonValue::Num(average)));
        r.push((String::from_str("elapsed_seconds"), JsonValue::Num(elapsed_seconds)));
        r.push((String::from_str("progress_percentage"), JsonValue::Num(percent)));
        r
    }
}

/// The monitor's cumulative count is exactly the sum of every byte delta
/// reported to it: nothing is lost and nothing is counted twice.
pub proof fn lemma_monitor_total_is_sum(m: PerformanceMonitor)
    requires
        m.wf(),
    ensures
        m.downloaded_bytes == sum_deltas(m.history@),
{
}

} // verus!
