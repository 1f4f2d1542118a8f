//! Per-task download status and its snapshot.
//!
//! Speeds and elapsed time are integers: bytes per second and
//! milliseconds; the progress percentage is a whole per-cent figure.

use vstd::prelude::*;

verus! {

/// A self-consistent view of one task's progress.
#[derive(Debug, Clone)]
pub struct DownloadSnapshot {
    pub downloaded: i64,
    pub total_size: i64,
    /// Whole per-cent figure, `downloaded * 100 / total_size`.
    pub progress_percentage: u64,
    pub is_finished: bool,
    pub error_message: Option<String>,
    pub current_speed_bps: u64,
    pub average_speed_bps: u64,
    pub elapsed_ms: u64,
}

/// The mutable status of one running task.
pub struct DownloadStatus {
    pub total_size: i64,
    pub downloaded: i64,
    pub error_message: Option<String>,
    pub start_time_ms: u64,
}

impl DownloadStatus {
    /// The byte counters stay non-negative.
    pub open spec fn wf(self) -> bool {
        0 <= self.downloaded && 0 <= self.total_size
    }

    /// A fresh status for a resource of `total_size` bytes, started now.
    pub fn new(total_size: i64, now_ms: u64) -> (r: DownloadStatus)
        requires
            0 <= total_size,
        ensures
            r.wf(),
            r.total_size == total_size,
            r.downloaded == 0,
            r.error_message is None,
            r.start_time_ms == now_ms,
    {
        DownloadStatus { total_size, downloaded: 0, error_message: None, start_time_ms: now_ms }
    }

    /// Record a failure message.
    pub fn set_error(&mut self, msg: String)
        ensures
            final(self).error_message == Some(msg),
            final(self).total_size == old(self).total_size,
            final(self).downloaded == old(self).downloaded,
            final(self).start_time_ms == old(self).start_time_ms,
    {
        self.error_message = Some(msg);
    }

    /// The recorded failure message, if any.
    pub fn get_error(&self) -> (r: Option<String>)
        ensures
            r == self.error_message,
    {
        match &self.error_message {
            Some(m) => Some(m.clone()),
            None => None,
        }
    }

    /// Account `bytes` more received bytes.
    pub fn add_downloaded(&mut self, bytes: i64)
        requires
            old(self).wf(),
            0 <= bytes,
            old(self).downloaded + bytes <= i64::MAX,
        ensures
            final(self).wf(),
            final(self).downloaded == old(self).downloaded + bytes,
            final(self).total_size == old(self).total_size,
            final(self).error_message == old(self).error_message,
            final(self).start_time_ms == old(self).start_time_ms,
    {
        self.downloaded = self.downloaded + bytes;
    }

    /// The running byte count.
    pub fn get_downloaded(&self) -> (r: i64)
        ensures
            r == self.downloaded,
    {
        self.downloaded
    }

    /// A snapshot: the counters, the whole-per-cent progress, whether the
    /// task has finished (all bytes in, or failed), and the speeds the
    /// caller measured.
    pub fn snapshot(&self, current_speed_bps: u64, average_speed_bps: u64, now_ms: u64) -> (r:
        DownloadSnapshot)
        requires
            self.wf(),
            self.downloaded <= 0x7FFF_FFFF_FFFF,
            self.start_time_ms <= now_ms,
        ensures
            r.downloaded == self.downloaded,
            r.total_size == self.total_size,
            r.progress_percentage == (if self.total_size > 0 {
                self.downloaded as int * 100 / (self.total_size as int)
            } else {
                0
            }),
            r.is_finished == (self.downloaded >= self.total_size || self.error_message is Some),
            r.error_message == self.error_message,
            r.current_speed_bps == current_speed_bps,
            r.average_speed_bps == average_speed_bps,
            r.elapsed_ms == now_ms - self.start_time_ms,
    {
        let progress: u64 = if self.total_size > 0 {
            proof {
                vstd::arithmetic::div_mod::lemma_div_nonincreasing(
                    self.downloaded as int * 100,
                    self.total_size as int,
                );
                vstd::arithmetic::div_mod::lemma_div_pos_is_pos(
                    self.downloaded as int * 100,
                    self.total_size as int,
                );
            }
            ((self.downloaded as i128 * 100) / (self.total_size as i128)) as u64
        } else {
            0
        };
        let error_message = self.get_error();
        let is_finished = self.downloaded >= self.total_size || error_message.is_some();
        DownloadSnapshot {
            downloaded: self.downloaded,
            total_size: self.total_size,
            progress_percentage: progress,
            is_finished,
            error_message,
            current_speed_bps,
            average_speed_bps,
            elapsed_ms: now_ms - self.start_time_ms,
        }
    }
}

} // verus!
