//! Decision logic of the chunked HTTP download engine.
//!
//! The engine probes the resource size, pre-allocates the file, partitions
//! the byte range, fetches chunks concurrently and accounts the bytes. The
//! network and file I/O around these decisions is driven from outside the
//! library; everything that decides or computes stands here, verified.

use vstd::prelude::*;
use crate::chunks::{DownloadChunk, is_chunk_partition, covered_by_some, lemma_chunks_ordered,
    lemma_partition_covers};
use crate::errors::{DownloadError, FAT32_MAX_FILE_SIZE};
use crate::json::{is_dec_digit, dec_digit_val, parse_digits, dec_digits};

verus! {

/// Connection establishment is abandoned after this many seconds.
pub const CONNECT_TIMEOUT_SECS: u64 = 15;

/// Idle pooled connections are dropped after this many seconds.
pub const POOL_IDLE_TIMEOUT_SECS: u64 = 90;

/// TCP keep-alive interval in seconds.
pub const TCP_KEEPALIVE_SECS: u64 = 30;

/// A chunk connection without bytes for longer than this is stalled.
pub const STALL_TIMEOUT_MS: u64 = 30000;

/// The stall watchdog wakes this often.
pub const STALL_TICK_MS: u64 = 5000;

/// Progress is published to the shared counters in batches of at least
/// this many bytes.
pub const BATCH_UPDATE_THRESHOLD: i64 = 524288;

// ---------------------------------------------------------------------------
// Size probe
// ---------------------------------------------------------------------------
/// Every character is a decimal digit.
pub open spec fn all_dec_digits(s: Seq<char>) -> bool {
    forall|i: int| 0 <= i < s.len() ==> is_dec_digit(s[i])
}

/// The numeric value of a digit string.
pub open spec fn digits_value(s: Seq<char>) -> nat {
    parse_digits(s, 0).0
}

/// What a `Content-Length` header text means: a positive byte count that
/// fits a signed 64-bit integer, or nothing.
pub open spec fn content_length_of(s: Seq<char>) -> Option<int> {
    if s.len() > 0 && all_dec_digits(s) && 0 < digits_value(s) <= i64::MAX {
        Some(digits_value(s) as int)
    } else {
        None
    }
}

/// The value a digit run folds to never falls below the accumulator.
proof fn lemma_parse_digits_ge(s: Seq<char>, acc: nat)
    ensures
        parse_digits(s, acc).0 >= acc,
    decreases s.len(),
{
    if s.len() == 0 || !is_dec_digit(s[0]) {
    } else {
        lemma_parse_digits_ge(s.skip(1), acc * 10 + dec_digit_val(s[0]));
    }
}

/// Interpret the outcome of a size probe: the response status and the
/// `Content-Length` header text. Succeeds exactly on a 2xx status with a
/// header that is a positive decimal byte count.
pub fn parse_content_length(status: u16, header: Option<&str>) -> (r: Result<i64, DownloadError>)
    ensures
        !(200 <= status < 300) ==> r == Err::<i64, DownloadError>(DownloadError::BadStatus(status)),
        (200 <= status < 300) ==> (match header {
            Option::None => r == Err::<i64, DownloadError>(DownloadError::UnknownSize),
            Option::Some(h) => (match content_length_of(h@) {
                Option::Some(v) => r == Ok::<i64, DownloadError>(v as i64),
                Option::None => r == Err::<i64, DownloadError>(DownloadError::UnknownSize),
            }),
        }),
{
    if status < 200 || status >= 300 {
        return Err(DownloadError::BadStatus(status));
    }
    let h = match header {
        Option::Some(h) => h,
        Option::None => {
            return Err(DownloadError::UnknownSize);
        },
    };
    let n = h.unicode_len();
    if n == 0 {
        return Err(DownloadError::UnknownSize);
    }
    let mut acc: u64 = 0;
    let mut i: usize = 0;
    proof {
        assert(h@.skip(0) =~= h@);
    }
    while i < n
        invariant
            200 <= status < 300,
            header == Some(h),
            n == h@.len(),
            0 < n,
            i <= n,
            acc <= i64::MAX,
            forall|j: int| 0 <= j < i ==> is_dec_digit(h@[j]),
            parse_digits(h@, 0) == parse_digits(h@.skip(i as int), acc as nat),
        decreases n - i,
    {
        let c = h.get_char(i);
        let code = c as u32;
        if code < 48 || code > 57 {
            return Err(DownloadError::UnknownSize);
        }
        let d = (code - 48) as u64;
        proof {
            assert(h@.skip(i as int)[0] == h@[i as int]);
            assert(h@.skip(i as int).skip(1) =~= h@.skip(i + 1));
            lemma_parse_digits_ge(h@.skip(i + 1), (acc * 10 + d) as nat);
        }
        if acc > (0x7FFF_FFFF_FFFF_FFFFu64 - d) / 10 {
            proof {
                assert(acc * 10 + d > i64::MAX);
                assert(digits_value(h@) > i64::MAX);
            }
            return Err(DownloadError::UnknownSize);
        }
        acc = acc * 10 + d;
        i = i + 1;
    }
    proof {
        assert(h@.skip(n as int) =~= Seq::<char>::empty());
        assert(digits_value(h@) == acc as nat);
        assert(all_dec_digits(h@));
    }
    if acc == 0 {
        return Err(DownloadError::UnknownSize);
    }
    Ok(acc as i64)
}

// ---------------------------------------------------------------------------
// Pre-allocation
// ---------------------------------------------------------------------------
/// Decide what a failed or successful pre-allocation means: a failure on a
/// file beyond the FAT32 limit fails the task with the computed size;
/// any smaller failure is tolerated and the download continues.
pub fn prealloc_outcome(file_size: i64, set_len_ok: bool) -> (r: Result<(), DownloadError>)
    requires
        file_size > 0,
    ensures
        set_len_ok ==> r == Ok::<(), DownloadError>(()),
        !set_len_ok && file_size > FAT32_MAX_FILE_SIZE ==> r == Err::<(), DownloadError>(
            DownloadError::FilesystemTooSmall(file_size),
        ),
        !set_len_ok && file_size <= FAT32_MAX_FILE_SIZE ==> r == Ok::<(), DownloadError>(()),
{
    if set_len_ok {
        Ok(())
    } else if file_size > FAT32_MAX_FILE_SIZE {
        Err(DownloadError::FilesystemTooSmall(file_size))
    } else {
        Ok(())
    }
}

// ---------------------------------------------------------------------------
// Ranged GET
// ---------------------------------------------------------------------------
/// The `Range` header text for an inclusive byte range.
pub open spec fn range_header_chars(start: int, end: int) -> Seq<char> {
    "bytes="@ + dec_digits(start as nat) + "-"@ + dec_digits(end as nat)
}

/// Render the `Range: bytes=start-end` header value.
pub fn range_header_value(start: i64, end: i64) -> (r: String)
    requires
        0 <= start,
        0 <= end,
    ensures
        r@ == range_header_chars(start as int, end as int),
{
    let mut out = String::new();
    out.append("bytes=");
    crate::json::append_u64(&mut out, start as u64);
    out.append("-");
    crate::json::append_u64(&mut out, end as u64);
    proof {
        assert(out@ =~= range_header_chars(start as int, end as int));
    }
    out
}

/// Judge the status of a ranged GET. Only `206 Partial Content` is
/// accepted: a `200` means the server ignored the range and would hand
/// back the whole body, which must fail rather than corrupt the file.
pub fn check_range_status(status: u16) -> (r: Result<(), DownloadError>)
    ensures
        status == 206 ==> r == Ok::<(), DownloadError>(()),
        status != 206 ==> r == Err::<(), DownloadError>(DownloadError::BadStatus(status)),
{
    if status == 206 {
        Ok(())
    } else {
        Err(DownloadError::BadStatus(status))
    }
}

// ---------------------------------------------------------------------------
// Batched progress accounting
// ---------------------------------------------------------------------------
/// Per-chunk byte accounting: bytes received are held locally and published
/// to the shared counters in batches, the tail on flush. At all times
/// `published + local` equals the bytes received so far.
pub struct ChunkProgress {
    pub local: i64,
    pub published: i64,
}

impl ChunkProgress {
    /// Nothing unaccounted, nothing published yet.
    pub open spec fn wf(self) -> bool {
        0 <= self.local && 0 <= self.published
    }

    /// Total bytes received so far.
    pub open spec fn received(self) -> int {
        self.published + self.local
    }

    pub fn new() -> (r: ChunkProgress)
        ensures
            r.wf(),
            r.local == 0,
            r.published == 0,
    {
        ChunkProgress { local: 0, published: 0 }
    }

    /// Account `n` freshly received bytes. Returns the delta to publish
    /// now: the whole local tally once it reaches the batch threshold,
    /// zero otherwise.
    pub fn on_bytes(&mut self, n: i64) -> (delta: i64)
        requires
            old(self).wf(),
            0 <= n,
            old(self).received() + n <= i64::MAX,
        ensures
            final(self).wf(),
            final(self).received() == old(self).received() + n,
            final(self).published == old(self).published + delta,
            old(self).local + n >= BATCH_UPDATE_THRESHOLD ==> delta == old(self).local + n
                && final(self).local == 0,
            old(self).local + n < BATCH_UPDATE_THRESHOLD ==> delta == 0 && final(self).local == old(
                self,
            ).local + n,
    {
        self.local = self.local + n;
        if self.local >= BATCH_UPDATE_THRESHOLD {
            let delta = self.local;
            self.published = self.published + delta;
            self.local = 0;
            delta
        } else {
            0
        }
    }

    /// Publish whatever is still held locally. After a flush every received
    /// byte has been published.
    pub fn flush(&mut self) -> (delta: i64)
        requires
            old(self).wf(),
            old(self).received() <= i64::MAX,
        ensures
            final(self).wf(),
            delta == old(self).local,
            final(self).local == 0,
            final(self).published == old(self).published + delta,
            final(self).published == old(self).received(),
    {
        let delta = self.local;
        self.published = self.published + delta;
        self.local = 0;
        delta
    }
}

// ---------------------------------------------------------------------------
// Stall detection
// ---------------------------------------------------------------------------
/// Whether a connection has stalled: more than the stall timeout has passed
/// since the last byte arrived.
pub fn is_stalled(last_read_ms: u64, now_ms: u64) -> (r: bool)
    requires
        last_read_ms <= now_ms,
    ensures
        r == (now_ms - last_read_ms > STALL_TIMEOUT_MS),
{
    now_ms - last_read_ms > STALL_TIMEOUT_MS
}

/// The watchdog fires within one tick of the timeout: if the previous check
/// saw no stall and this one does, the elapsed silence is between the stall
/// timeout and the timeout plus one tick.
pub proof fn lemma_stall_window(last_read_ms: int, prev_check_ms: int, fire_ms: int)
    requires
        fire_ms - prev_check_ms <= STALL_TICK_MS,
        prev_check_ms - last_read_ms <= STALL_TIMEOUT_MS,
        fire_ms - last_read_ms > STALL_TIMEOUT_MS,
    ensures
        STALL_TIMEOUT_MS < fire_ms - last_read_ms <= STALL_TIMEOUT_MS + STALL_TICK_MS,
{
}

// ---------------------------------------------------------------------------
// Task outcome
// ---------------------------------------------------------------------------
/// Sum of the byte counts of the successful chunk results.
pub open spec fn ok_bytes_sum(rs: Seq<Result<i64, DownloadError>>) -> int
    decreases rs.len(),
{
    if rs.len() == 0 {
        0
    } else {
        ok_bytes_sum(rs.drop_last()) + (match rs.last() {
            Ok(v) => v as int,
            Err(_) => 0,
        })
    }
}

/// The first error among the chunk results, if any.
pub open spec fn first_err(rs: Seq<Result<i64, DownloadError>>) -> Option<DownloadError>
    decreases rs.len(),
{
    if rs.len() == 0 {
        None
    } else {
        match rs[0] {
            Err(e) => Some(e),
            Ok(_) => first_err(rs.skip(1)),
        }
    }
}

/// If everything before `i` succeeded and `i` failed, that failure is the
/// first one.
proof fn lemma_first_err_at(rs: Seq<Result<i64, DownloadError>>, i: int)
    requires
        0 <= i < rs.len(),
        forall|j: int| 0 <= j < i ==> rs[j] is Ok,
        rs[i] is Err,
    ensures
        first_err(rs) == Some(rs[i]->Err_0),
    decreases i,
{
    if i == 0 {
    } else {
        assert(rs.skip(1)[i - 1] == rs[i]);
        assert(forall|j: int| 0 <= j < i - 1 ==> rs.skip(1)[j] == rs[j + 1]);
        lemma_first_err_at(rs.skip(1), i - 1);
    }
}

/// If every result succeeded there is no first error.
proof fn lemma_first_err_none(rs: Seq<Result<i64, DownloadError>>)
    requires
        forall|j: int| 0 <= j < rs.len() ==> rs[j] is Ok,
    ensures
        first_err(rs) is None,
    decreases rs.len(),
{
    if rs.len() == 0 {
    } else {
        assert(forall|j: int| 0 <= j < rs.len() - 1 ==> rs.skip(1)[j] == rs[j + 1]);
        lemma_first_err_none(rs.skip(1));
    }
}

/// Judge a finished task from its chunk results: the first chunk error
/// fails the task with that error; with every chunk successful the task
/// succeeds exactly when the bytes received add up to the whole resource,
/// and otherwise fails as incomplete.
pub fn task_outcome(results: &Vec<Result<i64, DownloadError>>, file_size: i64) -> (r: Result<
    (),
    DownloadError,
>)
    requires
        forall|j: int|
            0 <= j < results@.len() && results@[j] is Ok ==> 0 <= results@[j]->Ok_0,
        ok_bytes_sum(results@) <= i64::MAX,
    ensures
        first_err(results@) matches Some(e) ==> r == Err::<(), DownloadError>(e),
        first_err(results@) is None && ok_bytes_sum(results@) == file_size ==> r == Ok::<
            (),
            DownloadError,
        >(()),
        first_err(results@) is None && ok_bytes_sum(results@) != file_size ==> r == Err::<
            (),
            DownloadError,
        >(DownloadError::Incomplete(ok_bytes_sum(results@) as i64, file_size)),
{
    let mut sum: i64 = 0;
    let mut i: usize = 0;
    while i < results.len()
        invariant
            i <= results@.len(),
            forall|j: int| 0 <= j < i ==> results@[j] is Ok,
            forall|j: int|
                0 <= j < results@.len() && results@[j] is Ok ==> 0 <= results@[j]->Ok_0,
            ok_bytes_sum(results@) <= i64::MAX,
            sum == ok_bytes_sum(results@.take(i as int)),
            0 <= sum,
        decreases results@.len() - i,
    {
        match &results[i] {
            Ok(v) => {
                proof {
                    assert(results@.take(i + 1).drop_last() =~= results@.take(i as int));
                    assert(results@.take(i + 1).last() == results@[i as int]);
                    lemma_ok_prefix_sum_le(results@, i + 1);
                }
                sum = sum + *v;
            },
            Err(e) => {
                proof {
                    lemma_first_err_at(results@, i as int);
                }
                return Err(e.duplicate());
            },
        }
        i = i + 1;
    }
    proof {
        assert(results@.take(results@.len() as int) =~= results@);
        lemma_first_err_none(results@);
    }
    if sum != file_size {
        return Err(DownloadError::Incomplete(sum, file_size));
    }
    Ok(())
}

/// Partial sums of non-negative summands never exceed the total.
proof fn lemma_ok_prefix_sum_le(rs: Seq<Result<i64, DownloadError>>, k: int)
    requires
        0 <= k <= rs.len(),
        forall|j: int| 0 <= j < rs.len() && rs[j] is Ok ==> 0 <= rs[j]->Ok_0,
    ensures
        ok_bytes_sum(rs.take(k)) <= ok_bytes_sum(rs),
        0 <= ok_bytes_sum(rs.take(k)),
    decreases rs.len() - k, rs.len(),
{
    assert(forall|j: int|
        0 <= j < rs.take(k).len() && rs.take(k)[j] is Ok ==> 0 <= rs.take(k)[j]->Ok_0);
    lemma_ok_sum_nonneg(rs.take(k));
    if k == rs.len() {
        assert(rs.take(k) =~= rs);
    } else {
        lemma_ok_prefix_sum_le(rs, k + 1);
        assert(rs.take(k + 1).drop_last() =~= rs.take(k));
        assert(rs.take(k + 1).last() == rs[k]);
    }
}

/// A sum of non-negative summands is non-negative.
proof fn lemma_ok_sum_nonneg(rs: Seq<Result<i64, DownloadError>>)
    requires
        forall|j: int| 0 <= j < rs.len() && rs[j] is Ok ==> 0 <= rs[j]->Ok_0,
    ensures
        0 <= ok_bytes_sum(rs),
    decreases rs.len(),
{
    if rs.len() == 0 {
    } else {
        assert(forall|j: int| 0 <= j < rs.len() - 1 ==> rs.drop_last()[j] == rs[j]);
        lemma_ok_sum_nonneg(rs.drop_last());
    }
}

// ---------------------------------------------------------------------------
// File reconstruction model
// ---------------------------------------------------------------------------
/// The file contents after writing `data` at offset `off`: `data` overlaid,
/// everything else untouched.
pub open spec fn write_at(f: Seq<u8>, off: int, data: Seq<u8>) -> Seq<u8> {
    Seq::new(
        f.len(),
        |i: int|
            if off <= i < off + data.len() {
                data[i - off]
            } else {
                f[i]
            },
    )
}

/// One chunk worker's effect on the file: the chunk's slice of the remote
/// resource written at the chunk's start offset.
pub open spec fn chunk_write(f: Seq<u8>, c: DownloadChunk, remote: Seq<u8>) -> Seq<u8> {
    write_at(f, c.start_offset as int, remote.subrange(c.start_offset as int, c.end_offset + 1))
}

/// The file after every chunk write has landed, in the given order.
pub open spec fn apply_chunk_writes(f: Seq<u8>, chunks: Seq<DownloadChunk>, remote: Seq<u8>) -> Seq<
    u8,
>
    decreases chunks.len(),
{
    if chunks.len() == 0 {
        f
    } else {
        apply_chunk_writes(chunk_write(f, chunks[0], remote), chunks.skip(1), remote)
    }
}

/// Each byte of the file after the chunk writes: the remote byte wherever
/// some chunk covers the offset, the original byte elsewhere.
proof fn lemma_apply_writes_pointwise(
    f: Seq<u8>,
    chunks: Seq<DownloadChunk>,
    remote: Seq<u8>,
    i: int,
)
    requires
        f.len() == remote.len(),
        forall|k: int|
            0 <= k < chunks.len() ==> 0 <= (#[trigger] chunks[k]).start_offset
                <= chunks[k].end_offset < remote.len(),
        0 <= i < f.len(),
    ensures
        apply_chunk_writes(f, chunks, remote).len() == f.len(),
        apply_chunk_writes(f, chunks, remote)[i] == if covered_by_some(chunks, i) {
            remote[i]
        } else {
            f[i]
        },
    decreases chunks.len(),
{
    if chunks.len() == 0 {
    } else {
        let c = chunks[0];
        let f1 = chunk_write(f, c, remote);
        assert(f1.len() == f.len());
        lemma_apply_writes_pointwise(f1, chunks.skip(1), remote, i);
        if covered_by_some(chunks.skip(1), i) {
            let k = choose|k: int|
                0 <= k < chunks.skip(1).len() && chunks.skip(1)[k].covers(i);
            assert(chunks[k + 1].covers(i));
            assert(covered_by_some(chunks, i));
        } else {
            if c.covers(i) {
                assert(f1[i] == remote[i]);
                assert(covered_by_some(chunks, i));
            } else {
                assert(f1[i] == f[i]);
                if covered_by_some(chunks, i) {
                    let k = choose|k: int| 0 <= k < chunks.len() && chunks[k].covers(i);
                    assert(k != 0);
                    assert(chunks.skip(1)[k - 1].covers(i));
                    assert(covered_by_some(chunks.skip(1), i));
                }
            }
        }
    }
}

/// A task that completes with success wrote the remote resource exactly:
/// when the chunks partition the resource's byte range, the file after all
/// chunk writes equals the remote resource byte for byte.
pub proof fn lemma_download_reconstructs_file(
    f: Seq<u8>,
    chunks: Seq<DownloadChunk>,
    remote: Seq<u8>,
)
    requires
        f.len() == remote.len(),
        remote.len() > 0,
        is_chunk_partition(chunks, remote.len() as int),
    ensures
        apply_chunk_writes(f, chunks, remote) == remote,
{
    let n = remote.len() as int;
    let last = chunks.len() - 1;
    assert forall|k: int|
        0 <= k < chunks.len() implies 0 <= (#[trigger] chunks[k]).start_offset
        <= chunks[k].end_offset < remote.len() by {
        if k > 0 {
            lemma_chunks_ordered(chunks, n, 0, k);
        }
        if k < last {
            lemma_chunks_ordered(chunks, n, k, last);
        }
    }
    assert forall|i: int| 0 <= i < n implies apply_chunk_writes(f, chunks, remote)[i]
        == remote[i] by {
        lemma_partition_covers(chunks, n, i);
        lemma_apply_writes_pointwise(f, chunks, remote, i);
    }
    lemma_apply_writes_pointwise(f, chunks, remote, 0);
    assert(apply_chunk_writes(f, chunks, remote) =~= remote);
}

} // verus!
