//! Error kinds of the download engine and their human-readable messages.

use vstd::prelude::*;
use crate::json::dec_digits;

verus! {

/// FAT32 cannot hold a file of more than this many bytes.
pub const FAT32_MAX_FILE_SIZE: i64 = 4294967295;

/// Everything that can go wrong while creating, starting or running a
/// download.
#[derive(Debug, Clone, PartialEq, Eq)]
pub enum DownloadError {
    /// The configuration was rejected on creation (empty task list).
    InvalidConfig,
    /// `start` was called while the session was already running.
    AlreadyRunning,
    /// A connection or protocol failure, with detail text.
    NetworkError(String),
    /// The size probe did not yield a positive content length.
    UnknownSize,
    /// A response carried an unexpected HTTP status code.
    BadStatus(u16),
    /// No bytes arrived on an active connection for too long.
    Stalled,
    /// Pre-allocation failed and the file exceeds the FAT32 limit.
    FilesystemTooSmall(i64),
    /// The task ended with fewer bytes than the resource holds.
    Incomplete(i64, i64),
    /// The session was cancelled; not reported as an error event.
    Cancelled,
    /// The handle names no registered session.
    NoSession,
}

/// Gigabytes with two decimal places, rounded half up: the integer part,
/// a dot, and exactly two fraction digits.
pub open spec fn gb_text(bytes: int) -> Seq<char> {
    let hundredths = (bytes * 100 + 536870912) / 1073741824;
    dec_digits((hundredths / 100) as nat) + seq!['.'] + seq![
        crate::json::dec_digit_char(((hundredths / 10) % 10) as nat),
        crate::json::dec_digit_char((hundredths % 10) as nat),
    ]
}

impl DownloadError {
    /// The numbers a message may embed are byte counts, never negative.
    pub open spec fn wf(self) -> bool {
        match self {
            DownloadError::FilesystemTooSmall(n) => n >= 0,
            DownloadError::Incomplete(got, want) => got >= 0 && want >= 0,
            _ => true,
        }
    }

    /// The exact message text of each error kind.
    pub open spec fn message_chars(self) -> Seq<char> {
        match self {
            DownloadError::InvalidConfig => "invalid config"@,
            DownloadError::AlreadyRunning => "downloader already running"@,
            DownloadError::NetworkError(s) => "network error: "@ + s@,
            DownloadError::UnknownSize => "Invalid content length"@,
            DownloadError::BadStatus(code) => "Bad status: "@ + dec_digits(code as nat),
            DownloadError::Stalled => "connection stalled"@,
            DownloadError::FilesystemTooSmall(n) => "file size ("@ + gb_text(n as int)
                + " GB) exceeds the FAT32 limit of 4 GB; choose an NTFS/exFAT volume"@,
            DownloadError::Incomplete(got, want) => "download incomplete: "@ + dec_digits(
                got as nat,
            ) + "/"@ + dec_digits(want as nat) + " bytes"@,
            DownloadError::Cancelled => "cancelled"@,
            DownloadError::NoSession => "no downloader with this id"@,
        }
    }

    /// An owned copy equal to this error.
    pub fn duplicate(&self) -> (r: DownloadError)
        ensures
            r == *self,
    {
        match self {
            DownloadError::InvalidConfig => DownloadError::InvalidConfig,
            DownloadError::AlreadyRunning => DownloadError::AlreadyRunning,
            DownloadError::NetworkError(s) => DownloadError::NetworkError(s.clone()),
            DownloadError::UnknownSize => DownloadError::UnknownSize,
            DownloadError::BadStatus(code) => DownloadError::BadStatus(*code),
            DownloadError::Stalled => DownloadError::Stalled,
            DownloadError::FilesystemTooSmall(n) => DownloadError::FilesystemTooSmall(*n),
            DownloadError::Incomplete(got, want) => DownloadError::Incomplete(*got, *want),
            DownloadError::Cancelled => DownloadError::Cancelled,
            DownloadError::NoSession => DownloadError::NoSession,
        }
    }

    /// Render the message.
    pub fn message(&self) -> (r: String)
        requires
            self.wf(),
        ensures
            r@ == self.message_chars(),
    {
        let mut out = String::new();
        match self {
            DownloadError::InvalidConfig => {
                out.append("invalid config");
            },
            DownloadError::AlreadyRunning => {
                out.append("downloader already running");
            },
            DownloadError::NetworkError(s) => {
                out.append("network error: ");
                out.append(s.as_str());
            },
            DownloadError::UnknownSize => {
                out.append("Invalid content length");
            },
            DownloadError::BadStatus(code) => {
                out.append("Bad status: ");
                crate::json::append_u64(&mut out, *code as u64);
            },
            DownloadError::FilesystemTooSmall(n) => {
                out.append("file size (");
                append_gb(&mut out, *n);
                out.append(" GB) exceeds the FAT32 limit of 4 GB; choose an NTFS/exFAT volume");
            },
            DownloadError::Stalled => {
                out.append("connection stalled");
            },
            DownloadError::Incomplete(got, want) => {
                out.append("download incomplete: ");
                crate::json::append_u64(&mut out, *got as u64);
                out.append("/");
                crate::json::append_u64(&mut out, *want as u64);
                out.append(" bytes");
            },
            DownloadError::Cancelled => {
                out.append("cancelled");
            },
            DownloadError::NoSession => {
                out.append("no downloader with this id");
            },
        }
        proof {
            assert(out@ =~= self.message_chars());
        }
        out
    }
}

/// Append the two-decimal gigabyte rendering of a byte count.
fn append_gb(out: &mut String, bytes: i64)
    requires
        bytes >= 0,
    ensures
        final(out)@ == old(out)@ + gb_text(bytes as int),
{
    let wide: u128 = (bytes as u128) * 100 + 536870912;
    proof {
        vstd::arithmetic::div_mod::lemma_div_is_ordered(
            wide as int,
            0x1_0000_0000_0000_0000_0000,
            1073741824,
        );
    }
    let hundredths: u64 = (wide / 1073741824) as u64;
    crate::json::append_u64(out, hundredths / 100);
    push_dot(out);
    crate::json::append_u64(out, (hundredths / 10) % 10);
    crate::json::append_u64(out, hundredths % 10);
    proof {
        assert(out@ =~= old(out)@ + gb_text(bytes as int));
    }
}

/// Append a decimal point.
fn push_dot(out: &mut String)
    ensures
        final(out)@ == old(out)@ + seq!['.'],
{
    out.append(".");
    proof {
        reveal_strlit(".");
        assert("."@ =~= seq!['.']);
    }
}

} // verus!
