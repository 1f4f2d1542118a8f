//! Wire framing of the remote transports.
//!
//! The plain TCP sink frames each message as a big-endian 32-bit length
//! followed by the JSON bytes; the WebSocket sink wraps each message in an
//! `{"event": ..., "data": ...}` envelope. Reconnection backs off
//! exponentially from 500 ms to a 5 s cap.

use vstd::prelude::*;

verus! {

/// First reconnect delay after a sink write failure.
pub const INITIAL_BACKOFF_MS: u64 = 500;

/// Reconnect delays never exceed this cap.
pub const MAX_BACKOFF_MS: u64 = 5000;

/// The four big-endian bytes of a 32-bit length.
pub open spec fn be32(n: int) -> Seq<u8> {
    seq![
        (n / 0x100_0000 % 256) as u8,
        (n / 0x1_0000 % 256) as u8,
        (n / 256 % 256) as u8,
        (n % 256) as u8,
    ]
}

/// A framed message: the payload length in four big-endian bytes, then the
/// payload.
pub open spec fn frame_bytes(payload: Seq<u8>) -> Seq<u8> {
    be32(payload.len() as int) + payload
}

/// Frame a message for the plain TCP sink.
pub fn encode_frame(payload: &Vec<u8>) -> (r: Vec<u8>)
    requires
        payload@.len() <= 0xFFFF_FFFF,
    ensures
        r@ == frame_bytes(payload@),
        r@.len() == payload@.len() + 4,
{
    let n = payload.len() as u32;
    let mut r: Vec<u8> = Vec::new();
    r.push((n / 0x100_0000 % 256) as u8);
    r.push((n / 0x1_0000 % 256) as u8);
    r.push((n / 256 % 256) as u8);
    r.push((n % 256) as u8);
    let mut i: usize = 0;
    while i < payload.len()
        invariant
            i <= payload@.len(),
            payload@.len() <= 0xFFFF_FFFF,
            n == payload@.len(),
            r@ == be32(payload@.len() as int) + payload@.take(i as int),
        decreases payload@.len() - i,
    {
        r.push(payload[i]);
        proof {
            assert(r@ =~= be32(payload@.len() as int) + payload@.take(i + 1));
        }
        i = i + 1;
    }
    proof {
        assert(payload@.take(payload@.len() as int) =~= payload@);
    }
    r
}

/// The length a four-byte big-endian header carries.
pub open spec fn be32_value(b: Seq<u8>) -> int {
    b[0] * 0x100_0000 + b[1] * 0x1_0000 + b[2] * 256 + b[3]
}

/// Read the payload length off the first four bytes of a frame.
pub fn decode_frame_length(frame: &Vec<u8>) -> (r: Option<u32>)
    ensures
        frame@.len() < 4 ==> r is None,
        frame@.len() >= 4 ==> r == Some(be32_value(frame@.take(4)) as u32),
{
    if frame.len() < 4 {
        return None;
    }
    let b0 = frame[0] as u32;
    let b1 = frame[1] as u32;
    let b2 = frame[2] as u32;
    let b3 = frame[3] as u32;
    proof {
        assert(frame@.take(4)[0] == frame@[0]);
        assert(frame@.take(4)[1] == frame@[1]);
        assert(frame@.take(4)[2] == frame@[2]);
        assert(frame@.take(4)[3] == frame@[3]);
    }
    Some(b0 * 0x100_0000 + b1 * 0x1_0000 + b2 * 256 + b3)
}

/// Framing round trip: the header of an encoded frame decodes to the
/// payload's length, and the bytes after the header are the payload.
pub proof fn lemma_frame_round_trip(payload: Seq<u8>)
    requires
        payload.len() <= 0xFFFF_FFFF,
    ensures
        be32_value(frame_bytes(payload).take(4)) == payload.len(),
        frame_bytes(payload).skip(4) == payload,
{
    let n = payload.len() as int;
    let f = frame_bytes(payload);
    assert(f.take(4) =~= be32(n));
    assert(f.skip(4) =~= payload);
    assert(be32(n)[0] == (n / 0x100_0000 % 256) as u8);
    lemma_be32_value(n);
}

/// Recomposing the four big-endian bytes of a value below 2^32 yields the
/// value.
proof fn lemma_be32_value(n: int)
    requires
        0 <= n <= 0xFFFF_FFFF,
    ensures
        be32_value(be32(n)) == n,
{
    let b0 = n / 0x100_0000 % 256;
    let b1 = n / 0x1_0000 % 256;
    let b2 = n / 256 % 256;
    let b3 = n % 256;
    assert(n / 0x100_0000 < 256) by {
        vstd::arithmetic::div_mod::lemma_div_is_ordered(n, 0xFFFF_FFFF, 0x100_0000);
    }
    assert(b0 == n / 0x100_0000) by {
        vstd::arithmetic::div_mod::lemma_small_mod((n / 0x100_0000) as nat, 256);
    }
    assert(n == 0x100_0000 * (n / 0x100_0000) + n % 0x100_0000) by {
        vstd::arithmetic::div_mod::lemma_fundamental_div_mod(n, 0x100_0000);
    }
    let r0 = n % 0x100_0000;
    assert(b1 == r0 / 0x1_0000) by {
        vstd::arithmetic::div_mod::lemma_breakdown(n, 0x1_0000, 256);
        vstd::arithmetic::div_mod::lemma_mod_mod(n, 0x1_0000, 256);
        assert(0x1_0000 * 256 == 0x100_0000);
        assert(n % 0x100_0000 / 0x1_0000 == n / 0x1_0000 % 256) by {
            vstd::arithmetic::div_mod::lemma_truncate_middle(n, 0x1_0000, 256);
        }
    }
    assert(n == 0x1_0000 * (n / 0x1_0000) + n % 0x1_0000) by {
        vstd::arithmetic::div_mod::lemma_fundamental_div_mod(n, 0x1_0000);
    }
    let r1 = n % 0x1_0000;
    assert(b2 == r1 / 256) by {
        assert(256 * 256 == 0x1_0000);
        assert(n % 0x1_0000 / 256 == n / 256 % 256) by {
            vstd::arithmetic::div_mod::lemma_truncate_middle(n, 256, 256);
        }
    }
    assert(n == 256 * (n / 256) + n % 256) by {
        vstd::arithmetic::div_mod::lemma_fundamental_div_mod(n, 256);
    }
    assert(r0 == 0x1_0000 * b1 + r1) by {
        vstd::arithmetic::div_mod::lemma_fundamental_div_mod(r0, 0x1_0000);
        assert(r0 % 0x1_0000 == r1) by {
            vstd::arithmetic::div_mod::lemma_mod_mod(n, 0x1_0000, 256);
        }
    }
    assert(r1 == 256 * b2 + b3) by {
        vstd::arithmetic::div_mod::lemma_fundamental_div_mod(r1, 256);
        assert(r1 % 256 == b3) by {
            vstd::arithmetic::div_mod::lemma_mod_mod(n, 256, 256);
        }
    }
    assert(be32_value(be32(n)) == b0 * 0x100_0000 + b1 * 0x1_0000 + b2 * 256 + b3);
    assert(n == b0 * 0x100_0000 + b1 * 0x1_0000 + b2 * 256 + b3) by (nonlinear_arith)
        requires
            b0 == n / 0x100_0000,
            n == 0x100_0000 * (n / 0x100_0000) + r0,
            r0 == 0x1_0000 * b1 + r1,
            r1 == 256 * b2 + b3,
    ;
}

/// The WebSocket text-frame envelope around one event and its payload.
pub open spec fn envelope_chars(event_json: Seq<char>, data_json: Seq<char>) -> Seq<char> {
    "{\"event\":"@ + event_json + ",\"data\":"@ + data_json + "}"@
}

/// Wrap an encoded event and its encoded payload for a remote sink.
pub fn encode_envelope(event_json: &str, data_json: &str) -> (r: String)
    ensures
        r@ == envelope_chars(event_json@, data_json@),
{
    let mut out = String::new();
    out.append("{\"event\":");
    out.append(event_json);
    out.append(",\"data\":");
    out.append(data_json);
    out.append("}");
    proof {
        assert(out@ =~= envelope_chars(event_json@, data_json@));
    }
    out
}

/// The next reconnect delay: doubled, but never over the cap.
pub fn next_backoff(current_ms: u64) -> (r: u64)
    requires
        current_ms >= 1,
    ensures
        r == (if current_ms * 2 <= MAX_BACKOFF_MS {
            current_ms * 2
        } else {
            MAX_BACKOFF_MS as int
        }),
{
    if current_ms <= MAX_BACKOFF_MS / 2 {
        current_ms * 2
    } else {
        MAX_BACKOFF_MS
    }
}

} // verus!
