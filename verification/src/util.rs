//! Framing for the byte stream between client and server: each message
//! travels as its length in eight little-endian bytes, then its payload.
//! Turning values into payload bytes and back is the transport boundary's
//! business; the core only guarantees the frame shape.

use vstd::prelude::*;

use vstd::bytes::spec_u64_from_le_bytes;
use vstd::bytes::spec_u64_to_le_bytes;
use vstd::bytes::u64_from_le_bytes;
use vstd::bytes::u64_to_le_bytes;

verus! {

/// How many bytes the length prefix occupies.
pub const LENGTH_PREFIX_BYTES: usize = 8;

/// A framed message: the payload's length as eight little-endian bytes,
/// then the payload itself.
pub open spec fn frame_spec(payload: Seq<u8>) -> Seq<u8> {
    spec_u64_to_le_bytes(payload.len() as u64) + payload
}

/// Wraps payload bytes into one frame.
pub fn encode_frame(payload: &Vec<u8>) -> (r: Vec<u8>)
    ensures
        r@ == frame_spec(payload@),
        r@.len() == payload@.len() + LENGTH_PREFIX_BYTES,
{
    let len64: u64 = payload.len() as u64;
    let mut r = u64_to_le_bytes(len64);
    let mut i: usize = 0;
    while i < payload.len()
        invariant
            i <= payload@.len(),
            len64 == payload@.len() as u64,
            r@ == spec_u64_to_le_bytes(len64) + payload@.take(i as int),
        decreases payload@.len() - i,
    {
        r.push(payload[i]);
        proof {
            assert(spec_u64_to_le_bytes(len64) + payload@.take(i as int + 1) =~= (
            spec_u64_to_le_bytes(len64) + payload@.take(i as int)).push(payload@[i as int]));
        }
        i = i + 1;
    }
    proof {
        assert(payload@.take(payload@.len() as int) =~= payload@);
    }
    r
}

/// Reads the payload length out of a frame's first eight bytes.
pub fn decode_length_prefix(header: &[u8]) -> (r: u64)
    requires
        header@.len() == LENGTH_PREFIX_BYTES,
    ensures
        r == spec_u64_from_le_bytes(header@),
{
    u64_from_le_bytes(header)
}

/// Framing round trip: a frame's first eight bytes decode to the payload's
/// length, and the rest of the frame is the payload, unchanged.
pub proof fn lemma_frame_round_trip(payload: Seq<u8>)
    requires
        payload.len() <= u64::MAX,
    ensures
        spec_u64_from_le_bytes(frame_spec(payload).take(LENGTH_PREFIX_BYTES as int))
            == payload.len(),
        frame_spec(payload).skip(LENGTH_PREFIX_BYTES as int) == payload,
{
    vstd::bytes::lemma_auto_spec_u64_to_from_le_bytes();
    assert(frame_spec(payload).take(LENGTH_PREFIX_BYTES as int) =~= spec_u64_to_le_bytes(
        payload.len() as u64,
    ));
    assert(frame_spec(payload).skip(LENGTH_PREFIX_BYTES as int) =~= payload);
}

} // verus!
