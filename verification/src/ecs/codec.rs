//! Little-endian encoding of 32-bit values into component payload bytes.
use vstd::prelude::*;

verus! {

/// The four little-endian bytes of `x`.
pub open spec fn spec_u32_le(x: u32) -> Seq<u8> {
    seq![
        (x % 256) as u8,
        ((x / 256) % 256) as u8,
        ((x / 65536) % 256) as u8,
        ((x / 16777216) % 256) as u8,
    ]
}

/// The value read little-endian from four bytes.
pub open spec fn spec_u32_of_le(b: Seq<u8>) -> u32
    recommends
        b.len() == 4,
{
    (b[0] + b[1] * 256 + b[2] * 65536 + b[3] * 16777216) as u32
}

/// Encoding then decoding gives the value back.
pub proof fn lemma_u32_le_round_trip(x: u32)
    ensures
        spec_u32_of_le(spec_u32_le(x)) == x,
{
    assert(((x % 256) + ((x / 256) % 256) * 256 + ((x / 65536) % 256) * 65536 + ((x
        / 16777216) % 256) * 16777216) == x) by (bit_vector);
}

/// Decoding four bytes then encoding gives the same bytes back.
pub proof fn lemma_u32_le_bytes_round_trip(b: Seq<u8>)
    requires
        b.len() == 4,
    ensures
        spec_u32_le(spec_u32_of_le(b)) =~= b,
{
    let b0 = b[0];
    let b1 = b[1];
    let b2 = b[2];
    let b3 = b[3];
    let x = spec_u32_of_le(b);
    assert(x == (b0 + b1 * 256 + b2 * 65536 + b3 * 16777216) as u32);
    assert((((b0 + b1 * 256 + b2 * 65536 + b3 * 16777216) as u32) % 256) as u8 == b0
        && ((((b0 + b1 * 256 + b2 * 65536 + b3 * 16777216) as u32) / 256) % 256) as u8 == b1
        && ((((b0 + b1 * 256 + b2 * 65536 + b3 * 16777216) as u32) / 65536) % 256) as u8 == b2
        && ((((b0 + b1 * 256 + b2 * 65536 + b3 * 16777216) as u32) / 16777216) % 256) as u8 == b3)
        by (bit_vector);
}

/// Appends the four little-endian bytes of `x` to `out`.
pub fn encode_u32_into(out: &mut Vec<u8>, x: u32)
    ensures
        final(out)@ == old(out)@ + spec_u32_le(x),
{
    out.push((x % 256) as u8);
    out.push(((x / 256) % 256) as u8);
    out.push(((x / 65536) % 256) as u8);
    out.push(((x / 16777216) % 256) as u8);
    proof {
        assert(out@ =~= old(out)@ + spec_u32_le(x));
    }
}

/// The four little-endian bytes of `x` as a fresh payload.
pub fn encode_u32(x: u32) -> (r: Vec<u8>)
    ensures
        r@ == spec_u32_le(x),
        r@.len() == 4,
{
    let mut r: Vec<u8> = Vec::new();
    encode_u32_into(&mut r, x);
    proof {
        assert(r@ =~= spec_u32_le(x));
    }
    r
}

/// Reads the value stored little-endian at offset `i` of `b`.
pub fn decode_u32_at(b: &Vec<u8>, i: usize) -> (r: u32)
    requires
        i + 4 <= b@.len(),
    ensures
        r == spec_u32_of_le(b@.subrange(i as int, i + 4)),
{
    let n = b.len();
    let r = b[i] as u32 + (b[i + 1] as u32) * 256 + (b[i + 2] as u32) * 65536 + (b[i + 3]
        as u32) * 16777216;
    proof {
        let s = b@.subrange(i as int, i + 4);
        assert(s[0] == b@[i as int] && s[1] == b@[i + 1] && s[2] == b@[i + 2] && s[3] == b@[i
            + 3]);
    }
    r
}

/// The value read from a four-byte payload.
pub fn decode_u32(b: &Vec<u8>) -> (r: u32)
    requires
        b@.len() == 4,
    ensures
        r == spec_u32_of_le(b@),
{
    let r = decode_u32_at(b, 0);
    proof {
        assert(b@.subrange(0, 4) =~= b@);
    }
    r
}

} // verus!
