use vstd::prelude::*;

verus! {

/// The four little-endian bytes of `n`.
#[verifier::opaque]
pub open spec fn le32(n: u32) -> Seq<u8> {
    seq![
        (n & 0xff) as u8,
        ((n >> 8u32) & 0xff) as u8,
        ((n >> 16u32) & 0xff) as u8,
        ((n >> 24u32) & 0xff) as u8,
    ]
}

/// The number whose little-endian bytes open `b`.
#[verifier::opaque]
pub open spec fn read_le32(b: Seq<u8>) -> u32
    recommends
        b.len() >= 4,
{
    (b[0] as u32) | ((b[1] as u32) << 8u32) | ((b[2] as u32) << 16u32) | ((b[3] as u32) << 24u32)
}

pub proof fn lemma_le32_round_trip(n: u32)
    ensures
        le32(n).len() == 4,
        read_le32(le32(n)) == n,
{
    reveal(le32);
    reveal(read_le32);
    let b = le32(n);
    let b0 = (n & 0xff) as u8;
    let b1 = ((n >> 8u32) & 0xff) as u8;
    let b2 = ((n >> 16u32) & 0xff) as u8;
    let b3 = ((n >> 24u32) & 0xff) as u8;
    assert(b[0] == b0 && b[1] == b1 && b[2] == b2 && b[3] == b3);
    assert((b0 as u32) | ((b1 as u32) << 8u32) | ((b2 as u32) << 16u32) | ((b3 as u32) << 24u32)
        == n) by (bit_vector)
        requires
            b0 == (n & 0xff) as u8,
            b1 == ((n >> 8u32) & 0xff) as u8,
            b2 == ((n >> 16u32) & 0xff) as u8,
            b3 == ((n >> 24u32) & 0xff) as u8,
    ;
}

/// Appends the little-endian bytes of `n` to `out`.
pub fn push_le32(out: &mut Vec<u8>, n: u32)
    ensures
        final(out)@ == old(out)@ + le32(n),
{
    reveal(le32);
    out.push((n & 0xff) as u8);
    out.push(((n >> 8u32) & 0xff) as u8);
    out.push(((n >> 16u32) & 0xff) as u8);
    out.push(((n >> 24u32) & 0xff) as u8);
    assert(final(out)@ =~= old(out)@ + le32(n));
}

/// Reads a little-endian `u32` at `pos`.
pub fn get_le32(b: &[u8], pos: usize) -> (r: u32)
    requires
        pos + 4 <= b@.len(),
    ensures
        r == read_le32(b@.subrange(pos as int, b@.len() as int)),
{
    let r = (b[pos] as u32) | ((b[pos + 1] as u32) << 8u32) | ((b[pos + 2] as u32) << 16u32) | ((
    b[pos + 3] as u32) << 24u32);
    reveal(read_le32);
    let ghost rest = b@.subrange(pos as int, b@.len() as int);
    assert(rest[0] == b@[pos as int] && rest[1] == b@[pos + 1] && rest[2] == b@[pos + 2] && rest[3]
        == b@[pos + 3]);
    r
}

/// The encoding of a `u128` under bincode's default options: its sixteen
/// little-endian bytes.
pub open spec fn u128_bytes(v: u128) -> Seq<u8> {
    Seq::new(16, |i: int| ((v >> (8 * i) as u128) & 0xff) as u8)
}

/// The `u128` whose little-endian bytes open `b`.
pub open spec fn u128_of_bytes(b: Seq<u8>) -> u128
    recommends
        b.len() >= 16,
{
    u128_of_bytes_from(b, 16)
}

/// The number formed by the first `n` bytes of `b`, least significant first.
pub open spec fn u128_of_bytes_from(b: Seq<u8>, n: nat) -> u128
    decreases n,
{
    if n == 0 {
        0
    } else {
        u128_of_bytes_from(b, (n - 1) as nat) | ((b[n - 1] as u128) << (8 * (n - 1)) as u128)
    }
}

/// Relies on bincode::serialize: under its default options (fixed-size
/// integers, little endian, no size limit) a `u128` becomes its sixteen
/// little-endian bytes, and writing into a `Vec` cannot fail.
#[verifier::external_body]
fn bincode_serialize_u128(v: u128) -> (r: Option<Vec<u8>>)
    ensures
        r is Some,
        r.unwrap()@ == u128_bytes(v),
{
    bincode::serialize(&v).ok()
}

/// Relies on bincode::deserialize: under its default options a `u128` is
/// read from the first sixteen bytes, little endian, trailing bytes allowed;
/// fewer than sixteen bytes is an error.
#[verifier::external_body]
fn bincode_deserialize_u128(b: &[u8]) -> (r: Option<u128>)
    ensures
        b@.len() >= 16 ==> r == Some(u128_of_bytes(b@)),
        b@.len() < 16 ==> r is None,
{
    bincode::deserialize::<u128>(b).ok()
}

/// The stored form of a `u128` value.
pub fn encode_u128(v: u128) -> (r: Vec<u8>)
    ensures
        r@ == u128_bytes(v),
{
    let r = bincode_serialize_u128(v);
    match r {
        Some(b) => b,
        None => Vec::new(),
    }
}

/// The `u128` held by a stored value, or `None` where it has fewer than
/// sixteen bytes.
pub fn decode_u128(b: &[u8]) -> (r: Option<u128>)
    ensures
        b@.len() >= 16 ==> r == Some(u128_of_bytes(b@)),
        b@.len() < 16 ==> r is None,
{
    bincode_deserialize_u128(b)
}

/// Decoding the stored form of a value gives the value back.
pub proof fn lemma_u128_round_trip(v: u128)
    ensures
        u128_bytes(v).len() == 16,
        u128_of_bytes(u128_bytes(v)) == v,
{
    let b = u128_bytes(v);
    let b0: u8 = b[0];
    let b1: u8 = b[1];
    let b2: u8 = b[2];
    let b3: u8 = b[3];
    let b4: u8 = b[4];
    let b5: u8 = b[5];
    let b6: u8 = b[6];
    let b7: u8 = b[7];
    let b8: u8 = b[8];
    let b9: u8 = b[9];
    let b10: u8 = b[10];
    let b11: u8 = b[11];
    let b12: u8 = b[12];
    let b13: u8 = b[13];
    let b14: u8 = b[14];
    let b15: u8 = b[15];
    reveal_with_fuel(u128_of_bytes_from, 17);
    assert(u128_of_bytes(b) == ((((((((((((((((0u128 | ((b0 as u128) << 0u128)) | ((b1 as u128) << 8u128)) | ((b2 as u128) << 16u128)) | ((b3 as u128) << 24u128)) | ((b4 as u128) << 32u128)) | ((b5 as u128) << 40u128)) | ((b6 as u128) << 48u128)) | ((b7 as u128) << 56u128)) | ((b8 as u128) << 64u128)) | ((b9 as u128) << 72u128)) | ((b10 as u128) << 80u128)) | ((b11 as u128) << 88u128)) | ((b12 as u128) << 96u128)) | ((b13 as u128) << 104u128)) | ((b14 as u128) << 112u128)) | ((b15 as u128) << 120u128)));
    assert(((((((((((((((((0u128 | ((b0 as u128) << 0u128)) | ((b1 as u128) << 8u128)) | ((b2 as u128) << 16u128)) | ((b3 as u128) << 24u128)) | ((b4 as u128) << 32u128)) | ((b5 as u128) << 40u128)) | ((b6 as u128) << 48u128)) | ((b7 as u128) << 56u128)) | ((b8 as u128) << 64u128)) | ((b9 as u128) << 72u128)) | ((b10 as u128) << 80u128)) | ((b11 as u128) << 88u128)) | ((b12 as u128) << 96u128)) | ((b13 as u128) << 104u128)) | ((b14 as u128) << 112u128)) | ((b15 as u128) << 120u128)) == v) by (bit_vector)
        requires
            b0 == ((v >> 0u128) & 0xff) as u8,
            b1 == ((v >> 8u128) & 0xff) as u8,
            b2 == ((v >> 16u128) & 0xff) as u8,
            b3 == ((v >> 24u128) & 0xff) as u8,
            b4 == ((v >> 32u128) & 0xff) as u8,
            b5 == ((v >> 40u128) & 0xff) as u8,
            b6 == ((v >> 48u128) & 0xff) as u8,
            b7 == ((v >> 56u128) & 0xff) as u8,
            b8 == ((v >> 64u128) & 0xff) as u8,
            b9 == ((v >> 72u128) & 0xff) as u8,
            b10 == ((v >> 80u128) & 0xff) as u8,
            b11 == ((v >> 88u128) & 0xff) as u8,
            b12 == ((v >> 96u128) & 0xff) as u8,
            b13 == ((v >> 104u128) & 0xff) as u8,
            b14 == ((v >> 112u128) & 0xff) as u8,
            b15 == ((v >> 120u128) & 0xff) as u8,
    ;
}

} // verus!
