//! Content digests and their hexadecimal text.
use crate::text::text_of;
use vstd::prelude::*;

verus! {

/// A digest of exactly 32 bytes.
pub type Digest = [u8; 32];

/// The digest that `blake3::hash` gives these bytes.
pub uninterp spec fn blake3_digest(bytes: Seq<u8>) -> Seq<u8>;

/// Digests bytes with `blake3::hash`, whose result depends on the bytes alone.
#[verifier::external_body]
pub(crate) fn digest_of(bytes: &[u8]) -> (r: Digest)
    ensures
        r@ == blake3_digest(bytes@),
{
    *blake3::hash(bytes).as_bytes()
}

/// Whether two digests are the same.
pub fn same_digest(a: &Digest, b: &Digest) -> (r: bool)
    ensures
        r == (a@ == b@),
{
    crate::text::same_bytes(vstd::array::array_as_slice(a), vstd::array::array_as_slice(b))
}

/// The lower-case hexadecimal digit of a value below sixteen.
pub open spec fn hex_digit(n: int) -> char {
    if n < 10 {
        ('0' as u32 + n) as char
    } else {
        ('a' as u32 + n - 10) as char
    }
}

/// Two hexadecimal digits for every byte.
pub open spec fn hex(bytes: Seq<u8>) -> Seq<char> {
    Seq::new(
        2 * bytes.len(),
        |i: int|
            if i % 2 == 0 {
                hex_digit(bytes[i / 2] as int / 16)
            } else {
                hex_digit(bytes[i / 2] as int % 16)
            },
    )
}

fn hex_char(n: u8) -> (r: char)
    requires
        n < 16,
    ensures
        r == hex_digit(n as int),
{
    if n < 10 {
        ((48 + n) as u8) as char
    } else {
        ((87 + n) as u8) as char
    }
}

/// Writes a digest in hexadecimal.
pub fn hex_text(bytes: &Digest) -> (r: String)
    ensures
        r@ == hex(bytes@),
{
    let mut out: Vec<char> = Vec::new();
    let mut i: usize = 0;
    while i < 32
        invariant
            i <= 32,
            out@.len() == 2 * i,
            forall|j: int| 0 <= j < 2 * i ==> out@[j] == hex(bytes@)[j],
        decreases 32 - i,
    {
        let byte: u8 = bytes[i];
        assert(hex(bytes@)[2 * i] == hex_digit(byte as int / 16));
        assert(hex(bytes@)[2 * i + 1] == hex_digit(byte as int % 16));
        out.push(hex_char(byte / 16));
        out.push(hex_char(byte % 16));
        i = i + 1;
    }
    assert(out@ =~= hex(bytes@));
    text_of(out.as_slice())
}

} // verus!
