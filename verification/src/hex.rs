//! Hexadecimal rendering of hashes.

use vstd::prelude::*;
use std::hash::{Hash, Hasher};
use crate::text::push_char;

verus! {

/// The lowercase hexadecimal digit for `d` (`0 <= d < 16`).
pub open spec fn hex_digit(d: int) -> char {
    if d < 10 {
        (48 + d) as char
    } else {
        (87 + d) as char
    }
}

/// The two lowercase hexadecimal digits of a byte, high nibble first.
pub open spec fn hex_byte(b: u8) -> Seq<char> {
    seq![hex_digit((b / 16) as int), hex_digit((b % 16) as int)]
}

/// Lowercase hexadecimal encoding of a byte sequence (what `hex::encode` produces).
pub open spec fn hex_encode(bytes: Seq<u8>) -> Seq<char>
    decreases bytes.len(),
{
    if bytes.len() == 0 {
        Seq::empty()
    } else {
        hex_byte(bytes[0]) + hex_encode(bytes.drop_first())
    }
}

/// The `count` least significant bytes of `n`, least significant first.
pub open spec fn le_bytes(n: nat, count: nat) -> Seq<u8>
    decreases count,
{
    if count == 0 {
        Seq::empty()
    } else {
        seq![(n % 256) as u8] + le_bytes(n / 256, (count - 1) as nat)
    }
}

/// The value that `rustc_stable_hash`'s `StableSipHasher128` gives for a string.
pub uninterp spec fn stable_hash_of_str(s: Seq<char>) -> u64;

/// What `to_hex` renders: the little-endian bytes of `num` in lowercase hexadecimal.
pub open spec fn spec_to_hex(num: u64) -> Seq<char> {
    hex_encode(le_bytes(num as nat, 8))
}

proof fn lemma_hex_encode_len(bytes: Seq<u8>)
    ensures
        hex_encode(bytes).len() == 2 * bytes.len(),
    decreases bytes.len(),
{
    if bytes.len() > 0 {
        lemma_hex_encode_len(bytes.drop_first());
    }
}

proof fn lemma_le_bytes_len(n: nat, count: nat)
    ensures
        le_bytes(n, count).len() == count,
    decreases count,
{
    if count > 0 {
        lemma_le_bytes_len(n / 256, (count - 1) as nat);
    }
}

/// Every rendering is sixteen characters long.
pub proof fn lemma_to_hex_len(num: u64)
    ensures
        spec_to_hex(num).len() == 16,
{
    lemma_le_bytes_len(num as nat, 8);
    lemma_hex_encode_len(le_bytes(num as nat, 8));
}

/// The hexadecimal digit of a value below sixteen.
fn digit(d: u8) -> (c: char)
    requires
        d < 16,
    ensures
        c == hex_digit(d as int),
{
    if d < 10 {
        ((48 + d) as char)
    } else {
        ((87 + d) as char)
    }
}

/// Renders `num` as the lowercase hexadecimal encoding of its little-endian bytes.
pub fn to_hex(num: u64) -> (r: String)
    ensures
        r@ == spec_to_hex(num),
{
    let mut r = String::new();
    let mut x: u64 = num;
    let mut i: u64 = 0;
    while i < 8
        invariant
            i <= 8,
            r@ + hex_encode(le_bytes(x as nat, (8 - i) as nat)) == spec_to_hex(num),
        decreases 8 - i,
    {
        let b: u8 = (x % 256) as u8;
        let ghost rest = le_bytes(x as nat, (8 - i) as nat);
        assert(rest[0] == b);
        assert(rest.drop_first() =~= le_bytes((x / 256) as nat, (8 - i - 1) as nat));
        assert(hex_byte(b) =~= seq![hex_digit((b / 16) as int), hex_digit((b % 16) as int)]);
        push_char(&mut r, digit(b / 16));
        push_char(&mut r, digit(b % 16));
        assert(r@ + hex_encode(rest.drop_first()) =~= (r@.drop_last().drop_last()) + hex_encode(
            rest,
        ));
        x = x / 256;
        i = i + 1;
    }
    assert(hex_encode(le_bytes(x as nat, 0)) =~= Seq::<char>::empty());
    assert(r@ =~= r@ + Seq::<char>::empty());
    r
}

/// Hashes a string with `rustc_stable_hash::StableSipHasher128` (the string is fed to the hasher
/// through `Hash`, which writes its bytes followed by `0xff`), and returns the 64-bit digest.
#[verifier::external_body]
pub fn hash_u64(hashable: &str) -> (r: u64)
    ensures
        r == stable_hash_of_str(hashable@),
{
    let mut hasher = rustc_stable_hash::StableSipHasher128::new();
    hashable.hash(&mut hasher);
    Hasher::finish(&hasher)
}

/// The digest of `rustc_stable_hash::StableSipHasher128` after `bytes` are written to it. The
/// hasher sees the bytes as one stream, however they are split among calls of `write`.
pub uninterp spec fn stable_hash_of_bytes(bytes: Seq<u8>) -> u64;

/// Hashes bytes (a file's contents, say) with `rustc_stable_hash::StableSipHasher128`
/// (`Hasher::write`, then `Hasher::finish`), and returns the 64-bit digest.
#[verifier::external_body]
pub fn hash_u64_bytes(bytes: &[u8]) -> (r: u64)
    ensures
        r == stable_hash_of_bytes(bytes@),
{
    let mut hasher = rustc_stable_hash::StableSipHasher128::new();
    hasher.write(bytes);
    Hasher::finish(&hasher)
}

/// The short hash of a string: its stable hash rendered by [`to_hex`].
pub fn short_hash(hashable: &str) -> (r: String)
    ensures
        r@ == spec_to_hex(stable_hash_of_str(hashable@)),
{
    to_hex(hash_u64(hashable))
}

} // verus!
