//! Abbreviated commit ids.

use vstd::prelude::*;
use crate::hex::{hex_byte, hex_encode};
use crate::revs::Oid;
use crate::text::push_char;

verus! {

/// The number of hexadecimal digits of an abbreviated id.
pub const SHORT_ID_LEN: usize = 7;

/// Things with an abbreviated id.
pub trait ShortId {
    /// The full id, in lowercase hexadecimal.
    spec fn full_id(&self) -> Seq<char>;

    /// The first seven digits of the full id.
    fn short_id(&self) -> (r: String)
        ensures
            r@ == self.full_id().take(SHORT_ID_LEN as int),
    ;
}

proof fn lemma_hex_encode_prefix(bytes: Seq<u8>, n: int)
    requires
        0 <= n <= bytes.len(),
    ensures
        hex_encode(bytes).take(2 * n) == hex_encode(bytes.take(n)),
        hex_encode(bytes).len() == 2 * bytes.len(),
    decreases bytes.len(),
{
    if bytes.len() > 0 {
        lemma_hex_encode_prefix(bytes.drop_first(), if n > 0 { n - 1 } else { 0 });
        if n > 0 {
            assert(bytes.take(n).drop_first() =~= bytes.drop_first().take(n - 1));
            assert(hex_encode(bytes).take(2 * n) =~= hex_byte(bytes[0]) + hex_encode(
                bytes.drop_first(),
            ).take(2 * (n - 1)));
        } else {
            assert(hex_encode(bytes).take(0) =~= Seq::<char>::empty());
            assert(bytes.take(0) =~= Seq::<u8>::empty());
        }
    } else {
        assert(bytes.take(0) =~= bytes);
    }
}

fn digit(d: u8) -> (c: char)
    requires
        d < 16,
    ensures
        c == crate::hex::hex_digit(d as int),
{
    if d < 10 {
        ((48 + d) as char)
    } else {
        ((87 + d) as char)
    }
}

impl ShortId for Oid {
    /// An object id reads as the lowercase hexadecimal encoding of its bytes.
    open spec fn full_id(&self) -> Seq<char> {
        hex_encode(self.bytes@)
    }

    fn short_id(&self) -> (r: String) {
        let mut r = String::new();
        let mut i: usize = 0;
        assert(self.bytes@.take(0) =~= Seq::<u8>::empty());
        while i < 4
            invariant
                i <= 4,
                self.bytes@.len() == 20,
                r@ == hex_encode(self.bytes@.take(i as int)),
            decreases 4 - i,
        {
            let b = self.bytes[i];
            proof {
                lemma_hex_encode_prefix(self.bytes@.take(i + 1), i as int);
                assert(self.bytes@.take(i + 1).take(i as int) =~= self.bytes@.take(i as int));
                assert(hex_encode(self.bytes@.take(i + 1)) =~= hex_encode(self.bytes@.take(i as int)) + hex_byte(b)) by {
                    lemma_hex_encode_split(self.bytes@.take(i as int), b);
                    assert(self.bytes@.take(i + 1) =~= self.bytes@.take(i as int).push(b));
                }
            }
            push_char(&mut r, digit(b / 16));
            push_char(&mut r, digit(b % 16));
            i = i + 1;
        }
        proof {
            lemma_hex_encode_prefix(self.bytes@, 4);
        }
        // Drop the eighth digit.
        let mut out = String::new();
        let cs = crate::text::chars_of(r.as_str());
        let mut k: usize = 0;
        while k < SHORT_ID_LEN
            invariant
                k <= SHORT_ID_LEN,
                cs@ == r@,
                r@.len() == 8,
                out@ == r@.take(k as int),
            decreases SHORT_ID_LEN - k,
        {
            push_char(&mut out, cs[k]);
            k = k + 1;
            assert(out@ =~= r@.take(k as int));
        }
        assert(hex_encode(self.bytes@).take(7) =~= hex_encode(self.bytes@).take(8).take(7));
        out
    }
}

proof fn lemma_hex_encode_split(s: Seq<u8>, b: u8)
    ensures
        hex_encode(s.push(b)) == hex_encode(s) + hex_byte(b),
    decreases s.len(),
{
    if s.len() == 0 {
        assert(s.push(b).drop_first() =~= Seq::<u8>::empty());
        assert(hex_encode(s.push(b).drop_first()) =~= Seq::<char>::empty());
        assert(s.push(b)[0] == b);
        assert(hex_encode(s.push(b)) =~= hex_byte(b));
        assert(hex_encode(s) + hex_byte(b) =~= hex_byte(b));
    } else {
        lemma_hex_encode_split(s.drop_first(), b);
        assert(s.push(b).drop_first() =~= s.drop_first().push(b));
        assert(hex_encode(s.push(b)) =~= hex_byte(s[0]) + hex_encode(s.drop_first().push(b)));
    }
}

} // verus!
