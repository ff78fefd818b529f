//! Character-level helpers over Rust strings.

use vstd::prelude::*;

verus! {

/// Appends one character to a string (`String::push`).
#[verifier::external_body]
pub(crate) fn push_char(s: &mut String, c: char)
    ensures
        final(s)@ == old(s)@.push(c),
{
    s.push(c);
}

/// Builds a string from a sequence of characters.
pub fn string_from_chars(cs: &[char]) -> (r: String)
    ensures
        r@ == cs@,
{
    let mut r = String::new();
    let mut i: usize = 0;
    while i < cs.len()
        invariant
            i <= cs@.len(),
            r@ == cs@.take(i as int),
        decreases cs@.len() - i,
    {
        push_char(&mut r, cs[i]);
        i = i + 1;
        assert(r@ =~= cs@.take(i as int));
    }
    assert(cs@.take(cs@.len() as int) =~= cs@);
    r
}

/// The characters of a string, in order.
pub fn chars_of(s: &str) -> (r: Vec<char>)
    ensures
        r@ == s@,
{
    let mut r: Vec<char> = Vec::new();
    for c in it: s.chars()
        invariant
            r@ == it.seq().take(it.index() as int),
    {
        r.push(c);
    }
    r
}

} // verus!

verus! {

/// Whether `c` occurs in `s`.
pub fn contains_char(s: &str, c: char) -> (r: bool)
    ensures
        r == s@.contains(c),
{
    let cs = chars_of(s);
    let mut i: usize = 0;
    while i < cs.len()
        invariant
            i <= cs@.len(),
            cs@ == s@,
            forall|j: int| 0 <= j < i ==> cs@[j] != c,
        decreases cs@.len() - i,
    {
        if cs[i] == c {
            return true;
        }
        i = i + 1;
    }
    false
}

/// Whether `prefix` is a prefix of `s`.
pub fn starts_with(s: &str, prefix: &str) -> (r: bool)
    ensures
        r == prefix@.is_prefix_of(s@),
{
    let cs = chars_of(s);
    let ps = chars_of(prefix);
    if ps.len() > cs.len() {
        return false;
    }
    let mut i: usize = 0;
    while i < ps.len()
        invariant
            i <= ps@.len() <= cs@.len(),
            cs@ == s@,
            ps@ == prefix@,
            forall|j: int| 0 <= j < i ==> ps@[j] == cs@[j],
        decreases ps@.len() - i,
    {
        if ps[i] != cs[i] {
            return false;
        }
        i = i + 1;
    }
    true
}

/// Appends `t` to `s`.
pub fn append_str(s: &mut String, t: &str)
    ensures
        final(s)@ == old(s)@ + t@,
{
    let ts = chars_of(t);
    let mut i: usize = 0;
    while i < ts.len()
        invariant
            i <= ts@.len(),
            ts@ == t@,
            s@ == old(s)@ + t@.take(i as int),
        decreases ts@.len() - i,
    {
        push_char(s, ts[i]);
        i = i + 1;
        assert(s@ =~= old(s)@ + t@.take(i as int));
    }
    assert(t@.take(ts@.len() as int) =~= t@);
}

/// A copy of a string.
pub fn copy_string(s: &String) -> (r: String)
    ensures
        r@ == s@,
{
    s.clone()
}

/// A copy of an optional string.
pub fn copy_opt(s: &Option<String>) -> (r: Option<String>)
    ensures
        r == *s,
{
    match s {
        Some(x) => Some(x.clone()),
        None => None,
    }
}

/// A copy of a list of strings.
pub fn copy_strings(v: &Vec<String>) -> (r: Vec<String>)
    ensures
        r@ == v@,
{
    let mut r: Vec<String> = Vec::new();
    let mut i: usize = 0;
    while i < v.len()
        invariant
            i <= v@.len(),
            r@ == v@.take(i as int),
        decreases v@.len() - i,
    {
        r.push(v[i].clone());
        i = i + 1;
        assert(r@ =~= v@.take(i as int));
    }
    assert(v@.take(v@.len() as int) =~= v@);
    r
}

} // verus!

verus! {

/// Lexicographic order on character sequences, by code point (the order of `str`'s `Ord`).
pub open spec fn lex_le(a: Seq<char>, b: Seq<char>) -> bool
    decreases a.len(),
{
    if a.len() == 0 {
        true
    } else if b.len() == 0 {
        false
    } else if (a[0] as u32) < (b[0] as u32) {
        true
    } else if (a[0] as u32) > (b[0] as u32) {
        false
    } else {
        lex_le(a.drop_first(), b.drop_first())
    }
}

/// Each element is at most the next one.
pub open spec fn lex_sorted(s: Seq<Seq<char>>) -> bool {
    forall|i: int| 0 <= i < s.len() - 1 ==> lex_le(#[trigger] s[i], s[i + 1])
}

/// Any two sequences are ordered one way or the other.
pub proof fn lemma_lex_total(a: Seq<char>, b: Seq<char>)
    ensures
        lex_le(a, b) || lex_le(b, a),
    decreases a.len(),
{
    if a.len() > 0 && b.len() > 0 && (a[0] as u32) == (b[0] as u32) {
        lemma_lex_total(a.drop_first(), b.drop_first());
    }
}

proof fn lemma_char_u32_injective(x: char, y: char)
    requires
        (x as u32) == (y as u32),
    ensures
        x == y,
{
    assert((x as u32) as int == x as int);
    assert((y as u32) as int == y as int);
}

/// Every sequence is at most itself.
pub proof fn lemma_lex_refl(a: Seq<char>)
    ensures
        lex_le(a, a),
    decreases a.len(),
{
    if a.len() > 0 {
        lemma_lex_refl(a.drop_first());
    }
}

/// Two sequences each at most the other are equal.
pub proof fn lemma_lex_antisym(a: Seq<char>, b: Seq<char>)
    requires
        lex_le(a, b),
        lex_le(b, a),
    ensures
        a == b,
    decreases a.len(),
{
    if a.len() > 0 && b.len() > 0 {
        lemma_lex_antisym(a.drop_first(), b.drop_first());
        lemma_char_u32_injective(a[0], b[0]);
        assert(a =~= seq![a[0]] + a.drop_first());
        assert(b =~= seq![b[0]] + b.drop_first());
    } else {
        assert(a.len() == 0 && b.len() == 0);
        assert(a =~= b);
    }
}

/// The order is transitive.
pub proof fn lemma_lex_trans(a: Seq<char>, b: Seq<char>, c: Seq<char>)
    requires
        lex_le(a, b),
        lex_le(b, c),
    ensures
        lex_le(a, c),
    decreases a.len(),
{
    if a.len() > 0 && b.len() > 0 && c.len() > 0 && (a[0] as u32) == (b[0] as u32) && (b[0]
        as u32) == (c[0] as u32) {
        lemma_lex_trans(a.drop_first(), b.drop_first(), c.drop_first());
    }
}

/// Compares two strings in the order of `str`'s `Ord`.
pub fn str_le(a: &str, b: &str) -> (r: bool)
    ensures
        r == lex_le(a@, b@),
{
    let xs = chars_of(a);
    let ys = chars_of(b);
    let mut i: usize = 0;
    assert(a@.skip(0) =~= a@);
    assert(b@.skip(0) =~= b@);
    while i < xs.len() && i < ys.len()
        invariant
            xs@ == a@,
            ys@ == b@,
            i <= xs@.len(),
            i <= ys@.len(),
            lex_le(a@, b@) == lex_le(a@.skip(i as int), b@.skip(i as int)),
        decreases xs@.len() - i,
    {
        let x = xs[i];
        let y = ys[i];
        assert(a@.skip(i as int)[0] == x);
        assert(b@.skip(i as int)[0] == y);
        if (x as u32) < (y as u32) {
            return true;
        }
        if (x as u32) > (y as u32) {
            return false;
        }
        assert(a@.skip(i as int).drop_first() =~= a@.skip(i + 1));
        assert(b@.skip(i as int).drop_first() =~= b@.skip(i + 1));
        i = i + 1;
    }
    i == xs.len()
}

/// Strictly ascending: sorted, and no element equal to the next.
pub open spec fn lex_strictly_sorted(s: Seq<Seq<char>>) -> bool {
    &&& lex_sorted(s)
    &&& forall|i: int| 0 <= i < s.len() - 1 ==> #[trigger] s[i] != s[i + 1]
}

proof fn lemma_sorted_pairwise(s: Seq<Seq<char>>, i: int, j: int)
    requires
        lex_sorted(s),
        0 <= i <= j < s.len(),
    ensures
        lex_le(s[i], s[j]),
    decreases j - i,
{
    if i == j {
        lemma_lex_refl(s[i]);
    } else {
        lemma_sorted_pairwise(s, i + 1, j);
        assert(lex_le(s[i], s[i + 1]));
        lemma_lex_trans(s[i], s[i + 1], s[j]);
    }
}

/// A strictly ascending sequence holds no element twice.
pub proof fn lemma_strictly_sorted_distinct(s: Seq<Seq<char>>)
    requires
        lex_strictly_sorted(s),
    ensures
        s.no_duplicates(),
{
    assert forall|i: int, j: int| 0 <= i < s.len() && 0 <= j < s.len() && i != j implies s[i] != s[j] by {
        let (a, b) = if i < j { (i, j) } else { (j, i) };
        if s[a] == s[b] {
            lemma_sorted_pairwise(s, a + 1, b);
            assert(lex_le(s[a], s[a + 1]));
            lemma_lex_antisym(s[a], s[a + 1]);
            assert(s[a] == s[a + 1]);
        }
    }
}

proof fn lemma_push_contains(a: Seq<Seq<char>>, y: Seq<char>)
    ensures
        forall|x: Seq<char>| #[trigger] a.push(y).contains(x) <==> (a.contains(x) || x == y),
{
    assert forall|x: Seq<char>| #[trigger] a.push(y).contains(x) <==> (a.contains(x) || x == y) by {
        let b = a.push(y);
        if b.contains(x) {
            let k = choose|k: int| 0 <= k < b.len() && b[k] == x;
            if k < a.len() {
                assert(a[k] == x);
            }
        }
        if a.contains(x) {
            let k = choose|k: int| 0 <= k < a.len() && a[k] == x;
            assert(b[k] == x);
        }
        if x == y {
            assert(b[a.len() as int] == x);
        }
    }
}

/// Sorted strings with repeats removed: strictly ascending, with the same strings.
pub fn dedup_sorted(v: Vec<String>) -> (r: Vec<String>)
    requires
        lex_sorted(crate::dependency::strings_view(v@)),
    ensures
        lex_strictly_sorted(crate::dependency::strings_view(r@)),
        forall|x: Seq<char>|
            crate::dependency::strings_view(r@).contains(x) <==> crate::dependency::strings_view(
                v@,
            ).contains(x),
{
    let ghost vv = crate::dependency::strings_view(v@);
    let mut r: Vec<String> = Vec::new();
    let mut i: usize = 0;
    while i < v.len()
        invariant
            i <= v@.len(),
            vv == crate::dependency::strings_view(v@),
            lex_sorted(vv),
            lex_strictly_sorted(crate::dependency::strings_view(r@)),
            r@.len() == 0 <==> i == 0,
            i > 0 ==> crate::dependency::strings_view(r@).last() == vv[i - 1],
            forall|x: Seq<char>|
                crate::dependency::strings_view(r@).contains(x) <==> vv.take(i as int).contains(x),
        decreases v@.len() - i,
    {
        let ghost rv = crate::dependency::strings_view(r@);
        let ghost t1 = vv.take(i + 1);
        assert(t1 =~= vv.take(i as int).push(vv[i as int]));
        assert(vv[i as int] == v@[i as int]@);
        let repeat = r.len() > 0 && r[r.len() - 1] == v[i];
        proof {
            lemma_push_contains(vv.take(i as int), vv[i as int]);
        }
        if !repeat {
            r.push(v[i].clone());
            let ghost nv = crate::dependency::strings_view(r@);
            assert(nv =~= rv.push(vv[i as int]));
            proof {
                lemma_push_contains(rv, vv[i as int]);
            }
            if i > 0 {
                assert(lex_le(vv[i - 1], vv[i as int]));
                assert(rv.last() != vv[i as int]);
            }
        } else {
            assert(rv[rv.len() - 1] == vv[i as int]) by {
                assert(rv[rv.len() - 1] == r@[r@.len() - 1]@);
            }
            assert(rv.contains(vv[i as int]));
        }
        i = i + 1;
    }
    assert(vv.take(v@.len() as int) =~= vv);
    r
}

/// Sorts strings into the order of `str`'s `Ord` (insertion sort; equal strings keep their
/// order).
pub fn sort_strings(v: Vec<String>) -> (r: Vec<String>)
    ensures
        lex_sorted(crate::dependency::strings_view(r@)),
        r@.to_multiset() == v@.to_multiset(),
{
    let mut r: Vec<String> = Vec::new();
    let mut i: usize = 0;
    proof {
        broadcast use vstd::seq_lib::group_to_multiset_ensures;

        assert(v@.take(0) =~= Seq::<String>::empty());
        assert(r@ =~= Seq::<String>::empty());
    }
    while i < v.len()
        invariant
            i <= v@.len(),
            lex_sorted(crate::dependency::strings_view(r@)),
            r@.to_multiset() == v@.take(i as int).to_multiset(),
        decreases v@.len() - i,
    {
        let k = &v[i];
        let mut p: usize = 0;
        while p < r.len() && str_le(r[p].as_str(), k.as_str())
            invariant
                p <= r@.len(),
                forall|j: int| 0 <= j < p ==> lex_le(#[trigger] r@[j]@, k@),
            decreases r@.len() - p,
        {
            p = p + 1;
        }
        let ghost old_r = r@;
        proof {
            if p < old_r.len() {
                lemma_lex_total(old_r[p as int]@, k@);
            }
        }
        r.insert(p, k.clone());
        proof {
            let sv = crate::dependency::strings_view(r@);
            let ov = crate::dependency::strings_view(old_r);
            assert forall|j: int| 0 <= j < sv.len() - 1 implies lex_le(#[trigger] sv[j], sv[j + 1]) by {
                if j + 1 < p {
                    assert(sv[j] == ov[j] && sv[j + 1] == ov[j + 1]);
                } else if j + 1 == p {
                    assert(sv[j] == ov[j]);
                } else if j == p {
                } else {
                    assert(sv[j] == ov[j - 1] && sv[j + 1] == ov[j]);
                }
            }
            assert(v@.take(i + 1) =~= v@.take(i as int).push(v@[i as int]));
            assert(r@ == old_r.insert(p as int, v@[i as int]));
            vstd::seq_lib::to_multiset_insert(old_r, p as int, v@[i as int]);
            vstd::seq_lib::to_multiset_build(v@.take(i as int), v@[i as int]);
        }
        i = i + 1;
    }
    assert(v@.take(v@.len() as int) =~= v@);
    r
}

} // verus!

verus! {

/// Whether a character has Unicode's `White_Space` property (what `char::is_whitespace` tests):
/// U+0009 to U+000D, U+0020, U+0085, U+00A0, U+1680, U+2000 to U+200A, U+2028, U+2029, U+202F,
/// U+205F and U+3000.
pub open spec fn is_white_space(c: char) -> bool {
    let n = c as u32;
    ||| 0x9 <= n <= 0xd
    ||| n == 0x20
    ||| n == 0x85
    ||| n == 0xa0
    ||| n == 0x1680
    ||| 0x2000 <= n <= 0x200a
    ||| n == 0x2028
    ||| n == 0x2029
    ||| n == 0x202f
    ||| n == 0x205f
    ||| n == 0x3000
}

/// Whether a character is white space (see [`is_white_space`]), as `char::is_whitespace`
/// answers.
pub(crate) fn char_is_whitespace(c: char) -> (r: bool)
    ensures
        r == is_white_space(c),
{
    let n = c as u32;
    (0x9 <= n && n <= 0xd) || n == 0x20 || n == 0x85 || n == 0xa0 || n == 0x1680 || (0x2000 <= n
        && n <= 0x200a) || n == 0x2028 || n == 0x2029 || n == 0x202f || n == 0x205f || n == 0x3000
}

/// How many characters at the start of `s` are white space.
pub open spec fn leading_ws(s: Seq<char>) -> nat
    decreases s.len(),
{
    if s.len() > 0 && is_white_space(s[0]) {
        1 + leading_ws(s.drop_first())
    } else {
        0
    }
}

/// How many characters at the end of `s` are white space.
pub open spec fn trailing_ws(s: Seq<char>) -> nat
    decreases s.len(),
{
    if s.len() > 0 && is_white_space(s.last()) {
        1 + trailing_ws(s.drop_last())
    } else {
        0
    }
}

/// `s` without its leading white space (`str::trim_start`).
pub open spec fn trim_start_spec(s: Seq<char>) -> Seq<char> {
    s.skip(leading_ws(s) as int)
}

/// `s` without its trailing white space (`str::trim_end`).
pub open spec fn trim_end_spec(s: Seq<char>) -> Seq<char> {
    s.take(s.len() - trailing_ws(s))
}

/// `s` without leading and trailing white space (`str::trim`).
pub open spec fn trim_spec(s: Seq<char>) -> Seq<char> {
    trim_end_spec(trim_start_spec(s))
}

/// Every character of `s` is white space.
pub open spec fn all_white_space(s: Seq<char>) -> bool {
    forall|i: int| 0 <= i < s.len() ==> is_white_space(#[trigger] s[i])
}

proof fn lemma_leading_ws_exact(s: Seq<char>, k: int)
    requires
        0 <= k <= s.len(),
        forall|i: int| 0 <= i < k ==> is_white_space(#[trigger] s[i]),
        k < s.len() ==> !is_white_space(s[k]),
    ensures
        leading_ws(s) == k,
    decreases s.len(),
{
    if k > 0 {
        assert(is_white_space(s[0]));
        assert forall|i: int| 0 <= i < k - 1 implies is_white_space(#[trigger] s.drop_first()[i]) by {
            assert(s.drop_first()[i] == s[i + 1]);
        }
        lemma_leading_ws_exact(s.drop_first(), k - 1);
    }
}

proof fn lemma_trailing_ws_exact(s: Seq<char>, k: int)
    requires
        0 <= k <= s.len(),
        forall|i: int| s.len() - k <= i < s.len() ==> is_white_space(#[trigger] s[i]),
        k < s.len() ==> !is_white_space(s[s.len() - k - 1]),
    ensures
        trailing_ws(s) == k,
    decreases s.len(),
{
    if k > 0 {
        assert(is_white_space(s.last()));
        assert forall|i: int| s.drop_last().len() - (k - 1) <= i < s.drop_last().len() implies is_white_space(#[trigger] s.drop_last()[i]) by {
            assert(s.drop_last()[i] == s[i]);
        }
        lemma_trailing_ws_exact(s.drop_last(), k - 1);
    }
}

/// The characters of `s[from..to]`.
pub fn sub_chars(s: &Vec<char>, from: usize, to: usize) -> (r: Vec<char>)
    requires
        from <= to <= s@.len(),
    ensures
        r@ == s@.subrange(from as int, to as int),
{
    let mut r: Vec<char> = Vec::new();
    let mut i: usize = from;
    while i < to
        invariant
            from <= i <= to <= s@.len(),
            r@ == s@.subrange(from as int, i as int),
        decreases to - i,
    {
        r.push(s[i]);
        i = i + 1;
        assert(r@ =~= s@.subrange(from as int, i as int));
    }
    r
}

/// `s` without its leading white space.
pub fn trim_start_chars(s: &Vec<char>) -> (r: Vec<char>)
    ensures
        r@ == trim_start_spec(s@),
{
    let mut k: usize = 0;
    while k < s.len() && char_is_whitespace(s[k])
        invariant
            k <= s@.len(),
            forall|i: int| 0 <= i < k ==> is_white_space(#[trigger] s@[i]),
        decreases s@.len() - k,
    {
        k = k + 1;
    }
    proof {
        lemma_leading_ws_exact(s@, k as int);
    }
    sub_chars(s, k, s.len())
}

/// `s` without its trailing white space.
pub fn trim_end_chars(t: &Vec<char>) -> (r: Vec<char>)
    ensures
        r@ == trim_end_spec(t@),
{
    let mut k: usize = 0;
    while k < t.len() && char_is_whitespace(t[t.len() - 1 - k])
        invariant
            k <= t@.len(),
            forall|i: int| t@.len() - k <= i < t@.len() ==> is_white_space(#[trigger] t@[i]),
        decreases t@.len() - k,
    {
        k = k + 1;
    }
    proof {
        lemma_trailing_ws_exact(t@, k as int);
    }
    sub_chars(t, 0, t.len() - k)
}

/// `s` without leading and trailing white space.
pub fn trim_chars(s: &Vec<char>) -> (r: Vec<char>)
    ensures
        r@ == trim_spec(s@),
{
    let t = trim_start_chars(s);
    trim_end_chars(&t)
}

/// Whether every character of `s` is white space.
pub fn all_whitespace(s: &Vec<char>) -> (r: bool)
    ensures
        r == all_white_space(s@),
{
    let mut i: usize = 0;
    while i < s.len()
        invariant
            i <= s@.len(),
            forall|j: int| 0 <= j < i ==> is_white_space(#[trigger] s@[j]),
        decreases s@.len() - i,
    {
        if !char_is_whitespace(s[i]) {
            return false;
        }
        i = i + 1;
    }
    true
}

} // verus!

verus! {

/// A copy of `v[from..to]`.
pub fn copy_strings_range(v: &Vec<String>, from: usize, to: usize) -> (r: Vec<String>)
    requires
        from <= to <= v@.len(),
    ensures
        r@ == v@.subrange(from as int, to as int),
{
    let mut r: Vec<String> = Vec::new();
    let mut i: usize = from;
    while i < to
        invariant
            from <= i <= to <= v@.len(),
            r@ == v@.subrange(from as int, i as int),
        decreases to - i,
    {
        r.push(v[i].clone());
        i = i + 1;
        assert(r@ =~= v@.subrange(from as int, i as int));
    }
    r
}

/// The characters whose UTF-8 encoding is the first `n` bytes of that of `s`.
pub open spec fn byte_prefix(s: Seq<char>, n: int) -> Seq<char> {
    vstd::utf8::decode_utf8(vstd::utf8::encode_utf8(s).subrange(0, n))
}

/// The characters whose UTF-8 encoding is that of `s` from byte `n` on.
pub open spec fn byte_suffix(s: Seq<char>, n: int) -> Seq<char> {
    let b = vstd::utf8::encode_utf8(s);
    vstd::utf8::decode_utf8(b.subrange(n, b.len() as int))
}

/// `n` falls between two characters of `s`'s UTF-8 encoding (or at its end).
pub open spec fn at_char_boundary(s: Seq<char>, n: int) -> bool {
    vstd::utf8::is_char_boundary(vstd::utf8::encode_utf8(s), n)
}

/// Splits a string at a byte offset that falls between characters (`str::split_at`).
pub fn split_at_byte(s: &str, n: usize) -> (r: (&str, &str))
    requires
        at_char_boundary(s@, n as int),
    ensures
        r.0@ == byte_prefix(s@, n as int),
        r.1@ == byte_suffix(s@, n as int),
{
    let r = s.split_at(n);
    proof {
        vstd::utf8::encode_utf8_decode_utf8(r.0@);
        vstd::utf8::encode_utf8_decode_utf8(r.1@);
    }
    r
}

} // verus!
