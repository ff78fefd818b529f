//! Unix paths as text: joining a path onto a base directory, and lexical normalization (removing
//! `.` and `..` components without touching the file system, as Cargo's `normalize_path` does).

use vstd::prelude::*;
use crate::text::{append_str, chars_of, push_char, string_from_chars};

verus! {

/// `base.join(p)` for Unix paths: an absolute `p` replaces `base`; else `p` follows `base`,
/// after a `/` where `base` is not empty and does not already end with one.
pub open spec fn path_joined(base: Seq<char>, p: Seq<char>) -> Seq<char> {
    if p.len() > 0 && p[0] == '/' {
        p
    } else if base.len() == 0 {
        p
    } else if base.last() == '/' {
        base + p
    } else {
        base + seq!['/'] + p
    }
}

/// The text of a path between its `/` separators, in order (empty pieces included).
pub open spec fn segments(s: Seq<char>) -> Seq<Seq<char>>
    decreases s.len(),
{
    if s.len() == 0 {
        seq![Seq::<char>::empty()]
    } else {
        let init = segments(s.drop_last());
        if s.last() == '/' {
            init.push(Seq::<char>::empty())
        } else {
            init.update(init.len() - 1, init.last().push(s.last()))
        }
    }
}

/// One step of normalization: an empty piece or `.` is dropped, `..` removes the last component
/// kept (where there is one), any other piece is kept.
pub open spec fn path_step(stack: Seq<Seq<char>>, seg: Seq<char>) -> Seq<Seq<char>> {
    if seg.len() == 0 || seg == seq!['.'] {
        stack
    } else if seg == seq!['.', '.'] {
        if stack.len() > 0 {
            stack.drop_last()
        } else {
            stack
        }
    } else {
        stack.push(seg)
    }
}

/// The components kept after normalizing the pieces in order.
pub open spec fn kept_components(segs: Seq<Seq<char>>) -> Seq<Seq<char>>
    decreases segs.len(),
{
    if segs.len() == 0 {
        Seq::empty()
    } else {
        path_step(kept_components(segs.drop_last()), segs.last())
    }
}

/// Components joined with `/`.
pub open spec fn join_components(cs: Seq<Seq<char>>) -> Seq<char>
    decreases cs.len(),
{
    if cs.len() == 0 {
        Seq::empty()
    } else if cs.len() == 1 {
        cs[0]
    } else {
        join_components(cs.drop_last()) + seq!['/'] + cs.last()
    }
}

/// The lexical normalization of a Unix path: the root where the path is absolute, then the
/// components kept, joined with `/`.
pub open spec fn normalized_path(s: Seq<char>) -> Seq<char> {
    let body = join_components(kept_components(segments(s)));
    if s.len() > 0 && s[0] == '/' {
        seq!['/'] + body
    } else {
        body
    }
}

proof fn lemma_segments_nonempty(s: Seq<char>)
    ensures
        segments(s).len() >= 1,
    decreases s.len(),
{
    if s.len() > 0 {
        lemma_segments_nonempty(s.drop_last());
    }
}

/// `base` joined with `p` (see [`path_joined`]).
pub fn join_path(base: &str, p: &str) -> (r: String)
    ensures
        r@ == path_joined(base@, p@),
{
    let pc = chars_of(p);
    let bc = chars_of(base);
    if pc.len() > 0 && pc[0] == '/' {
        return string_from_chars(pc.as_slice());
    }
    if bc.len() == 0 {
        return string_from_chars(pc.as_slice());
    }
    let mut r = string_from_chars(bc.as_slice());
    if bc[bc.len() - 1] != '/' {
        push_char(&mut r, '/');
    }
    append_str(&mut r, p);
    r
}

/// Applies one normalization step to the components kept so far.
fn step(stack: &mut Vec<Vec<char>>, seg: Vec<char>)
    ensures
        final(stack)@.map_values(|x: Vec<char>| x@) == path_step(
            old(stack)@.map_values(|x: Vec<char>| x@),
            seg@,
        ),
{
    let ghost before = stack@.map_values(|x: Vec<char>| x@);
    if seg.len() == 0 {
        return;
    }
    if seg.len() == 1 && seg[0] == '.' {
        assert(seg@ =~= seq!['.']);
        return;
    }
    if seg.len() == 2 && seg[0] == '.' && seg[1] == '.' {
        assert(seg@ =~= seq!['.', '.']);
        if stack.len() > 0 {
            stack.pop();
            assert(stack@.map_values(|x: Vec<char>| x@) =~= before.drop_last());
        }
        return;
    }
    assert(seg@ != seq!['.']) by {
        if seg@ == seq!['.'] {
            assert(seg@.len() == 1);
        }
    }
    assert(seg@ != seq!['.', '.']) by {
        if seg@ == seq!['.', '.'] {
            assert(seg@.len() == 2 && seg@[0] == '.' && seg@[1] == '.');
        }
    }
    stack.push(seg);
    assert(stack@.map_values(|x: Vec<char>| x@) =~= before.push(seg@));
}

/// The lexical normalization of a Unix path (see [`normalized_path`]): `.` components and empty
/// pieces are dropped, and each `..` removes the component before it (at the root, or at the
/// start of a relative path, it is dropped).
pub fn normalize_path(s: &str) -> (r: String)
    ensures
        r@ == normalized_path(s@),
{
    let cs = chars_of(s);
    let mut stack: Vec<Vec<char>> = Vec::new();
    let mut cur: Vec<char> = Vec::new();
    let mut i: usize = 0;
    assert(cs@.take(0) =~= Seq::<char>::empty());
    assert(stack@.map_values(|x: Vec<char>| x@) =~= Seq::<Seq<char>>::empty());
    while i < cs.len()
        invariant
            i <= cs@.len(),
            cs@ == s@,
            segments(cs@.take(i as int)).len() >= 1,
            cur@ == segments(cs@.take(i as int)).last(),
            stack@.map_values(|x: Vec<char>| x@) == kept_components(
                segments(cs@.take(i as int)).drop_last(),
            ),
        decreases cs@.len() - i,
    {
        let ghost t = cs@.take(i as int);
        let ghost t1 = cs@.take(i + 1);
        assert(t1.drop_last() =~= t);
        assert(t1.last() == cs@[i as int]);
        proof {
            lemma_segments_nonempty(t);
        }
        let c = cs[i];
        if c == '/' {
            let seg = cur;
            cur = Vec::new();
            step(&mut stack, seg);
            let ghost segs = segments(t);
            assert(segments(t1) == segs.push(Seq::<char>::empty()));
            assert(segments(t1).drop_last() =~= segs);
            assert(segs == segs.drop_last().push(segs.last()));
            assert(kept_components(segs) == path_step(kept_components(segs.drop_last()), segs.last()));
            assert(cur@ =~= Seq::<char>::empty());
        } else {
            cur.push(c);
            let ghost segs = segments(t);
            assert(segments(t1) == segs.update(segs.len() - 1, segs.last().push(c)));
            assert(segments(t1).drop_last() =~= segs.drop_last());
        }
        i = i + 1;
    }
    assert(cs@.take(cs@.len() as int) =~= cs@);
    let ghost segs = segments(cs@);
    step(&mut stack, cur);
    assert(segs == segs.drop_last().push(segs.last()));
    assert(stack@.map_values(|x: Vec<char>| x@) == kept_components(segs));
    let ghost kept = kept_components(segs);
    let mut r = String::new();
    let ghost prefix: Seq<char> = if s@.len() > 0 && s@[0] == '/' {
        seq!['/']
    } else {
        Seq::empty()
    };
    if cs.len() > 0 && cs[0] == '/' {
        push_char(&mut r, '/');
    }
    assert(r@ =~= prefix);
    let mut j: usize = 0;
    assert(kept.take(0) =~= Seq::<Seq<char>>::empty());
    while j < stack.len()
        invariant
            j <= stack@.len(),
            stack@.map_values(|x: Vec<char>| x@) == kept,
            r@ == prefix + join_components(kept.take(j as int)),
        decreases stack@.len() - j,
    {
        let ghost before = r@;
        let ghost k1 = kept.take(j + 1);
        assert(k1.drop_last() =~= kept.take(j as int));
        assert(k1.last() == stack@[j as int]@);
        if j > 0 {
            push_char(&mut r, '/');
        }
        let part = string_from_chars(stack[j].as_slice());
        append_str(&mut r, part.as_str());
        if j == 0 {
            assert(kept.take(0) =~= Seq::<Seq<char>>::empty());
            assert(r@ =~= prefix + join_components(k1));
        } else {
            assert(r@ =~= prefix + join_components(k1));
        }
        j = j + 1;
    }
    assert(kept.take(stack@.len() as int) =~= kept);
    r
}

} // verus!
