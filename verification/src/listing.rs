//! The listing of the libraries found: one line per library, with its name and toolchain in
//! columns as wide as the widest name and toolchain.

use vstd::prelude::*;
use crate::span::byte_count;
use crate::text::{append_str, chars_of, push_char};
use crate::tokenization::byte_len;

verus! {

/// The width of a column entry: its length in bytes (saturated at `usize::MAX`).
pub open spec fn entry_width(s: Seq<char>) -> int {
    if byte_len(s) > usize::MAX {
        usize::MAX as int
    } else {
        byte_len(s) as int
    }
}

/// The libraries found: for each name, for each toolchain, the libraries' locations.
pub type Found = Vec<(String, Vec<(String, Vec<String>)>)>;

/// The width of the name column: the widest name (0 where there is none).
pub open spec fn name_column(found: Seq<(String, Vec<(String, Vec<String>)>)>) -> int
    decreases found.len(),
{
    if found.len() == 0 {
        0
    } else {
        let w = name_column(found.drop_last());
        let x = entry_width(found.last().0@);
        if x > w {
            x
        } else {
            w
        }
    }
}

/// The widest toolchain of one name's toolchains (0 where there is none).
pub open spec fn toolchains_width(tcs: Seq<(String, Vec<String>)>) -> int
    decreases tcs.len(),
{
    if tcs.len() == 0 {
        0
    } else {
        let w = toolchains_width(tcs.drop_last());
        let x = entry_width(tcs.last().0@);
        if x > w {
            x
        } else {
            w
        }
    }
}

/// The width of the toolchain column: the widest toolchain of any name.
pub open spec fn toolchain_column(found: Seq<(String, Vec<(String, Vec<String>)>)>) -> int
    decreases found.len(),
{
    if found.len() == 0 {
        0
    } else {
        let w = toolchain_column(found.drop_last());
        let x = toolchains_width(found.last().1@);
        if x > w {
            x
        } else {
            w
        }
    }
}

/// `s` padded with spaces to `w` characters (as `format!("{s:<w$}")` does).
pub open spec fn padded(s: Seq<char>, w: int) -> Seq<char> {
    if s.len() < w {
        s + Seq::new((w - s.len()) as nat, |i: int| ' ')
    } else {
        s
    }
}

/// One line of the listing.
pub open spec fn listing_line(name: Seq<char>, toolchain: Seq<char>, location: Seq<char>, nw: int, tw: int) -> Seq<char> {
    padded(name, nw) + "  "@ + padded(toolchain, tw) + "  "@ + location
}

/// The lines for one toolchain of one name.
pub open spec fn location_lines(name: Seq<char>, toolchain: Seq<char>, locs: Seq<String>, nw: int, tw: int) -> Seq<Seq<char>> {
    locs.map_values(|l: String| listing_line(name, toolchain, l@, nw, tw))
}

/// The lines for one name.
pub open spec fn name_lines(name: Seq<char>, tcs: Seq<(String, Vec<String>)>, nw: int, tw: int) -> Seq<Seq<char>>
    decreases tcs.len(),
{
    if tcs.len() == 0 {
        Seq::empty()
    } else {
        name_lines(name, tcs.drop_last(), nw, tw) + location_lines(name, tcs.last().0@, tcs.last().1@, nw, tw)
    }
}

/// The lines for the first names.
pub open spec fn listing_lines(found: Seq<(String, Vec<(String, Vec<String>)>)>, nw: int, tw: int) -> Seq<Seq<char>>
    decreases found.len(),
{
    if found.len() == 0 {
        Seq::empty()
    } else {
        listing_lines(found.drop_last(), nw, tw) + name_lines(found.last().0@, found.last().1@, nw, tw)
    }
}

/// One name's toolchain width covers each of its toolchains.
proof fn lemma_toolchains_width_covers(tcs: Seq<(String, Vec<String>)>)
    ensures
        forall|j: int| 0 <= j < tcs.len() ==> entry_width((#[trigger] tcs[j]).0@) <= toolchains_width(tcs),
        toolchains_width(tcs) >= 0,
    decreases tcs.len(),
{
    if tcs.len() > 0 {
        let t = tcs.drop_last();
        lemma_toolchains_width_covers(t);
        assert forall|j: int| 0 <= j < tcs.len() implies entry_width((#[trigger] tcs[j]).0@) <= toolchains_width(tcs) by {
            if j < tcs.len() - 1 {
                assert(t[j] == tcs[j]);
            }
        }
    }
}

/// The columns of the listing are as wide as every name and every toolchain of every name: no
/// name or toolchain is wider than its column.
pub proof fn lemma_columns_cover_entries(found: Seq<(String, Vec<(String, Vec<String>)>)>)
    ensures
        forall|i: int| 0 <= i < found.len() ==> entry_width((#[trigger] found[i]).0@) <= name_column(found),
        forall|i: int, j: int|
            0 <= i < found.len() && 0 <= j < found[i].1@.len() ==> entry_width(
                (#[trigger] found[i].1@[j]).0@,
            ) <= toolchain_column(found),
    decreases found.len(),
{
    if found.len() > 0 {
        let f = found.drop_last();
        lemma_columns_cover_entries(f);
        lemma_toolchains_width_covers(found.last().1@);
        assert forall|i: int| 0 <= i < found.len() implies entry_width((#[trigger] found[i]).0@) <= name_column(found) by {
            if i < found.len() - 1 {
                assert(f[i] == found[i]);
            }
        }
        assert forall|i: int, j: int|
            0 <= i < found.len() && 0 <= j < found[i].1@.len() implies entry_width(
                (#[trigger] found[i].1@[j]).0@,
            ) <= toolchain_column(found) by {
            if i < found.len() - 1 {
                assert(f[i] == found[i]);
                assert(entry_width(f[i].1@[j].0@) <= toolchain_column(f));
            } else {
                assert(found[i] == found.last());
            }
        }
    }
}

/// One name's toolchain width is the width of one of its toolchains (0 where it has none).
proof fn lemma_toolchains_width_attained(tcs: Seq<(String, Vec<String>)>)
    ensures
        tcs.len() == 0 ==> toolchains_width(tcs) == 0,
        tcs.len() > 0 ==> exists|j: int|
            0 <= j < tcs.len() && toolchains_width(tcs) == entry_width((#[trigger] tcs[j]).0@),
    decreases tcs.len(),
{
    if tcs.len() > 0 {
        let t = tcs.drop_last();
        lemma_toolchains_width_attained(t);
        let last = tcs.len() - 1;
        assert(tcs[last] == tcs.last());
        if t.len() == 0 || entry_width(tcs.last().0@) > toolchains_width(t) {
            assert(toolchains_width(tcs) == entry_width(tcs[last].0@));
        } else {
            let j = choose|j: int|
                0 <= j < t.len() && toolchains_width(t) == entry_width((#[trigger] t[j]).0@);
            assert(t[j] == tcs[j]);
            assert(toolchains_width(tcs) == entry_width(tcs[j].0@));
        }
    }
}

/// Some name of `found` has a toolchain.
pub open spec fn has_toolchain(found: Seq<(String, Vec<(String, Vec<String>)>)>) -> bool {
    exists|i: int| 0 <= i < found.len() && (#[trigger] found[i]).1@.len() > 0
}

/// The columns of the listing are no wider than they must be: the name column is as wide as some
/// name, and the toolchain column as wide as some toolchain of some name (each is 0 where there is
/// no name, or no toolchain).
pub proof fn lemma_columns_are_widest(found: Seq<(String, Vec<(String, Vec<String>)>)>)
    ensures
        found.len() == 0 ==> name_column(found) == 0,
        found.len() > 0 ==> exists|i: int|
            0 <= i < found.len() && name_column(found) == entry_width((#[trigger] found[i]).0@),
        !has_toolchain(found) ==> toolchain_column(found) == 0,
        has_toolchain(found) ==> exists|i: int, j: int|
            0 <= i < found.len() && 0 <= j < found[i].1@.len() && toolchain_column(found)
                == entry_width((#[trigger] found[i].1@[j]).0@),
    decreases found.len(),
{
    if found.len() > 0 {
        let f = found.drop_last();
        let last = found.len() - 1;
        assert(found[last] == found.last());
        lemma_columns_are_widest(f);
        lemma_toolchains_width_covers(found.last().1@);
        lemma_toolchains_width_attained(found.last().1@);
        lemma_columns_cover_entries(f);
        // the name column
        if f.len() == 0 || entry_width(found.last().0@) > name_column(f) {
            assert(name_column(found) == entry_width(found[last].0@));
        } else {
            let i = choose|i: int|
                0 <= i < f.len() && name_column(f) == entry_width((#[trigger] f[i]).0@);
            assert(f[i] == found[i]);
            assert(name_column(found) == entry_width(found[i].0@));
        }
        // the toolchain column
        if has_toolchain(f) {
            let (i, j) = choose|i: int, j: int|
                0 <= i < f.len() && 0 <= j < f[i].1@.len() && toolchain_column(f)
                    == entry_width((#[trigger] f[i].1@[j]).0@);
            assert(f[i] == found[i]);
            assert(has_toolchain(found));
            if toolchains_width(found.last().1@) > toolchain_column(f) {
                let k = choose|k: int|
                    0 <= k < found.last().1@.len() && toolchains_width(found.last().1@)
                        == entry_width((#[trigger] found.last().1@[k]).0@);
                assert(toolchain_column(found) == entry_width(found[last].1@[k].0@));
            } else {
                assert(toolchain_column(found) == entry_width(found[i].1@[j].0@));
            }
        } else {
            assert(toolchain_column(f) == 0);
            if found.last().1@.len() > 0 {
                assert(has_toolchain(found)) by {
                    assert(found[last].1@.len() > 0);
                }
                let k = choose|k: int|
                    0 <= k < found.last().1@.len() && toolchains_width(found.last().1@)
                        == entry_width((#[trigger] found.last().1@[k]).0@);
                assert(toolchain_column(found) == entry_width(found[last].1@[k].0@));
            } else {
                assert(toolchain_column(found) == 0);
                assert forall|i: int| 0 <= i < found.len() implies (#[trigger] found[i]).1@.len()
                    == 0 by {
                    if i < last {
                        assert(f[i] == found[i]);
                    }
                }
            }
        }
    }
}

/// `line` is the line of some location of some toolchain of the name `name`.
pub open spec fn is_name_location_line(
    name: Seq<char>,
    tcs: Seq<(String, Vec<String>)>,
    nw: int,
    tw: int,
    line: Seq<char>,
) -> bool {
    exists|j: int, k: int|
        #![trigger tcs[j].1@[k]]
        0 <= j < tcs.len() && 0 <= k < tcs[j].1@.len() && line == listing_line(
            name,
            tcs[j].0@,
            tcs[j].1@[k]@,
            nw,
            tw,
        )
}

/// `line` is the line of some location of some toolchain of some name of `found`.
pub open spec fn is_location_line(
    found: Seq<(String, Vec<(String, Vec<String>)>)>,
    nw: int,
    tw: int,
    line: Seq<char>,
) -> bool {
    exists|i: int| 0 <= i < found.len() && is_name_location_line(
        (#[trigger] found[i]).0@,
        found[i].1@,
        nw,
        tw,
        line,
    )
}

/// The lines for one name: one for each location of each of its toolchains, and no other.
proof fn lemma_name_lines_are_locations(
    name: Seq<char>,
    tcs: Seq<(String, Vec<String>)>,
    nw: int,
    tw: int,
)
    ensures
        forall|j: int, k: int|
            0 <= j < tcs.len() && 0 <= k < tcs[j].1@.len() ==> name_lines(name, tcs, nw, tw).contains(
                listing_line(name, tcs[j].0@, (#[trigger] tcs[j].1@[k])@, nw, tw),
            ),
        forall|m: int|
            0 <= m < name_lines(name, tcs, nw, tw).len() ==> is_name_location_line(
                name,
                tcs,
                nw,
                tw,
                #[trigger] name_lines(name, tcs, nw, tw)[m],
            ),
    decreases tcs.len(),
{
    if tcs.len() > 0 {
        let t = tcs.drop_last();
        let last = tcs.len() - 1;
        lemma_name_lines_are_locations(name, t, nw, tw);
        let a = name_lines(name, t, nw, tw);
        let b = location_lines(name, tcs.last().0@, tcs.last().1@, nw, tw);
        let all = name_lines(name, tcs, nw, tw);
        assert(all == a + b);
        assert(tcs[last] == tcs.last());
        assert forall|j: int, k: int|
            0 <= j < tcs.len() && 0 <= k < tcs[j].1@.len() implies all.contains(
                listing_line(name, tcs[j].0@, (#[trigger] tcs[j].1@[k])@, nw, tw),
            ) by {
            let x = listing_line(name, tcs[j].0@, tcs[j].1@[k]@, nw, tw);
            if j < last {
                assert(t[j] == tcs[j]);
                assert(a.contains(listing_line(name, t[j].0@, t[j].1@[k]@, nw, tw)));
                let m = choose|m: int| 0 <= m < a.len() && a[m] == x;
                assert(all[m] == x);
            } else {
                assert(b[k] == x);
                assert(all[a.len() + k] == x);
            }
        }
        assert forall|m: int| 0 <= m < all.len() implies is_name_location_line(
            name,
            tcs,
            nw,
            tw,
            #[trigger] all[m],
        ) by {
            if m < a.len() {
                assert(all[m] == a[m]);
                assert(is_name_location_line(name, t, nw, tw, a[m]));
                let (j, k) = choose|j: int, k: int|
                    #![trigger t[j].1@[k]]
                    0 <= j < t.len() && 0 <= k < t[j].1@.len() && a[m] == listing_line(
                        name,
                        t[j].0@,
                        t[j].1@[k]@,
                        nw,
                        tw,
                    );
                assert(t[j] == tcs[j]);
                assert(all[m] == listing_line(name, tcs[j].0@, tcs[j].1@[k]@, nw, tw));
            } else {
                let k = m - a.len();
                assert(all[m] == b[k]);
                assert(all[m] == listing_line(name, tcs[last].0@, tcs[last].1@[k]@, nw, tw));
            }
        }
    }
}

/// The listing has a line for each location of each toolchain of each name, and no other line:
/// no library found is left out, and nothing is listed that was not found.
pub proof fn lemma_listing_lines_are_locations(
    found: Seq<(String, Vec<(String, Vec<String>)>)>,
    nw: int,
    tw: int,
)
    ensures
        forall|i: int, j: int, k: int|
            0 <= i < found.len() && 0 <= j < found[i].1@.len() && 0 <= k < found[i].1@[j].1@.len()
                ==> listing_lines(found, nw, tw).contains(
                listing_line(found[i].0@, found[i].1@[j].0@, (#[trigger] found[i].1@[j].1@[k])@, nw, tw),
            ),
        forall|m: int|
            0 <= m < listing_lines(found, nw, tw).len() ==> is_location_line(
                found,
                nw,
                tw,
                #[trigger] listing_lines(found, nw, tw)[m],
            ),
    decreases found.len(),
{
    if found.len() > 0 {
        let f = found.drop_last();
        let last = found.len() - 1;
        lemma_listing_lines_are_locations(f, nw, tw);
        lemma_name_lines_are_locations(found.last().0@, found.last().1@, nw, tw);
        let a = listing_lines(f, nw, tw);
        let b = name_lines(found.last().0@, found.last().1@, nw, tw);
        let all = listing_lines(found, nw, tw);
        assert(all == a + b);
        assert(found[last] == found.last());
        assert forall|i: int, j: int, k: int|
            0 <= i < found.len() && 0 <= j < found[i].1@.len() && 0 <= k < found[i].1@[j].1@.len()
                implies all.contains(
                listing_line(found[i].0@, found[i].1@[j].0@, (#[trigger] found[i].1@[j].1@[k])@, nw, tw),
            ) by {
            let x = listing_line(found[i].0@, found[i].1@[j].0@, found[i].1@[j].1@[k]@, nw, tw);
            if i < last {
                assert(f[i] == found[i]);
                assert(a.contains(listing_line(f[i].0@, f[i].1@[j].0@, f[i].1@[j].1@[k]@, nw, tw)));
                let m = choose|m: int| 0 <= m < a.len() && a[m] == x;
                assert(all[m] == x);
            } else {
                assert(b.contains(listing_line(
                    found.last().0@,
                    found.last().1@[j].0@,
                    found.last().1@[j].1@[k]@,
                    nw,
                    tw,
                )));
                let m = choose|m: int| 0 <= m < b.len() && b[m] == x;
                assert(all[a.len() + m] == x);
            }
        }
        assert forall|m: int| 0 <= m < all.len() implies is_location_line(
            found,
            nw,
            tw,
            #[trigger] all[m],
        ) by {
            if m < a.len() {
                assert(all[m] == a[m]);
                assert(is_location_line(f, nw, tw, a[m]));
                let i = choose|i: int| 0 <= i < f.len() && is_name_location_line(
                    (#[trigger] f[i]).0@,
                    f[i].1@,
                    nw,
                    tw,
                    a[m],
                );
                assert(f[i] == found[i]);
                assert(is_name_location_line(found[i].0@, found[i].1@, nw, tw, all[m]));
            } else {
                let n = m - a.len();
                assert(all[m] == b[n]);
                assert(is_name_location_line(found[last].0@, found[last].1@, nw, tw, all[m]));
            }
        }
    }
}

proof fn lemma_chars_le_bytes(s: Seq<char>)
    ensures
        s.len() <= byte_len(s),
    decreases s.len(),
{
    if s.len() > 0 {
        lemma_chars_le_bytes(s.drop_last());
    }
}

/// Every line of the listing puts its location at the same column: after the name column, the
/// toolchain column and two separators of two spaces each (for names and toolchains whose UTF-8
/// length fits in a `usize`).
pub proof fn lemma_locations_aligned(
    found: Seq<(String, Vec<(String, Vec<String>)>)>,
    i: int,
    j: int,
    location: Seq<char>,
)
    requires
        0 <= i < found.len(),
        0 <= j < found[i].1@.len(),
        byte_len(found[i].0@) <= usize::MAX,
        byte_len(found[i].1@[j].0@) <= usize::MAX,
    ensures
        ({
            let start = name_column(found) + 2 + toolchain_column(found) + 2;
            let line = listing_line(
                found[i].0@,
                found[i].1@[j].0@,
                location,
                name_column(found),
                toolchain_column(found),
            );
            &&& line.len() == start + location.len()
            &&& line.skip(start) == location
        }),
{
    lemma_columns_cover_entries(found);
    let n = found[i].0@;
    let t = found[i].1@[j].0@;
    let nw = name_column(found);
    let tw = toolchain_column(found);
    lemma_chars_le_bytes(n);
    lemma_chars_le_bytes(t);
    assert(entry_width(n) <= nw);
    assert(entry_width(t) <= tw);
    assert(padded(n, nw).len() == nw);
    assert(padded(t, tw).len() == tw);
    reveal_strlit("  ");
    let pre = padded(n, nw) + "  "@ + padded(t, tw) + "  "@;
    assert(pre.len() == nw + 2 + tw + 2);
    let line = listing_line(n, t, location, nw, tw);
    assert(line == pre + location);
    assert((pre + location).skip(pre.len() as int) =~= location);
}

fn width_of(s: &str) -> (w: usize)
    ensures
        w == entry_width(s@),
{
    let cs = chars_of(s);
    match byte_count(&cs, usize::MAX) {
        Some(n) => n,
        None => usize::MAX,
    }
}

fn append_padded(line: &mut String, s: &str, w: usize)
    ensures
        final(line)@ == old(line)@ + padded(s@, w as int),
{
    let cs = chars_of(s);
    append_str(line, s);
    if cs.len() < w {
        let ghost base = line@;
        let mut k: usize = cs.len();
        while k < w
            invariant
                cs.len() <= k <= w,
                line@ == base + Seq::new((k - cs.len()) as nat, |i: int| ' '),
            decreases w - k,
        {
            push_char(line, ' ');
            k = k + 1;
            assert(line@ =~= base + Seq::new((k - cs.len()) as nat, |i: int| ' '));
        }
        assert(final(line)@ =~= old(line)@ + padded(s@, w as int));
    }
}

/// The listing of the libraries found, name by name and toolchain by toolchain: `name`, two
/// spaces, `toolchain`, two spaces, location, the first two padded to the widths of their
/// columns (see [`listing_lines`]).
pub fn library_listing(found: &Found) -> (r: Vec<String>)
    ensures
        crate::dependency::strings_view(r@) == listing_lines(found@, name_column(found@), toolchain_column(found@)),
{
    let ghost fv = found@;
    // The columns' widths.
    let mut nw: usize = 0;
    let mut tw: usize = 0;
    let mut i: usize = 0;
    assert(fv.take(0) =~= Seq::<(String, Vec<(String, Vec<String>)>)>::empty());
    while i < found.len()
        invariant
            fv == found@,
            i <= fv.len(),
            nw == name_column(fv.take(i as int)),
            tw == toolchain_column(fv.take(i as int)),
        decreases fv.len() - i,
    {
        assert(fv.take(i + 1).drop_last() =~= fv.take(i as int));
        let x = width_of(found[i].0.as_str());
        if x > nw {
            nw = x;
        }
        let tcs = &found[i].1;
        let mut t: usize = 0;
        let mut tx: usize = 0;
        assert(tcs@.take(0) =~= Seq::<(String, Vec<String>)>::empty());
        while t < tcs.len()
            invariant
                t <= tcs@.len(),
                tx == toolchains_width(tcs@.take(t as int)),
            decreases tcs@.len() - t,
        {
            assert(tcs@.take(t + 1).drop_last() =~= tcs@.take(t as int));
            let y = width_of(tcs[t].0.as_str());
            if y > tx {
                tx = y;
            }
            t = t + 1;
        }
        assert(tcs@.take(tcs@.len() as int) =~= tcs@);
        if tx > tw {
            tw = tx;
        }
        i = i + 1;
    }
    assert(fv.take(fv.len() as int) =~= fv);
    // The lines.
    let ghost nwi = nw as int;
    let ghost twi = tw as int;
    let mut lines: Vec<String> = Vec::new();
    let mut i: usize = 0;
    assert(crate::dependency::strings_view(lines@) =~= Seq::<Seq<char>>::empty());
    while i < found.len()
        invariant
            fv == found@,
            i <= fv.len(),
            nwi == nw,
            twi == tw,
            crate::dependency::strings_view(lines@) == listing_lines(fv.take(i as int), nwi, twi),
        decreases fv.len() - i,
    {
        assert(fv.take(i + 1).drop_last() =~= fv.take(i as int));
        let name = found[i].0.as_str();
        let tcs = &found[i].1;
        let ghost before = crate::dependency::strings_view(lines@);
        let mut t: usize = 0;
        assert(tcs@.take(0) =~= Seq::<(String, Vec<String>)>::empty());
        assert(before + name_lines(name@, tcs@.take(0), nwi, twi) =~= before);
        while t < tcs.len()
            invariant
                t <= tcs@.len(),
                nwi == nw,
                twi == tw,
                crate::dependency::strings_view(lines@) == before + name_lines(name@, tcs@.take(t as int), nwi, twi),
            decreases tcs@.len() - t,
        {
            assert(tcs@.take(t + 1).drop_last() =~= tcs@.take(t as int));
            let toolchain = tcs[t].0.as_str();
            let locs = &tcs[t].1;
            let ghost mid = crate::dependency::strings_view(lines@);
            let mut k: usize = 0;
            assert(mid + location_lines(name@, toolchain@, locs@.take(0), nwi, twi) =~= mid);
            while k < locs.len()
                invariant
                    k <= locs@.len(),
                    nwi == nw,
                    twi == tw,
                    crate::dependency::strings_view(lines@) == mid + location_lines(name@, toolchain@, locs@.take(k as int), nwi, twi),
                decreases locs@.len() - k,
            {
                let mut line = String::new();
                append_padded(&mut line, name, nw);
                append_str(&mut line, "  ");
                append_padded(&mut line, toolchain, tw);
                append_str(&mut line, "  ");
                append_str(&mut line, locs[k].as_str());
                let ghost prev = crate::dependency::strings_view(lines@);
                lines.push(line);
                assert(crate::dependency::strings_view(lines@) =~= prev.push(listing_line(name@, toolchain@, locs@[k as int]@, nwi, twi)));
                assert(location_lines(name@, toolchain@, locs@.take(k + 1), nwi, twi) =~= location_lines(name@, toolchain@, locs@.take(k as int), nwi, twi).push(listing_line(name@, toolchain@, locs@[k as int]@, nwi, twi)));
                k = k + 1;
            }
            assert(locs@.take(locs@.len() as int) =~= locs@);
            assert(crate::dependency::strings_view(lines@) =~= before + name_lines(name@, tcs@.take(t + 1), nwi, twi));
            t = t + 1;
        }
        assert(tcs@.take(tcs@.len() as int) =~= tcs@);
        assert(crate::dependency::strings_view(lines@) =~= listing_lines(fv.take(i + 1), nwi, twi));
        i = i + 1;
    }
    lines
}

/// The heading printed before a library's lints: its name, then `@toolchain` where several
/// toolchains are in use, then its location in parentheses where the toolchain has several
/// libraries.
pub open spec fn lints_heading_text(
    name: Seq<char>,
    toolchain: Seq<char>,
    n_toolchains: nat,
    n_paths: nat,
    location: Seq<char>,
) -> Seq<char> {
    name + (if n_toolchains >= 2 {
        "@"@ + toolchain
    } else {
        Seq::empty()
    }) + (if n_paths >= 2 {
        " ("@ + location + ")"@
    } else {
        Seq::empty()
    })
}

/// The heading printed before a library's lints (see [`lints_heading_text`]); the location is
/// needed only where the toolchain has several libraries.
pub fn lints_heading(
    name: &str,
    toolchain: &str,
    n_toolchains: usize,
    n_paths: usize,
    location: Option<&str>,
) -> (r: String)
    requires
        n_paths >= 2 ==> location is Some,
    ensures
        r@ == lints_heading_text(
            name@,
            toolchain@,
            n_toolchains as nat,
            n_paths as nat,
            match location {
                Some(l) => l@,
                None => Seq::empty(),
            },
        ),
{
    let mut s = String::new();
    append_str(&mut s, name);
    let ghost a = s@;
    if n_toolchains >= 2 {
        append_str(&mut s, "@");
        append_str(&mut s, toolchain);
    }
    assert(s@ =~= a + (if n_toolchains >= 2 {
        "@"@ + toolchain@
    } else {
        Seq::<char>::empty()
    }));
    let ghost b = s@;
    if n_paths >= 2 {
        if let Some(l) = location {
            append_str(&mut s, " (");
            append_str(&mut s, l);
            append_str(&mut s, ")");
        }
    }
    assert(s@ =~= b + (if n_paths >= 2 {
        " ("@ + match location {
            Some(l) => l@,
            None => Seq::<char>::empty(),
        } + ")"@
    } else {
        Seq::<char>::empty()
    }));
    s
}

} // verus!
