//! Saved palettes: the data type, its abstract view, and the facts about
//! lists of palettes that the store's contracts are stated over.
//!
//! Two palettes count as duplicates exactly when their `colors` sequences are
//! equal element-wise and in order; the title plays no part in identity.

use vstd::prelude::*;
use crate::ascii::is_upper;
use crate::ascii::string_vecs_eq;

verus! {

/// At most this many palettes may be saved per identity.
pub const PALETTE_QUOTA: usize = 15;

/// The mathematical value of a saved palette.
pub ghost struct PaletteView {
    pub title: Seq<char>,
    pub colors: Seq<Seq<char>>,
}

/// A saved palette: a caller-chosen title and an ordered list of color-code
/// strings, held uppercase at rest.
pub struct Palette {
    pub title: String,
    pub colors: Vec<String>,
}

impl DeepView for Palette {
    type V = PaletteView;

    open spec fn deep_view(&self) -> PaletteView {
        PaletteView { title: self.title@, colors: self.colors.deep_view() }
    }
}

impl Clone for Palette {
    fn clone(&self) -> (r: Self)
        ensures
            r.deep_view() == self.deep_view(),
    {
        let r = Palette { title: self.title.clone(), colors: self.colors.clone() };
        proof {
            assert(r.colors.deep_view() =~= self.colors.deep_view());
        }
        r
    }
}

/// Some palette in the list has exactly these colors.
pub open spec fn has_palette_with_colors(ps: Seq<PaletteView>, cs: Seq<Seq<char>>) -> bool {
    exists|i: int| 0 <= i < ps.len() && ps[i].colors == cs
}

/// How many palettes in the list have exactly these colors.
pub open spec fn count_palettes_with_colors(ps: Seq<PaletteView>, cs: Seq<Seq<char>>) -> nat
    decreases ps.len(),
{
    if ps.len() == 0 {
        0
    } else {
        count_palettes_with_colors(ps.drop_last(), cs) + if ps.last().colors == cs {
            1nat
        } else {
            0nat
        }
    }
}

/// The position of the first palette with these colors (meaningful only when
/// one exists).
pub open spec fn first_palette_with_colors(ps: Seq<PaletteView>, cs: Seq<Seq<char>>) -> int
    decreases ps.len(),
{
    if ps.len() == 0 {
        0
    } else if ps[0].colors == cs {
        0
    } else {
        1 + first_palette_with_colors(ps.drop_first(), cs)
    }
}

/// The list with every palette that has these colors removed, order of the
/// rest preserved.
pub open spec fn remove_palettes_with_colors(
    ps: Seq<PaletteView>,
    cs: Seq<Seq<char>>,
) -> Seq<PaletteView>
    decreases ps.len(),
{
    if ps.len() == 0 {
        ps
    } else if ps[0].colors == cs {
        remove_palettes_with_colors(ps.drop_first(), cs)
    } else {
        seq![ps[0]] + remove_palettes_with_colors(ps.drop_first(), cs)
    }
}

/// The list with the first palette matching these colors retitled, and
/// nothing else changed; the list itself when no palette matches.
pub open spec fn retitle_palettes(
    ps: Seq<PaletteView>,
    cs: Seq<Seq<char>>,
    t: Seq<char>,
) -> Seq<PaletteView> {
    if has_palette_with_colors(ps, cs) {
        let i = first_palette_with_colors(ps, cs);
        ps.update(i, PaletteView { title: t, colors: ps[i].colors })
    } else {
        ps
    }
}

/// No two palettes in the list share a colors sequence.
pub open spec fn palette_colors_distinct(ps: Seq<PaletteView>) -> bool {
    forall|i: int, j: int| 0 <= i < j < ps.len() ==> ps[i].colors != ps[j].colors
}

/// Every color code in the sequence is uppercase at rest.
pub open spec fn colors_canonical(cs: Seq<Seq<char>>) -> bool {
    forall|k: int| 0 <= k < cs.len() ==> is_upper(#[trigger] cs[k])
}

/// The invariant of one identity's palette list: within quota, duplicate-free
/// by colors, and canonical at rest.
pub open spec fn palette_list_wf(ps: Seq<PaletteView>) -> bool {
    &&& ps.len() <= PALETTE_QUOTA
    &&& palette_colors_distinct(ps)
    &&& forall|i: int| 0 <= i < ps.len() ==> colors_canonical(#[trigger] ps[i].colors)
}

/// Where a match exists, the first match is a real position, matches, and
/// nothing before it does.
pub proof fn lemma_first_palette_with_colors(ps: Seq<PaletteView>, cs: Seq<Seq<char>>)
    requires
        has_palette_with_colors(ps, cs),
    ensures
        0 <= first_palette_with_colors(ps, cs) < ps.len(),
        ps[first_palette_with_colors(ps, cs)].colors == cs,
        forall|j: int| 0 <= j < first_palette_with_colors(ps, cs) ==> ps[j].colors != cs,
    decreases ps.len(),
{
    if ps[0].colors == cs {
    } else {
        let rest = ps.drop_first();
        assert(forall|i: int| 0 <= i < rest.len() ==> rest[i] == ps[i + 1]);
        let w = choose|i: int| 0 <= i < ps.len() && ps[i].colors == cs;
        assert(rest[w - 1].colors == cs);
        lemma_first_palette_with_colors(rest, cs);
        let f = first_palette_with_colors(rest, cs);
        assert(first_palette_with_colors(ps, cs) == 1 + f);
        assert(forall|j: int| 0 <= j < 1 + f ==> ps[j].colors != cs) by {
            assert(forall|j: int| 1 <= j < 1 + f ==> ps[j] == rest[j - 1]);
        }
    }
}

/// A position that matches with no earlier match is the first match.
pub proof fn lemma_first_palette_match_at(ps: Seq<PaletteView>, cs: Seq<Seq<char>>, i: int)
    requires
        0 <= i < ps.len(),
        ps[i].colors == cs,
        forall|j: int| 0 <= j < i ==> ps[j].colors != cs,
    ensures
        first_palette_with_colors(ps, cs) == i,
    decreases ps.len(),
{
    if i > 0 {
        assert(forall|j: int| 0 <= j < i - 1 ==> ps.drop_first()[j].colors != cs);
        lemma_first_palette_match_at(ps.drop_first(), cs, i - 1);
    }
}

/// Removing matches commutes with appending one palette at the end.
pub proof fn lemma_remove_palettes_push(ps: Seq<PaletteView>, x: PaletteView, cs: Seq<Seq<char>>)
    ensures
        remove_palettes_with_colors(ps.push(x), cs) == if x.colors == cs {
            remove_palettes_with_colors(ps, cs)
        } else {
            remove_palettes_with_colors(ps, cs).push(x)
        },
    decreases ps.len(),
{
    if ps.len() == 0 {
        assert(ps.push(x)[0] == x);
        assert(ps =~= Seq::<PaletteView>::empty());
        assert(ps.push(x).drop_first() =~= ps);
        assert(remove_palettes_with_colors(ps, cs) == ps);
        if x.colors == cs {
            assert(remove_palettes_with_colors(ps.push(x), cs) == remove_palettes_with_colors(
                ps,
                cs,
            ));
        } else {
            assert(remove_palettes_with_colors(ps.push(x), cs) == seq![x]
                + remove_palettes_with_colors(ps, cs));
            assert(seq![x] + ps =~= remove_palettes_with_colors(ps, cs).push(x));
        }
    } else {
        assert(ps.push(x)[0] == ps[0]);
        assert(ps.push(x).drop_first() =~= ps.drop_first().push(x));
        lemma_remove_palettes_push(ps.drop_first(), x, cs);
        if ps[0].colors != cs && x.colors != cs {
            assert(seq![ps[0]] + remove_palettes_with_colors(ps.drop_first(), cs).push(x) =~= (
            seq![ps[0]] + remove_palettes_with_colors(ps.drop_first(), cs)).push(x));
        }
    }
}

/// When nothing matches, removal changes nothing.
pub proof fn lemma_remove_palettes_no_match(ps: Seq<PaletteView>, cs: Seq<Seq<char>>)
    requires
        !has_palette_with_colors(ps, cs),
    ensures
        remove_palettes_with_colors(ps, cs) == ps,
    decreases ps.len(),
{
    if ps.len() > 0 {
        assert(ps[0].colors != cs);
        assert(forall|i: int|
            0 <= i < ps.drop_first().len() ==> ps.drop_first()[i] == ps[i + 1]);
        lemma_remove_palettes_no_match(ps.drop_first(), cs);
        assert(seq![ps[0]] + ps.drop_first() =~= ps);
    }
}

/// With duplicate-free colors, removal takes out exactly the first (and only)
/// matching entry.
pub proof fn lemma_remove_palettes_single_match(ps: Seq<PaletteView>, cs: Seq<Seq<char>>)
    requires
        palette_colors_distinct(ps),
        has_palette_with_colors(ps, cs),
    ensures
        remove_palettes_with_colors(ps, cs) == ps.remove(first_palette_with_colors(ps, cs)),
    decreases ps.len(),
{
    lemma_first_palette_with_colors(ps, cs);
    let rest = ps.drop_first();
    assert(forall|i: int| 0 <= i < rest.len() ==> rest[i] == ps[i + 1]);
    if ps[0].colors == cs {
        assert(!has_palette_with_colors(rest, cs));
        lemma_remove_palettes_no_match(rest, cs);
        assert(ps.remove(0) =~= rest);
    } else {
        assert(palette_colors_distinct(rest));
        let w = choose|i: int| 0 <= i < ps.len() && ps[i].colors == cs;
        assert(rest[w - 1].colors == cs);
        lemma_remove_palettes_single_match(rest, cs);
        lemma_first_palette_with_colors(rest, cs);
        let f = first_palette_with_colors(rest, cs);
        assert(ps.remove(1 + f) =~= seq![ps[0]] + rest.remove(f));
    }
}

/// Under the list invariant, removal yields a well-formed list again: it is
/// either the list itself (no match) or the list with its single matching
/// entry taken out.
pub proof fn lemma_remove_palettes_wf(ps: Seq<PaletteView>, cs: Seq<Seq<char>>)
    requires
        palette_list_wf(ps),
    ensures
        palette_list_wf(remove_palettes_with_colors(ps, cs)),
{
    if has_palette_with_colors(ps, cs) {
        lemma_first_palette_with_colors(ps, cs);
        lemma_remove_palettes_single_match(ps, cs);
        let f = first_palette_with_colors(ps, cs);
        let out = ps.remove(f);
        assert(forall|i: int|
            0 <= i < out.len() ==> out[i] == (if i < f {
                ps[i]
            } else {
                ps[i + 1]
            }));
    } else {
        lemma_remove_palettes_no_match(ps, cs);
    }
}

/// Appending a palette matches afterwards exactly when the list matched
/// before or the new palette matches.
pub proof fn lemma_has_palettes_push(ps: Seq<PaletteView>, x: PaletteView, cs: Seq<Seq<char>>)
    ensures
        has_palette_with_colors(ps.push(x), cs) == (has_palette_with_colors(ps, cs) || x.colors
            == cs),
{
    if has_palette_with_colors(ps, cs) {
        let w = choose|i: int| 0 <= i < ps.len() && ps[i].colors == cs;
        assert(ps.push(x)[w].colors == cs);
    }
    if x.colors == cs {
        assert(ps.push(x)[ps.len() as int].colors == cs);
    }
    if has_palette_with_colors(ps.push(x), cs) && x.colors != cs {
        let w = choose|i: int| 0 <= i < ps.push(x).len() && ps.push(x)[i].colors == cs;
        if w < ps.len() {
            assert(ps[w].colors == cs);
        }
    }
}

/// Finds the first palette in the list whose colors equal `cs`, if any;
/// reports that nothing earlier (or nothing at all) matches.
pub fn palette_list_find(list: &Vec<Palette>, cs: &Vec<String>) -> (r: Option<usize>)
    ensures
        match r {
            Some(j) => {
                &&& (j as int) < list@.len()
                &&& list.deep_view()[j as int].colors == cs.deep_view()
                &&& forall|k: int|
                    0 <= k < (j as int) ==> list.deep_view()[k].colors != cs.deep_view()
            },
            None => forall|k: int|
                0 <= k < list@.len() ==> list.deep_view()[k].colors != cs.deep_view(),
        },
{
    let n = list.len();
    let mut j: usize = 0;
    while j < n
        invariant
            j <= n,
            n == list@.len(),
            forall|k: int| 0 <= k < j ==> list.deep_view()[k].colors != cs.deep_view(),
        decreases n - j,
    {
        if string_vecs_eq(&list[j].colors, cs) {
            return Some(j);
        }
        j += 1;
    }
    None
}

/// A list with no match counts zero; appending a fresh match makes the count
/// exactly one.
pub proof fn lemma_count_palettes_no_match(ps: Seq<PaletteView>, cs: Seq<Seq<char>>)
    requires
        !has_palette_with_colors(ps, cs),
    ensures
        count_palettes_with_colors(ps, cs) == 0,
    decreases ps.len(),
{
    if ps.len() > 0 {
        assert(forall|i: int|
            0 <= i < ps.drop_last().len() ==> ps.drop_last()[i] == ps[i]);
        lemma_count_palettes_no_match(ps.drop_last(), cs);
        assert(ps.last().colors != cs);
    }
}

} // verus!
