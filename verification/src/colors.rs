//! Saved individual colors: the data type, its abstract view, and the facts
//! about lists of colors that the store's contracts are stated over.
//!
//! A color's identity for duplicate checks, deletes and renames is its
//! `hex_code` alone (normalized uppercase); the title is freely mutable.

use vstd::prelude::*;
use crate::ascii::is_upper;

verus! {

/// At most this many individual colors may be saved per identity.
pub const COLOR_QUOTA: usize = 50;

/// The mathematical value of a saved color.
pub ghost struct ColorView {
    pub hex_code: Seq<char>,
    pub title: Seq<char>,
}

/// A saved color: its code string, held uppercase at rest, and a mutable
/// title that starts out as a placeholder.
pub struct Color {
    pub hex_code: String,
    pub title: String,
}

impl DeepView for Color {
    type V = ColorView;

    open spec fn deep_view(&self) -> ColorView {
        ColorView { hex_code: self.hex_code@, title: self.title@ }
    }
}

impl Clone for Color {
    fn clone(&self) -> (r: Self)
        ensures
            r.deep_view() == self.deep_view(),
    {
        Color { hex_code: self.hex_code.clone(), title: self.title.clone() }
    }
}

/// Some color in the list has exactly this code.
pub open spec fn has_color_with_code(cl: Seq<ColorView>, h: Seq<char>) -> bool {
    exists|i: int| 0 <= i < cl.len() && cl[i].hex_code == h
}

/// How many colors in the list have exactly this code.
pub open spec fn count_colors_with_code(cl: Seq<ColorView>, h: Seq<char>) -> nat
    decreases cl.len(),
{
    if cl.len() == 0 {
        0
    } else {
        count_colors_with_code(cl.drop_last(), h) + if cl.last().hex_code == h {
            1nat
        } else {
            0nat
        }
    }
}

/// The position of the first color with this code (meaningful only when one
/// exists).
pub open spec fn first_color_with_code(cl: Seq<ColorView>, h: Seq<char>) -> int
    decreases cl.len(),
{
    if cl.len() == 0 {
        0
    } else if cl[0].hex_code == h {
        0
    } else {
        1 + first_color_with_code(cl.drop_first(), h)
    }
}

/// The list with every color of this code removed, order of the rest
/// preserved.
pub open spec fn remove_colors_with_code(cl: Seq<ColorView>, h: Seq<char>) -> Seq<ColorView>
    decreases cl.len(),
{
    if cl.len() == 0 {
        cl
    } else if cl[0].hex_code == h {
        remove_colors_with_code(cl.drop_first(), h)
    } else {
        seq![cl[0]] + remove_colors_with_code(cl.drop_first(), h)
    }
}

/// The list with the first color of this code retitled, and nothing else
/// changed; the list itself when no color matches.
pub open spec fn retitle_colors(cl: Seq<ColorView>, h: Seq<char>, t: Seq<char>) -> Seq<ColorView> {
    if has_color_with_code(cl, h) {
        let i = first_color_with_code(cl, h);
        cl.update(i, ColorView { hex_code: cl[i].hex_code, title: t })
    } else {
        cl
    }
}

/// No two colors in the list share a code.
pub open spec fn color_codes_distinct(cl: Seq<ColorView>) -> bool {
    forall|i: int, j: int| 0 <= i < j < cl.len() ==> cl[i].hex_code != cl[j].hex_code
}

/// The invariant of one identity's color list: within quota, duplicate-free
/// by code, and canonical at rest.
pub open spec fn color_list_wf(cl: Seq<ColorView>) -> bool {
    &&& cl.len() <= COLOR_QUOTA
    &&& color_codes_distinct(cl)
    &&& forall|i: int| 0 <= i < cl.len() ==> is_upper(#[trigger] cl[i].hex_code)
}

/// Where a match exists, the first match is a real position, matches, and
/// nothing before it does.
pub proof fn lemma_first_color_with_code(cl: Seq<ColorView>, h: Seq<char>)
    requires
        has_color_with_code(cl, h),
    ensures
        0 <= first_color_with_code(cl, h) < cl.len(),
        cl[first_color_with_code(cl, h)].hex_code == h,
        forall|j: int| 0 <= j < first_color_with_code(cl, h) ==> cl[j].hex_code != h,
    decreases cl.len(),
{
    if cl[0].hex_code == h {
    } else {
        let rest = cl.drop_first();
        assert(forall|i: int| 0 <= i < rest.len() ==> rest[i] == cl[i + 1]);
        let w = choose|i: int| 0 <= i < cl.len() && cl[i].hex_code == h;
        assert(rest[w - 1].hex_code == h);
        lemma_first_color_with_code(rest, h);
        let f = first_color_with_code(rest, h);
        assert(first_color_with_code(cl, h) == 1 + f);
        assert(forall|j: int| 0 <= j < 1 + f ==> cl[j].hex_code != h) by {
            assert(forall|j: int| 1 <= j < 1 + f ==> cl[j] == rest[j - 1]);
        }
    }
}

/// A position that matches with no earlier match is the first match.
pub proof fn lemma_first_color_match_at(cl: Seq<ColorView>, h: Seq<char>, i: int)
    requires
        0 <= i < cl.len(),
        cl[i].hex_code == h,
        forall|j: int| 0 <= j < i ==> cl[j].hex_code != h,
    ensures
        first_color_with_code(cl, h) == i,
    decreases cl.len(),
{
    if i > 0 {
        assert(forall|j: int| 0 <= j < i - 1 ==> cl.drop_first()[j].hex_code != h);
        lemma_first_color_match_at(cl.drop_first(), h, i - 1);
    }
}

/// Removing matches commutes with appending one color at the end.
pub proof fn lemma_remove_colors_push(cl: Seq<ColorView>, x: ColorView, h: Seq<char>)
    ensures
        remove_colors_with_code(cl.push(x), h) == if x.hex_code == h {
            remove_colors_with_code(cl, h)
        } else {
            remove_colors_with_code(cl, h).push(x)
        },
    decreases cl.len(),
{
    if cl.len() == 0 {
        assert(cl.push(x)[0] == x);
        assert(cl =~= Seq::<ColorView>::empty());
        assert(cl.push(x).drop_first() =~= cl);
        assert(remove_colors_with_code(cl, h) == cl);
        if x.hex_code == h {
            assert(remove_colors_with_code(cl.push(x), h) == remove_colors_with_code(cl, h));
        } else {
            assert(remove_colors_with_code(cl.push(x), h) == seq![x] + remove_colors_with_code(
                cl,
                h,
            ));
            assert(seq![x] + cl =~= remove_colors_with_code(cl, h).push(x));
        }
    } else {
        assert(cl.push(x)[0] == cl[0]);
        assert(cl.push(x).drop_first() =~= cl.drop_first().push(x));
        lemma_remove_colors_push(cl.drop_first(), x, h);
        if cl[0].hex_code != h && x.hex_code != h {
            assert(seq![cl[0]] + remove_colors_with_code(cl.drop_first(), h).push(x) =~= (
            seq![cl[0]] + remove_colors_with_code(cl.drop_first(), h)).push(x));
        }
    }
}

/// When nothing matches, removal changes nothing.
pub proof fn lemma_remove_colors_no_match(cl: Seq<ColorView>, h: Seq<char>)
    requires
        !has_color_with_code(cl, h),
    ensures
        remove_colors_with_code(cl, h) == cl,
    decreases cl.len(),
{
    if cl.len() > 0 {
        assert(cl[0].hex_code != h);
        assert(forall|i: int|
            0 <= i < cl.drop_first().len() ==> cl.drop_first()[i] == cl[i + 1]);
        lemma_remove_colors_no_match(cl.drop_first(), h);
        assert(seq![cl[0]] + cl.drop_first() =~= cl);
    }
}

/// With duplicate-free codes, removal takes out exactly the first (and only)
/// matching entry.
pub proof fn lemma_remove_colors_single_match(cl: Seq<ColorView>, h: Seq<char>)
    requires
        color_codes_distinct(cl),
        has_color_with_code(cl, h),
    ensures
        remove_colors_with_code(cl, h) == cl.remove(first_color_with_code(cl, h)),
    decreases cl.len(),
{
    lemma_first_color_with_code(cl, h);
    let rest = cl.drop_first();
    assert(forall|i: int| 0 <= i < rest.len() ==> rest[i] == cl[i + 1]);
    if cl[0].hex_code == h {
        assert(!has_color_with_code(rest, h));
        lemma_remove_colors_no_match(rest, h);
        assert(cl.remove(0) =~= rest);
    } else {
        assert(color_codes_distinct(rest));
        let w = choose|i: int| 0 <= i < cl.len() && cl[i].hex_code == h;
        assert(rest[w - 1].hex_code == h);
        lemma_remove_colors_single_match(rest, h);
        lemma_first_color_with_code(rest, h);
        let f = first_color_with_code(rest, h);
        assert(cl.remove(1 + f) =~= seq![cl[0]] + rest.remove(f));
    }
}

/// Under the list invariant, removal yields a well-formed list again: it is
/// either the list itself (no match) or the list with its single matching
/// entry taken out.
pub proof fn lemma_remove_colors_wf(cl: Seq<ColorView>, h: Seq<char>)
    requires
        color_list_wf(cl),
    ensures
        color_list_wf(remove_colors_with_code(cl, h)),
{
    if has_color_with_code(cl, h) {
        lemma_first_color_with_code(cl, h);
        lemma_remove_colors_single_match(cl, h);
        let f = first_color_with_code(cl, h);
        let out = cl.remove(f);
        assert(forall|i: int|
            0 <= i < out.len() ==> out[i] == (if i < f {
                cl[i]
            } else {
                cl[i + 1]
            }));
    } else {
        lemma_remove_colors_no_match(cl, h);
    }
}

/// Appending a color matches afterwards exactly when the list matched before
/// or the new color matches.
pub proof fn lemma_has_colors_push(cl: Seq<ColorView>, x: ColorView, h: Seq<char>)
    ensures
        has_color_with_code(cl.push(x), h) == (has_color_with_code(cl, h) || x.hex_code == h),
{
    if has_color_with_code(cl, h) {
        let w = choose|i: int| 0 <= i < cl.len() && cl[i].hex_code == h;
        assert(cl.push(x)[w].hex_code == h);
    }
    if x.hex_code == h {
        assert(cl.push(x)[cl.len() as int].hex_code == h);
    }
    if has_color_with_code(cl.push(x), h) && x.hex_code != h {
        let w = choose|i: int| 0 <= i < cl.push(x).len() && cl.push(x)[i].hex_code == h;
        if w < cl.len() {
            assert(cl[w].hex_code == h);
        }
    }
}

/// Finds the first color in the list whose code equals `h`, if any; reports
/// that nothing earlier (or nothing at all) matches.
pub fn color_list_find(list: &Vec<Color>, h: &String) -> (r: Option<usize>)
    ensures
        match r {
            Some(j) => {
                &&& (j as int) < list@.len()
                &&& list.deep_view()[j as int].hex_code == h@
                &&& forall|k: int| 0 <= k < (j as int) ==> list.deep_view()[k].hex_code != h@
            },
            None => forall|k: int| 0 <= k < list@.len() ==> list.deep_view()[k].hex_code != h@,
        },
{
    let n = list.len();
    let mut j: usize = 0;
    while j < n
        invariant
            j <= n,
            n == list@.len(),
            forall|k: int| 0 <= k < j ==> list.deep_view()[k].hex_code != h@,
        decreases n - j,
    {
        if list[j].hex_code == *h {
            return Some(j);
        }
        j += 1;
    }
    None
}

/// A list with no match counts zero.
pub proof fn lemma_count_colors_no_match(cl: Seq<ColorView>, h: Seq<char>)
    requires
        !has_color_with_code(cl, h),
    ensures
        count_colors_with_code(cl, h) == 0,
    decreases cl.len(),
{
    if cl.len() > 0 {
        assert(forall|i: int|
            0 <= i < cl.drop_last().len() ==> cl.drop_last()[i] == cl[i]);
        lemma_count_colors_no_match(cl.drop_last(), h);
        assert(cl.last().hex_code != h);
    }
}

} // verus!
