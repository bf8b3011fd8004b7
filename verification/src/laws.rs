//! The store's governing laws, stated and proved once and for all inputs:
//! what a successful add leaves behind, what a delete removes, and how a
//! rename behaves under repetition.

use vstd::prelude::*;
use crate::ascii::upper_all;
use crate::colors::ColorView;
use crate::colors::color_list_wf;
use crate::colors::count_colors_with_code;
use crate::colors::first_color_with_code;
use crate::colors::has_color_with_code;
use crate::colors::lemma_count_colors_no_match;
use crate::colors::lemma_first_color_match_at;
use crate::colors::lemma_first_color_with_code;
use crate::colors::lemma_remove_colors_no_match;
use crate::colors::lemma_remove_colors_single_match;
use crate::colors::remove_colors_with_code;
use crate::colors::retitle_colors;
use crate::palettes::PaletteView;
use crate::palettes::count_palettes_with_colors;
use crate::palettes::first_palette_with_colors;
use crate::palettes::has_palette_with_colors;
use crate::palettes::lemma_count_palettes_no_match;
use crate::palettes::lemma_first_palette_match_at;
use crate::palettes::lemma_first_palette_with_colors;
use crate::palettes::lemma_remove_palettes_no_match;
use crate::palettes::lemma_remove_palettes_single_match;
use crate::palettes::palette_list_wf;
use crate::palettes::remove_palettes_with_colors;
use crate::palettes::retitle_palettes;
use crate::store::FavoritesStore;

verus! {

/// After a successful `add_palette`, the identity's list holds exactly one
/// palette whose colors equal the uppercased input — for every identity,
/// prior list, title and colors.
pub proof fn lemma_add_palette_exactly_one(
    pre: FavoritesStore,
    post: FavoritesStore,
    id: Seq<u8>,
    title: Seq<char>,
    colors: Seq<Seq<char>>,
)
    requires
        !has_palette_with_colors(pre.spec_palettes(id), upper_all(colors)),
        post.spec_palettes(id) == pre.spec_palettes(id).push(
            PaletteView { title, colors: upper_all(colors) },
        ),
    ensures
        count_palettes_with_colors(post.spec_palettes(id), upper_all(colors)) == 1,
{
    let ps = pre.spec_palettes(id);
    let ups = upper_all(colors);
    let pv = PaletteView { title, colors: ups };
    lemma_count_palettes_no_match(ps, ups);
    assert(ps.push(pv).drop_last() =~= ps);
    assert(ps.push(pv).last() == pv);
}

/// `delete_palette` changes nothing when no palette matches, and otherwise
/// removes exactly the (single) matching entry, leaving all others in place.
pub proof fn lemma_delete_palette_exact(
    pre: FavoritesStore,
    post: FavoritesStore,
    id: Seq<u8>,
    colors: Seq<Seq<char>>,
)
    requires
        pre.wf(),
        post.spec_palettes(id) == remove_palettes_with_colors(
            pre.spec_palettes(id),
            upper_all(colors),
        ),
    ensures
        !has_palette_with_colors(pre.spec_palettes(id), upper_all(colors)) ==> post.spec_palettes(
            id,
        ) == pre.spec_palettes(id),
        has_palette_with_colors(pre.spec_palettes(id), upper_all(colors)) ==> post.spec_palettes(
            id,
        ) == pre.spec_palettes(id).remove(
            first_palette_with_colors(pre.spec_palettes(id), upper_all(colors)),
        ),
{
    let ps = pre.spec_palettes(id);
    let ups = upper_all(colors);
    pre.lemma_wf_lists(id);
    if has_palette_with_colors(ps, ups) {
        lemma_remove_palettes_single_match(ps, ups);
    } else {
        lemma_remove_palettes_no_match(ps, ups);
    }
}

/// Retitling is idempotent: repeating the identical rename leaves the list
/// exactly as after the first rename.
pub proof fn lemma_retitle_palettes_idempotent(
    ps: Seq<PaletteView>,
    cs: Seq<Seq<char>>,
    t: Seq<char>,
)
    ensures
        retitle_palettes(retitle_palettes(ps, cs, t), cs, t) == retitle_palettes(ps, cs, t),
{
    if has_palette_with_colors(ps, cs) {
        lemma_first_palette_with_colors(ps, cs);
        let f = first_palette_with_colors(ps, cs);
        let ps1 = ps.update(f, PaletteView { title: t, colors: ps[f].colors });
        assert(ps1[f].colors == cs);
        assert(has_palette_with_colors(ps1, cs));
        assert(forall|j: int| 0 <= j < f ==> ps1[j].colors != cs);
        lemma_first_palette_match_at(ps1, cs, f);
        assert(ps1.update(f, PaletteView { title: t, colors: ps1[f].colors }) =~= ps1);
    }
}

/// Retitling touches only the first matching palette, and only its title:
/// its colors and every other palette are exactly as before.
pub proof fn lemma_retitle_palettes_targets(ps: Seq<PaletteView>, cs: Seq<Seq<char>>, t: Seq<char>)
    requires
        has_palette_with_colors(ps, cs),
    ensures
        retitle_palettes(ps, cs, t).len() == ps.len(),
        0 <= first_palette_with_colors(ps, cs) < ps.len(),
        ps[first_palette_with_colors(ps, cs)].colors == cs,
        retitle_palettes(ps, cs, t)[first_palette_with_colors(ps, cs)].title == t,
        forall|j: int|
            0 <= j < ps.len() ==> #[trigger] retitle_palettes(ps, cs, t)[j].colors
                == ps[j].colors,
        forall|j: int|
            0 <= j < ps.len() && j != first_palette_with_colors(ps, cs)
                ==> #[trigger] retitle_palettes(ps, cs, t)[j] == ps[j],
{
    lemma_first_palette_with_colors(ps, cs);
}

/// After a successful `add_color`, the identity's list holds exactly one
/// color whose code equals the uppercased input.
pub proof fn lemma_add_color_exactly_one(
    pre: FavoritesStore,
    post: FavoritesStore,
    id: Seq<u8>,
    code: Seq<char>,
    title: Seq<char>,
)
    requires
        !has_color_with_code(pre.spec_colors(id), code),
        post.spec_colors(id) == pre.spec_colors(id).push(ColorView { hex_code: code, title }),
    ensures
        count_colors_with_code(post.spec_colors(id), code) == 1,
{
    let cl = pre.spec_colors(id);
    let cv = ColorView { hex_code: code, title };
    lemma_count_colors_no_match(cl, code);
    assert(cl.push(cv).drop_last() =~= cl);
    assert(cl.push(cv).last() == cv);
}

/// `delete_color` changes nothing when no color matches, and otherwise
/// removes exactly the (single) matching entry.
pub proof fn lemma_delete_color_exact(
    pre: FavoritesStore,
    post: FavoritesStore,
    id: Seq<u8>,
    h: Seq<char>,
)
    requires
        pre.wf(),
        post.spec_colors(id) == remove_colors_with_code(pre.spec_colors(id), h),
    ensures
        !has_color_with_code(pre.spec_colors(id), h) ==> post.spec_colors(id) == pre.spec_colors(
            id,
        ),
        has_color_with_code(pre.spec_colors(id), h) ==> post.spec_colors(id) == pre.spec_colors(
            id,
        ).remove(first_color_with_code(pre.spec_colors(id), h)),
{
    let cl = pre.spec_colors(id);
    pre.lemma_wf_lists(id);
    if has_color_with_code(cl, h) {
        lemma_remove_colors_single_match(cl, h);
    } else {
        lemma_remove_colors_no_match(cl, h);
    }
}

/// Retitling a color is idempotent.
pub proof fn lemma_retitle_colors_idempotent(cl: Seq<ColorView>, h: Seq<char>, t: Seq<char>)
    ensures
        retitle_colors(retitle_colors(cl, h, t), h, t) == retitle_colors(cl, h, t),
{
    if has_color_with_code(cl, h) {
        lemma_first_color_with_code(cl, h);
        let f = first_color_with_code(cl, h);
        let cl1 = cl.update(f, ColorView { hex_code: cl[f].hex_code, title: t });
        assert(cl1[f].hex_code == h);
        assert(has_color_with_code(cl1, h));
        assert(forall|j: int| 0 <= j < f ==> cl1[j].hex_code != h);
        lemma_first_color_match_at(cl1, h, f);
        assert(cl1.update(f, ColorView { hex_code: cl1[f].hex_code, title: t }) =~= cl1);
    }
}

/// Retitling touches only the first matching color, and only its title.
pub proof fn lemma_retitle_colors_targets(cl: Seq<ColorView>, h: Seq<char>, t: Seq<char>)
    requires
        has_color_with_code(cl, h),
    ensures
        retitle_colors(cl, h, t).len() == cl.len(),
        0 <= first_color_with_code(cl, h) < cl.len(),
        cl[first_color_with_code(cl, h)].hex_code == h,
        retitle_colors(cl, h, t)[first_color_with_code(cl, h)].title == t,
        forall|j: int|
            0 <= j < cl.len() ==> #[trigger] retitle_colors(cl, h, t)[j].hex_code
                == cl[j].hex_code,
        forall|j: int|
            0 <= j < cl.len() && j != first_color_with_code(cl, h) ==> #[trigger] retitle_colors(
                cl,
                h,
                t,
            )[j] == cl[j],
{
    lemma_first_color_with_code(cl, h);
}

/// In a well-formed store, every identity's lists obey the documented
/// invariants: palette lists within the palette quota and duplicate-free by
/// colors, color lists within the color quota and duplicate-free by code.
pub proof fn lemma_store_invariants(s: FavoritesStore, id: Seq<u8>)
    requires
        s.wf(),
    ensures
        palette_list_wf(s.spec_palettes(id)),
        color_list_wf(s.spec_colors(id)),
{
    s.lemma_wf_lists(id);
}

} // verus!
