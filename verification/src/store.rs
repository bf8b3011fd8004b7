//! The favorites store: two independent per-identity mappings, one from
//! identity to its saved palettes and one to its saved colors.
//!
//! Every operation normalizes incoming color codes to uppercase before any
//! comparison or write, checks quota and duplicates before mutating, and so
//! either fully succeeds or leaves the store exactly as it was.

use vstd::prelude::*;
use vstd::string::StringExecFns;
use crate::FavoritesError;
use crate::ascii::is_upper;
use crate::ascii::lemma_upper_str_idempotent;
use crate::ascii::upper_all;
use crate::ascii::upper_str;
use crate::ascii::string_vecs_eq;
use crate::ascii::to_upper;
use crate::ascii::upper_vec;
use crate::colors::COLOR_QUOTA;
use crate::colors::Color;
use crate::colors::ColorView;
use crate::colors::color_list_find;
use crate::colors::color_list_wf;
use crate::colors::has_color_with_code;
use crate::colors::lemma_first_color_match_at;
use crate::colors::lemma_has_colors_push;
use crate::colors::lemma_remove_colors_no_match;
use crate::colors::lemma_remove_colors_push;
use crate::colors::lemma_remove_colors_wf;
use crate::colors::remove_colors_with_code;
use crate::colors::retitle_colors;
use crate::identity::Identity;
use crate::palettes::Palette;
use crate::palettes::PaletteView;
use crate::palettes::PALETTE_QUOTA;
use crate::palettes::colors_canonical;
use crate::palettes::has_palette_with_colors;
use crate::palettes::lemma_first_palette_match_at;
use crate::palettes::lemma_has_palettes_push;
use crate::palettes::lemma_remove_palettes_no_match;
use crate::palettes::lemma_remove_palettes_push;
use crate::palettes::lemma_remove_palettes_wf;
use crate::palettes::palette_list_find;
use crate::palettes::palette_list_wf;
use crate::palettes::remove_palettes_with_colors;
use crate::palettes::retitle_palettes;
use crate::table::keys_unique;
use crate::table::lemma_lookup_absent;
use crate::table::lemma_lookup_cases;
use crate::table::lemma_lookup_found;
use crate::table::lemma_lookup_push_other;
use crate::table::lemma_lookup_push_same;
use crate::table::lemma_lookup_update;
use crate::table::lookup;

verus! {

/// The per-identity favorites store.
pub struct FavoritesStore {
    palettes: Vec<(Identity, Vec<Palette>)>,
    colors: Vec<(Identity, Vec<Color>)>,
}

impl FavoritesStore {
    /// The palette list saved for an identity; the empty list when the
    /// identity never saved one.
    pub closed spec fn spec_palettes(self, id: Seq<u8>) -> Seq<PaletteView> {
        lookup(self.palettes@, id)
    }

    /// The color list saved for an identity; the empty list when the identity
    /// never saved one.
    pub closed spec fn spec_colors(self, id: Seq<u8>) -> Seq<ColorView> {
        lookup(self.colors@, id)
    }

    /// The store's invariant: each mapping keys every identity at most once,
    /// and every saved list is well-formed.
    pub closed spec fn wf(self) -> bool {
        &&& keys_unique(self.palettes@)
        &&& keys_unique(self.colors@)
        &&& forall|i: int|
            0 <= i < self.palettes@.len() ==> palette_list_wf(
                #[trigger] self.palettes@[i].1.deep_view(),
            )
        &&& forall|i: int|
            0 <= i < self.colors@.len() ==> color_list_wf(
                #[trigger] self.colors@[i].1.deep_view(),
            )
    }

    /// In a well-formed store, every identity's lists satisfy the list
    /// invariants: within quota, duplicate-free, canonical at rest.
    pub proof fn lemma_wf_lists(self, id: Seq<u8>)
        requires
            self.wf(),
        ensures
            palette_list_wf(self.spec_palettes(id)),
            color_list_wf(self.spec_colors(id)),
    {
        lemma_lookup_cases::<Palette>(self.palettes@, id);
        lemma_lookup_cases::<Color>(self.colors@, id);
    }

    /// A fresh store: well-formed and empty for every identity.
    pub fn new() -> (r: FavoritesStore)
        ensures
            r.wf(),
            forall|id: Seq<u8>| #[trigger] r.spec_palettes(id) == Seq::<PaletteView>::empty(),
            forall|id: Seq<u8>| #[trigger] r.spec_colors(id) == Seq::<ColorView>::empty(),
    {
        let r = FavoritesStore { palettes: Vec::new(), colors: Vec::new() };
        proof {
            assert forall|id: Seq<u8>| #[trigger] r.spec_palettes(id) == Seq::<
                PaletteView,
            >::empty() by {
                lemma_lookup_absent::<Palette>(r.palettes@, id);
            }
            assert forall|id: Seq<u8>| #[trigger] r.spec_colors(id) == Seq::<
                ColorView,
            >::empty() by {
                lemma_lookup_absent::<Color>(r.colors@, id);
            }
        }
        r
    }

    /// The position of the identity's palette entry, if it has one.
    fn find_palettes_entry(&self, id: &Identity) -> (r: Option<usize>)
        ensures
            match r {
                Some(i) => (i as int) < self.palettes@.len() && self.palettes@[i as int].0@ == id@,
                None => forall|j: int|
                    0 <= j < self.palettes@.len() ==> self.palettes@[j].0@ != id@,
            },
    {
        let n = self.palettes.len();
        let mut i: usize = 0;
        while i < n
            invariant
                i <= n,
                n == self.palettes@.len(),
                forall|j: int| 0 <= j < i ==> self.palettes@[j].0@ != id@,
            decreases n - i,
        {
            if self.palettes[i].0.matches(id) {
                return Some(i);
            }
            i += 1;
        }
        None
    }

    /// A full copy of the calling identity's palette list, empty when none
    /// exists. Never fails and never changes the store.
    pub fn get_palettes(&self, id: &Identity) -> (r: Vec<Palette>)
        requires
            self.wf(),
        ensures
            r.deep_view() == self.spec_palettes(id@),
    {
        match self.find_palettes_entry(id) {
            Some(i) => {
                proof {
                    lemma_lookup_found::<Palette>(self.palettes@, id@, i as int);
                }
                let r = self.palettes[i].1.clone();
                proof {
                    assert(r.deep_view() =~= self.palettes@[i as int].1.deep_view());
                }
                r
            },
            None => {
                proof {
                    lemma_lookup_absent::<Palette>(self.palettes@, id@);
                }
                let r: Vec<Palette> = Vec::new();
                proof {
                    assert(r.deep_view() =~= Seq::<PaletteView>::empty());
                }
                r
            },
        }
    }

    /// Saves a palette for the identity: colors are normalized to uppercase,
    /// the quota is enforced first, then duplicate colors are rejected, and
    /// only then is the palette appended. A failed call changes nothing.
    pub fn add_palette(&mut self, id: &Identity, title: String, colors: Vec<String>) -> (r: Result<
        (),
        FavoritesError,
    >)
        requires
            old(self).wf(),
        ensures
            final(self).wf(),
            ({
                let ups = upper_all(colors.deep_view());
                let oldp = old(self).spec_palettes(id@);
                &&& (r == Ok::<(), FavoritesError>(()) <==> (oldp.len() < PALETTE_QUOTA
                    && !has_palette_with_colors(oldp, ups)))
                &&& (r == Err::<(), FavoritesError>(FavoritesError::QuotaExceeded) <==> oldp.len()
                    >= PALETTE_QUOTA)
                &&& (r == Err::<(), FavoritesError>(FavoritesError::DuplicateEntry) <==> (oldp.len()
                    < PALETTE_QUOTA && has_palette_with_colors(oldp, ups)))
                &&& (r is Ok ==> final(self).spec_palettes(id@) == oldp.push(
                    PaletteView { title: title@, colors: ups },
                ))
                &&& (r is Err ==> final(self).spec_palettes(id@) == oldp)
            }),
            forall|other: Seq<u8>|
                other != id@ ==> #[trigger] final(self).spec_palettes(other) == old(
                    self,
                ).spec_palettes(other),
            forall|other: Seq<u8>| #[trigger]
                final(self).spec_colors(other) == old(self).spec_colors(other),
    {
        let ups = upper_vec(&colors);
        proof {
            lemma_canonical_upper(colors.deep_view());
        }
        match self.find_palettes_entry(id) {
            Some(i) => {
                proof {
                    lemma_lookup_found::<Palette>(self.palettes@, id@, i as int);
                }
                if self.palettes[i].1.len() >= PALETTE_QUOTA {
                    return Err(FavoritesError::QuotaExceeded);
                }
                match palette_list_find(&self.palettes[i].1, &ups) {
                    Some(_) => {
                        return Err(FavoritesError::DuplicateEntry);
                    },
                    None => {},
                }
                let ghost old_entries = self.palettes@;
                let ghost old_list = self.palettes@[i as int].1.deep_view();
                let ghost pv = PaletteView {
                    title: title@,
                    colors: upper_all(colors.deep_view()),
                };
                let (eid, mut list) = self.palettes.remove(i);
                list.push(Palette { title, colors: ups });
                self.palettes.insert(i, (eid, list));
                proof {
                    let e = self.palettes@[i as int];
                    assert(self.palettes@ =~= old_entries.update(i as int, e));
                    assert(e.0@ == id@);
                    assert(e.1.deep_view() =~= old_list.push(pv));
                    assert(keys_unique(self.palettes@));
                    assert(palette_list_wf(e.1.deep_view()));
                    lemma_lookup_update::<Palette>(old_entries, i as int, e, id@);
                    assert forall|other: Seq<u8>| other != id@ implies #[trigger] lookup::<
                        Palette,
                    >(self.palettes@, other) == lookup::<Palette>(old_entries, other) by {
                        lemma_lookup_update::<Palette>(old_entries, i as int, e, other);
                    }
                }
                Ok(())
            },
            None => {
                proof {
                    lemma_lookup_absent::<Palette>(self.palettes@, id@);
                }
                let ghost old_entries = self.palettes@;
                let ghost pv = PaletteView {
                    title: title@,
                    colors: upper_all(colors.deep_view()),
                };
                let mut list: Vec<Palette> = Vec::new();
                list.push(Palette { title, colors: ups });
                let eid = id.clone();
                self.palettes.push((eid, list));
                proof {
                    let e = self.palettes@.last();
                    assert(self.palettes@ =~= old_entries.push(e));
                    assert(e.0@ == id@);
                    assert(e.1.deep_view() =~= Seq::<PaletteView>::empty().push(pv));
                    assert(keys_unique(self.palettes@)) by {
                        assert(forall|j: int|
                            0 <= j < old_entries.len() ==> self.palettes@[j] == old_entries[j]);
                    }
                    assert(palette_list_wf(e.1.deep_view()));
                    lemma_lookup_push_same::<Palette>(old_entries, e);
                    assert forall|other: Seq<u8>| other != id@ implies #[trigger] lookup::<
                        Palette,
                    >(self.palettes@, other) == lookup::<Palette>(old_entries, other) by {
                        lemma_lookup_push_other::<Palette>(old_entries, e, other);
                    }
                }
                Ok(())
            },
        }
    }
    /// Removes every palette of the identity whose (uppercased) colors equal
    /// the given sequence; reports whether anything was removed. A miss is a
    /// no-op, not an error.
    pub fn delete_palette(&mut self, id: &Identity, colors: Vec<String>) -> (r: bool)
        requires
            old(self).wf(),
        ensures
            final(self).wf(),
            ({
                let ups = upper_all(colors.deep_view());
                let oldp = old(self).spec_palettes(id@);
                &&& r == has_palette_with_colors(oldp, ups)
                &&& final(self).spec_palettes(id@) == remove_palettes_with_colors(oldp, ups)
                &&& (!r ==> final(self).spec_palettes(id@) == oldp)
            }),
            forall|other: Seq<u8>|
                other != id@ ==> #[trigger] final(self).spec_palettes(other) == old(
                    self,
                ).spec_palettes(other),
            forall|other: Seq<u8>| #[trigger]
                final(self).spec_colors(other) == old(self).spec_colors(other),
    {
        let ups = upper_vec(&colors);
        let ghost upsv = upper_all(colors.deep_view());
        match self.find_palettes_entry(id) {
            None => {
                proof {
                    lemma_lookup_absent::<Palette>(self.palettes@, id@);
                    assert(!has_palette_with_colors(Seq::<PaletteView>::empty(), upsv));
                }
                false
            },
            Some(i) => {
                proof {
                    lemma_lookup_found::<Palette>(self.palettes@, id@, i as int);
                }
                let ghost old_entries = self.palettes@;
                let (eid, list) = self.palettes.remove(i);
                let ghost lv = list.deep_view();
                let n = list.len();
                let mut kept: Vec<Palette> = Vec::new();
                let mut found = false;
                let mut j: usize = 0;
                while j < n
                    invariant
                        j <= n,
                        n == list@.len(),
                        lv == list.deep_view(),
                        kept.deep_view() == remove_palettes_with_colors(
                            lv.take(j as int),
                            ups.deep_view(),
                        ),
                        found == has_palette_with_colors(lv.take(j as int), ups.deep_view()),
                    decreases n - j,
                {
                    let ghost t0 = lv.take(j as int);
                    let ghost x = lv[j as int];
                    proof {
                        assert(lv.take(j + 1int) =~= t0.push(x));
                        lemma_remove_palettes_push(t0, x, ups.deep_view());
                        lemma_has_palettes_push(t0, x, ups.deep_view());
                    }
                    let p = &list[j];
                    if string_vecs_eq(&p.colors, &ups) {
                        found = true;
                    } else {
                        let ghost kept0 = kept.deep_view();
                        kept.push(p.clone());
                        proof {
                            assert(kept.deep_view() =~= kept0.push(x));
                        }
                    }
                    j += 1;
                }
                proof {
                    assert(lv.take(n as int) =~= lv);
                }
                self.palettes.insert(i, (eid, kept));
                proof {
                    let e = self.palettes@[i as int];
                    assert(self.palettes@ =~= old_entries.update(i as int, e));
                    assert(e.0@ == id@);
                    assert(keys_unique(self.palettes@));
                    lemma_remove_palettes_wf(lv, upsv);
                    if !found {
                        lemma_remove_palettes_no_match(lv, upsv);
                    }
                    lemma_lookup_update::<Palette>(old_entries, i as int, e, id@);
                    assert forall|other: Seq<u8>| other != id@ implies #[trigger] lookup::<
                        Palette,
                    >(self.palettes@, other) == lookup::<Palette>(old_entries, other) by {
                        lemma_lookup_update::<Palette>(old_entries, i as int, e, other);
                    }
                }
                found
            },
        }
    }

    /// Renames the first palette of the identity whose (uppercased) colors
    /// equal the given sequence, leaving its colors and every other palette
    /// untouched; reports whether a palette was renamed.
    pub fn update_palette_title(
        &mut self,
        id: &Identity,
        colors: Vec<String>,
        new_title: String,
    ) -> (r: bool)
        requires
            old(self).wf(),
        ensures
            final(self).wf(),
            ({
                let ups = upper_all(colors.deep_view());
                let oldp = old(self).spec_palettes(id@);
                &&& r == has_palette_with_colors(oldp, ups)
                &&& final(self).spec_palettes(id@) == retitle_palettes(oldp, ups, new_title@)
            }),
            forall|other: Seq<u8>|
                other != id@ ==> #[trigger] final(self).spec_palettes(other) == old(
                    self,
                ).spec_palettes(other),
            forall|other: Seq<u8>| #[trigger]
                final(self).spec_colors(other) == old(self).spec_colors(other),
    {
        let ups = upper_vec(&colors);
        let ghost upsv = upper_all(colors.deep_view());
        match self.find_palettes_entry(id) {
            None => {
                proof {
                    lemma_lookup_absent::<Palette>(self.palettes@, id@);
                    assert(!has_palette_with_colors(Seq::<PaletteView>::empty(), upsv));
                }
                false
            },
            Some(i) => {
                proof {
                    lemma_lookup_found::<Palette>(self.palettes@, id@, i as int);
                }
                match palette_list_find(&self.palettes[i].1, &ups) {
                    None => {
                        proof {
                            assert(!has_palette_with_colors(
                                self.palettes@[i as int].1.deep_view(),
                                upsv,
                            ));
                        }
                        false
                    },
                    Some(j) => {
                        let ghost old_entries = self.palettes@;
                        let ghost old_list = self.palettes@[i as int].1.deep_view();
                        let (eid, mut list) = self.palettes.remove(i);
                        let old_p = list.remove(j);
                        list.insert(j, Palette { title: new_title, colors: old_p.colors });
                        self.palettes.insert(i, (eid, list));
                        proof {
                            let e = self.palettes@[i as int];
                            let nv = PaletteView {
                                title: new_title@,
                                colors: old_list[j as int].colors,
                            };
                            assert(self.palettes@ =~= old_entries.update(i as int, e));
                            assert(e.0@ == id@);
                            assert(keys_unique(self.palettes@));
                            assert(e.1.deep_view() =~= old_list.update(j as int, nv));
                            assert(has_palette_with_colors(old_list, upsv));
                            lemma_first_palette_match_at(old_list, upsv, j as int);
                            assert(e.1.deep_view() == retitle_palettes(old_list, upsv, new_title@));
                            assert(palette_list_wf(e.1.deep_view())) by {
                                assert(forall|k: int|
                                    0 <= k < old_list.len()
                                        ==> #[trigger] e.1.deep_view()[k].colors
                                        == old_list[k].colors);
                            }
                            lemma_lookup_update::<Palette>(old_entries, i as int, e, id@);
                            assert forall|other: Seq<u8>| other != id@ implies #[trigger] lookup::<
                                Palette,
                            >(self.palettes@, other) == lookup::<Palette>(old_entries, other) by {
                                lemma_lookup_update::<Palette>(old_entries, i as int, e, other);
                            }
                        }
                        true
                    },
                }
            },
        }
    }
    /// The position of the identity's color entry, if it has one.
    fn find_colors_entry(&self, id: &Identity) -> (r: Option<usize>)
        ensures
            match r {
                Some(i) => (i as int) < self.colors@.len() && self.colors@[i as int].0@ == id@,
                None => forall|j: int| 0 <= j < self.colors@.len() ==> self.colors@[j].0@ != id@,
            },
    {
        let n = self.colors.len();
        let mut i: usize = 0;
        while i < n
            invariant
                i <= n,
                n == self.colors@.len(),
                forall|j: int| 0 <= j < i ==> self.colors@[j].0@ != id@,
            decreases n - i,
        {
            if self.colors[i].0.matches(id) {
                return Some(i);
            }
            i += 1;
        }
        None
    }

    /// A full copy of the calling identity's color list, empty when none
    /// exists. Never fails and never changes the store.
    pub fn get_colors(&self, id: &Identity) -> (r: Vec<Color>)
        requires
            self.wf(),
        ensures
            r.deep_view() == self.spec_colors(id@),
    {
        match self.find_colors_entry(id) {
            Some(i) => {
                proof {
                    lemma_lookup_found::<Color>(self.colors@, id@, i as int);
                }
                let r = self.colors[i].1.clone();
                proof {
                    assert(r.deep_view() =~= self.colors@[i as int].1.deep_view());
                }
                r
            },
            None => {
                proof {
                    lemma_lookup_absent::<Color>(self.colors@, id@);
                }
                let r: Vec<Color> = Vec::new();
                proof {
                    assert(r.deep_view() =~= Seq::<ColorView>::empty());
                }
                r
            },
        }
    }

    /// Saves a color for the identity: the code is normalized to uppercase,
    /// the quota is enforced first, then a duplicate code is rejected, and
    /// only then is the color appended with the placeholder title. A failed
    /// call changes nothing.
    pub fn add_color(&mut self, id: &Identity, hex_code: String) -> (r: Result<
        (),
        FavoritesError,
    >)
        requires
            old(self).wf(),
        ensures
            final(self).wf(),
            ({
                let h = upper_str(hex_code@);
                let oldc = old(self).spec_colors(id@);
                &&& (r == Ok::<(), FavoritesError>(()) <==> (oldc.len() < COLOR_QUOTA
                    && !has_color_with_code(oldc, h)))
                &&& (r == Err::<(), FavoritesError>(FavoritesError::QuotaExceeded) <==> oldc.len()
                    >= COLOR_QUOTA)
                &&& (r == Err::<(), FavoritesError>(FavoritesError::DuplicateEntry) <==> (oldc.len()
                    < COLOR_QUOTA && has_color_with_code(oldc, h)))
                &&& (r is Ok ==> final(self).spec_colors(id@) == oldc.push(
                    ColorView { hex_code: h, title: "Untitled"@ },
                ))
                &&& (r is Err ==> final(self).spec_colors(id@) == oldc)
            }),
            forall|other: Seq<u8>|
                other != id@ ==> #[trigger] final(self).spec_colors(other) == old(
                    self,
                ).spec_colors(other),
            forall|other: Seq<u8>| #[trigger]
                final(self).spec_palettes(other) == old(self).spec_palettes(other),
    {
        let h = to_upper(hex_code.as_str());
        proof {
            lemma_upper_str_idempotent(hex_code@);
        }
        match self.find_colors_entry(id) {
            Some(i) => {
                proof {
                    lemma_lookup_found::<Color>(self.colors@, id@, i as int);
                }
                if self.colors[i].1.len() >= COLOR_QUOTA {
                    return Err(FavoritesError::QuotaExceeded);
                }
                match color_list_find(&self.colors[i].1, &h) {
                    Some(_) => {
                        return Err(FavoritesError::DuplicateEntry);
                    },
                    None => {},
                }
                let ghost old_entries = self.colors@;
                let ghost old_list = self.colors@[i as int].1.deep_view();
                let ghost cv = ColorView { hex_code: upper_str(hex_code@), title: "Untitled"@ };
                let (eid, mut list) = self.colors.remove(i);
                list.push(Color { hex_code: h, title: String::from_str("Untitled") });
                self.colors.insert(i, (eid, list));
                proof {
                    let e = self.colors@[i as int];
                    assert(self.colors@ =~= old_entries.update(i as int, e));
                    assert(e.0@ == id@);
                    assert(e.1.deep_view() =~= old_list.push(cv));
                    assert(keys_unique(self.colors@));
                    assert(color_list_wf(e.1.deep_view()));
                    lemma_lookup_update::<Color>(old_entries, i as int, e, id@);
                    assert forall|other: Seq<u8>| other != id@ implies #[trigger] lookup::<
                        Color,
                    >(self.colors@, other) == lookup::<Color>(old_entries, other) by {
                        lemma_lookup_update::<Color>(old_entries, i as int, e, other);
                    }
                }
                Ok(())
            },
            None => {
                proof {
                    lemma_lookup_absent::<Color>(self.colors@, id@);
                }
                let ghost old_entries = self.colors@;
                let ghost cv = ColorView { hex_code: upper_str(hex_code@), title: "Untitled"@ };
                let mut list: Vec<Color> = Vec::new();
                list.push(Color { hex_code: h, title: String::from_str("Untitled") });
                let eid = id.clone();
                self.colors.push((eid, list));
                proof {
                    let e = self.colors@.last();
                    assert(self.colors@ =~= old_entries.push(e));
                    assert(e.0@ == id@);
                    assert(e.1.deep_view() =~= Seq::<ColorView>::empty().push(cv));
                    assert(keys_unique(self.colors@)) by {
                        assert(forall|j: int|
                            0 <= j < old_entries.len() ==> self.colors@[j] == old_entries[j]);
                    }
                    assert(color_list_wf(e.1.deep_view()));
                    lemma_lookup_push_same::<Color>(old_entries, e);
                    assert forall|other: Seq<u8>| other != id@ implies #[trigger] lookup::<
                        Color,
                    >(self.colors@, other) == lookup::<Color>(old_entries, other) by {
                        lemma_lookup_push_other::<Color>(old_entries, e, other);
                    }
                }
                Ok(())
            },
        }
    }

    /// Removes every color of the identity whose (uppercased) code equals the
    /// given one; reports whether anything was removed. A miss is a no-op,
    /// not an error.
    pub fn delete_color(&mut self, id: &Identity, hex_code: String) -> (r: bool)
        requires
            old(self).wf(),
        ensures
            final(self).wf(),
            ({
                let h = upper_str(hex_code@);
                let oldc = old(self).spec_colors(id@);
                &&& r == has_color_with_code(oldc, h)
                &&& final(self).spec_colors(id@) == remove_colors_with_code(oldc, h)
                &&& (!r ==> final(self).spec_colors(id@) == oldc)
            }),
            forall|other: Seq<u8>|
                other != id@ ==> #[trigger] final(self).spec_colors(other) == old(
                    self,
                ).spec_colors(other),
            forall|other: Seq<u8>| #[trigger]
                final(self).spec_palettes(other) == old(self).spec_palettes(other),
    {
        let h = to_upper(hex_code.as_str());
        let ghost hv = upper_str(hex_code@);
        match self.find_colors_entry(id) {
            None => {
                proof {
                    lemma_lookup_absent::<Color>(self.colors@, id@);
                    assert(!has_color_with_code(Seq::<ColorView>::empty(), hv));
                }
                false
            },
            Some(i) => {
                proof {
                    lemma_lookup_found::<Color>(self.colors@, id@, i as int);
                }
                let ghost old_entries = self.colors@;
                let (eid, list) = self.colors.remove(i);
                let ghost lv = list.deep_view();
                let n = list.len();
                let mut kept: Vec<Color> = Vec::new();
                let mut found = false;
                let mut j: usize = 0;
                while j < n
                    invariant
                        j <= n,
                        n == list@.len(),
                        lv == list.deep_view(),
                        kept.deep_view() == remove_colors_with_code(lv.take(j as int), h@),
                        found == has_color_with_code(lv.take(j as int), h@),
                    decreases n - j,
                {
                    let ghost t0 = lv.take(j as int);
                    let ghost x = lv[j as int];
                    proof {
                        assert(lv.take(j + 1int) =~= t0.push(x));
                        lemma_remove_colors_push(t0, x, h@);
                        lemma_has_colors_push(t0, x, h@);
                    }
                    let c = &list[j];
                    if c.hex_code == h {
                        found = true;
                    } else {
                        let ghost kept0 = kept.deep_view();
                        kept.push(c.clone());
                        proof {
                            assert(kept.deep_view() =~= kept0.push(x));
                        }
                    }
                    j += 1;
                }
                proof {
                    assert(lv.take(n as int) =~= lv);
                }
                self.colors.insert(i, (eid, kept));
                proof {
                    let e = self.colors@[i as int];
                    assert(self.colors@ =~= old_entries.update(i as int, e));
                    assert(e.0@ == id@);
                    assert(keys_unique(self.colors@));
                    lemma_remove_colors_wf(lv, hv);
                    if !found {
                        lemma_remove_colors_no_match(lv, hv);
                    }
                    lemma_lookup_update::<Color>(old_entries, i as int, e, id@);
                    assert forall|other: Seq<u8>| other != id@ implies #[trigger] lookup::<
                        Color,
                    >(self.colors@, other) == lookup::<Color>(old_entries, other) by {
                        lemma_lookup_update::<Color>(old_entries, i as int, e, other);
                    }
                }
                found
            },
        }
    }

    /// Renames the first color of the identity whose (uppercased) code equals
    /// the given one, leaving its code and every other color untouched;
    /// reports whether a color was renamed.
    pub fn update_color_title(&mut self, id: &Identity, hex_code: String, new_title: String) -> (r:
        bool)
        requires
            old(self).wf(),
        ensures
            final(self).wf(),
            ({
                let h = upper_str(hex_code@);
                let oldc = old(self).spec_colors(id@);
                &&& r == has_color_with_code(oldc, h)
                &&& final(self).spec_colors(id@) == retitle_colors(oldc, h, new_title@)
            }),
            forall|other: Seq<u8>|
                other != id@ ==> #[trigger] final(self).spec_colors(other) == old(
                    self,
                ).spec_colors(other),
            forall|other: Seq<u8>| #[trigger]
                final(self).spec_palettes(other) == old(self).spec_palettes(other),
    {
        let h = to_upper(hex_code.as_str());
        let ghost hv = upper_str(hex_code@);
        match self.find_colors_entry(id) {
            None => {
                proof {
                    lemma_lookup_absent::<Color>(self.colors@, id@);
                    assert(!has_color_with_code(Seq::<ColorView>::empty(), hv));
                }
                false
            },
            Some(i) => {
                proof {
                    lemma_lookup_found::<Color>(self.colors@, id@, i as int);
                }
                match color_list_find(&self.colors[i].1, &h) {
                    None => {
                        proof {
                            assert(!has_color_with_code(self.colors@[i as int].1.deep_view(), hv));
                        }
                        false
                    },
                    Some(j) => {
                        let ghost old_entries = self.colors@;
                        let ghost old_list = self.colors@[i as int].1.deep_view();
                        let (eid, mut list) = self.colors.remove(i);
                        let old_c = list.remove(j);
                        list.insert(j, Color { hex_code: old_c.hex_code, title: new_title });
                        self.colors.insert(i, (eid, list));
                        proof {
                            let e = self.colors@[i as int];
                            let nv = ColorView {
                                hex_code: old_list[j as int].hex_code,
                                title: new_title@,
                            };
                            assert(self.colors@ =~= old_entries.update(i as int, e));
                            assert(e.0@ == id@);
                            assert(keys_unique(self.colors@));
                            assert(e.1.deep_view() =~= old_list.update(j as int, nv));
                            assert(has_color_with_code(old_list, hv));
                            lemma_first_color_match_at(old_list, hv, j as int);
                            assert(e.1.deep_view() == retitle_colors(old_list, hv, new_title@));
                            assert(color_list_wf(e.1.deep_view())) by {
                                assert(forall|k: int|
                                    0 <= k < old_list.len()
                                        ==> #[trigger] e.1.deep_view()[k].hex_code
                                        == old_list[k].hex_code);
                            }
                            lemma_lookup_update::<Color>(old_entries, i as int, e, id@);
                            assert forall|other: Seq<u8>| other != id@ implies #[trigger] lookup::<
                                Color,
                            >(self.colors@, other) == lookup::<Color>(old_entries, other) by {
                                lemma_lookup_update::<Color>(old_entries, i as int, e, other);
                            }
                        }
                        true
                    },
                }
            },
        }
    }
}

/// Uppercased color lists are canonical at rest.
proof fn lemma_canonical_upper(cs: Seq<Seq<char>>)
    ensures
        colors_canonical(upper_all(cs)),
{
    assert forall|k: int| 0 <= k < upper_all(cs).len() implies is_upper(
        #[trigger] upper_all(cs)[k],
    ) by {
        lemma_upper_str_idempotent(cs[k]);
    }
}

} // verus!
