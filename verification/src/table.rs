//! A mapping from identities to lists, kept as an association vector whose
//! keys are unique. Looking up an absent identity yields the empty list, so
//! an identity's slot need not exist until its first write.

use vstd::prelude::*;
use crate::identity::Identity;

verus! {

/// No two entries carry the same identity token.
pub open spec fn keys_unique<T>(entries: Seq<(Identity, Vec<T>)>) -> bool {
    forall|i: int, j: int|
        0 <= i < j < entries.len() ==> entries[i].0@ != entries[j].0@
}

/// The list stored for `id`: the list of the first entry keyed by `id`,
/// or the empty list when no entry is.
pub open spec fn lookup<T: DeepView>(entries: Seq<(Identity, Vec<T>)>, id: Seq<u8>) -> Seq<T::V>
    decreases entries.len(),
{
    if entries.len() == 0 {
        Seq::empty()
    } else if entries[0].0@ == id {
        entries[0].1.deep_view()
    } else {
        lookup(entries.drop_first(), id)
    }
}

/// An identity that keys no entry is mapped to the empty list.
pub proof fn lemma_lookup_absent<T: DeepView>(entries: Seq<(Identity, Vec<T>)>, id: Seq<u8>)
    requires
        forall|j: int| 0 <= j < entries.len() ==> entries[j].0@ != id,
    ensures
        lookup(entries, id) == Seq::<T::V>::empty(),
    decreases entries.len(),
{
    if entries.len() > 0 {
        assert(forall|j: int|
            0 <= j < entries.drop_first().len() ==> entries.drop_first()[j].0@ != id);
        lemma_lookup_absent(entries.drop_first(), id);
    }
}

/// With unique keys, an identity that keys entry `i` is mapped to that
/// entry's list.
pub proof fn lemma_lookup_found<T: DeepView>(
    entries: Seq<(Identity, Vec<T>)>,
    id: Seq<u8>,
    i: int,
)
    requires
        keys_unique(entries),
        0 <= i < entries.len(),
        entries[i].0@ == id,
    ensures
        lookup(entries, id) == entries[i].1.deep_view(),
    decreases entries.len(),
{
    if i > 0 {
        assert(entries[0].0@ != id);
        assert(keys_unique(entries.drop_first())) by {
            assert(forall|a: int, b: int|
                0 <= a < b < entries.drop_first().len() ==> entries.drop_first()[a].0@
                    != entries.drop_first()[b].0@);
        }
        lemma_lookup_found(entries.drop_first(), id, i - 1);
    }
}

/// Appending an entry under a fresh identity makes that identity map to the
/// appended list.
pub proof fn lemma_lookup_push_same<T: DeepView>(
    entries: Seq<(Identity, Vec<T>)>,
    e: (Identity, Vec<T>),
)
    requires
        forall|j: int| 0 <= j < entries.len() ==> entries[j].0@ != e.0@,
    ensures
        lookup(entries.push(e), e.0@) == e.1.deep_view(),
    decreases entries.len(),
{
    if entries.len() == 0 {
        assert(entries.push(e)[0] == e);
    } else {
        assert(entries.push(e).drop_first() =~= entries.drop_first().push(e));
        lemma_lookup_push_same(entries.drop_first(), e);
    }
}

/// Appending an entry leaves every other identity's list unchanged.
pub proof fn lemma_lookup_push_other<T: DeepView>(
    entries: Seq<(Identity, Vec<T>)>,
    e: (Identity, Vec<T>),
    id: Seq<u8>,
)
    requires
        id != e.0@,
    ensures
        lookup(entries.push(e), id) == lookup(entries, id),
    decreases entries.len(),
{
    if entries.len() == 0 {
        assert(entries.push(e)[0] == e);
        assert(entries.push(e).drop_first() =~= Seq::<(Identity, Vec<T>)>::empty());
        assert(lookup(entries.push(e), id) == lookup(
            Seq::<(Identity, Vec<T>)>::empty(),
            id,
        ));
        assert(lookup(Seq::<(Identity, Vec<T>)>::empty(), id) == Seq::<T::V>::empty());
        assert(lookup(entries, id) == Seq::<T::V>::empty());
    } else {
        assert(entries.push(e).drop_first() =~= entries.drop_first().push(e));
        lemma_lookup_push_other(entries.drop_first(), e, id);
    }
}

/// Replacing entry `i` by a new list under the same identity remaps exactly
/// that identity and no other.
pub proof fn lemma_lookup_update<T: DeepView>(
    entries: Seq<(Identity, Vec<T>)>,
    i: int,
    e: (Identity, Vec<T>),
    id: Seq<u8>,
)
    requires
        keys_unique(entries),
        0 <= i < entries.len(),
        entries[i].0@ == e.0@,
    ensures
        lookup(entries.update(i, e), id) == if id == e.0@ {
            e.1.deep_view()
        } else {
            lookup(entries, id)
        },
    decreases entries.len(),
{
    let updated = entries.update(i, e);
    if i == 0 {
        assert(updated[0] == e);
        if id != e.0@ {
            assert(updated.drop_first() =~= entries.drop_first());
        }
    } else {
        assert(updated[0] == entries[0]);
        if entries[0].0@ == id {
        } else {
            assert(updated.drop_first() =~= entries.drop_first().update(i - 1, e));
            assert(keys_unique(entries.drop_first())) by {
                assert(forall|a: int, b: int|
                    0 <= a < b < entries.drop_first().len() ==> entries.drop_first()[a].0@
                        != entries.drop_first()[b].0@);
            }
            lemma_lookup_update(entries.drop_first(), i - 1, e, id);
        }
    }
}

/// Every value a lookup can yield is either the empty list or the list of
/// some entry.
pub proof fn lemma_lookup_cases<T: DeepView>(entries: Seq<(Identity, Vec<T>)>, id: Seq<u8>)
    ensures
        lookup(entries, id) == Seq::<T::V>::empty() || exists|i: int|
            0 <= i < entries.len() && lookup(entries, id) == #[trigger] entries[i].1.deep_view(),
    decreases entries.len(),
{
    if entries.len() > 0 {
        if entries[0].0@ == id {
            assert(lookup(entries, id) == entries[0].1.deep_view());
        } else {
            lemma_lookup_cases(entries.drop_first(), id);
            if lookup(entries, id) != Seq::<T::V>::empty() {
                let j = choose|j: int|
                    0 <= j < entries.drop_first().len() && lookup(entries.drop_first(), id)
                        == #[trigger] entries.drop_first()[j].1.deep_view();
                assert(lookup(entries, id) == entries[j + 1].1.deep_view());
            }
        }
    }
}

} // verus!
