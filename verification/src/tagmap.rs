//! Insertion-ordered maps from a handler tag to a slot number.
//!
//! The maps themselves are `indexmap::IndexMap` values. Verus cannot look
//! inside them, so this module names what a map holds (`tag_entries`) and
//! gives each operation the rest of the crate uses a contract phrased over
//! that name. Those contracts are believed, not proved.

use indexmap::IndexMap;
use vstd::prelude::*;

verus! {

/// `indexmap::IndexMap`, an insertion-ordered hash map, as a type whose
/// values are carried around without being looked into.
#[verifier::external_type_specification]
#[verifier::external_body]
#[verifier::reject_recursive_types(K)]
#[verifier::reject_recursive_types(V)]
#[verifier::reject_recursive_types(S)]
pub struct ExIndexMap<K, V, S>(IndexMap<K, V, S>);

/// One entry of a tag map: the tag's characters and the slot it maps to.
pub type TagEntry = (Seq<char>, usize);

/// The entries of a tag map, oldest insertion first.
pub uninterp spec fn tag_entries(m: IndexMap<String, usize>) -> Seq<TagEntry>;

/// Some entry of `entries` carries `tag`.
pub open spec fn has_tag(entries: Seq<TagEntry>, tag: Seq<char>) -> bool {
    exists|i: int| 0 <= i < entries.len() && (#[trigger] entries[i]).0 == tag
}

/// No two entries of `entries` carry the same tag.
pub open spec fn distinct_tags(entries: Seq<TagEntry>) -> bool {
    forall|i: int, j: int|
        0 <= i < j < entries.len() ==> (#[trigger] entries[i]).0 != (#[trigger] entries[j]).0
}

/// The slot of the first entry that carries `tag`, if there is one.
pub open spec fn slot_of(entries: Seq<TagEntry>, tag: Seq<char>) -> Option<usize>
    decreases entries.len(),
{
    if entries.len() == 0 {
        None
    } else if entries[0].0 == tag {
        Some(entries[0].1)
    } else {
        slot_of(entries.drop_first(), tag)
    }
}

/// `slot_of` finds a tag exactly when some entry carries it, and what it
/// finds is the slot of an entry with that tag.
pub proof fn lemma_slot_of(entries: Seq<TagEntry>, tag: Seq<char>)
    ensures
        slot_of(entries, tag) is Some <==> has_tag(entries, tag),
        slot_of(entries, tag) matches Some(s) ==> entries.contains((tag, s)),
    decreases entries.len(),
{
    if entries.len() == 0 {
    } else if entries[0].0 == tag {
        assert(entries[0] == (tag, entries[0].1));
    } else {
        let rest = entries.drop_first();
        lemma_slot_of(rest, tag);
        if has_tag(entries, tag) {
            let i = choose|i: int| 0 <= i < entries.len() && (#[trigger] entries[i]).0 == tag;
            assert(rest[i - 1] == entries[i]);
        }
        if has_tag(rest, tag) {
            let i = choose|i: int| 0 <= i < rest.len() && (#[trigger] rest[i]).0 == tag;
            assert(entries[i + 1] == rest[i]);
        }
        if let Some(s) = slot_of(rest, tag) {
            let i = choose|i: int| 0 <= i < rest.len() && rest[i] == (tag, s);
            assert(entries[i + 1] == (tag, s));
        }
    }
}

/// Where tags are distinct, an entry's slot is what `slot_of` finds for its tag.
pub proof fn lemma_slot_of_entry(entries: Seq<TagEntry>, i: int)
    requires
        distinct_tags(entries),
        0 <= i < entries.len(),
    ensures
        slot_of(entries, entries[i].0) == Some(entries[i].1),
    decreases entries.len(),
{
    if i == 0 {
    } else {
        let rest = entries.drop_first();
        assert forall|a: int, b: int| 0 <= a < b < rest.len() implies (#[trigger] rest[a]).0 != (
        #[trigger] rest[b]).0 by {
            assert(rest[a] == entries[a + 1]);
            assert(rest[b] == entries[b + 1]);
        }
        assert(rest[i - 1] == entries[i]);
        lemma_slot_of_entry(rest, i - 1);
    }
}

/// Calls `IndexMap::new`: the new map has no entries.
#[verifier::external_body]
pub(crate) fn tag_map_new() -> (m: IndexMap<String, usize>)
    ensures
        tag_entries(m) == Seq::<TagEntry>::empty(),
{
    IndexMap::new()
}

/// Calls `IndexMap::len`: the number of entries.
#[verifier::external_body]
pub(crate) fn tag_map_len(m: &IndexMap<String, usize>) -> (n: usize)
    ensures
        n == tag_entries(*m).len(),
{
    m.len()
}

/// Calls `IndexMap::get` with a `str` key: the value stored under an equal
/// key, `None` where no entry has an equal key.
#[verifier::external_body]
pub(crate) fn tag_map_get(m: &IndexMap<String, usize>, tag: &str) -> (r: Option<usize>)
    ensures
        match r {
            Some(slot) => tag_entries(*m).contains((tag@, slot)),
            None => !has_tag(tag_entries(*m), tag@),
        },
{
    m.get(tag).copied()
}

/// Calls `IndexMap::get_index`: the value of the entry at position `i` in
/// insertion order, `None` past the end.
#[verifier::external_body]
pub(crate) fn tag_map_slot_at(m: &IndexMap<String, usize>, i: usize) -> (r: Option<usize>)
    ensures
        r == if i < tag_entries(*m).len() {
            Some(tag_entries(*m)[i as int].1)
        } else {
            None
        },
{
    m.get_index(i).map(|kv| *kv.1)
}

/// Calls `IndexMap::insert`. Where an equal key is present its entry keeps
/// its place, takes the new value and the old value is returned; otherwise
/// the pair is appended after all others and `None` is returned.
#[verifier::external_body]
pub(crate) fn tag_map_insert(m: &mut IndexMap<String, usize>, tag: String, slot: usize) -> (r:
    Option<usize>)
    ensures
        match r {
            Some(prev) => exists|i: int|
                0 <= i < tag_entries(*old(m)).len() && tag_entries(*old(m))[i] == (tag@, prev)
                    && tag_entries(*final(m)) == tag_entries(*old(m)).update(i, (tag@, slot)),
            None => !has_tag(tag_entries(*old(m)), tag@) && tag_entries(*final(m)) == tag_entries(
                *old(m),
            ).push((tag@, slot)),
        },
{
    m.insert(tag, slot)
}

/// The position of the entry of `entries` that carries `tag`.
pub open spec fn position_of(entries: Seq<TagEntry>, tag: Seq<char>) -> int {
    choose|i: int| 0 <= i < entries.len() && (#[trigger] entries[i]).0 == tag
}

/// The entries of a tag map after `tag` has been inserted for `slot`: the
/// tag's entry takes the new slot where it was present, and is appended
/// where it was not.
pub open spec fn put(entries: Seq<TagEntry>, tag: Seq<char>, slot: usize) -> Seq<TagEntry> {
    if has_tag(entries, tag) {
        entries.update(position_of(entries, tag), (tag, slot))
    } else {
        entries.push((tag, slot))
    }
}

/// Every slot of `entries` is below `bound`.
pub open spec fn slots_below(entries: Seq<TagEntry>, bound: nat) -> bool {
    forall|i: int| 0 <= i < entries.len() ==> (#[trigger] entries[i]).1 < bound
}

/// `put` keeps tags distinct, keeps the first tag where there was one, and
/// keeps slots below a bound that the new slot is below.
pub proof fn lemma_put(entries: Seq<TagEntry>, tag: Seq<char>, slot: usize, bound: nat)
    requires
        distinct_tags(entries),
    ensures
        distinct_tags(put(entries, tag, slot)),
        put(entries, tag, slot).len() > 0,
        put(entries, tag, slot)[0].0 == if entries.len() > 0 {
            entries[0].0
        } else {
            tag
        },
        slot_of(put(entries, tag, slot), tag) == Some(slot),
        forall|other: Seq<char>|
            other != tag ==> slot_of(put(entries, tag, slot), other) == slot_of(entries, other),
        slots_below(entries, bound) && slot < bound ==> slots_below(put(entries, tag, slot), bound),
{
    let next = put(entries, tag, slot);
    if has_tag(entries, tag) {
        let w = position_of(entries, tag);
        assert forall|i: int, j: int| 0 <= i < j < next.len() implies (#[trigger] next[i]).0 != (
        #[trigger] next[j]).0 by {
            assert(next[i].0 == entries[i].0);
            assert(next[j].0 == entries[j].0);
        }
        if slots_below(entries, bound) && slot < bound {
            assert forall|i: int| 0 <= i < next.len() implies (#[trigger] next[i]).1 < bound by {
                if i != w {
                    assert(next[i] == entries[i]);
                }
            }
        }
        lemma_slot_of_entry(next, w);
        assert forall|other: Seq<char>| other != tag implies slot_of(next, other) == slot_of(
            entries,
            other,
        ) by {
            lemma_slot_of_update(entries, w, slot, other);
        }
    } else {
        assert forall|i: int, j: int| 0 <= i < j < next.len() implies (#[trigger] next[i]).0 != (
        #[trigger] next[j]).0 by {
            assert(next[i] == entries[i]);
            if j < entries.len() {
                assert(next[j] == entries[j]);
            }
        }
        if slots_below(entries, bound) && slot < bound {
            assert forall|i: int| 0 <= i < next.len() implies (#[trigger] next[i]).1 < bound by {
                if i < entries.len() {
                    assert(next[i] == entries[i]);
                }
            }
        }
        lemma_slot_of(entries, tag);
        lemma_slot_of_entry(next, entries.len() as int);
        assert forall|other: Seq<char>| other != tag implies slot_of(next, other) == slot_of(
            entries,
            other,
        ) by {
            lemma_slot_of_append(entries, (tag, slot), other);
        }
    }
}

/// Giving the entry at `w` another slot changes nothing for other tags.
proof fn lemma_slot_of_update(entries: Seq<TagEntry>, w: int, slot: usize, other: Seq<char>)
    requires
        0 <= w < entries.len(),
        entries[w].0 != other,
    ensures
        slot_of(entries.update(w, (entries[w].0, slot)), other) == slot_of(entries, other),
    decreases entries.len(),
{
    let next = entries.update(w, (entries[w].0, slot));
    if w == 0 {
        assert(next.drop_first() =~= entries.drop_first());
    } else {
        assert(next[0] == entries[0]);
        assert(next.drop_first() =~= entries.drop_first().update(w - 1, (entries[w].0, slot)));
        if entries[0].0 != other {
            lemma_slot_of_update(entries.drop_first(), w - 1, slot, other);
        }
    }
}

/// Appending an entry changes nothing for other tags.
proof fn lemma_slot_of_append(entries: Seq<TagEntry>, e: TagEntry, other: Seq<char>)
    requires
        e.0 != other,
    ensures
        slot_of(entries.push(e), other) == slot_of(entries, other),
    decreases entries.len(),
{
    let next = entries.push(e);
    if entries.len() == 0 {
        assert(next.drop_first() =~= entries);
    } else {
        assert(next[0] == entries[0]);
        assert(next.drop_first() =~= entries.drop_first().push(e));
        if entries[0].0 != other {
            lemma_slot_of_append(entries.drop_first(), e, other);
        }
    }
}

/// Inserts `tag` for `slot` into a map whose tags are distinct.
pub(crate) fn tag_map_put(
    m: &mut IndexMap<String, usize>,
    tag: String,
    slot: usize,
    Ghost(bound): Ghost<nat>,
)
    requires
        distinct_tags(tag_entries(*old(m))),
    ensures
        tag_entries(*final(m)) == put(tag_entries(*old(m)), tag@, slot),
        distinct_tags(tag_entries(*final(m))),
        tag_entries(*final(m)).len() > 0,
        tag_entries(*final(m))[0].0 == if tag_entries(*old(m)).len() > 0 {
            tag_entries(*old(m))[0].0
        } else {
            tag@
        },
        slots_below(tag_entries(*old(m)), bound) && slot < bound ==> slots_below(
            tag_entries(*final(m)),
            bound,
        ),
{
    let ghost entries = tag_entries(*m);
    let ghost key = tag@;
    let prev = tag_map_insert(m, tag, slot);
    proof {
        lemma_put(entries, key, slot, bound);
        if let Some(p) = prev {
            let i = choose|i: int|
                0 <= i < entries.len() && entries[i] == (key, p) && tag_entries(*m)
                    == entries.update(i, (key, slot));
            assert(entries[i].0 == key);
            assert(position_of(entries, key) == i);
        }
    }
}

} // verus!
