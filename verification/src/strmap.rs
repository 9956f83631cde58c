//! A map from texts to values that is walked in ascending order of its keys.

use vstd::prelude::*;

use crate::text;
use crate::text::{not_after, same_text};

verus! {

/// A map from texts to values, kept in ascending order of the keys.
#[derive(Debug)]
pub struct StrMap<V> {
    entries: Vec<(String, V)>,
}

/// Whether `a` comes before `b`.
pub open spec fn text_lt(a: Seq<char>, b: Seq<char>) -> bool {
    text::text_le(a, b) && a != b
}

/// Whether the keys of `items` ascend, so that none occurs twice.
pub open spec fn ascending<V>(items: Seq<(Seq<char>, V)>) -> bool {
    forall|i: int, j: int|
        0 <= i < j < items.len() ==> text_lt(#[trigger] items[i].0, #[trigger] items[j].0)
}

/// The map that `items` lists.
pub open spec fn map_of<V>(items: Seq<(Seq<char>, V)>) -> Map<Seq<char>, V>
    decreases items.len(),
{
    if items.len() == 0 {
        Map::empty()
    } else {
        map_of(items.skip(1)).insert(items[0].0, items[0].1)
    }
}

/// `items` with `v` under `k`: in the place of what stands there, else in
/// front of the first key that comes after `k`.
pub open spec fn inserted<V>(items: Seq<(Seq<char>, V)>, k: Seq<char>, v: V) -> Seq<(Seq<char>, V)>
    decreases items.len(),
{
    if items.len() == 0 {
        seq![(k, v)]
    } else if items[0].0 == k {
        seq![(k, v)] + items.skip(1)
    } else if text::text_le(k, items[0].0) {
        seq![(k, v)] + items
    } else {
        seq![items[0]] + inserted(items.skip(1), k, v)
    }
}

/// Inserting into the list inserts into the map that it lists.
pub proof fn inserted_lists_map<V>(items: Seq<(Seq<char>, V)>, k: Seq<char>, v: V)
    ensures
        map_of(inserted(items, k, v)) == map_of(items).insert(k, v),
    decreases items.len(),
{
    let out = inserted(items, k, v);
    if items.len() == 0 {
        assert(out.skip(1) =~= items);
    } else if items[0].0 == k {
        assert(out.skip(1) =~= items.skip(1));
    } else if text::text_le(k, items[0].0) {
        assert(out.skip(1) =~= items);
    } else {
        inserted_lists_map(items.skip(1), k, v);
        assert(out.skip(1) =~= inserted(items.skip(1), k, v));
    }
    assert(map_of(out) =~= map_of(items).insert(k, v));
}

/// What `inserted` lists is what stood there and the new key.
proof fn inserted_keys<V>(items: Seq<(Seq<char>, V)>, k: Seq<char>, v: V, i: int)
    requires
        0 <= i < inserted(items, k, v).len(),
    ensures
        inserted(items, k, v)[i].0 == k || exists|j: int|
            0 <= j < items.len() && #[trigger] items[j].0 == inserted(items, k, v)[i].0,
    decreases items.len(),
{
    let out = inserted(items, k, v);
    if items.len() > 0 {
        if items[0].0 == k {
            if i > 0 {
                assert(out[i] == items[i]);
            }
        } else if text::text_le(k, items[0].0) {
            if i > 0 {
                assert(out[i] == items[i - 1]);
            }
        } else if i == 0 {
            assert(out[0] == items[0]);
        } else {
            let tail = items.skip(1);
            assert(out[i] == inserted(tail, k, v)[i - 1]);
            inserted_keys(tail, k, v, i - 1);
            if out[i].0 != k {
                let j = choose|j: int|
                    0 <= j < tail.len() && #[trigger] tail[j].0 == inserted(tail, k, v)[i - 1].0;
                assert(items[j + 1].0 == out[i].0);
            }
        }
    }
}

/// Inserting keeps the keys ascending.
pub proof fn inserted_ascends<V>(items: Seq<(Seq<char>, V)>, k: Seq<char>, v: V)
    requires
        ascending(items),
    ensures
        ascending(inserted(items, k, v)),
    decreases items.len(),
{
    let out = inserted(items, k, v);
    if items.len() > 0 {
        let tail = items.skip(1);
        assert(ascending(tail)) by {
            assert forall|i: int, j: int| 0 <= i < j < tail.len() implies text_lt(
                #[trigger] tail[i].0,
                #[trigger] tail[j].0,
            ) by {
                assert(tail[i] == items[i + 1] && tail[j] == items[j + 1]);
            }
        }
        if items[0].0 == k {
            assert forall|i: int, j: int| 0 <= i < j < out.len() implies text_lt(
                #[trigger] out[i].0,
                #[trigger] out[j].0,
            ) by {
                assert(out[i].0 == items[i].0 && out[j].0 == items[j].0);
            }
        } else if text::text_le(k, items[0].0) {
            assert forall|i: int, j: int| 0 <= i < j < out.len() implies text_lt(
                #[trigger] out[i].0,
                #[trigger] out[j].0,
            ) by {
                assert(out[j] == items[j - 1]);
                if i > 0 {
                    assert(out[i] == items[i - 1]);
                } else if j > 1 {
                    assert(text_lt(items[0].0, items[j - 1].0));
                    text::text_le_is_transitive(k, items[0].0, items[j - 1].0);
                    if k == items[j - 1].0 {
                        text::text_le_is_antisymmetric(k, items[0].0);
                    }
                }
            }
        } else {
            inserted_ascends(tail, k, v);
            text::text_le_is_total(k, items[0].0);
            let rest = inserted(tail, k, v);
            assert forall|i: int, j: int| 0 <= i < j < out.len() implies text_lt(
                #[trigger] out[i].0,
                #[trigger] out[j].0,
            ) by {
                assert(out[j] == rest[j - 1]);
                if i > 0 {
                    assert(out[i] == rest[i - 1]);
                } else {
                    inserted_keys(tail, k, v, j - 1);
                    if out[j].0 != k {
                        let m = choose|m: int|
                            0 <= m < tail.len() && #[trigger] tail[m].0 == rest[j - 1].0;
                        assert(items[m + 1].0 == out[j].0);
                        assert(text_lt(items[0].0, items[m + 1].0));
                    }
                }
            }
        }
    }
}

/// The entry of a listed map is the first one with its key.
proof fn first_entry_counts<V>(items: Seq<(Seq<char>, V)>, k: Seq<char>, i: int)
    requires
        0 <= i < items.len(),
        items[i].0 == k,
        forall|j: int| 0 <= j < i ==> #[trigger] items[j].0 != k,
    ensures
        map_of(items).contains_key(k),
        map_of(items)[k] == items[i].1,
    decreases i,
{
    if i > 0 {
        assert(items[0].0 != k);
        first_entry_counts(items.skip(1), k, i - 1);
    }
}

/// A key that is not listed is not in the map.
proof fn unlisted_key_is_absent<V>(items: Seq<(Seq<char>, V)>, k: Seq<char>)
    requires
        forall|j: int| 0 <= j < items.len() ==> #[trigger] items[j].0 != k,
    ensures
        !map_of(items).contains_key(k),
    decreases items.len(),
{
    if items.len() > 0 {
        assert(items[0].0 != k);
        unlisted_key_is_absent(items.skip(1), k);
    }
}

/// A list that ascends lists its map: each entry is the map's, and each key of
/// the map is listed.
pub proof fn ascending_list_is_its_map<V>(items: Seq<(Seq<char>, V)>)
    requires
        ascending(items),
    ensures
        forall|i: int|
            0 <= i < items.len() ==> map_of(items).contains_key(#[trigger] items[i].0) && map_of(
                items,
            )[items[i].0] == items[i].1,
        forall|k: Seq<char>| #[trigger]
            map_of(items).contains_key(k) ==> exists|i: int|
                0 <= i < items.len() && #[trigger] items[i].0 == k,
{
    assert forall|i: int| 0 <= i < items.len() implies map_of(items).contains_key(
        #[trigger] items[i].0,
    ) && map_of(items)[items[i].0] == items[i].1 by {
        let k = items[i].0;
        assert forall|j: int| 0 <= j < i implies #[trigger] items[j].0 != k by {
            assert(text_lt(items[j].0, items[i].0));
        }
        first_entry_counts(items, k, i);
    }
    assert forall|k: Seq<char>| #[trigger] map_of(items).contains_key(k) implies exists|i: int|
        0 <= i < items.len() && #[trigger] items[i].0 == k by {
        if forall|i: int| 0 <= i < items.len() ==> #[trigger] items[i].0 != k {
            unlisted_key_is_absent(items, k);
        }
    }
}

impl<V> StrMap<V> {
    /// The entries, in the order in which they are walked.
    pub closed spec fn items(&self) -> Seq<(Seq<char>, V)> {
        self.entries@.map_values(|e: (String, V)| (e.0@, e.1))
    }

    /// The keys of every map ascend.
    #[verifier::type_invariant]
    pub open spec fn wf(&self) -> bool {
        ascending(self.items())
    }

    /// An empty map.
    pub fn new() -> (r: Self)
        ensures
            r.items() == Seq::<(Seq<char>, V)>::empty(),
            r@ == Map::<Seq<char>, V>::empty(),
            r.wf(),
    {
        let r = StrMap { entries: Vec::new() };
        assert(r.items() =~= Seq::<(Seq<char>, V)>::empty());
        r
    }

    /// The number of entries.
    pub fn len(&self) -> (r: usize)
        ensures
            r == self.items().len(),
    {
        self.entries.len()
    }

    /// The key of entry `i`.
    pub fn key_at(&self, i: usize) -> (r: &str)
        requires
            i < self.items().len(),
        ensures
            r@ == self.items()[i as int].0,
    {
        self.entries[i].0.as_str()
    }

    /// The value of entry `i`.
    pub fn value_at(&self, i: usize) -> (r: &V)
        requires
            i < self.items().len(),
        ensures
            *r == self.items()[i as int].1,
    {
        &self.entries[i].1
    }

    /// The value under `k`.
    pub fn get(&self, k: &str) -> (r: Option<&V>)
        ensures
            match r {
                Some(v) => self@.contains_key(k@) && *v == self@[k@],
                None => !self@.contains_key(k@),
            },
    {
        let ghost items = self.items();
        for i in 0..self.entries.len()
            invariant
                items == self.items(),
                items.len() == self.entries@.len(),
                forall|j: int| 0 <= j < i ==> #[trigger] items[j].0 != k@,
        {
            assert(items[i as int].0 == self.entries@[i as int].0@);
            if same_text(self.entries[i].0.as_str(), k) {
                proof {
                    first_entry_counts(items, k@, i as int);
                }
                return Some(&self.entries[i].1);
            }
        }
        proof {
            unlisted_key_is_absent(items, k@);
        }
        None
    }

    /// Puts `v` under `k`, in the place of what stands there.
    pub fn insert(&mut self, k: String, v: V)
        ensures
            final(self).items() == inserted(old(self).items(), k@, v),
            final(self)@ == old(self)@.insert(k@, v),
            final(self).wf(),
    {
        proof {
            use_type_invariant(&*self);
        }
        let ghost items = self.items();
        let mut i: usize = 0;
        assert(items.skip(0) =~= items);
        assert(items.take(0) + inserted(items, k@, v) =~= inserted(items, k@, v));
        while i < self.entries.len() && !not_after(k.as_str(), self.entries[i].0.as_str())
            invariant
                items == self.items(),
                i <= self.entries@.len() == items.len(),
                inserted(items, k@, v) == items.take(i as int) + inserted(
                    items.skip(i as int),
                    k@,
                    v,
                ),
            decreases self.entries@.len() - i,
        {
            proof {
                let rest = items.skip(i as int);
                assert(rest[0].0 == self.entries@[i as int].0@);
                text::text_le_is_reflexive(k@);
                assert(rest.skip(1) =~= items.skip(i + 1));
                assert(items.take(i as int) + (seq![rest[0]] + inserted(rest.skip(1), k@, v))
                    =~= items.take(i + 1) + inserted(rest.skip(1), k@, v));
            }
            i += 1;
        }
        let ghost before = self.entries@;
        let ghost rest = items.skip(i as int);
        let mut entries: Vec<(String, V)> = Vec::new();
        assert(StrMap { entries }.items() =~= Seq::<(Seq<char>, V)>::empty());
        std::mem::swap(&mut entries, &mut self.entries);
        if i < entries.len() && same_text(k.as_str(), entries[i].0.as_str()) {
            assert(rest[0].0 == k@);
            let _ = entries.remove(i);
        }
        entries.insert(i, (k, v));
        proof {
            if i < before.len() {
                assert(rest[0].0 == before[i as int].0@);
            }
            assert(StrMap { entries }.items() =~= inserted(items, k@, v));
            inserted_lists_map(items, k@, v);
            inserted_ascends(items, k@, v);
        }
        self.entries = entries;
    }
}

impl<V> View for StrMap<V> {
    type V = Map<Seq<char>, V>;

    open spec fn view(&self) -> Map<Seq<char>, V> {
        map_of(self.items())
    }
}

/// A map of strings as a map of texts.
pub open spec fn text_map(m: Map<Seq<char>, String>) -> Map<Seq<char>, Seq<char>> {
    m.map_values(|s: String| s@)
}

/// A list of strings under texts as a list of texts under texts.
pub open spec fn text_items(items: Seq<(Seq<char>, String)>) -> Seq<(Seq<char>, Seq<char>)> {
    items.map_values(|e: (Seq<char>, String)| (e.0, e.1@))
}

/// A list of strings under texts has as many texts, in the same order, and a
/// map of strings has them under the same keys.
pub proof fn texts_are_those_of_the_values(
    items: Seq<(Seq<char>, String)>,
    i: int,
    m: Map<Seq<char>, String>,
    k: Seq<char>,
)
    ensures
        text_items(items).len() == items.len(),
        0 <= i < items.len() ==> text_items(items)[i] == (items[i].0, items[i].1@),
        text_map(m).contains_key(k) <==> m.contains_key(k),
        m.contains_key(k) ==> text_map(m)[k] == m[k]@,
{
}

} // verus!
