//! A map from string keys to values, partitioned by a namespace tag.
//!
//! All namespaces share one flat list of entries. An entry belongs to the
//! namespace whose tag it carries, so two namespaces never see each other's
//! keys, even where the keys themselves coincide. Inside one namespace a key
//! occurs at most once: inserting under a key that is present replaces the
//! value where it stands.

use vstd::prelude::*;

verus! {

/// One entry of the map as it is held in memory.
#[derive(Clone, Debug, PartialEq)]
pub struct Slot<V> {
    pub tag: u64,
    pub key: String,
    pub value: V,
}

/// The view of one entry: the namespace tag, the key, and the value's view.
pub struct Entry<W> {
    pub tag: nat,
    pub key: Seq<char>,
    pub value: W,
}

impl<V: View> View for Slot<V> {
    type V = Entry<V::V>;

    open spec fn view(&self) -> Entry<V::V> {
        Entry { tag: self.tag as nat, key: self.key@, value: self.value@ }
    }
}

/// Entry `i` exists and is the one for `key` in namespace `tag`.
pub open spec fn holds_at<W>(entries: Seq<Entry<W>>, i: int, tag: nat, key: Seq<char>) -> bool {
    0 <= i < entries.len() && entries[i].tag == tag && entries[i].key == key
}

/// Namespace `tag` has an entry for `key`.
pub open spec fn has_key<W>(entries: Seq<Entry<W>>, tag: nat, key: Seq<char>) -> bool {
    exists|i: int| holds_at(entries, i, tag, key)
}

/// Where the entry for `key` in namespace `tag` stands, if there is one.
pub open spec fn position_of<W>(entries: Seq<Entry<W>>, tag: nat, key: Seq<char>) -> int {
    choose|i: int| holds_at(entries, i, tag, key)
}

/// The value under `key` in namespace `tag`.
pub open spec fn lookup<W>(entries: Seq<Entry<W>>, tag: nat, key: Seq<char>) -> Option<W> {
    if has_key(entries, tag, key) {
        Some(entries[position_of(entries, tag, key)].value)
    } else {
        None
    }
}

/// No namespace holds a key twice.
pub open spec fn distinct_keys<W>(entries: Seq<Entry<W>>) -> bool {
    forall|i: int, j: int|
        0 <= i < j < entries.len() ==> !(#[trigger] entries[i].tag == #[trigger] entries[j].tag
            && entries[i].key == entries[j].key)
}

/// The number of entries in namespace `tag`.
pub open spec fn count_in<W>(entries: Seq<Entry<W>>, tag: nat) -> nat
    decreases entries.len(),
{
    if entries.len() == 0 {
        0
    } else {
        count_in(entries.drop_last(), tag) + if entries.last().tag == tag {
            1nat
        } else {
            0nat
        }
    }
}

/// The entries of namespace `tag`, in the order in which they stand.
pub open spec fn in_namespace<W>(entries: Seq<Entry<W>>, tag: nat) -> Seq<Entry<W>>
    decreases entries.len(),
{
    if entries.len() == 0 {
        Seq::empty()
    } else if entries.last().tag == tag {
        in_namespace(entries.drop_last(), tag).push(entries.last())
    } else {
        in_namespace(entries.drop_last(), tag)
    }
}

/// The entries after `value` was stored under `key` in namespace `tag`: it
/// takes the place of the value that was there, or is added at the end.
pub open spec fn upsert<W>(entries: Seq<Entry<W>>, tag: nat, key: Seq<char>, value: W) -> Seq<
    Entry<W>,
> {
    if has_key(entries, tag, key) {
        entries.update(position_of(entries, tag, key), Entry { tag, key, value })
    } else {
        entries.push(Entry { tag, key, value })
    }
}

/// Namespace `tag` as a map of its own.
pub open spec fn space_of<W>(entries: Seq<Entry<W>>, tag: nat) -> Map<Seq<char>, W> {
    Map::new(
        |key: Seq<char>| has_key(entries, tag, key),
        |key: Seq<char>| entries[position_of(entries, tag, key)].value,
    )
}

/// With distinct keys, the entry for a key is the only one that matches it.
pub proof fn lemma_position_unique<W>(entries: Seq<Entry<W>>, i: int)
    requires
        distinct_keys(entries),
        0 <= i < entries.len(),
    ensures
        has_key(entries, entries[i].tag, entries[i].key),
        position_of(entries, entries[i].tag, entries[i].key) == i,
        lookup(entries, entries[i].tag, entries[i].key) == Some(entries[i].value),
{
    let tag = entries[i].tag;
    let key = entries[i].key;
    assert(holds_at(entries, i, tag, key));
    let j = position_of(entries, tag, key);
    assert(holds_at(entries, j, tag, key));
    if j < i {
        assert(!(entries[j].tag == entries[i].tag && entries[j].key == entries[i].key));
    } else if i < j {
        assert(!(entries[i].tag == entries[j].tag && entries[i].key == entries[j].key));
    }
}

/// Storing a value keeps the keys distinct, makes that value the one found
/// under its key, and leaves every other key of every namespace as it was.
pub proof fn lemma_upsert_lookup<W>(entries: Seq<Entry<W>>, tag: nat, key: Seq<char>, value: W)
    requires
        distinct_keys(entries),
    ensures
        distinct_keys(upsert(entries, tag, key, value)),
        lookup(upsert(entries, tag, key, value), tag, key) == Some(value),
        forall|t: nat, k: Seq<char>|
            !(t == tag && k == key) ==> #[trigger] lookup(upsert(entries, tag, key, value), t, k)
                == lookup(entries, t, k),
{
    let after = upsert(entries, tag, key, value);
    let fresh = Entry { tag, key, value };
    let at: int = if has_key(entries, tag, key) {
        position_of(entries, tag, key)
    } else {
        entries.len() as int
    };
    assert(has_key(entries, tag, key) ==> holds_at(entries, at, tag, key));
    assert(after[at] == fresh);
    assert forall|i: int| 0 <= i < entries.len() && i != at implies after[i] == entries[i] by {}
    assert forall|i: int, j: int| 0 <= i < j < after.len() implies !(#[trigger] after[i].tag
        == #[trigger] after[j].tag && after[i].key == after[j].key) by {
        if i == at {
            if after[j].tag == tag && after[j].key == key {
                assert(holds_at(entries, j, tag, key));
            }
        } else if j == at {
            if after[i].tag == tag && after[i].key == key {
                assert(holds_at(entries, i, tag, key));
            }
        }
    }
    lemma_position_unique(after, at);
    assert forall|t: nat, k: Seq<char>| !(t == tag && k == key) implies #[trigger] lookup(
        after,
        t,
        k,
    ) == lookup(entries, t, k) by {
        if has_key(entries, t, k) {
            let i = position_of(entries, t, k);
            assert(holds_at(entries, i, t, k));
            assert(i != at);
            lemma_position_unique(entries, i);
            lemma_position_unique(after, i);
        } else if has_key(after, t, k) {
            let i = position_of(after, t, k);
            assert(holds_at(after, i, t, k));
            assert(i != at);
            assert(holds_at(entries, i, t, k));
        }
    }
}

/// Storing a value under a new key adds one to its namespace's count;
/// storing under a key that is present changes no count.
pub proof fn lemma_upsert_count<W>(entries: Seq<Entry<W>>, tag: nat, key: Seq<char>, value: W)
    ensures
        count_in(upsert(entries, tag, key, value), tag) == count_in(entries, tag) + if has_key(
            entries,
            tag,
            key,
        ) {
            0nat
        } else {
            1nat
        },
        forall|t: nat|
            t != tag ==> #[trigger] count_in(upsert(entries, tag, key, value), t) == count_in(
                entries,
                t,
            ),
{
    let fresh = Entry { tag, key, value };
    if has_key(entries, tag, key) {
        let at = position_of(entries, tag, key);
        assert(holds_at(entries, at, tag, key));
        assert forall|t: nat| #[trigger]
            count_in(entries.update(at, fresh), t) == count_in(entries, t) by {
            lemma_count_update(entries, at, fresh, t);
        }
    } else {
        assert forall|t: nat| #[trigger]
            count_in(entries.push(fresh), t) == count_in(entries, t) + if t == tag {
                1nat
            } else {
                0nat
            } by {
            assert(entries.push(fresh).drop_last() =~= entries);
        }
    }
}

/// Replacing an entry by one of the same namespace changes no count.
pub proof fn lemma_count_update<W>(entries: Seq<Entry<W>>, at: int, fresh: Entry<W>, tag: nat)
    requires
        0 <= at < entries.len(),
        entries[at].tag == fresh.tag,
    ensures
        count_in(entries.update(at, fresh), tag) == count_in(entries, tag),
    decreases entries.len(),
{
    let after = entries.update(at, fresh);
    if at == entries.len() - 1 {
        assert(after.drop_last() =~= entries.drop_last());
    } else {
        assert(after.drop_last() =~= entries.drop_last().update(at, fresh));
        lemma_count_update(entries.drop_last(), at, fresh, tag);
    }
}

/// A namespace's count is the number of its entries.
pub proof fn lemma_in_namespace_len<W>(entries: Seq<Entry<W>>, tag: nat)
    ensures
        in_namespace(entries, tag).len() == count_in(entries, tag),
    decreases entries.len(),
{
    if entries.len() > 0 {
        lemma_in_namespace_len(entries.drop_last(), tag);
    }
}

/// With distinct keys, a namespace's count is the number of its distinct keys.
pub proof fn lemma_count_is_number_of_keys<W>(entries: Seq<Entry<W>>, tag: nat)
    requires
        distinct_keys(entries),
    ensures
        space_of(entries, tag).dom().finite(),
        space_of(entries, tag).dom().len() == count_in(entries, tag),
    decreases entries.len(),
{
    let keys = space_of(entries, tag).dom();
    if entries.len() == 0 {
        assert(keys =~= Set::<Seq<char>>::empty());
    } else {
        let front = entries.drop_last();
        let last = entries.last();
        let front_keys = space_of(front, tag).dom();
        assert forall|i: int, j: int| 0 <= i < j < front.len() implies !(#[trigger] front[i].tag
            == #[trigger] front[j].tag && front[i].key == front[j].key) by {
            assert(front[i] == entries[i] && front[j] == entries[j]);
        }
        lemma_count_is_number_of_keys(front, tag);
        assert forall|k: Seq<char>| has_key(front, tag, k) implies has_key(entries, tag, k) by {
            let i = position_of(front, tag, k);
            assert(holds_at(front, i, tag, k));
            assert(holds_at(entries, i, tag, k));
        }
        if last.tag == tag {
            assert(holds_at(entries, entries.len() - 1, tag, last.key));
            if has_key(front, tag, last.key) {
                let i = position_of(front, tag, last.key);
                assert(holds_at(front, i, tag, last.key));
                assert(!(entries[i].tag == entries[entries.len() - 1].tag && entries[i].key
                    == entries[entries.len() - 1].key));
            }
            assert forall|k: Seq<char>| has_key(entries, tag, k) implies k == last.key || has_key(
                front,
                tag,
                k,
            ) by {
                let i = position_of(entries, tag, k);
                assert(holds_at(entries, i, tag, k));
                if i < front.len() {
                    assert(holds_at(front, i, tag, k));
                }
            }
            assert(keys =~= front_keys.insert(last.key));
        } else {
            assert forall|k: Seq<char>| has_key(entries, tag, k) implies has_key(front, tag, k) by {
                let i = position_of(entries, tag, k);
                assert(holds_at(entries, i, tag, k));
                assert(holds_at(front, i, tag, k));
            }
            assert(keys =~= front_keys);
        }
    }
}

/// A map from `(namespace tag, key)` to values. Its view is the sequence of
/// its entries in the order in which their keys were first inserted.
pub struct NamespacedMap<V: View> {
    slots: Vec<Slot<V>>,
}

impl<V: View> View for NamespacedMap<V> {
    type V = Seq<Entry<V::V>>;

    closed spec fn view(&self) -> Seq<Entry<V::V>> {
        self.slots@.map_values(|s: Slot<V>| s@)
    }
}

impl<V: View> NamespacedMap<V> {
    /// The invariant of the map: no namespace holds a key twice.
    pub open spec fn wf(&self) -> bool {
        distinct_keys(self@)
    }

    /// The map without entries.
    pub fn new() -> (map: Self)
        ensures
            map.wf(),
            map@ == Seq::<Entry<V::V>>::empty(),
    {
        let slots: Vec<Slot<V>> = Vec::new();
        assert(slots@.map_values(|s: Slot<V>| s@) =~= Seq::<Entry<V::V>>::empty());
        NamespacedMap { slots }
    }

    /// The map that holds `slots`, in their order; `None` where two of them
    /// have the same key in the same namespace.
    pub fn from_slots(slots: Vec<Slot<V>>) -> (made: Option<Self>)
        ensures
            made is Some <==> distinct_keys(slots@.map_values(|s: Slot<V>| s@)),
            made is Some ==> made->0.wf() && made->0@ == slots@.map_values(|s: Slot<V>| s@),
    {
        let ghost entries = slots@.map_values(|s: Slot<V>| s@);
        let mut j: usize = 0;
        while j < slots.len()
            invariant
                j <= slots@.len(),
                entries == slots@.map_values(|s: Slot<V>| s@),
                forall|a: int, b: int|
                    0 <= a < b < j ==> !(#[trigger] entries[a].tag == #[trigger] entries[b].tag
                        && entries[a].key == entries[b].key),
            decreases slots@.len() - j,
        {
            let mut i: usize = 0;
            while i < j
                invariant
                    i <= j < slots@.len(),
                    entries == slots@.map_values(|s: Slot<V>| s@),
                    forall|a: int|
                        0 <= a < i ==> !(#[trigger] entries[a].tag == entries[j as int].tag
                            && entries[a].key == entries[j as int].key),
                decreases j - i,
            {
                if slots[i].tag == slots[j].tag && slots[i].key == slots[j].key {
                    assert(entries[i as int].tag == entries[j as int].tag && entries[i as int].key
                        == entries[j as int].key);
                    return None;
                }
                i += 1;
            }
            j += 1;
        }
        Some(NamespacedMap { slots })
    }

    /// Where the entry for `key` in namespace `tag` stands, if it has one.
    fn find(&self, tag: u64, key: &String) -> (found: Option<usize>)
        ensures
            match found {
                Some(i) => holds_at(self@, i as int, tag as nat, key@) && i < self.slots@.len(),
                None => !has_key(self@, tag as nat, key@),
            },
    {
        let mut i: usize = 0;
        while i < self.slots.len()
            invariant
                i <= self.slots@.len(),
                self@.len() == self.slots@.len(),
                forall|j: int| 0 <= j < i ==> !holds_at(self@, j, tag as nat, key@),
            decreases self.slots@.len() - i,
        {
            let slot = &self.slots[i];
            if slot.tag == tag && slot.key == *key {
                assert(self@[i as int] == slot@);
                return Some(i);
            }
            assert(self@[i as int] == slot@);
            i += 1;
        }
        None
    }

    /// Stores `value` under `key` in namespace `tag`, in place of the value
    /// that was there, if any. No other key, of this namespace or another, is
    /// touched.
    pub fn insert(&mut self, tag: u64, key: String, value: V)
        requires
            old(self).wf(),
        ensures
            final(self).wf(),
            final(self)@ == upsert(old(self)@, tag as nat, key@, value@),
            lookup(final(self)@, tag as nat, key@) == Some(value@),
            forall|t: nat, k: Seq<char>|
                !(t == tag as nat && k == key@) ==> #[trigger] lookup(final(self)@, t, k) == lookup(
                    old(self)@,
                    t,
                    k,
                ),
            count_in(final(self)@, tag as nat) == count_in(old(self)@, tag as nat) + if has_key(
                old(self)@,
                tag as nat,
                key@,
            ) {
                0nat
            } else {
                1nat
            },
            forall|t: nat|
                t != tag as nat ==> #[trigger] count_in(final(self)@, t) == count_in(
                    old(self)@,
                    t,
                ),
    {
        let found = self.find(tag, &key);
        proof {
            lemma_upsert_lookup(self@, tag as nat, key@, value@);
            lemma_upsert_count(self@, tag as nat, key@, value@);
            if let Some(i) = found {
                lemma_position_unique(self@, i as int);
            }
        }
        let ghost before = self@;
        let ghost fresh = Entry { tag: tag as nat, key: key@, value: value@ };
        match found {
            Some(i) => {
                assert(self.slots@.update(i as int, Slot { tag, key, value }).map_values(
                    |s: Slot<V>| s@,
                ) =~= before.update(i as int, fresh));
                self.slots[i] = Slot { tag, key, value };
            },
            None => {
                assert(self.slots@.push(Slot { tag, key, value }).map_values(|s: Slot<V>| s@)
                    =~= before.push(fresh));
                self.slots.push(Slot { tag, key, value });
            },
        }
    }

    /// The value under `key` in namespace `tag`; `None` where the namespace
    /// has no such key.
    pub fn get(&self, tag: u64, key: &String) -> (r: Option<&V>)
        requires
            self.wf(),
        ensures
            match r {
                Some(v) => lookup(self@, tag as nat, key@) == Some(v@),
                None => lookup(self@, tag as nat, key@) is None,
            },
    {
        match self.find(tag, key) {
            Some(i) => {
                proof {
                    lemma_position_unique(self@, i as int);
                }
                Some(&self.slots[i].value)
            },
            None => None,
        }
    }

    /// The number of keys in namespace `tag`.
    pub fn len(&self, tag: u64) -> (n: usize)
        requires
            self.wf(),
        ensures
            n == count_in(self@, tag as nat),
            n == space_of(self@, tag as nat).dom().len(),
    {
        proof {
            lemma_count_is_number_of_keys(self@, tag as nat);
        }
        let mut n: usize = 0;
        let mut i: usize = 0;
        while i < self.slots.len()
            invariant
                i <= self.slots@.len(),
                self@.len() == self.slots@.len(),
                n == count_in(self@.take(i as int), tag as nat),
                n <= i,
            decreases self.slots@.len() - i,
        {
            assert(self@.take(i + 1).drop_last() =~= self@.take(i as int));
            assert(self@.take(i + 1).last() == self.slots@[i as int]@);
            if self.slots[i].tag == tag {
                n += 1;
            }
            i += 1;
        }
        assert(self@.take(i as int) =~= self@);
        n
    }

    /// The entries of namespace `tag`, in the order in which their keys were
    /// first inserted, for walking one namespace.
    pub fn entries_in(&self, tag: u64) -> (found: Vec<&Slot<V>>)
        ensures
            found@.map_values(|s: &Slot<V>| s@) == in_namespace(self@, tag as nat),
            found@.len() == count_in(self@, tag as nat),
    {
        let mut found: Vec<&Slot<V>> = Vec::new();
        let mut i: usize = 0;
        while i < self.slots.len()
            invariant
                i <= self.slots@.len(),
                self@.len() == self.slots@.len(),
                found@.map_values(|s: &Slot<V>| s@) == in_namespace(
                    self@.take(i as int),
                    tag as nat,
                ),
            decreases self.slots@.len() - i,
        {
            assert(self@.take(i + 1).drop_last() =~= self@.take(i as int));
            assert(self@.take(i + 1).last() == self.slots@[i as int]@);
            let ghost before = found@;
            if self.slots[i].tag == tag {
                found.push(&self.slots[i]);
                assert(found@.map_values(|s: &Slot<V>| s@) =~= before.map_values(
                    |s: &Slot<V>| s@,
                ).push(self.slots@[i as int]@));
            }
            i += 1;
        }
        assert(self@.take(i as int) =~= self@);
        proof {
            lemma_in_namespace_len(self@, tag as nat);
        }
        found
    }

    /// The entries of all namespaces, in the order in which their keys were
    /// first inserted, for walking the map.
    pub fn slots(&self) -> (all: &Vec<Slot<V>>)
        ensures
            all@.len() == self@.len(),
            forall|i: int| 0 <= i < all@.len() ==> (#[trigger] all@[i])@ == self@[i],
    {
        &self.slots
    }
}

} // verus!
