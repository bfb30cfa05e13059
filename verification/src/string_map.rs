//! A map keyed by strings, kept as a list of slots in which no key occurs
//! twice. Its view is a `Map` from the key's text to the value.

use vstd::prelude::*;

verus! {

struct StringMapEntry<V> {
    key: String,
    value: V,
}

pub struct StringMap<V> {
    entries: Vec<StringMapEntry<V>>,
}

spec fn slot_is<V>(entries: Seq<StringMapEntry<V>>, i: int, key: Seq<char>) -> bool {
    0 <= i < entries.len() && entries[i].key@ == key
}

spec fn keys_unique<V>(entries: Seq<StringMapEntry<V>>) -> bool {
    forall|i: int, j: int|
        #![trigger entries[i], entries[j]]
        0 <= i < j < entries.len() ==> entries[i].key@ != entries[j].key@
}

spec fn entries_view<V>(entries: Seq<StringMapEntry<V>>) -> Map<Seq<char>, V> {
    Map::new(
        |key: Seq<char>| exists|i: int| slot_is(entries, i, key),
        |key: Seq<char>| entries[choose|i: int| slot_is(entries, i, key)].value,
    )
}

proof fn lemma_view_at<V>(entries: Seq<StringMapEntry<V>>, i: int)
    requires
        keys_unique(entries),
        0 <= i < entries.len(),
    ensures
        entries_view(entries).contains_key(entries[i].key@),
        entries_view(entries)[entries[i].key@] == entries[i].value,
{
    let key = entries[i].key@;
    assert(slot_is(entries, i, key));
    let j = choose|j: int| slot_is(entries, j, key);
    if i < j {
        assert(entries[i].key@ != entries[j].key@);
    }
    if j < i {
        assert(entries[j].key@ != entries[i].key@);
    }
}

proof fn lemma_view_push<V>(entries: Seq<StringMapEntry<V>>, e: StringMapEntry<V>)
    requires
        keys_unique(entries),
        !entries_view(entries).contains_key(e.key@),
    ensures
        keys_unique(entries.push(e)),
        entries_view(entries.push(e)) == entries_view(entries).insert(e.key@, e.value),
{
    let after = entries.push(e);
    let n = entries.len() as int;
    assert forall|i: int, j: int| 0 <= i < j < after.len() implies after[i].key@
        != after[j].key@ by {
        if j == n {
            assert(after[i] == entries[i]);
            if entries[i].key@ == e.key@ {
                assert(slot_is(entries, i, e.key@));
            }
        } else {
            assert(entries[i].key@ != entries[j].key@);
        }
    }
    let lhs = entries_view(after);
    let rhs = entries_view(entries).insert(e.key@, e.value);
    assert forall|key: Seq<char>| lhs.contains_key(key) <==> rhs.contains_key(key) by {
        if lhs.contains_key(key) {
            let i = choose|i: int| slot_is(after, i, key);
            if i < n {
                assert(slot_is(entries, i, key));
            }
        }
        if rhs.contains_key(key) {
            if key == e.key@ {
                assert(slot_is(after, n, key));
            } else {
                let i = choose|i: int| slot_is(entries, i, key);
                assert(slot_is(after, i, key));
            }
        }
    }
    assert forall|key: Seq<char>| lhs.contains_key(key) implies lhs[key] == rhs[key] by {
        let i = choose|i: int| slot_is(after, i, key);
        lemma_view_at(after, i);
        if i < n {
            lemma_view_at(entries, i);
        }
    }
    assert(lhs =~= rhs);
}

proof fn lemma_view_remove<V>(entries: Seq<StringMapEntry<V>>, i: int)
    requires
        keys_unique(entries),
        0 <= i < entries.len(),
    ensures
        keys_unique(entries.remove(i)),
        entries_view(entries.remove(i)) == entries_view(entries).remove(entries[i].key@),
{
    let after = entries.remove(i);
    assert forall|a: int, b: int| 0 <= a < b < after.len() implies after[a].key@
        != after[b].key@ by {
        let a0 = if a < i { a } else { a + 1 };
        let b0 = if b < i { b } else { b + 1 };
        assert(after[a] == entries[a0]);
        assert(after[b] == entries[b0]);
        assert(entries[a0].key@ != entries[b0].key@);
    }
    let lhs = entries_view(after);
    let rhs = entries_view(entries).remove(entries[i].key@);
    assert forall|key: Seq<char>| lhs.contains_key(key) <==> rhs.contains_key(key) by {
        if lhs.contains_key(key) {
            let a = choose|a: int| slot_is(after, a, key);
            let a0 = if a < i { a } else { a + 1 };
            assert(after[a] == entries[a0]);
            assert(slot_is(entries, a0, key));
            if a0 < i {
                assert(entries[a0].key@ != entries[i].key@);
            } else {
                assert(entries[i].key@ != entries[a0].key@);
            }
        }
        if rhs.contains_key(key) {
            let a0 = choose|a0: int| slot_is(entries, a0, key);
            let a = if a0 < i { a0 } else { a0 - 1 };
            assert(after[a] == entries[a0]);
            assert(slot_is(after, a, key));
        }
    }
    assert forall|key: Seq<char>| lhs.contains_key(key) implies lhs[key] == rhs[key] by {
        let a = choose|a: int| slot_is(after, a, key);
        let a0 = if a < i { a } else { a + 1 };
        assert(after[a] == entries[a0]);
        lemma_view_at(after, a);
        lemma_view_at(entries, a0);
    }
    assert(lhs =~= rhs);
}

proof fn lemma_view_len<V>(entries: Seq<StringMapEntry<V>>)
    requires
        keys_unique(entries),
    ensures
        entries_view(entries).dom().finite(),
        entries_view(entries).dom().len() == entries.len(),
    decreases entries.len(),
{
    if entries.len() == 0 {
        assert(entries_view(entries).dom() =~= Set::empty());
    } else {
        let front = entries.drop_last();
        let last = entries.last();
        assert forall|i: int, j: int| 0 <= i < j < front.len() implies front[i].key@
            != front[j].key@ by {
            assert(entries[i].key@ != entries[j].key@);
        }
        lemma_view_len(front);
        if entries_view(front).contains_key(last.key@) {
            let i = choose|i: int| slot_is(front, i, last.key@);
            assert(entries[i].key@ != entries[entries.len() - 1].key@);
        }
        lemma_view_push(front, last);
        assert(front.push(last) =~= entries);
        assert(entries_view(entries).dom() =~= entries_view(front).dom().insert(last.key@));
    }
}

fn find_slot<V>(entries: &Vec<StringMapEntry<V>>, key: &String) -> (r: Option<usize>)
    ensures
        match r {
            Some(i) => slot_is(entries@, i as int, key@),
            None => !entries_view(entries@).contains_key(key@),
        },
{
    let mut i: usize = 0;
    while i < entries.len()
        invariant
            i <= entries@.len(),
            forall|m: int| 0 <= m < i ==> !slot_is(entries@, m, key@),
        decreases entries@.len() - i,
    {
        if entries[i].key == *key {
            return Some(i);
        }
        i += 1;
    }
    None
}

impl<V> View for StringMap<V> {
    type V = Map<Seq<char>, V>;

    closed spec fn view(&self) -> Map<Seq<char>, V> {
        entries_view(self.entries@)
    }
}

impl<V> StringMap<V> {
    /// No key occurs in two slots.
    pub closed spec fn wf(&self) -> bool {
        keys_unique(self.entries@)
    }

    /// The number of slots.
    pub closed spec fn spec_len(&self) -> nat {
        self.entries@.len()
    }

    /// The key in slot `i`.
    pub closed spec fn spec_key_at(&self, i: int) -> Seq<char> {
        self.entries@[i].key@
    }

    /// The value in slot `i`.
    pub closed spec fn spec_value_at(&self, i: int) -> V {
        self.entries@[i].value
    }

    /// The slots list the map's pairs, each key in one slot.
    pub proof fn lemma_slots(&self)
        requires
            self.wf(),
        ensures
            self@.dom().finite(),
            self@.len() == self.spec_len(),
            forall|i: int|
                0 <= i < self.spec_len() ==> self@.contains_key(#[trigger] self.spec_key_at(i))
                    && self@[self.spec_key_at(i)] == self.spec_value_at(i),
            forall|key: Seq<char>| #[trigger]
                self@.contains_key(key) ==> exists|i: int|
                    0 <= i < self.spec_len() && #[trigger] self.spec_key_at(i) == key,
            forall|i: int, j: int|
                0 <= i < j < self.spec_len() ==> #[trigger] self.spec_key_at(i)
                    != #[trigger] self.spec_key_at(j),
    {
        lemma_view_len(self.entries@);
        assert forall|i: int| 0 <= i < self.spec_len() implies self@.contains_key(
            #[trigger] self.spec_key_at(i),
        ) && self@[self.spec_key_at(i)] == self.spec_value_at(i) by {
            lemma_view_at(self.entries@, i);
        }
        assert forall|key: Seq<char>| #[trigger] self@.contains_key(key) implies exists|i: int|
            0 <= i < self.spec_len() && #[trigger] self.spec_key_at(i) == key by {
            let i = choose|i: int| slot_is(self.entries@, i, key);
            assert(0 <= i < self.spec_len() && self.spec_key_at(i) == key);
        }
        assert forall|i: int, j: int| 0 <= i < j < self.spec_len() implies #[trigger] self.spec_key_at(
            i,
        ) != #[trigger] self.spec_key_at(j) by {
            assert(self.entries@[i].key@ != self.entries@[j].key@);
        }
    }

    pub fn new() -> (map: Self)
        ensures
            map.wf(),
            map@ == Map::<Seq<char>, V>::empty(),
            map.spec_len() == 0,
    {
        let map = Self { entries: Vec::new() };
        proof {
            assert(map@ =~= Map::empty());
        }
        map
    }

    /// The number of keys.
    pub fn len(&self) -> (n: usize)
        requires
            self.wf(),
        ensures
            n == self.spec_len(),
            n == self@.len(),
    {
        proof {
            lemma_view_len(self.entries@);
        }
        self.entries.len()
    }

    pub fn is_empty(&self) -> (empty: bool)
        requires
            self.wf(),
        ensures
            empty == (self.spec_len() == 0),
            empty == (self@ == Map::<Seq<char>, V>::empty()),
    {
        proof {
            if self.entries@.len() == 0 {
                assert(self@ =~= Map::empty());
            } else {
                lemma_view_at(self.entries@, 0);
            }
        }
        self.entries.len() == 0
    }

    pub fn key_at(&self, i: usize) -> (key: &String)
        requires
            i < self.spec_len(),
        ensures
            key@ == self.spec_key_at(i as int),
    {
        &self.entries[i].key
    }

    pub fn value_at(&self, i: usize) -> (value: &V)
        requires
            i < self.spec_len(),
        ensures
            *value == self.spec_value_at(i as int),
    {
        &self.entries[i].value
    }

    pub fn contains_key(&self, key: &str) -> (found: bool)
        ensures
            found == self@.contains_key(key@),
    {
        let key = key.to_owned();
        match find_slot(&self.entries, &key) {
            Some(i) => {
                assert(slot_is(self.entries@, i as int, key@));
                true
            },
            None => false,
        }
    }

    pub fn get(&self, key: &str) -> (found: Option<&V>)
        requires
            self.wf(),
        ensures
            match found {
                Some(value) => self@.contains_key(key@) && *value == self@[key@],
                None => !self@.contains_key(key@),
            },
    {
        let key = key.to_owned();
        match find_slot(&self.entries, &key) {
            Some(i) => {
                proof {
                    lemma_view_at(self.entries@, i as int);
                }
                Some(&self.entries[i].value)
            },
            None => None,
        }
    }

    /// Puts `value` under `key` and hands back the value that was there.
    pub fn insert(&mut self, key: String, value: V) -> (displaced: Option<V>)
        requires
            old(self).wf(),
        ensures
            final(self).wf(),
            final(self)@ == old(self)@.insert(key@, value),
            match displaced {
                Some(before) => old(self)@.contains_key(key@) && before == old(self)@[key@],
                None => !old(self)@.contains_key(key@),
            },
    {
        let displaced = match find_slot(&self.entries, &key) {
            Some(i) => {
                proof {
                    lemma_view_at(self.entries@, i as int);
                    lemma_view_remove(self.entries@, i as int);
                }
                Some(self.entries.remove(i).value)
            },
            None => None,
        };
        let entry = StringMapEntry { key, value };
        proof {
            lemma_view_push(self.entries@, entry);
            assert(old(self)@.remove(key@).insert(key@, value) =~= old(self)@.insert(key@, value));
        }
        self.entries.push(entry);
        displaced
    }

    /// Takes `key` out of the map and hands back its value.
    pub fn remove(&mut self, key: &str) -> (removed: Option<V>)
        requires
            old(self).wf(),
        ensures
            final(self).wf(),
            final(self)@ == old(self)@.remove(key@),
            match removed {
                Some(value) => old(self)@.contains_key(key@) && value == old(self)@[key@],
                None => !old(self)@.contains_key(key@),
            },
    {
        let key = key.to_owned();
        match find_slot(&self.entries, &key) {
            Some(i) => {
                proof {
                    lemma_view_at(self.entries@, i as int);
                    lemma_view_remove(self.entries@, i as int);
                }
                Some(self.entries.remove(i).value)
            },
            None => {
                proof {
                    assert(self@.remove(key@) =~= self@);
                }
                None
            },
        }
    }
}

} // verus!
