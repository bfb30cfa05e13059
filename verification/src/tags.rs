//! The tag index: which connection carries which key with which value, kept
//! in both directions at once.

use crate::tag_model::{
    has_tag, index_with, index_without, inverse_index, lemma_inverse_insert_fresh,
    lemma_inverse_remove, string_views, tagged, tagged_with_value, without_connection, TagIndex,
    TagMap,
};
use vstd::prelude::*;

verus! {

/// One tag of one connection.
#[derive(Debug)]
struct TagEntry {
    connection_id: String,
    key: String,
    value: String,
}

/// The connections that carry one (key, value) pair.
#[derive(Debug)]
struct TagBucket {
    key: String,
    value: String,
    connections: Vec<String>,
}

/// Tags by connection, and connections by tag.
#[derive(Debug)]
pub struct Tags {
    tags_to_connection: Vec<TagBucket>,
    connection_tags: Vec<TagEntry>,
}

spec fn entry_is(entries: Seq<TagEntry>, i: int, ck: (Seq<char>, Seq<char>)) -> bool {
    0 <= i < entries.len() && entries[i].connection_id@ == ck.0 && entries[i].key@ == ck.1
}

spec fn entry_key(e: TagEntry) -> (Seq<char>, Seq<char>) {
    (e.connection_id@, e.key@)
}

spec fn entries_unique(entries: Seq<TagEntry>) -> bool {
    forall|i: int, j: int|
        #![trigger entries[i], entries[j]]
        0 <= i < j < entries.len() ==> entry_key(entries[i]) != entry_key(entries[j])
}

spec fn entries_map(entries: Seq<TagEntry>) -> TagMap {
    Map::new(
        |ck: (Seq<char>, Seq<char>)| exists|i: int| entry_is(entries, i, ck),
        |ck: (Seq<char>, Seq<char>)| entries[choose|i: int| entry_is(entries, i, ck)].value@,
    )
}

proof fn lemma_entries_map_at(entries: Seq<TagEntry>, i: int)
    requires
        entries_unique(entries),
        0 <= i < entries.len(),
    ensures
        entries_map(entries).contains_key(entry_key(entries[i])),
        entries_map(entries)[entry_key(entries[i])] == entries[i].value@,
{
    let ck = entry_key(entries[i]);
    assert(entry_is(entries, i, ck));
    let j = choose|j: int| entry_is(entries, j, ck);
    assert(entry_key(entries[j]) == ck);
    if i < j {
        assert(entry_key(entries[i]) != entry_key(entries[j]));
    }
    if j < i {
        assert(entry_key(entries[j]) != entry_key(entries[i]));
    }
}

proof fn lemma_entries_map_push(entries: Seq<TagEntry>, e: TagEntry)
    requires
        entries_unique(entries),
        !entries_map(entries).contains_key(entry_key(e)),
    ensures
        entries_unique(entries.push(e)),
        entries_map(entries.push(e)) == entries_map(entries).insert(entry_key(e), e.value@),
{
    let after = entries.push(e);
    let n = entries.len() as int;
    assert forall|i: int, j: int| 0 <= i < j < after.len() implies entry_key(after[i])
        != entry_key(after[j]) by {
        if j == n {
            assert(after[i] == entries[i]);
            if entry_key(entries[i]) == entry_key(e) {
                assert(entry_is(entries, i, entry_key(e)));
            }
        } else {
            assert(entry_key(entries[i]) != entry_key(entries[j]));
        }
    }
    let lhs = entries_map(after);
    let rhs = entries_map(entries).insert(entry_key(e), e.value@);
    assert forall|ck: (Seq<char>, Seq<char>)| lhs.contains_key(ck) <==> rhs.contains_key(ck) by {
        if lhs.contains_key(ck) {
            let i = choose|i: int| entry_is(after, i, ck);
            if i < n {
                assert(entry_is(entries, i, ck));
            }
        }
        if rhs.contains_key(ck) {
            if ck == entry_key(e) {
                assert(entry_is(after, n, ck));
            } else {
                let i = choose|i: int| entry_is(entries, i, ck);
                assert(entry_is(after, i, ck));
            }
        }
    }
    assert forall|ck: (Seq<char>, Seq<char>)| lhs.contains_key(ck) implies lhs[ck] == rhs[ck] by {
        let i = choose|i: int| entry_is(after, i, ck);
        lemma_entries_map_at(after, i);
        if i < n {
            lemma_entries_map_at(entries, i);
            assert(entry_is(entries, i, entry_key(entries[i])));
        }
    }
    assert(lhs =~= rhs);
}

proof fn lemma_entries_map_remove(entries: Seq<TagEntry>, i: int)
    requires
        entries_unique(entries),
        0 <= i < entries.len(),
    ensures
        entries_unique(entries.remove(i)),
        entries_map(entries.remove(i)) == entries_map(entries).remove(entry_key(entries[i])),
{
    let after = entries.remove(i);
    assert forall|a: int, b: int| 0 <= a < b < after.len() implies entry_key(after[a])
        != entry_key(after[b]) by {
        let a0 = if a < i { a } else { a + 1 };
        let b0 = if b < i { b } else { b + 1 };
        assert(after[a] == entries[a0]);
        assert(after[b] == entries[b0]);
        assert(entry_key(entries[a0]) != entry_key(entries[b0]));
    }
    let lhs = entries_map(after);
    let rhs = entries_map(entries).remove(entry_key(entries[i]));
    assert forall|ck: (Seq<char>, Seq<char>)| lhs.contains_key(ck) <==> rhs.contains_key(ck) by {
        if lhs.contains_key(ck) {
            let a = choose|a: int| entry_is(after, a, ck);
            let a0 = if a < i { a } else { a + 1 };
            assert(after[a] == entries[a0]);
            assert(entry_is(entries, a0, ck));
            if a0 < i {
                assert(entry_key(entries[a0]) != entry_key(entries[i]));
            } else {
                assert(entry_key(entries[i]) != entry_key(entries[a0]));
            }
        }
        if rhs.contains_key(ck) {
            let a0 = choose|a0: int| entry_is(entries, a0, ck);
            let a = if a0 < i { a0 } else { a0 - 1 };
            assert(after[a] == entries[a0]);
            assert(entry_is(after, a, ck));
        }
    }
    assert forall|ck: (Seq<char>, Seq<char>)| lhs.contains_key(ck) implies lhs[ck] == rhs[ck] by {
        let a = choose|a: int| entry_is(after, a, ck);
        let a0 = if a < i { a } else { a + 1 };
        assert(after[a] == entries[a0]);
        lemma_entries_map_at(after, a);
        lemma_entries_map_at(entries, a0);
    }
    assert(lhs =~= rhs);
}

spec fn bucket_is(buckets: Seq<TagBucket>, j: int, kv: (Seq<char>, Seq<char>)) -> bool {
    0 <= j < buckets.len() && buckets[j].key@ == kv.0 && buckets[j].value@ == kv.1
}

spec fn bucket_key(b: TagBucket) -> (Seq<char>, Seq<char>) {
    (b.key@, b.value@)
}

spec fn bucket_members(b: TagBucket) -> Set<Seq<char>> {
    string_views(b.connections@).to_set()
}

/// A bucket has at least one member and lists none twice.
spec fn bucket_ok(b: TagBucket) -> bool {
    b.connections@.len() > 0 && string_views(b.connections@).no_duplicates()
}

spec fn buckets_ok(buckets: Seq<TagBucket>) -> bool {
    &&& forall|i: int, j: int|
        #![trigger buckets[i], buckets[j]]
        0 <= i < j < buckets.len() ==> bucket_key(buckets[i]) != bucket_key(buckets[j])
    &&& forall|j: int| 0 <= j < buckets.len() ==> bucket_ok(#[trigger] buckets[j])
}

spec fn buckets_map(buckets: Seq<TagBucket>) -> TagIndex {
    Map::new(
        |kv: (Seq<char>, Seq<char>)| exists|j: int| bucket_is(buckets, j, kv),
        |kv: (Seq<char>, Seq<char>)|
            bucket_members(buckets[choose|j: int| bucket_is(buckets, j, kv)]),
    )
}

proof fn lemma_buckets_map_at(buckets: Seq<TagBucket>, j: int)
    requires
        buckets_ok(buckets),
        0 <= j < buckets.len(),
    ensures
        buckets_map(buckets).contains_key(bucket_key(buckets[j])),
        buckets_map(buckets)[bucket_key(buckets[j])] == bucket_members(buckets[j]),
{
    let kv = bucket_key(buckets[j]);
    assert(bucket_is(buckets, j, kv));
    let i = choose|i: int| bucket_is(buckets, i, kv);
    assert(bucket_key(buckets[i]) == kv);
    if i < j {
        assert(bucket_key(buckets[i]) != bucket_key(buckets[j]));
    }
    if j < i {
        assert(bucket_key(buckets[j]) != bucket_key(buckets[i]));
    }
}

proof fn lemma_buckets_map_push(buckets: Seq<TagBucket>, b: TagBucket)
    requires
        buckets_ok(buckets),
        bucket_ok(b),
        !buckets_map(buckets).contains_key(bucket_key(b)),
    ensures
        buckets_ok(buckets.push(b)),
        buckets_map(buckets.push(b)) == buckets_map(buckets).insert(
            bucket_key(b),
            bucket_members(b),
        ),
{
    let after = buckets.push(b);
    let n = buckets.len() as int;
    assert forall|i: int, j: int| 0 <= i < j < after.len() implies bucket_key(after[i])
        != bucket_key(after[j]) by {
        if j == n {
            assert(after[i] == buckets[i]);
            if bucket_key(buckets[i]) == bucket_key(b) {
                assert(bucket_is(buckets, i, bucket_key(b)));
            }
        } else {
            assert(bucket_key(buckets[i]) != bucket_key(buckets[j]));
        }
    }
    assert forall|j: int| 0 <= j < after.len() implies bucket_ok(#[trigger] after[j]) by {
        if j < n {
            assert(after[j] == buckets[j]);
        }
    }
    let lhs = buckets_map(after);
    let rhs = buckets_map(buckets).insert(bucket_key(b), bucket_members(b));
    assert forall|kv: (Seq<char>, Seq<char>)| lhs.contains_key(kv) <==> rhs.contains_key(kv) by {
        if lhs.contains_key(kv) {
            let i = choose|i: int| bucket_is(after, i, kv);
            if i < n {
                assert(bucket_is(buckets, i, kv));
            }
        }
        if rhs.contains_key(kv) {
            if kv == bucket_key(b) {
                assert(bucket_is(after, n, kv));
            } else {
                let i = choose|i: int| bucket_is(buckets, i, kv);
                assert(bucket_is(after, i, kv));
            }
        }
    }
    assert forall|kv: (Seq<char>, Seq<char>)| lhs.contains_key(kv) implies lhs[kv] == rhs[kv] by {
        let i = choose|i: int| bucket_is(after, i, kv);
        lemma_buckets_map_at(after, i);
        if i < n {
            lemma_buckets_map_at(buckets, i);
            assert(bucket_is(buckets, i, bucket_key(buckets[i])));
        }
    }
    assert(lhs =~= rhs);
}

proof fn lemma_buckets_map_remove(buckets: Seq<TagBucket>, j: int)
    requires
        buckets_ok(buckets),
        0 <= j < buckets.len(),
    ensures
        buckets_ok(buckets.remove(j)),
        buckets_map(buckets.remove(j)) == buckets_map(buckets).remove(bucket_key(buckets[j])),
{
    let after = buckets.remove(j);
    assert forall|a: int, b: int| 0 <= a < b < after.len() implies bucket_key(after[a])
        != bucket_key(after[b]) by {
        let a0 = if a < j { a } else { a + 1 };
        let b0 = if b < j { b } else { b + 1 };
        assert(after[a] == buckets[a0]);
        assert(after[b] == buckets[b0]);
        assert(bucket_key(buckets[a0]) != bucket_key(buckets[b0]));
    }
    assert forall|a: int| 0 <= a < after.len() implies bucket_ok(#[trigger] after[a]) by {
        let a0 = if a < j { a } else { a + 1 };
        assert(after[a] == buckets[a0]);
    }
    let lhs = buckets_map(after);
    let rhs = buckets_map(buckets).remove(bucket_key(buckets[j]));
    assert forall|kv: (Seq<char>, Seq<char>)| lhs.contains_key(kv) <==> rhs.contains_key(kv) by {
        if lhs.contains_key(kv) {
            let a = choose|a: int| bucket_is(after, a, kv);
            let a0 = if a < j { a } else { a + 1 };
            assert(after[a] == buckets[a0]);
            assert(bucket_is(buckets, a0, kv));
            if a0 < j {
                assert(bucket_key(buckets[a0]) != bucket_key(buckets[j]));
            } else {
                assert(bucket_key(buckets[j]) != bucket_key(buckets[a0]));
            }
        }
        if rhs.contains_key(kv) {
            let a0 = choose|a0: int| bucket_is(buckets, a0, kv);
            let a = if a0 < j { a0 } else { a0 - 1 };
            assert(after[a] == buckets[a0]);
            assert(bucket_is(after, a, kv));
        }
    }
    assert forall|kv: (Seq<char>, Seq<char>)| lhs.contains_key(kv) implies lhs[kv] == rhs[kv] by {
        let a = choose|a: int| bucket_is(after, a, kv);
        let a0 = if a < j { a } else { a + 1 };
        assert(after[a] == buckets[a0]);
        lemma_buckets_map_at(after, a);
        lemma_buckets_map_at(buckets, a0);
    }
    assert(lhs =~= rhs);
}

/// Appending a string that is not yet listed adds its text to the set of
/// texts and keeps the list free of repeats.
proof fn lemma_views_push(strings: Seq<String>, s: String)
    requires
        string_views(strings).no_duplicates(),
        !string_views(strings).contains(s@),
    ensures
        string_views(strings.push(s)).no_duplicates(),
        string_views(strings.push(s)).to_set() == string_views(strings).to_set().insert(s@),
        string_views(strings.push(s)) == string_views(strings).push(s@),
{
    let before = string_views(strings);
    let after = string_views(strings.push(s));
    assert(after =~= before.push(s@));
    assert forall|i: int, j: int| 0 <= i < after.len() && 0 <= j < after.len() && i != j implies after[i]
        != after[j] by {
        if i < before.len() && j < before.len() {
            assert(before[i] != before[j]);
        } else if i < before.len() {
            assert(before.contains(before[i]));
        } else {
            assert(before.contains(before[j]));
        }
    }
    assert forall|c: Seq<char>| after.to_set().contains(c) <==> before.to_set().insert(
        s@,
    ).contains(c) by {
        if after.contains(c) {
            let i = choose|i: int| 0 <= i < after.len() && after[i] == c;
            if i < before.len() {
                assert(before[i] == c);
            }
        }
        if before.contains(c) {
            let i = choose|i: int| 0 <= i < before.len() && before[i] == c;
            assert(after[i] == c);
        }
        if c == s@ {
            assert(after[before.len() as int] == c);
        }
    }
    assert(after.to_set() =~= before.to_set().insert(s@));
}

/// Dropping one string from a list without repeats drops its text from the
/// set of texts.
proof fn lemma_views_remove(strings: Seq<String>, m: int)
    requires
        string_views(strings).no_duplicates(),
        0 <= m < strings.len(),
    ensures
        string_views(strings.remove(m)).no_duplicates(),
        string_views(strings.remove(m)).to_set() == string_views(strings).to_set().remove(
            strings[m]@,
        ),
        string_views(strings.remove(m)) == string_views(strings).remove(m),
{
    let before = string_views(strings);
    let after = string_views(strings.remove(m));
    assert(after =~= before.remove(m));
    assert forall|i: int, j: int| 0 <= i < after.len() && 0 <= j < after.len() && i != j implies after[i]
        != after[j] by {
        let i0 = if i < m { i } else { i + 1 };
        let j0 = if j < m { j } else { j + 1 };
        assert(after[i] == before[i0]);
        assert(after[j] == before[j0]);
    }
    assert forall|c: Seq<char>| after.to_set().contains(c) <==> before.to_set().remove(
        strings[m]@,
    ).contains(c) by {
        if after.contains(c) {
            let i = choose|i: int| 0 <= i < after.len() && after[i] == c;
            let i0 = if i < m { i } else { i + 1 };
            assert(before[i0] == c);
            assert(before[m] == strings[m]@);
        }
        if before.contains(c) && c != strings[m]@ {
            let i0 = choose|i0: int| 0 <= i0 < before.len() && before[i0] == c;
            let i = if i0 < m { i0 } else { i0 - 1 };
            assert(after[i] == c);
        }
    }
    assert(after.to_set() =~= before.to_set().remove(strings[m]@));
}

fn find_string(list: &Vec<String>, s: &String) -> (r: Option<usize>)
    ensures
        match r {
            Some(m) => m < list@.len() && list@[m as int]@ == s@,
            None => !string_views(list@).contains(s@),
        },
{
    let mut i: usize = 0;
    while i < list.len()
        invariant
            i <= list@.len(),
            forall|m: int| 0 <= m < i ==> string_views(list@)[m] != s@,
        decreases list@.len() - i,
    {
        if list[i] == *s {
            return Some(i);
        }
        i += 1;
    }
    None
}

fn find_entry(entries: &Vec<TagEntry>, connection_id: &String, key: &String) -> (r: Option<usize>)
    ensures
        match r {
            Some(i) => entry_is(entries@, i as int, (connection_id@, key@)),
            None => !entries_map(entries@).contains_key((connection_id@, key@)),
        },
{
    let mut i: usize = 0;
    while i < entries.len()
        invariant
            i <= entries@.len(),
            forall|m: int| 0 <= m < i ==> !entry_is(entries@, m, (connection_id@, key@)),
        decreases entries@.len() - i,
    {
        if entries[i].connection_id == *connection_id && entries[i].key == *key {
            return Some(i);
        }
        i += 1;
    }
    None
}

fn find_bucket(buckets: &Vec<TagBucket>, key: &String, value: &String) -> (r: Option<usize>)
    ensures
        match r {
            Some(j) => bucket_is(buckets@, j as int, (key@, value@)),
            None => !buckets_map(buckets@).contains_key((key@, value@)),
        },
{
    let mut j: usize = 0;
    while j < buckets.len()
        invariant
            j <= buckets@.len(),
            forall|m: int| 0 <= m < j ==> !bucket_is(buckets@, m, (key@, value@)),
        decreases buckets@.len() - j,
    {
        if buckets[j].key == *key && buckets[j].value == *value {
            return Some(j);
        }
        j += 1;
    }
    None
}

/// Adds `connection_id` to the bucket of (key, value), creating the bucket if
/// it is missing.
fn add_to_bucket(
    buckets: &mut Vec<TagBucket>,
    key: &String,
    value: &String,
    connection_id: &String,
)
    requires
        buckets_ok(old(buckets)@),
        buckets_map(old(buckets)@).contains_key((key@, value@)) ==> !buckets_map(
            old(buckets)@,
        )[(key@, value@)].contains(connection_id@),
    ensures
        buckets_ok(final(buckets)@),
        buckets_map(final(buckets)@) == index_with(
            buckets_map(old(buckets)@),
            key@,
            value@,
            connection_id@,
        ),
{
    let ghost before = buckets_map(buckets@);
    let ghost kv = (key@, value@);
    match find_bucket(buckets, key, value) {
        Some(j) => {
            proof {
                lemma_buckets_map_at(buckets@, j as int);
                lemma_buckets_map_remove(buckets@, j as int);
            }
            let mut bucket = buckets.remove(j);
            proof {
                lemma_views_push(bucket.connections@, *connection_id);
            }
            bucket.connections.push(connection_id.clone());
            proof {
                lemma_buckets_map_push(buckets@, bucket);
                assert(buckets_map(buckets@.push(bucket)) =~= before.insert(
                    kv,
                    before[kv].insert(connection_id@),
                ));
            }
            buckets.push(bucket);
        },
        None => {
            let mut connections: Vec<String> = Vec::new();
            connections.push(connection_id.clone());
            let bucket = TagBucket { key: key.clone(), value: value.clone(), connections };
            proof {
                let views = string_views(bucket.connections@);
                assert(views =~= seq![connection_id@]);
                assert(views.to_set() =~= Set::empty().insert(connection_id@)) by {
                    assert(views[0] == connection_id@);
                    assert forall|c: Seq<char>| views.to_set().contains(c) <==> c
                        == connection_id@ by {
                        if views.contains(c) {
                            let i = choose|i: int| 0 <= i < views.len() && views[i] == c;
                        }
                    }
                }
                lemma_buckets_map_push(buckets@, bucket);
            }
            buckets.push(bucket);
        },
    }
}

/// Takes `connection_id` out of the bucket of (key, value) and drops the
/// bucket if that leaves it without members.
fn remove_from_bucket(
    buckets: &mut Vec<TagBucket>,
    key: &String,
    value: &String,
    connection_id: &String,
)
    requires
        buckets_ok(old(buckets)@),
    ensures
        buckets_ok(final(buckets)@),
        buckets_map(final(buckets)@) == index_without(
            buckets_map(old(buckets)@),
            key@,
            value@,
            connection_id@,
        ),
{
    let ghost before = buckets_map(buckets@);
    let ghost kv = (key@, value@);
    match find_bucket(buckets, key, value) {
        Some(j) => {
            proof {
                lemma_buckets_map_at(buckets@, j as int);
                lemma_buckets_map_remove(buckets@, j as int);
            }
            let mut bucket = buckets.remove(j);
            let ghost members = bucket_members(bucket);
            match find_string(&bucket.connections, connection_id) {
                Some(m) => {
                    proof {
                        lemma_views_remove(bucket.connections@, m as int);
                    }
                    bucket.connections.remove(m);
                    if bucket.connections.len() > 0 {
                        proof {
                            lemma_buckets_map_push(buckets@, bucket);
                            assert(string_views(bucket.connections@)[0] == bucket.connections@[0]@);
                            assert(bucket_members(bucket).contains(bucket.connections@[0]@));
                            assert(buckets_map(buckets@.push(bucket)) =~= before.insert(
                                kv,
                                members.remove(connection_id@),
                            ));
                        }
                        buckets.push(bucket);
                    } else {
                        proof {
                            assert(string_views(bucket.connections@) =~= Seq::empty());
                            assert(members.remove(connection_id@) =~= Set::empty());
                        }
                    }
                },
                None => {
                    proof {
                        lemma_buckets_map_push(buckets@, bucket);
                        assert(members.remove(connection_id@) =~= members);
                        assert(string_views(bucket.connections@)[0] == bucket.connections@[0]@);
                        assert(members.contains(bucket.connections@[0]@));
                        assert(buckets_map(buckets@.push(bucket)) =~= before.insert(kv, members));
                    }
                    buckets.push(bucket);
                },
            }
        },
        None => {},
    }
}

impl View for Tags {
    type V = TagMap;

    /// The tags as a map from (connection id, key) to value.
    closed spec fn view(&self) -> TagMap {
        entries_map(self.connection_tags@)
    }
}

impl Tags {
    /// The index from (key, value) to the connections that carry the pair,
    /// as it is stored.
    pub closed spec fn index_view(&self) -> TagIndex {
        buckets_map(self.tags_to_connection@)
    }

    /// No connection has two values for one key, no bucket is listed twice,
    /// none is without members or lists a member twice, and the stored index
    /// is the exact inverse of the tags.
    pub closed spec fn wf(&self) -> bool {
        &&& entries_unique(self.connection_tags@)
        &&& buckets_ok(self.tags_to_connection@)
        &&& buckets_map(self.tags_to_connection@) == inverse_index(
            entries_map(self.connection_tags@),
        )
    }

    pub fn new() -> (tags: Self)
        ensures
            tags.wf(),
            tags@ == Map::<(Seq<char>, Seq<char>), Seq<char>>::empty(),
    {
        let tags = Self { tags_to_connection: Vec::new(), connection_tags: Vec::new() };
        proof {
            assert(entries_map(tags.connection_tags@) =~= Map::empty());
            assert(buckets_map(tags.tags_to_connection@) =~= inverse_index(
                entries_map(tags.connection_tags@),
            ));
        }
        tags
    }

    /// Drops the tag that `connection_id` has under `key`, if it has one, from
    /// both directions.
    fn drop_entry(&mut self, connection_id: &String, key: &String)
        requires
            old(self).wf(),
        ensures
            final(self).wf(),
            final(self)@ == old(self)@.remove((connection_id@, key@)),
    {
        match find_entry(&self.connection_tags, connection_id, key) {
            Some(i) => {
                proof {
                    lemma_entries_map_at(self.connection_tags@, i as int);
                    lemma_entries_map_remove(self.connection_tags@, i as int);
                    lemma_inverse_remove(self@, connection_id@, key@);
                }
                let entry = self.connection_tags.remove(i);
                remove_from_bucket(&mut self.tags_to_connection, key, &entry.value, connection_id);
            },
            None => {
                proof {
                    assert(self@.remove((connection_id@, key@)) =~= self@);
                }
            },
        }
    }

    /// Gives `connection_id` the tag `key` = `value`. A value that the
    /// connection had under `key` before is replaced, in both directions.
    pub fn add_tag(&mut self, connection_id: &str, key: &str, value: &str)
        requires
            old(self).wf(),
        ensures
            final(self).wf(),
            final(self)@ == old(self)@.insert((connection_id@, key@), value@),
    {
        let connection_id = connection_id.to_owned();
        let key = key.to_owned();
        let value = value.to_owned();
        self.drop_entry(&connection_id, &key);
        proof {
            let ck = (connection_id@, key@);
            assert(!has_tag(self@, connection_id@, key@, value@));
            assert(!tagged_with_value(self@, key@, value@).contains(connection_id@));
            lemma_inverse_insert_fresh(self@, connection_id@, key@, value@);
            assert(old(self)@.remove(ck).insert(ck, value@) =~= old(self)@.insert(ck, value@));
        }
        add_to_bucket(&mut self.tags_to_connection, &key, &value, &connection_id);
        let entry = TagEntry { connection_id, key, value };
        proof {
            lemma_entries_map_push(self.connection_tags@, entry);
        }
        self.connection_tags.push(entry);
    }

    /// Takes the tag `key` from `connection_id`, in both directions. The tag
    /// goes whatever value it has: `value` is the one the caller knows it by.
    pub fn remove_tag(&mut self, connection_id: &str, key: &str, value: &str)
        requires
            old(self).wf(),
        ensures
            final(self).wf(),
            final(self)@ == old(self)@.remove((connection_id@, key@)),
    {
        let connection_id = connection_id.to_owned();
        let key = key.to_owned();
        self.drop_entry(&connection_id, &key);
    }
}

fn clone_strings(list: &Vec<String>) -> (copy: Vec<String>)
    ensures
        copy@ == list@,
{
    let mut copy: Vec<String> = Vec::new();
    let mut i: usize = 0;
    while i < list.len()
        invariant
            i <= list@.len(),
            copy@ == list@.subrange(0, i as int),
        decreases list@.len() - i,
    {
        copy.push(list[i].clone());
        proof {
            assert(copy@ =~= list@.subrange(0, i + 1));
        }
        i += 1;
    }
    proof {
        assert(copy@ =~= list@);
    }
    copy
}

impl Tags {
    /// Drops every tag of `connection_id`, in both directions.
    pub fn remove_connection(&mut self, connection_id: &str)
        requires
            old(self).wf(),
        ensures
            final(self).wf(),
            final(self)@ == without_connection(old(self)@, connection_id@),
            forall|key: Seq<char>| !tagged(final(self)@, key).contains(connection_id@),
            forall|key: Seq<char>, value: Seq<char>|
                !tagged_with_value(final(self)@, key, value).contains(connection_id@),
    {
        let connection_id = connection_id.to_owned();
        let mut i: usize = 0;
        while i < self.connection_tags.len()
            invariant
                self.wf(),
                i <= self.connection_tags@.len(),
                forall|m: int| 0 <= m < i ==> self.connection_tags@[m].connection_id@ != connection_id@,
                forall|ck: (Seq<char>, Seq<char>)|
                    #![trigger old(self)@.contains_key(ck)]
                    ck.0 != connection_id@ && old(self)@.contains_key(ck) ==> self@.contains_key(
                        ck,
                    ),
                forall|ck: (Seq<char>, Seq<char>)|
                    #![trigger self@.contains_key(ck)]
                    self@.contains_key(ck) ==> old(self)@.contains_key(ck) && self@[ck] == old(
                        self,
                    )@[ck],
            decreases self.connection_tags@.len() - i,
        {
            if self.connection_tags[i].connection_id == connection_id {
                let ghost before = self@;
                let ghost removed = entry_key(self.connection_tags@[i as int]);
                proof {
                    lemma_entries_map_at(self.connection_tags@, i as int);
                    lemma_entries_map_remove(self.connection_tags@, i as int);
                    lemma_inverse_remove(self@, removed.0, removed.1);
                }
                let entry = self.connection_tags.remove(i);
                remove_from_bucket(
                    &mut self.tags_to_connection,
                    &entry.key,
                    &entry.value,
                    &entry.connection_id,
                );
                proof {
                    assert(self@ == before.remove(removed));
                    assert forall|ck: (Seq<char>, Seq<char>)|
                        #![trigger self@.contains_key(ck)]
                        self@.contains_key(ck) implies old(self)@.contains_key(ck) && self@[ck]
                        == old(self)@[ck] by {
                        assert(before.contains_key(ck));
                        assert(self@[ck] == before[ck]);
                    }
                }
            } else {
                i += 1;
            }
        }
        proof {
            let target = without_connection(old(self)@, connection_id@);
            assert forall|ck: (Seq<char>, Seq<char>)| self@.contains_key(ck) implies ck.0
                != connection_id@ by {
                let m = choose|m: int| entry_is(self.connection_tags@, m, ck);
            }
            assert(self@ =~= target);
        }
    }

    /// The connections that carry `key` with exactly `value`, each once, or
    /// `None` where there is none.
    pub fn get_tagged_connections_with_value(&self, key: &str, value: &str) -> (found: Option<
        Vec<String>,
    >)
        requires
            self.wf(),
        ensures
            match found {
                Some(list) => {
                    &&& list@.len() > 0
                    &&& string_views(list@).no_duplicates()
                    &&& string_views(list@).to_set() == tagged_with_value(self@, key@, value@)
                },
                None => tagged_with_value(self@, key@, value@) == Set::<Seq<char>>::empty(),
            },
    {
        let key = key.to_owned();
        let value = value.to_owned();
        match find_bucket(&self.tags_to_connection, &key, &value) {
            Some(j) => {
                proof {
                    lemma_buckets_map_at(self.tags_to_connection@, j as int);
                }
                Some(clone_strings(&self.tags_to_connection[j].connections))
            },
            None => {
                proof {
                    let kv = (key@, value@);
                    assert forall|c: Seq<char>| !tagged_with_value(self@, key@, value@).contains(
                        c,
                    ) by {
                        if has_tag(self@, c, key@, value@) {
                            assert(has_tag(self@, c, kv.0, kv.1));
                        }
                    }
                    assert(tagged_with_value(self@, key@, value@) =~= Set::empty());
                }
                None
            },
        }
    }

    /// The connections that carry `key` with any value, each once, or `None`
    /// where there is none.
    pub fn get_tagged_connections(&self, key: &str) -> (found: Option<Vec<String>>)
        requires
            self.wf(),
        ensures
            match found {
                Some(list) => {
                    &&& list@.len() > 0
                    &&& string_views(list@).no_duplicates()
                    &&& string_views(list@).to_set() == tagged(self@, key@)
                },
                None => tagged(self@, key@) == Set::<Seq<char>>::empty(),
            },
    {
        let key = key.to_owned();
        let mut list: Vec<String> = Vec::new();
        let mut i: usize = 0;
        while i < self.connection_tags.len()
            invariant
                self.wf(),
                i <= self.connection_tags@.len(),
                string_views(list@).no_duplicates(),
                forall|c: Seq<char>|
                    string_views(list@).contains(c) <==> exists|m: int|
                        0 <= m < i && entry_is(self.connection_tags@, m, (c, key@)),
            decreases self.connection_tags@.len() - i,
        {
            if self.connection_tags[i].key == key {
                let id = self.connection_tags[i].connection_id.clone();
                let ghost before = string_views(list@);
                proof {
                    if before.contains(id@) {
                        let m = choose|m: int|
                            0 <= m < i && entry_is(self.connection_tags@, m, (id@, key@));
                        assert(entry_key(self.connection_tags@[m]) != entry_key(
                            self.connection_tags@[i as int],
                        ));
                    }
                    lemma_views_push(list@, id);
                }
                list.push(id);
                proof {
                    let after = string_views(list@);
                    assert forall|c: Seq<char>| after.contains(c) <==> exists|m: int|
                        0 <= m < i + 1 && entry_is(self.connection_tags@, m, (c, key@)) by {
                        if after.contains(c) {
                            let x = choose|x: int| 0 <= x < after.len() && after[x] == c;
                            if x < before.len() {
                                assert(before.contains(c));
                                let m = choose|m: int|
                                    0 <= m < i && entry_is(self.connection_tags@, m, (c, key@));
                                assert(0 <= m < i + 1 && entry_is(
                                    self.connection_tags@,
                                    m,
                                    (c, key@),
                                ));
                            } else {
                                assert(entry_is(self.connection_tags@, i as int, (c, key@)));
                            }
                        }
                        if exists|m: int|
                            0 <= m < i + 1 && entry_is(self.connection_tags@, m, (c, key@)) {
                            let m = choose|m: int|
                                0 <= m < i + 1 && entry_is(self.connection_tags@, m, (c, key@));
                            if m < i {
                                assert(before.contains(c));
                                let x = choose|x: int| 0 <= x < before.len() && before[x] == c;
                                assert(after[x] == c);
                            } else {
                                assert(after[before.len() as int] == c);
                            }
                        }
                    }
                }
            } else {
                proof {
                    assert forall|c: Seq<char>| string_views(list@).contains(c) <==> exists|m: int|
                        0 <= m < i + 1 && entry_is(self.connection_tags@, m, (c, key@)) by {
                        if exists|m: int|
                            0 <= m < i + 1 && entry_is(self.connection_tags@, m, (c, key@)) {
                            let m = choose|m: int|
                                0 <= m < i + 1 && entry_is(self.connection_tags@, m, (c, key@));
                            assert(m < i);
                        }
                        if string_views(list@).contains(c) {
                            let m = choose|m: int|
                                0 <= m < i && entry_is(self.connection_tags@, m, (c, key@));
                            assert(0 <= m < i + 1 && entry_is(
                                self.connection_tags@,
                                m,
                                (c, key@),
                            ));
                        }
                    }
                }
            }
            i += 1;
        }
        proof {
            let views = string_views(list@);
            assert forall|c: Seq<char>| views.to_set().contains(c) <==> tagged(self@, key@).contains(
                c,
            ) by {
                if views.contains(c) {
                    let m = choose|m: int|
                        0 <= m < i && entry_is(self.connection_tags@, m, (c, key@));
                    assert(entry_is(self.connection_tags@, m, (c, key@)));
                }
                if self@.contains_key((c, key@)) {
                    let m = choose|m: int| entry_is(self.connection_tags@, m, (c, key@));
                    assert(0 <= m < i && entry_is(self.connection_tags@, m, (c, key@)));
                }
            }
            assert(views.to_set() =~= tagged(self@, key@));
            if list@.len() > 0 {
                assert(views[0] == list@[0]@);
            } else {
                assert(views =~= Seq::empty());
                assert(tagged(self@, key@) =~= Set::empty());
            }
        }
        if list.len() == 0 {
            None
        } else {
            Some(list)
        }
    }
}

/// The two directions of a well-formed tag index agree: a connection is
/// listed under (key, value) exactly if it carries `key` with `value`, and
/// every bucket that exists is finite and has a member.
pub proof fn lemma_tag_index_round_trip(tags: Tags)
    requires
        tags.wf(),
    ensures
        tags.index_view() == inverse_index(tags@),
        forall|connection_id: Seq<char>, key: Seq<char>, value: Seq<char>|
            #![trigger has_tag(tags@, connection_id, key, value)]
            has_tag(tags@, connection_id, key, value) <==> (tags.index_view().contains_key(
                (key, value),
            ) && tags.index_view()[(key, value)].contains(connection_id)),
        forall|kv: (Seq<char>, Seq<char>)| #[trigger]
            tags.index_view().contains_key(kv) ==> tags.index_view()[kv].finite()
                && tags.index_view()[kv].len() > 0,
{
    let index = tags.index_view();
    assert forall|connection_id: Seq<char>, key: Seq<char>, value: Seq<char>|
        #![trigger has_tag(tags@, connection_id, key, value)]
        has_tag(tags@, connection_id, key, value) <==> (index.contains_key((key, value))
            && index[(key, value)].contains(connection_id)) by {
        let kv = (key, value);
        if has_tag(tags@, connection_id, key, value) {
            assert(has_tag(tags@, connection_id, kv.0, kv.1));
        }
    }
    assert forall|kv: (Seq<char>, Seq<char>)| #[trigger] index.contains_key(kv) implies index[kv].finite()
        && index[kv].len() > 0 by {
        let j = choose|j: int| bucket_is(tags.tags_to_connection@, j, kv);
        lemma_buckets_map_at(tags.tags_to_connection@, j);
        let views = string_views(tags.tags_to_connection@[j].connections@);
        vstd::seq_lib::seq_to_set_is_finite(views);
        assert(views[0] == tags.tags_to_connection@[j].connections@[0]@);
        assert(views.to_set().contains(views[0]));
        if views.to_set().len() == 0 {
            views.to_set().lemma_len0_is_empty();
        }
    }
}

} // verus!
