//! The mathematical model of the tag index: a map from (connection id, key)
//! to value, the index derived from it in the other direction, and the facts
//! that relate the two when the map changes.

use vstd::prelude::*;

verus! {

/// Tags as a map: (connection id, key) to value.
pub type TagMap = Map<(Seq<char>, Seq<char>), Seq<char>>;

/// The index in the other direction: (key, value) to the connections that
/// carry that pair.
pub type TagIndex = Map<(Seq<char>, Seq<char>), Set<Seq<char>>>;

/// The texts of a list of strings, in order.
pub open spec fn string_views(strings: Seq<String>) -> Seq<Seq<char>> {
    Seq::new(strings.len(), |i: int| strings[i]@)
}

/// Whether `connection_id` carries `key` with exactly `value`.
pub open spec fn has_tag(
    tags: TagMap,
    connection_id: Seq<char>,
    key: Seq<char>,
    value: Seq<char>,
) -> bool {
    tags.contains_key((connection_id, key)) && tags[(connection_id, key)] == value
}

/// The connections that carry `key` with exactly `value`.
pub open spec fn tagged_with_value(tags: TagMap, key: Seq<char>, value: Seq<char>) -> Set<
    Seq<char>,
> {
    Set::new(|c: Seq<char>| has_tag(tags, c, key, value))
}

/// The connections that carry `key`, whatever the value.
pub open spec fn tagged(tags: TagMap, key: Seq<char>) -> Set<Seq<char>> {
    Set::new(|c: Seq<char>| tags.contains_key((c, key)))
}

/// The tags that are left when every tag of `connection_id` is dropped.
pub open spec fn without_connection(tags: TagMap, connection_id: Seq<char>) -> TagMap {
    tags.restrict(Set::new(|ck: (Seq<char>, Seq<char>)| ck.0 != connection_id))
}

/// The exact inverse of `tags`: a (key, value) pair is present if and only if
/// some connection carries it, and it maps to all connections that do.
pub open spec fn inverse_index(tags: TagMap) -> TagIndex {
    Map::new(
        |kv: (Seq<char>, Seq<char>)| exists|c: Seq<char>| #[trigger] has_tag(tags, c, kv.0, kv.1),
        |kv: (Seq<char>, Seq<char>)| tagged_with_value(tags, kv.0, kv.1),
    )
}

/// `index` with `connection_id` added to the bucket of (key, value), which is
/// created if it is missing.
pub open spec fn index_with(
    index: TagIndex,
    key: Seq<char>,
    value: Seq<char>,
    connection_id: Seq<char>,
) -> TagIndex {
    if index.contains_key((key, value)) {
        index.insert((key, value), index[(key, value)].insert(connection_id))
    } else {
        index.insert((key, value), Set::empty().insert(connection_id))
    }
}

/// `index` with `connection_id` taken out of the bucket of (key, value); a
/// bucket that this leaves without members is dropped.
pub open spec fn index_without(
    index: TagIndex,
    key: Seq<char>,
    value: Seq<char>,
    connection_id: Seq<char>,
) -> TagIndex {
    if !index.contains_key((key, value)) {
        index
    } else if index[(key, value)].remove(connection_id) =~= Set::empty() {
        index.remove((key, value))
    } else {
        index.insert((key, value), index[(key, value)].remove(connection_id))
    }
}

/// Giving a connection a tag it did not have adds it to one bucket.
pub proof fn lemma_inverse_insert_fresh(
    tags: TagMap,
    connection_id: Seq<char>,
    key: Seq<char>,
    value: Seq<char>,
)
    requires
        !tags.contains_key((connection_id, key)),
    ensures
        inverse_index(tags.insert((connection_id, key), value)) == index_with(
            inverse_index(tags),
            key,
            value,
            connection_id,
        ),
{
    let after = tags.insert((connection_id, key), value);
    let lhs = inverse_index(after);
    let rhs = index_with(inverse_index(tags), key, value, connection_id);
    assert(has_tag(after, connection_id, key, value));
    assert forall|kv: (Seq<char>, Seq<char>)| lhs.contains_key(kv) <==> rhs.contains_key(kv) by {
        if lhs.contains_key(kv) {
            let c = choose|c: Seq<char>| #[trigger] has_tag(after, c, kv.0, kv.1);
            if kv != (key, value) {
                assert(has_tag(tags, c, kv.0, kv.1));
            }
        }
        if rhs.contains_key(kv) {
            if kv == (key, value) {
                assert(has_tag(after, connection_id, kv.0, kv.1));
            } else {
                let c = choose|c: Seq<char>| #[trigger] has_tag(tags, c, kv.0, kv.1);
                assert(has_tag(after, c, kv.0, kv.1));
            }
        }
    }
    assert forall|kv: (Seq<char>, Seq<char>)| lhs.contains_key(kv) implies lhs[kv] =~= rhs[kv] by {
        assert forall|c: Seq<char>| lhs[kv].contains(c) <==> rhs[kv].contains(c) by {
            if kv == (key, value) {
                if inverse_index(tags).contains_key(kv) {
                } else {
                    if c != connection_id && has_tag(after, c, key, value) {
                        assert(has_tag(tags, c, kv.0, kv.1));
                    }
                }
            }
        }
    }
    assert(lhs =~= rhs);
}

/// Taking a tag from a connection takes it out of one bucket.
pub proof fn lemma_inverse_remove(tags: TagMap, connection_id: Seq<char>, key: Seq<char>)
    requires
        tags.contains_key((connection_id, key)),
    ensures
        inverse_index(tags.remove((connection_id, key))) == index_without(
            inverse_index(tags),
            key,
            tags[(connection_id, key)],
            connection_id,
        ),
{
    let value = tags[(connection_id, key)];
    let after = tags.remove((connection_id, key));
    let before_index = inverse_index(tags);
    let lhs = inverse_index(after);
    let rhs = index_without(before_index, key, value, connection_id);
    assert(has_tag(tags, connection_id, key, value));
    let kv0 = (key, value);
    assert(has_tag(tags, connection_id, kv0.0, kv0.1));
    assert(before_index.contains_key(kv0));
    let rest = before_index[(key, value)].remove(connection_id);
    assert forall|kv: (Seq<char>, Seq<char>)| lhs.contains_key(kv) <==> rhs.contains_key(kv) by {
        if lhs.contains_key(kv) {
            let c = choose|c: Seq<char>| #[trigger] has_tag(after, c, kv.0, kv.1);
            assert(has_tag(tags, c, kv.0, kv.1));
            if kv == (key, value) {
                assert(rest.contains(c));
            }
        }
        if rhs.contains_key(kv) {
            if kv == (key, value) {
                assert(!(rest =~= Set::empty()));
                let c = choose|c: Seq<char>| rest.contains(c);
                assert(has_tag(after, c, kv.0, kv.1));
            } else {
                let c = choose|c: Seq<char>| #[trigger] has_tag(tags, c, kv.0, kv.1);
                assert(has_tag(after, c, kv.0, kv.1));
            }
        }
    }
    assert forall|kv: (Seq<char>, Seq<char>)| lhs.contains_key(kv) implies lhs[kv] =~= rhs[kv] by {
        assert forall|c: Seq<char>| lhs[kv].contains(c) <==> rhs[kv].contains(c) by {}
    }
    assert(lhs =~= rhs);
}

} // verus!
