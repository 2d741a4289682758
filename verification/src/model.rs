//! The index as mathematics: a map from each key to the postings filed under
//! it, and what populating and scoring mean on such a map.

use crate::frontend::{LocationView, OriginView, SourceView};
use vstd::prelude::*;

verus! {

/// The postings filed under `key`; none where the key was never seen.
pub open spec fn bucket(postings: Map<u64, Seq<SourceView>>, key: u64) -> Seq<SourceView> {
    if postings.contains_key(key) {
        postings[key]
    } else {
        Seq::empty()
    }
}

/// Some posting of `bucket` belongs to `origin`.
pub open spec fn has_origin(bucket: Seq<SourceView>, origin: OriginView) -> bool {
    exists|i: int| 0 <= i < bucket.len() && (#[trigger] bucket[i]).origin == origin
}

/// No two postings of `bucket` belong to the same origin.
pub open spec fn one_per_origin(bucket: Seq<SourceView>) -> bool {
    forall|i: int, j: int|
        0 <= i < j < bucket.len() ==> (#[trigger] bucket[i]).origin != (#[trigger] bucket[j]).origin
}

/// The distinct fingerprints recorded for `origin`.
pub open spec fn keys_of(postings: Map<u64, Seq<SourceView>>, origin: OriginView) -> Set<u64> {
    Set::new(|key: u64| has_origin(bucket(postings, key), origin))
}

/// `key` speaks for a likeness with `origin`: it was recorded for `origin`,
/// and it was not recorded for exempted code.
pub open spec fn evidence(
    postings: Map<u64, Seq<SourceView>>,
    key: u64,
    origin: OriginView,
) -> bool {
    has_origin(bucket(postings, key), origin) && !has_origin(
        bucket(postings, key),
        OriginView::Allowed,
    )
}

/// Those of `keys` that speak for a likeness with `origin`.
pub open spec fn shared_keys(
    postings: Map<u64, Seq<SourceView>>,
    keys: Set<u64>,
    origin: OriginView,
) -> Set<u64> {
    keys.filter(|key: u64| evidence(postings, key, origin))
}

/// The distinct keys among a run of fingerprints.
pub open spec fn key_set(fps: Seq<(u64, LocationView)>) -> Set<u64> {
    Set::new(|key: u64| exists|i: int| 0 <= i < fps.len() && (#[trigger] fps[i]).0 == key)
}

/// Where `key` first occurs in `fps`.
pub open spec fn first_index(fps: Seq<(u64, LocationView)>, key: u64) -> int {
    choose|i: int|
        0 <= i < fps.len() && (#[trigger] fps[i]).0 == key && forall|j: int|
            0 <= j < i ==> (#[trigger] fps[j]).0 != key
}

/// The postings after the fingerprints `fps` of `origin` have been filed:
/// each key among them that had no posting of `origin` gets one, at the end of
/// its bucket, with the location of the key's first occurrence in `fps`;
/// every other bucket is as it was.
pub open spec fn populated(
    postings: Map<u64, Seq<SourceView>>,
    origin: OriginView,
    fps: Seq<(u64, LocationView)>,
) -> Map<u64, Seq<SourceView>> {
    Map::new(
        |key: u64| postings.contains_key(key) || key_set(fps).contains(key),
        |key: u64|
            if key_set(fps).contains(key) && !has_origin(bucket(postings, key), origin) {
                bucket(postings, key).push(
                    SourceView { origin, loc: fps[first_index(fps, key)].1 },
                )
            } else {
                bucket(postings, key)
            },
    )
}

/// The postings after one more fingerprint of `origin` has been filed.
pub open spec fn filed(
    postings: Map<u64, Seq<SourceView>>,
    origin: OriginView,
    key: u64,
    loc: LocationView,
) -> Map<u64, Seq<SourceView>> {
    if has_origin(bucket(postings, key), origin) {
        postings
    } else {
        postings.insert(key, bucket(postings, key).push(SourceView { origin, loc }))
    }
}

/// A bucket with one more posting holds the origins it held, and that of the
/// new posting.
pub proof fn lemma_has_origin_push(b: Seq<SourceView>, x: SourceView, origin: OriginView)
    ensures
        has_origin(b.push(x), origin) <==> has_origin(b, origin) || x.origin == origin,
{
    let c = b.push(x);
    if has_origin(b, origin) {
        let i = choose|i: int| 0 <= i < b.len() && (#[trigger] b[i]).origin == origin;
        assert(c[i].origin == origin);
    }
    if x.origin == origin {
        assert(c[b.len() as int].origin == origin);
    }
}

/// A posting of an origin that a bucket does not hold yet can be added
/// without any origin standing twice.
pub proof fn lemma_one_per_origin_push(b: Seq<SourceView>, x: SourceView)
    requires
        one_per_origin(b),
        !has_origin(b, x.origin),
    ensures
        one_per_origin(b.push(x)),
{
}

/// A run of fingerprints has finitely many keys, and no more than it has
/// fingerprints.
pub proof fn lemma_key_set_finite(fps: Seq<(u64, LocationView)>)
    ensures
        key_set(fps).finite(),
        key_set(fps).len() <= fps.len(),
    decreases fps.len(),
{
    if fps.len() == 0 {
        assert(key_set(fps) =~= Set::<u64>::empty());
    } else {
        lemma_key_set_finite(fps.drop_last());
        lemma_key_set_push(fps.drop_last(), fps.last());
        assert(fps.drop_last().push(fps.last()) == fps);
    }
}

/// One more fingerprint adds its key to the keys.
pub proof fn lemma_key_set_push(fps: Seq<(u64, LocationView)>, fp: (u64, LocationView))
    ensures
        key_set(fps.push(fp)) == key_set(fps).insert(fp.0),
{
    let more = fps.push(fp);
    assert forall|key: u64| key_set(more).contains(key) <==> key_set(fps).insert(fp.0).contains(
        key,
    ) by {
        if key_set(fps).contains(key) {
            let i = choose|i: int| 0 <= i < fps.len() && (#[trigger] fps[i]).0 == key;
            assert(more[i].0 == key);
        }
        if key == fp.0 {
            assert(more[fps.len() as int].0 == key);
        }
    }
}

/// A key that occurs at `i` has a first occurrence, at `i` or before.
proof fn lemma_first_exists(fps: Seq<(u64, LocationView)>, key: u64, i: int)
    requires
        0 <= i < fps.len(),
        fps[i].0 == key,
    ensures
        exists|m: int|
            0 <= m < fps.len() && (#[trigger] fps[m]).0 == key && forall|j: int|
                0 <= j < m ==> (#[trigger] fps[j]).0 != key,
    decreases i,
{
    if exists|j: int| 0 <= j < i && (#[trigger] fps[j]).0 == key {
        let j = choose|j: int| 0 <= j < i && (#[trigger] fps[j]).0 == key;
        lemma_first_exists(fps, key, j);
    }
}

/// A key that occurs in `fps` has a first occurrence there.
pub proof fn lemma_first_index(fps: Seq<(u64, LocationView)>, key: u64)
    requires
        key_set(fps).contains(key),
    ensures
        0 <= first_index(fps, key) < fps.len(),
        fps[first_index(fps, key)].0 == key,
        forall|j: int| 0 <= j < first_index(fps, key) ==> (#[trigger] fps[j]).0 != key,
{
    let i = choose|i: int| 0 <= i < fps.len() && (#[trigger] fps[i]).0 == key;
    lemma_first_exists(fps, key, i);
}

/// The first occurrence of a key is the only index that holds the key and has
/// no occurrence before it.
pub proof fn lemma_first_index_is(fps: Seq<(u64, LocationView)>, key: u64, m: int)
    requires
        0 <= m < fps.len(),
        fps[m].0 == key,
        forall|j: int| 0 <= j < m ==> (#[trigger] fps[j]).0 != key,
    ensures
        first_index(fps, key) == m,
{
    lemma_first_index(fps, key);
    let f = first_index(fps, key);
}

/// Filing nothing changes nothing.
pub proof fn lemma_populated_nothing(postings: Map<u64, Seq<SourceView>>, origin: OriginView)
    ensures
        populated(postings, origin, Seq::empty()) == postings,
{
}

/// Filing a run of fingerprints and then one more is filing the longer run.
pub proof fn lemma_populated_step(
    postings: Map<u64, Seq<SourceView>>,
    origin: OriginView,
    fps: Seq<(u64, LocationView)>,
    fp: (u64, LocationView),
)
    ensures
        filed(populated(postings, origin, fps), origin, fp.0, fp.1) == populated(
            postings,
            origin,
            fps.push(fp),
        ),
{
    let before = populated(postings, origin, fps);
    let after = populated(postings, origin, fps.push(fp));
    let more = fps.push(fp);
    let step = filed(before, origin, fp.0, fp.1);
    lemma_key_set_push(fps, fp);
    assert forall|key: u64| #[trigger] step.contains_key(key) implies step[key] == after[key] by {
        let old = bucket(postings, key);
        if key_set(fps).contains(key) {
            lemma_first_index(fps, key);
            let f = first_index(fps, key);
            lemma_first_index_is(more, key, f);
            if !has_origin(old, origin) {
                lemma_has_origin_push(old, SourceView { origin, loc: fps[f].1 }, origin);
            }
        } else if key == fp.0 {
            lemma_first_index_is(more, key, fps.len() as int);
        }
    }
}

/// Whose postings a bucket holds after populating: those it held, and one of
/// `origin` where the key is among the fingerprints filed.
pub proof fn lemma_populated_origins(
    postings: Map<u64, Seq<SourceView>>,
    origin: OriginView,
    fps: Seq<(u64, LocationView)>,
    key: u64,
    other: OriginView,
)
    ensures
        has_origin(bucket(populated(postings, origin, fps), key), other) <==> has_origin(
            bucket(postings, key),
            other,
        ) || (other == origin && key_set(fps).contains(key)),
{
    let old = bucket(postings, key);
    if key_set(fps).contains(key) && !has_origin(old, origin) {
        lemma_has_origin_push(old, SourceView { origin, loc: fps[first_index(fps, key)].1 }, other);
    }
}

/// Every key recorded for an origin is a key of the index.
pub proof fn lemma_keys_of_subset(postings: Map<u64, Seq<SourceView>>, origin: OriginView)
    ensures
        keys_of(postings, origin).subset_of(postings.dom()),
{
}

/// Filing one fingerprint of `origin` under `key` adds `key` to the keys of
/// `origin`, and leaves the keys of every other origin as they were.
pub proof fn lemma_filed_keys(
    postings: Map<u64, Seq<SourceView>>,
    origin: OriginView,
    key: u64,
    loc: LocationView,
    other: OriginView,
)
    ensures
        keys_of(filed(postings, origin, key, loc), other) == (if other == origin {
            keys_of(postings, origin).insert(key)
        } else {
            keys_of(postings, other)
        }),
{
    let after = filed(postings, origin, key, loc);
    let expected = if other == origin {
        keys_of(postings, origin).insert(key)
    } else {
        keys_of(postings, other)
    };
    assert forall|k: u64| keys_of(after, other).contains(k) <==> expected.contains(k) by {
        if !has_origin(bucket(postings, key), origin) && k == key {
            lemma_has_origin_push(bucket(postings, key), SourceView { origin, loc }, other);
        }
    }
}

/// The keys that speak for a likeness with `origin` are among the keys
/// asked about, and among the keys recorded for `origin`.
pub proof fn lemma_shared_keys_bounds(
    postings: Map<u64, Seq<SourceView>>,
    keys: Set<u64>,
    origin: OriginView,
)
    requires
        keys.finite(),
        postings.dom().finite(),
    ensures
        shared_keys(postings, keys, origin).finite(),
        keys_of(postings, origin).finite(),
        shared_keys(postings, keys, origin).len() <= keys.len(),
        shared_keys(postings, keys, origin).len() <= keys_of(postings, origin).len(),
{
    let shared = shared_keys(postings, keys, origin);
    lemma_keys_of_subset(postings, origin);
    vstd::set_lib::lemma_len_subset(keys_of(postings, origin), postings.dom());
    vstd::set_lib::lemma_len_subset(shared, keys);
    vstd::set_lib::lemma_len_subset(shared, keys_of(postings, origin));
}

/// One more key asked about is one more key shared where it speaks for a
/// likeness with `origin`, and none more where it does not.
pub proof fn lemma_shared_keys_insert(
    postings: Map<u64, Seq<SourceView>>,
    keys: Set<u64>,
    key: u64,
    origin: OriginView,
)
    requires
        keys.finite(),
        !keys.contains(key),
    ensures
        shared_keys(postings, keys.insert(key), origin).len() == shared_keys(
            postings,
            keys,
            origin,
        ).len() + (if evidence(postings, key, origin) {
            1nat
        } else {
            0nat
        }),
{
    let before = shared_keys(postings, keys, origin);
    let after = shared_keys(postings, keys.insert(key), origin);
    vstd::set_lib::lemma_len_subset(before, keys);
    if evidence(postings, key, origin) {
        assert(after =~= before.insert(key));
    } else {
        assert(after =~= before);
    }
}

} // verus!
