//! What holds of fingerprinting, populating and scoring, whatever the
//! submissions are.

use crate::backend::{self, MatchView, Threshold};
use crate::frontend::{self, Location, LocationView, OriginView, SourceView, Token};
use crate::model;
use crate::ngram;
use crate::strategy::{self, Strategy};
use vstd::prelude::*;

verus! {

/// The keys of a run of fingerprints, in order.
pub open spec fn keys_in_order(fps: Seq<(u64, LocationView)>) -> Seq<u64> {
    Seq::new(fps.len(), |i: int| fps[i].0)
}

/// A stream of `len` tokens has `len - n + 1` fingerprints for windows of
/// width `n`, and none where it is shorter than a window.
pub proof fn lemma_fingerprint_count<T, S: Strategy<T>>(
    stream: Seq<(T, Location)>,
    n: nat,
    strategy: S,
)
    requires
        n >= 1,
    ensures
        ngram::fingerprints_of(stream, n, strategy).len() == (if stream.len() >= n {
            stream.len() - n + 1
        } else {
            0
        }),
{
}

/// The key of a window depends on its tokens alone: two streams with the
/// same tokens have the same keys, window by window, wherever their tokens
/// were seen.
pub proof fn lemma_same_tokens_same_keys<T, S: Strategy<T>>(
    a: Seq<(T, Location)>,
    b: Seq<(T, Location)>,
    n: nat,
    strategy: S,
)
    requires
        frontend::tokens_of(a) == frontend::tokens_of(b),
    ensures
        keys_in_order(ngram::fingerprints_of(a, n, strategy)) == keys_in_order(
            ngram::fingerprints_of(b, n, strategy),
        ),
        model::key_set(ngram::fingerprints_of(a, n, strategy))
            == model::key_set(ngram::fingerprints_of(b, n, strategy)),
{
    let fa = ngram::fingerprints_of(a, n, strategy);
    let fb = ngram::fingerprints_of(b, n, strategy);
    assert(b.len() == frontend::tokens_of(b).len());
    assert forall|i: int| 0 <= i < fa.len() implies fa[i].0 == fb[i].0 by {
        let wa = a.subrange(i, i + n);
        let wb = b.subrange(i, i + n);
        assert forall|j: int| 0 <= j < n implies frontend::tokens_of(wa)[j]
            == frontend::tokens_of(wb)[j] by {
            assert(frontend::tokens_of(b)[i + j] == b[i + j].0);
        }
        assert(frontend::tokens_of(wa) =~= frontend::tokens_of(wb));
    }
}

/// Fingerprints whose keys all differ have as many distinct keys as there are
/// fingerprints.
pub proof fn lemma_distinct_keys_count(fps: Seq<(u64, LocationView)>)
    requires
        forall|i: int, j: int|
            0 <= i < j < fps.len() ==> (#[trigger] fps[i]).0 != (#[trigger] fps[j]).0,
    ensures
        model::key_set(fps).len() == fps.len(),
    decreases fps.len(),
{
    if fps.len() == 0 {
        assert(model::key_set(fps) =~= Set::<u64>::empty());
    } else {
        let init = fps.drop_last();
        lemma_distinct_keys_count(init);
        model::lemma_key_set_finite(init);
        model::lemma_key_set_push(init, fps.last());
        assert(init.push(fps.last()) == fps);
    }
}

/// A window that does not read the same backwards is fed to the hasher of the
/// default strategy in another order of bytes when it is reversed, as long as
/// no two different tokens of it have the same bytes.
pub proof fn lemma_reversal_changes_what_is_hashed<T: Token>(window: Seq<T>)
    requires
        window.reverse() != window,
        forall|i: int, j: int|
            0 <= i < window.len() && 0 <= j < window.len() && (#[trigger] window[i]).encoding() == (
            #[trigger] window[j]).encoding() ==> window[i] == window[j],
    ensures
        strategy::encodings(window.reverse()) != strategy::encodings(window),
{
    let back = window.reverse();
    if strategy::encodings(back) == strategy::encodings(window) {
        assert forall|i: int| 0 <= i < window.len() implies back[i] == window[i] by {
            assert(strategy::encodings(window)[i] == window[i].encoding());
        }
        assert(back =~= window);
    }
}

/// Two integer tokens with the same bytes are the same token.
pub proof fn lemma_integer_encoding_is_injective(a: u64, b: u64)
    requires
        a.encoding() == b.encoding(),
    ensures
        a == b,
{
    vstd::bytes::lemma_auto_spec_u64_to_from_le_bytes();
    assert(vstd::bytes::spec_u64_from_le_bytes(vstd::bytes::spec_u64_to_le_bytes(a)) == a);
    assert(vstd::bytes::spec_u64_from_le_bytes(vstd::bytes::spec_u64_to_le_bytes(b)) == b);
}

/// Populating adds the keys filed to those of `origin`, and leaves the keys
/// of every other origin as they were.
pub proof fn lemma_populate_adds_keys(
    postings: Map<u64, Seq<SourceView>>,
    origin: OriginView,
    fps: Seq<(u64, LocationView)>,
    other: OriginView,
)
    ensures
        model::keys_of(model::populated(postings, origin, fps), other) == (if other
            == origin {
            model::keys_of(postings, other).union(model::key_set(fps))
        } else {
            model::keys_of(postings, other)
        }),
{
    let after = model::populated(postings, origin, fps);
    let before = model::keys_of(postings, other);
    assert forall|key: u64|
        model::keys_of(after, other).contains(key) <==> (before.contains(key) || (other
            == origin && model::key_set(fps).contains(key))) by {
        model::lemma_populated_origins(postings, origin, fps, key, other);
    }
}

/// Populating keeps to one posting per origin in every bucket.
pub proof fn lemma_populate_keeps_one_per_origin(
    postings: Map<u64, Seq<SourceView>>,
    origin: OriginView,
    fps: Seq<(u64, LocationView)>,
    key: u64,
)
    requires
        model::one_per_origin(model::bucket(postings, key)),
    ensures
        model::one_per_origin(
            model::bucket(model::populated(postings, origin, fps), key),
        ),
{
    let held = model::bucket(postings, key);
    if model::key_set(fps).contains(key) && !model::has_origin(held, origin) {
        model::lemma_one_per_origin_push(
            held,
            SourceView { origin, loc: fps[model::first_index(fps, key)].1 },
        );
    }
}

/// A window of integer tokens that does not read the same backwards is fed
/// to the hasher of the default strategy in another order of bytes when it is
/// reversed.
pub proof fn lemma_reversal_changes_what_is_hashed_of_integers(window: Seq<u64>)
    requires
        window.reverse() != window,
    ensures
        strategy::encodings(window.reverse()) != strategy::encodings(window),
{
    assert forall|i: int, j: int|
        0 <= i < window.len() && 0 <= j < window.len() && (#[trigger] window[i]).encoding() == (
        #[trigger] window[j]).encoding() implies window[i] == window[j] by {
        lemma_integer_encoding_is_injective(window[i], window[j]);
    }
    lemma_reversal_changes_what_is_hashed(window);
}

/// Populating only ever adds to a bucket, at its end.
pub proof fn lemma_populate_appends(
    postings: Map<u64, Seq<SourceView>>,
    origin: OriginView,
    fps: Seq<(u64, LocationView)>,
    key: u64,
)
    ensures
        model::bucket(postings, key).is_prefix_of(
            model::bucket(model::populated(postings, origin, fps), key),
        ),
{
}

/// Populating a submission a second time changes nothing.
pub proof fn lemma_populate_twice(
    postings: Map<u64, Seq<SourceView>>,
    origin: OriginView,
    fps: Seq<(u64, LocationView)>,
)
    ensures
        model::populated(model::populated(postings, origin, fps), origin, fps)
            == model::populated(postings, origin, fps),
{
    let once = model::populated(postings, origin, fps);
    let twice = model::populated(once, origin, fps);
    assert forall|key: u64| #[trigger] twice.contains_key(key) implies twice[key] == once[key] by {
        model::lemma_populated_origins(postings, origin, fps, key, origin);
    }
}

/// A submission that is scored against an index that holds nothing but
/// postings of its own origin is matched with nobody.
pub proof fn lemma_alone_scores_nothing(
    postings: Map<u64, Seq<SourceView>>,
    this: OriginView,
    keys: Set<u64>,
    kj: Threshold,
    km: Threshold,
    m: MatchView,
)
    requires
        forall|key: u64, other: OriginView| #[trigger]
            model::has_origin(model::bucket(postings, key), other) ==> other == this,
    ensures
        !backend::reported(postings, this, keys, kj, km, m),
{
    if m.that != this {
        let shared = model::shared_keys(postings, keys, m.that);
        assert(shared =~= Set::<u64>::empty());
    }
}

/// A submission that is scored against an index that was populated with
/// nothing but itself is matched with nobody.
pub proof fn lemma_self_scores_nothing(
    this: OriginView,
    fps: Seq<(u64, LocationView)>,
    kj: Threshold,
    km: Threshold,
    m: MatchView,
)
    ensures
        !backend::reported(
            model::populated(Map::empty(), this, fps),
            this,
            model::key_set(fps),
            kj,
            km,
            m,
        ),
{
    let postings = model::populated(Map::<u64, Seq<SourceView>>::empty(), this, fps);
    assert forall|key: u64, other: OriginView| #[trigger]
        model::has_origin(model::bucket(postings, key), other) implies other
        == this by {
        model::lemma_populated_origins(Map::empty(), this, fps, key, other);
    }
    lemma_alone_scores_nothing(postings, this, model::key_set(fps), kj, km, m);
}

/// Two submissions, neither of exempted code, whose fingerprints have the
/// same keys, and an index populated with these two: the match of the one
/// against the other has every key in common, so that the intersection, the
/// size of either side, the union and the smaller side are all the number of
/// distinct keys, and both scores are exactly one.
pub proof fn lemma_identical_submissions(
    a: OriginView,
    b: OriginView,
    fa: Seq<(u64, LocationView)>,
    fb: Seq<(u64, LocationView)>,
)
    requires
        a != b,
        a != OriginView::Allowed,
        b != OriginView::Allowed,
        model::key_set(fa) == model::key_set(fb),
    ensures
        ({
            let postings = model::populated(
                model::populated(Map::empty(), a, fa),
                b,
                fb,
            );
            let m = backend::match_for(postings, a, model::key_set(fa), b);
            &&& m.intersection == model::key_set(fa).len()
            &&& m.this_count == m.intersection
            &&& m.that_count == m.intersection
            &&& m.union_count() == m.intersection
            &&& m.min_count() == m.intersection
        }),
{
    let empty = Map::<u64, Seq<SourceView>>::empty();
    let first = model::populated(empty, a, fa);
    let postings = model::populated(first, b, fb);
    let keys = model::key_set(fa);
    assert forall|key: u64, other: OriginView| #[trigger]
        model::has_origin(model::bucket(postings, key), other) <==> (keys.contains(key)
            && (other == a || other == b)) by {
        model::lemma_populated_origins(first, b, fb, key, other);
        model::lemma_populated_origins(empty, a, fa, key, other);
    }
    assert(model::shared_keys(postings, keys, b) =~= keys);
    assert(model::keys_of(postings, b) =~= keys) by {
        assert forall|key: u64| model::keys_of(postings, b).contains(key) <==> keys.contains(
            key,
        ) by {
            assert(model::has_origin(model::bucket(postings, key), b) <==> (
            keys.contains(key) && (b == a || b == b)));
        }
    }
}

/// Two streams with the same tokens, at least a window long and with no
/// window's key repeated, handed in under two origins, neither of exempted
/// code, and an index populated with these two: the match of the one against
/// the other has an intersection of `len - n + 1`, and so has either side; both
/// scores are exactly one, above every threshold below one and not above one.
pub proof fn lemma_identical_streams<T, S: Strategy<T>>(
    a: OriginView,
    b: OriginView,
    stream_a: Seq<(T, Location)>,
    stream_b: Seq<(T, Location)>,
    n: nat,
    strategy: S,
    t: Threshold,
)
    requires
        n >= 1,
        stream_a.len() >= n,
        a != b,
        a != OriginView::Allowed,
        b != OriginView::Allowed,
        frontend::tokens_of(stream_a) == frontend::tokens_of(stream_b),
        forall|i: int, j: int|
            0 <= i < j < ngram::fingerprints_of(stream_a, n, strategy).len() ==> (
            #[trigger] ngram::fingerprints_of(stream_a, n, strategy)[i]).0 != (
            #[trigger] ngram::fingerprints_of(stream_a, n, strategy)[j]).0,
        t.den > 0,
    ensures
        ({
            let fa = ngram::fingerprints_of(stream_a, n, strategy);
            let fb = ngram::fingerprints_of(stream_b, n, strategy);
            let postings = model::populated(
                model::populated(Map::empty(), a, fa),
                b,
                fb,
            );
            let m = backend::match_for(postings, a, model::key_set(fa), b);
            &&& m.intersection == stream_a.len() - n + 1
            &&& m.this_count == stream_a.len() - n + 1
            &&& m.that_count == stream_a.len() - n + 1
            &&& m.exceeds_jaccard(t) <==> t.num < t.den
            &&& m.exceeds_altmin(t) <==> t.num < t.den
        }),
{
    let fa = ngram::fingerprints_of(stream_a, n, strategy);
    let fb = ngram::fingerprints_of(stream_b, n, strategy);
    lemma_same_tokens_same_keys(stream_a, stream_b, n, strategy);
    lemma_distinct_keys_count(fa);
    lemma_identical_submissions(a, b, fa, fb);
    let postings = model::populated(model::populated(Map::empty(), a, fa), b, fb);
    let m = backend::match_for(postings, a, model::key_set(fa), b);
    lemma_full_overlap_boundary(m, t);
    let part = m.intersection as int;
    assert(part * t.den > t.num * part <==> t.num < t.den) by (nonlinear_arith)
        requires
            part > 0,
    ;
}

/// A match whose intersection is the whole union has a Jaccard score of
/// exactly one: it is above every threshold below one, and not above the
/// threshold one.
pub proof fn lemma_full_overlap_boundary(m: MatchView, t: Threshold)
    requires
        m.intersection > 0,
        m.union_count() == m.intersection,
        t.den > 0,
    ensures
        m.exceeds_jaccard(t) <==> t.num < t.den,
{
    let part = m.intersection as int;
    assert(part * t.den > t.num * part <==> t.num < t.den) by (nonlinear_arith)
        requires
            part > 0,
    ;
}

/// Neither score is ever above one: what is shared is part of either side,
/// so a threshold of one or more is exceeded by no match.
pub proof fn lemma_no_score_above_one(
    postings: Map<u64, Seq<SourceView>>,
    this: OriginView,
    keys: Set<u64>,
    that: OriginView,
    t: Threshold,
)
    requires
        keys.finite(),
        postings.dom().finite(),
        t.num >= t.den,
    ensures
        ({
            let m = backend::match_for(postings, this, keys, that);
            &&& m.intersection <= m.this_count
            &&& m.intersection <= m.that_count
            &&& !m.exceeds_jaccard(t)
            &&& !m.exceeds_altmin(t)
        }),
{
    let m = backend::match_for(postings, this, keys, that);
    model::lemma_shared_keys_bounds(postings, keys, that);
    let part = m.intersection as int;
    let whole = m.union_count();
    let least = m.min_count() as int;
    assert(part * t.den <= t.num * whole) by (nonlinear_arith)
        requires
            0 <= part <= whole,
            0 <= t.den <= t.num,
    ;
    assert(part * t.den <= t.num * least) by (nonlinear_arith)
        requires
            0 <= part <= least,
            0 <= t.den <= t.num,
    ;
}

/// A score is above a threshold only where its denominator is positive: a
/// score that is not defined is above nothing.
pub proof fn lemma_undefined_ratio_exceeds_nothing(part: int, t: Threshold)
    ensures
        !backend::ratio_exceeds(part, 0, t),
{
}

/// A submission is never matched with an origin with which it has no key in
/// common, whatever the thresholds.
pub proof fn lemma_disjoint_never_reported(
    postings: Map<u64, Seq<SourceView>>,
    this: OriginView,
    keys: Set<u64>,
    kj: Threshold,
    km: Threshold,
    m: MatchView,
)
    requires
        keys.disjoint(model::keys_of(postings, m.that)),
    ensures
        !backend::reported(postings, this, keys, kj, km, m),
{
    let shared = model::shared_keys(postings, keys, m.that);
    assert(shared =~= Set::<u64>::empty());
}

/// A key that exempted code holds is no evidence of a likeness with anybody,
/// and so is in no tally.
pub proof fn lemma_allowed_key_is_no_evidence(
    postings: Map<u64, Seq<SourceView>>,
    keys: Set<u64>,
    key: u64,
    origin: OriginView,
)
    requires
        model::has_origin(model::bucket(postings, key), OriginView::Allowed),
    ensures
        !model::evidence(postings, key, origin),
        !model::shared_keys(postings, keys, origin).contains(key),
{
}

/// Once exempted code has been populated, every key of its fingerprints is
/// held by exempted code, whatever is populated before or after.
pub proof fn lemma_allowed_keys_stay(
    postings: Map<u64, Seq<SourceView>>,
    origin: OriginView,
    fps: Seq<(u64, LocationView)>,
    key: u64,
)
    requires
        model::has_origin(model::bucket(postings, key), OriginView::Allowed) || (
        origin == OriginView::Allowed && model::key_set(fps).contains(key)),
    ensures
        model::has_origin(
            model::bucket(model::populated(postings, origin, fps), key),
            OriginView::Allowed,
        ),
{
    model::lemma_populated_origins(postings, origin, fps, key, OriginView::Allowed);
}

/// A submission all of whose keys are held by exempted code is matched with
/// nobody, however much it shares with others.
pub proof fn lemma_all_allowed_scores_nothing(
    postings: Map<u64, Seq<SourceView>>,
    this: OriginView,
    keys: Set<u64>,
    kj: Threshold,
    km: Threshold,
    m: MatchView,
)
    requires
        forall|key: u64|
            keys.contains(key) ==> model::has_origin(
                #[trigger] model::bucket(postings, key),
                OriginView::Allowed,
            ),
    ensures
        !backend::reported(postings, this, keys, kj, km, m),
{
    let shared = model::shared_keys(postings, keys, m.that);
    assert(shared =~= Set::<u64>::empty()) by {
        assert forall|key: u64| !shared.contains(key) by {
            if shared.contains(key) {
                assert(model::has_origin(
                    model::bucket(postings, key),
                    OriginView::Allowed,
                ));
            }
        }
    }
}

} // verus!
