//! The similarity index and the scorer: fingerprints of many submissions are
//! filed under their keys, and a submission is scored by the keys it shares
//! with each of the others.

use crate::frontend::{
    CodeUnit, Location, LocationView, Origin, OriginView, Source, SourceView, Submission, Token,
};
use crate::model;
use crate::ngram;
use crate::strategy::Strategy;
use std::collections::{HashMap, HashSet};
use std::marker::PhantomData;
use vstd::prelude::*;

verus! {

/// A ratio `num / den` that a score has to exceed. A threshold whose `den` is
/// zero is exceeded by nothing.
#[derive(Debug, Clone, Copy, PartialEq, Eq, Structural)]
pub struct Threshold {
    pub num: u32,
    pub den: u32,
}

/// `part / whole` is defined and strictly greater than the threshold.
pub open spec fn ratio_exceeds(part: int, whole: int, t: Threshold) -> bool {
    whole > 0 && t.den > 0 && part * t.den > t.num * whole
}

impl Threshold {
    /// The threshold `num / den`.
    pub fn new(num: u32, den: u32) -> (r: Threshold)
        ensures
            r.num == num,
            r.den == den,
    {
        Threshold { num, den }
    }

    /// The threshold that every positive score exceeds.
    pub fn zero() -> (r: Threshold)
        ensures
            r.num == 0,
            r.den == 1,
    {
        Threshold { num: 0, den: 1 }
    }
}

/// How much one submission has in common with another.
#[derive(Debug)]
pub struct Match {
    this: Origin,
    that: Origin,
    count_int: usize,
    count_this: usize,
    count_that: usize,
}

/// The mathematical value of a [`Match`].
pub struct MatchView {
    pub this: OriginView,
    pub that: OriginView,
    pub intersection: nat,
    pub this_count: nat,
    pub that_count: nat,
}

impl MatchView {
    /// The size of the union, by inclusion and exclusion.
    pub open spec fn union_count(self) -> int {
        self.this_count + self.that_count - self.intersection
    }

    /// The size of the smaller of the two sets.
    pub open spec fn min_count(self) -> nat {
        if self.this_count <= self.that_count {
            self.this_count
        } else {
            self.that_count
        }
    }

    /// The Jaccard score, intersection over union, is above `t`.
    pub open spec fn exceeds_jaccard(self, t: Threshold) -> bool {
        ratio_exceeds(self.intersection as int, self.union_count(), t)
    }

    /// The alt-min score, intersection over the smaller set, is above `t`.
    pub open spec fn exceeds_altmin(self, t: Threshold) -> bool {
        ratio_exceeds(self.intersection as int, self.min_count() as int, t)
    }
}

/// What scoring says of `this`, whose distinct keys are `keys`, against
/// `that`: the keys that speak for a likeness, and how many each side has.
pub open spec fn match_for(
    postings: Map<u64, Seq<SourceView>>,
    this: OriginView,
    keys: Set<u64>,
    that: OriginView,
) -> MatchView {
    MatchView {
        this,
        that,
        intersection: model::shared_keys(postings, keys, that).len(),
        this_count: keys.len(),
        that_count: model::keys_of(postings, that).len(),
    }
}

/// `m` is reported when `this`, whose distinct keys are `keys`, is scored:
/// it is the match against another origin, it rests on a shared key at
/// least, and one of its two scores is strictly above its threshold.
pub open spec fn reported(
    postings: Map<u64, Seq<SourceView>>,
    this: OriginView,
    keys: Set<u64>,
    kj: Threshold,
    km: Threshold,
    m: MatchView,
) -> bool {
    &&& m.that != this
    &&& m == match_for(postings, this, keys, m.that)
    &&& m.intersection > 0
    &&& (m.exceeds_jaccard(kj) || m.exceeds_altmin(km))
}

impl View for Match {
    type V = MatchView;

    closed spec fn view(&self) -> MatchView {
        MatchView {
            this: self.this@,
            that: self.that@,
            intersection: self.count_int as nat,
            this_count: self.count_this as nat,
            that_count: self.count_that as nat,
        }
    }
}

impl Match {
    /// What is shared is part of either side.
    #[verifier::type_invariant]
    spec fn inv(self) -> bool {
        self.count_int <= self.count_this && self.count_int <= self.count_that
    }

    fn new(
        this: Origin,
        that: Origin,
        count_int: usize,
        count_this: usize,
        count_that: usize,
    ) -> (r: Match)
        requires
            count_int <= count_this,
            count_int <= count_that,
        ensures
            r@ == (MatchView {
                this: this@,
                that: that@,
                intersection: count_int as nat,
                this_count: count_this as nat,
                that_count: count_that as nat,
            }),
    {
        Match { this, that, count_int, count_this, count_that }
    }

    /// The origin that was scored.
    pub fn this(&self) -> (r: &Origin)
        ensures
            r@ == self@.this,
    {
        &self.this
    }

    /// The origin it was found to be like.
    pub fn that(&self) -> (r: &Origin)
        ensures
            r@ == self@.that,
    {
        &self.that
    }

    /// The number of fingerprints that the two have in common. It is no
    /// more than either has.
    pub fn match_count(&self) -> (r: usize)
        ensures
            r == self@.intersection,
            self@.intersection <= self@.this_count,
            self@.intersection <= self@.that_count,
    {
        proof {
            use_type_invariant(self);
        }
        self.count_int
    }

    /// The number of distinct fingerprints of the submission scored.
    pub fn count_this(&self) -> (r: usize)
        ensures
            r == self@.this_count,
    {
        self.count_this
    }

    /// The number of distinct fingerprints recorded for the other origin.
    pub fn count_that(&self) -> (r: usize)
        ensures
            r == self@.that_count,
    {
        self.count_that
    }

    /// The size of the union of the two sets of fingerprints: the sizes of
    /// both, less what they share.
    pub fn union_count(&self) -> (r: u128)
        ensures
            r == self@.union_count(),
    {
        proof {
            use_type_invariant(self);
        }
        (self.count_this as u128) + ((self.count_that - self.count_int) as u128)
    }

    /// The size of the smaller of the two sets of fingerprints.
    pub fn min_count(&self) -> (r: usize)
        ensures
            r == self@.min_count(),
    {
        if self.count_this <= self.count_that {
            self.count_this
        } else {
            self.count_that
        }
    }

    /// Whether the Jaccard score is strictly above `t`. A score whose
    /// denominator is zero is above nothing.
    pub fn exceeds_jaccard(&self, t: Threshold) -> (r: bool)
        ensures
            r == self@.exceeds_jaccard(t),
    {
        let whole: u128 = self.union_count();
        exceeds(self.count_int, whole, t)
    }

    /// Whether the alt-min score is strictly above `t`. A score whose
    /// denominator is zero is above nothing.
    pub fn exceeds_altmin(&self, t: Threshold) -> (r: bool)
        ensures
            r == self@.exceeds_altmin(t),
    {
        let whole: usize = self.min_count();
        exceeds(self.count_int, whole as u128, t)
    }
}

impl Clone for Match {
    fn clone(&self) -> (r: Match)
        ensures
            r@ == self@,
    {
        proof {
            use_type_invariant(self);
        }
        Match {
            this: self.this.clone(),
            that: self.that.clone(),
            count_int: self.count_int,
            count_this: self.count_this,
            count_that: self.count_that,
        }
    }
}

/// Whether some posting of `bucket` has its origin at `slot`.
fn bucket_has_slot(bucket: &Vec<Posting>, slot: usize) -> (r: bool)
    ensures
        r == has_slot(bucket@, slot),
{
    let mut i: usize = 0;
    while i < bucket.len()
        invariant
            i <= bucket@.len(),
            forall|j: int| 0 <= j < i ==> (#[trigger] bucket@[j]).slot != slot,
        decreases bucket@.len() - i,
    {
        if bucket[i].slot == slot {
            return true;
        }
        i += 1;
    }
    false
}

/// Compares `part / whole` with a threshold, without dividing.
fn exceeds(part: usize, whole: u128, t: Threshold) -> (r: bool)
    requires
        whole <= 2 * usize::MAX,
    ensures
        r == ratio_exceeds(part as int, whole as int, t),
{
    if whole == 0 || t.den == 0 {
        return false;
    }
    assert(part * t.den <= 0xffff_ffff_ffff_ffff * 0xffff_ffff) by (nonlinear_arith)
        requires
            0 <= part <= 0xffff_ffff_ffff_ffff,
            0 <= t.den <= 0xffff_ffff,
    ;
    assert(t.num * whole <= 0xffff_ffff * (2 * 0xffff_ffff_ffff_ffff)) by (nonlinear_arith)
        requires
            0 <= whole <= 2 * 0xffff_ffff_ffff_ffff,
            0 <= t.num <= 0xffff_ffff,
    ;
    (part as u128) * (t.den as u128) > (t.num as u128) * whole
}

/// One occurrence of a fingerprint as the index keeps it: the place of its
/// origin in the index's list of origins, and where it was seen.
struct Posting {
    slot: usize,
    loc: Location,
}

/// The mathematical value of the index.
pub struct IndexView {
    /// The postings filed under each key, in the order they were filed.
    pub postings: Map<u64, Seq<SourceView>>,
    /// The origins that have been populated.
    pub origins: Set<OriginView>,
}

impl IndexView {
    /// The number of distinct fingerprints recorded for `origin`.
    pub open spec fn count(self, origin: OriginView) -> nat {
        model::keys_of(self.postings, origin).len()
    }

    /// What holds of every index: it has finitely many keys, no bucket holds
    /// two postings of one origin, and every posting belongs to an origin that
    /// was populated.
    pub open spec fn wf(self) -> bool {
        &&& self.postings.dom().finite()
        &&& forall|key: u64| #[trigger]
            self.postings.contains_key(key) ==> model::one_per_origin(self.postings[key])
        &&& forall|key: u64, i: int|
            self.postings.contains_key(key) && 0 <= i < self.postings[key].len()
                ==> self.origins.contains((#[trigger] self.postings[key][i]).origin)
    }
}

/// The index: for each key the postings filed under it, and for each origin
/// the number of distinct fingerprints recorded for it.
pub struct Backend<T, S> where T: Token, S: Strategy<T> {
    n: usize,
    map: HashMap<u64, Vec<Posting>>,
    origins: Vec<Origin>,
    counts: Vec<usize>,
    strategy: S,
    _pd: PhantomData<T>,
}

/// What a posting stands for, given the list of origins.
spec fn posting_view(origins: Seq<Origin>, p: Posting) -> SourceView {
    SourceView { origin: origins[p.slot as int]@, loc: p.loc@ }
}

/// What a bucket stands for, given the list of origins.
spec fn bucket_view(origins: Seq<Origin>, b: Seq<Posting>) -> Seq<SourceView> {
    Seq::new(b.len(), |i: int| posting_view(origins, b[i]))
}

/// What the buckets of the index stand for, given the list of origins.
spec fn postings_view(origins: Seq<Origin>, map: Map<u64, Vec<Posting>>) -> Map<
    u64,
    Seq<SourceView>,
> {
    Map::new(|key: u64| map.contains_key(key), |key: u64| bucket_view(origins, map[key]@))
}

/// The origins of the list, as a set.
spec fn origin_set(origins: Seq<Origin>) -> Set<OriginView> {
    Set::new(|o: OriginView| exists|i: int| 0 <= i < origins.len() && (#[trigger] origins[i])@ == o)
}

/// No origin stands twice in the list.
spec fn distinct_origins(origins: Seq<Origin>) -> bool {
    forall|i: int, j: int|
        0 <= i < j < origins.len() ==> (#[trigger] origins[i])@ != (#[trigger] origins[j])@
}

/// Some posting of the bucket has its origin at `slot`.
spec fn has_slot(b: Seq<Posting>, slot: usize) -> bool {
    exists|i: int| 0 <= i < b.len() && (#[trigger] b[i]).slot == slot
}

/// Every posting of the bucket points into a list of `len` origins, and no
/// two of them point to the same place.
spec fn bucket_ok(len: nat, b: Seq<Posting>) -> bool {
    &&& forall|i: int| 0 <= i < b.len() ==> (#[trigger] b[i]).slot < len
    &&& forall|i: int, j: int|
        0 <= i < j < b.len() ==> (#[trigger] b[i]).slot != (#[trigger] b[j]).slot
}

/// A bucket holds a posting at `slot` just when what it stands for holds a
/// posting of the origin at `slot`.
proof fn lemma_slot_is_origin(origins: Seq<Origin>, b: Seq<Posting>, slot: usize)
    requires
        distinct_origins(origins),
        bucket_ok(origins.len(), b),
        slot < origins.len(),
    ensures
        has_slot(b, slot) <==> model::has_origin(
            bucket_view(origins, b),
            origins[slot as int]@,
        ),
{
    let v = bucket_view(origins, b);
    if has_slot(b, slot) {
        let i = choose|i: int| 0 <= i < b.len() && (#[trigger] b[i]).slot == slot;
        assert(v[i].origin == origins[slot as int]@);
    }
}

/// An origin that a bucket holds a posting of stands in the list of origins.
proof fn lemma_origin_has_slot(origins: Seq<Origin>, b: Seq<Posting>, o: OriginView)
    requires
        bucket_ok(origins.len(), b),
        model::has_origin(bucket_view(origins, b), o),
    ensures
        exists|s: int| 0 <= s < origins.len() && (#[trigger] origins[s])@ == o && has_slot(b, s as usize),
{
    let v = bucket_view(origins, b);
    let i = choose|i: int| 0 <= i < v.len() && (#[trigger] v[i]).origin == o;
    let s = b[i].slot as int;
}

/// A bucket whose postings point to different places stands for postings of
/// different origins.
proof fn lemma_bucket_view_one_per_origin(origins: Seq<Origin>, b: Seq<Posting>)
    requires
        distinct_origins(origins),
        bucket_ok(origins.len(), b),
    ensures
        model::one_per_origin(bucket_view(origins, b)),
{
    let v = bucket_view(origins, b);
}

impl<T: Token, S: Strategy<T>> View for Backend<T, S> {
    type V = IndexView;

    closed spec fn view(&self) -> IndexView {
        IndexView {
            postings: postings_view(self.origins@, self.map@),
            origins: origin_set(self.origins@),
        }
    }
}

impl<T: Token, S: Strategy<T>> Backend<T, S> {
    /// The width of the window.
    pub closed spec fn spec_n(&self) -> usize {
        self.n
    }

    /// The strategy that keys are made with.
    pub closed spec fn spec_strategy(&self) -> S {
        self.strategy
    }

    /// The index is in order: the window is at least one token wide, and
    /// the count kept for each origin is the number of distinct
    /// fingerprints recorded for it.
    pub closed spec fn wf(&self) -> bool {
        &&& self.n >= 1
        &&& self.origins@.len() == self.counts@.len()
        &&& distinct_origins(self.origins@)
        &&& forall|key: u64| #[trigger]
            self.map@.contains_key(key) ==> bucket_ok(self.origins@.len(), self.map@[key]@)
        &&& forall|s: int|
            0 <= s < self.origins@.len() ==> (#[trigger] self.counts@[s]) == model::keys_of(
                self@.postings,
                self.origins@[s]@,
            ).len()
    }

    /// An index that is in order has a view that is.
    pub proof fn lemma_view_wf(&self)
        requires
            self.wf(),
        ensures
            self@.wf(),
    {
        let v = self@;
        assert(v.postings.dom() =~= self.map@.dom());
        assert forall|key: u64| #[trigger] v.postings.contains_key(key) implies model::one_per_origin(
            v.postings[key],
        ) by {
            lemma_bucket_view_one_per_origin(self.origins@, self.map@[key]@);
        }
        assert forall|key: u64, i: int|
            v.postings.contains_key(key) && 0 <= i < v.postings[key].len() implies v.origins.contains(
            (#[trigger] v.postings[key][i]).origin,
        ) by {
            let b = self.map@[key]@;
        }
    }

    /// An empty index for windows of `n` tokens, keyed by `strategy`.
    pub fn new(n: usize, strategy: S) -> (r: Self)
        requires
            n >= 1,
        ensures
            r.wf(),
            r.spec_n() == n,
            r.spec_strategy() == strategy,
            r@.postings == Map::<u64, Seq<SourceView>>::empty(),
            r@.origins == Set::<OriginView>::empty(),
    {
        let r = Backend {
            n,
            map: HashMap::with_capacity(65536),
            origins: Vec::with_capacity(512),
            counts: Vec::with_capacity(512),
            strategy,
            _pd: PhantomData,
        };
        r
    }

    /// The width of the window.
    pub fn n(&self) -> (r: usize)
        ensures
            r == self.spec_n(),
    {
        self.n
    }

    /// The place of `origin` in the list of origins, where it has one.
    fn slot_of(&self, origin: &Origin) -> (r: Option<usize>)
        ensures
            match r {
                Some(slot) => slot < self.origins@.len() && self.origins@[slot as int]@ == origin@,
                None => !origin_set(self.origins@).contains(origin@),
            },
    {
        let mut i: usize = 0;
        while i < self.origins.len()
            invariant
                i <= self.origins@.len(),
                forall|j: int| 0 <= j < i ==> (#[trigger] self.origins@[j])@ != origin@,
            decreases self.origins@.len() - i,
        {
            if self.origins[i].eq(origin) {
                return Some(i);
            }
            i += 1;
        }
        None
    }

    /// The place of `origin` in the list of origins; it gets one, with no
    /// fingerprints to its name, where it had none.
    fn enroll(&mut self, origin: &Origin) -> (slot: usize)
        requires
            old(self).wf(),
        ensures
            final(self).wf(),
            final(self).n == old(self).n,
            final(self).strategy == old(self).strategy,
            slot < final(self).origins@.len(),
            final(self).origins@[slot as int]@ == origin@,
            final(self)@.postings == old(self)@.postings,
            final(self)@.origins == old(self)@.origins.insert(origin@),
    {
        match self.slot_of(origin) {
            Some(slot) => slot,
            None => {
                let ghost before = self.origins@;
                let ghost postings = self@.postings;
                self.origins.push(origin.clone());
                self.counts.push(0);
                proof {
                    let after = self.origins@;
                    assert forall|key: u64| #[trigger] self.map@.contains_key(key) implies bucket_ok(
                        after.len(),
                        self.map@[key]@,
                    ) && bucket_view(after, self.map@[key]@) == bucket_view(before, self.map@[key]@) by {}
                    assert(self@.postings =~= postings);
                    assert(model::keys_of(postings, origin@) =~= Set::<u64>::empty()) by {
                        assert forall|key: u64| !model::keys_of(postings, origin@).contains(
                            key,
                        ) by {
                            if model::has_origin(model::bucket(postings, key), origin@) {
                                lemma_origin_has_slot(before, self.map@[key]@, origin@);
                            }
                        }
                    }
                    assert(self@.origins =~= old(self)@.origins.insert(origin@)) by {
                        assert forall|o: OriginView|
                            self@.origins.contains(o) <==> old(self)@.origins.insert(origin@).contains(
                                o,
                            ) by {
                            if old(self)@.origins.contains(o) {
                                let i = choose|i: int|
                                    0 <= i < before.len() && (#[trigger] before[i])@ == o;
                                assert(after[i]@ == o);
                            }
                            if o == origin@ {
                                assert(after[before.len() as int]@ == o);
                            }
                        }
                    }
                }
                self.origins.len() - 1
            },
        }
    }

    /// Files one fingerprint of the origin at `slot`: where the bucket of
    /// `key` holds no posting of that origin yet, it gets one, and the
    /// origin's count goes up by one.
    fn record(&mut self, slot: usize, key: u64, loc: Location)
        requires
            old(self).wf(),
            slot < old(self).origins@.len(),
        ensures
            final(self).wf(),
            final(self).n == old(self).n,
            final(self).strategy == old(self).strategy,
            final(self).origins@ == old(self).origins@,
            final(self)@.postings == model::filed(
                old(self)@.postings,
                old(self).origins@[slot as int]@,
                key,
                loc@,
            ),
    {
        let ghost origins = self.origins@;
        let ghost origin = origins[slot as int]@;
        let ghost m0 = self.map@;
        let ghost before = self@.postings;
        let ghost b0: Seq<Posting> = if m0.contains_key(key) {
            m0[key]@
        } else {
            Seq::empty()
        };
        let present = match self.map.get(&key) {
            Some(bucket) => bucket_has_slot(bucket, slot),
            None => false,
        };
        proof {
            lemma_slot_is_origin(origins, b0, slot);
            assert(model::bucket(before, key) =~= bucket_view(origins, b0));
        }
        if present {
            return ;
        }
        let mut bucket = match self.map.remove(&key) {
            Some(bucket) => bucket,
            None => Vec::new(),
        };
        bucket.push(Posting { slot, loc });
        let ghost b1 = bucket@;
        self.map.insert(key, bucket);
        let count: usize = self.counts[slot];
        proof {
            let m1 = self.map@;
            let after = self@.postings;
            let filed = model::filed(before, origin, key, loc@);
            assert(bucket_view(origins, b1) =~= bucket_view(origins, b0).push(
                SourceView { origin, loc: loc@ },
            ));
            assert(after =~= filed);
            assert forall|k: u64| #[trigger] m1.contains_key(k) implies bucket_ok(
                origins.len(),
                m1[k]@,
            ) by {
                if k == key {
                }
            }
            model::lemma_filed_keys(before, origin, key, loc@, origin);
            model::lemma_keys_of_subset(before, origin);
            model::lemma_keys_of_subset(after, origin);
            assert(before.dom() =~= m0.dom());
            vstd::set_lib::lemma_len_subset(model::keys_of(before, origin), before.dom());
            vstd::set_lib::lemma_len_subset(model::keys_of(after, origin), after.dom());
            assert(m1.dom().len() == vstd::std_specs::hash::spec_hash_map_len(&self.map));
        }
        self.counts.set(slot, count + 1);
        proof {
            let after = self@.postings;
            assert forall|s: int| 0 <= s < origins.len() implies (#[trigger] self.counts@[s])
                == model::keys_of(after, origins[s]@).len() by {
                model::lemma_filed_keys(before, origin, key, loc@, origins[s]@);
            }
        }
    }

    /// Files the fingerprints of `sub` under its origin. A key that already
    /// holds a posting of that origin gets no second one, so what a
    /// submission repeats is counted once, and so is a submission that is
    /// populated twice.
    pub fn populate(&mut self, sub: &Submission<T>)
        requires
            old(self).wf(),
        ensures
            final(self).wf(),
            final(self).spec_n() == old(self).spec_n(),
            final(self).spec_strategy() == old(self).spec_strategy(),
            final(self)@.postings == model::populated(
                old(self)@.postings,
                sub.spec_origin(),
                ngram::submission_fingerprints(
                    sub.spec_units(),
                    old(self).spec_n() as nat,
                    old(self).spec_strategy(),
                ),
            ),
            final(self)@.origins == old(self)@.origins.insert(sub.spec_origin()),
    {
        let ghost start = self@.postings;
        let ghost origin = sub.spec_origin();
        let ghost n = self.n as nat;
        let ghost strategy = self.strategy;
        let slot = self.enroll(sub.origin());
        let units = sub.units();
        proof {
            model::lemma_populated_nothing(start, origin);
        }
        let mut u: usize = 0;
        while u < units.len()
            invariant
                self.wf(),
                u <= units@.len(),
                units@ == sub.spec_units(),
                self.n == n,
                self.strategy == strategy,
                slot < self.origins@.len(),
                self.origins@[slot as int]@ == origin,
                self@.origins == old(self)@.origins.insert(origin),
                self@.postings == model::populated(
                    start,
                    origin,
                    ngram::submission_fingerprints(units@.take(u as int), n, strategy),
                ),
            decreases units@.len() - u,
        {
            let fps = ngram::fingerprints(units[u].tokens(), self.n, &self.strategy);
            let ghost done = ngram::submission_fingerprints(units@.take(u as int), n, strategy);
            let ghost raw = fps@;
            let ghost here = ngram::fingerprints_view(raw);
            for fp in it: fps
                invariant
                    self.wf(),
                    it.seq() == raw,
                    here == ngram::fingerprints_view(raw),
                    self.n == n,
                    self.strategy == strategy,
                    slot < self.origins@.len(),
                    self.origins@[slot as int]@ == origin,
                    self@.origins == old(self)@.origins.insert(origin),
                    self@.postings == model::populated(start, origin, done + here.take(it.index())),
            {
                let ghost j = it.index();
                self.record(slot, fp.0, fp.1);
                proof {
                    let so_far = done + here.take(j);
                    model::lemma_populated_step(start, origin, so_far, here[j]);
                    assert(so_far.push(here[j]) =~= done + here.take(j + 1));
                }
            }
            proof {
                assert(here.take(raw.len() as int) =~= here);
                assert(units@.take(u + 1).drop_last() =~= units@.take(u as int));
            }
            u += 1;
        }
        proof {
            assert(units@.take(units@.len() as int) =~= units@);
        }
    }

    /// The postings filed under `key`, in the order they were filed.
    pub fn postings(&self, key: u64) -> (r: Vec<Source>)
        requires
            self.wf(),
        ensures
            r@.len() == model::bucket(self@.postings, key).len(),
            forall|i: int|
                0 <= i < r@.len() ==> (#[trigger] r@[i])@ == model::bucket(
                    self@.postings,
                    key,
                )[i],
    {
        let mut out: Vec<Source> = Vec::new();
        match self.map.get(&key) {
            Some(bucket) => {
                let mut i: usize = 0;
                while i < bucket.len()
                    invariant
                        i <= bucket@.len(),
                        bucket_ok(self.origins@.len(), bucket@),
                        out@.len() == i,
                        forall|j: int|
                            0 <= j < i ==> (#[trigger] out@[j])@ == posting_view(
                                self.origins@,
                                bucket@[j],
                            ),
                    decreases bucket@.len() - i,
                {
                    let posting = &bucket[i];
                    out.push(Source::new(self.origins[posting.slot].clone(), posting.loc.clone()));
                    i += 1;
                }
            },
            None => {},
        }
        out
    }

    /// Whether some posting of `bucket` belongs to exempted code.
    fn bucket_has_allowed(&self, bucket: &Vec<Posting>) -> (r: bool)
        requires
            bucket_ok(self.origins@.len(), bucket@),
        ensures
            r == model::has_origin(bucket_view(self.origins@, bucket@), OriginView::Allowed),
    {
        let ghost v = bucket_view(self.origins@, bucket@);
        let mut i: usize = 0;
        while i < bucket.len()
            invariant
                i <= bucket@.len(),
                bucket_ok(self.origins@.len(), bucket@),
                v == bucket_view(self.origins@, bucket@),
                forall|j: int| 0 <= j < i ==> (#[trigger] v[j]).origin != OriginView::Allowed,
            decreases bucket@.len() - i,
        {
            if self.origins[bucket[i].slot].is_allowed() {
                assert(v[i as int].origin == OriginView::Allowed);
                return true;
            }
            i += 1;
        }
        false
    }

    /// Counts `key` as a hit for every origin that it speaks for, but for
    /// the one at `skip`.
    fn credit(&self, tally: &mut Vec<usize>, key: u64, skip: Option<usize>)
        requires
            self.wf(),
            old(tally)@.len() == self.origins@.len(),
            forall|s: int| 0 <= s < old(tally)@.len() ==> (#[trigger] old(tally)@[s]) < usize::MAX,
        ensures
            final(tally)@.len() == old(tally)@.len(),
            forall|s: usize|
                s < old(tally)@.len() ==> (#[trigger] final(tally)@[s as int]) == old(tally)@[s as int]
                    + (if model::evidence(self@.postings, key, self.origins@[s as int]@)
                    && skip != Some(s) {
                    1int
                } else {
                    0int
                }),
    {
        let ghost origins = self.origins@;
        let ghost held = model::bucket(self@.postings, key);
        match self.map.get(&key) {
            Some(bucket) => {
                if self.bucket_has_allowed(bucket) {
                    return ;
                }
                let mut q: usize = 0;
                while q < bucket.len()
                    invariant
                        q <= bucket@.len(),
                        bucket_ok(origins.len(), bucket@),
                        distinct_origins(origins),
                        origins == self.origins@,
                        held == model::bucket(self@.postings, key),
                        held == bucket_view(origins, bucket@),
                        !model::has_origin(held, OriginView::Allowed),
                        tally@.len() == origins.len(),
                        old(tally)@.len() == origins.len(),
                        forall|s: int|
                            0 <= s < old(tally)@.len() ==> (#[trigger] old(tally)@[s]) < usize::MAX,
                        forall|s: usize|
                            s < tally@.len() ==> (#[trigger] tally@[s as int]) == old(tally)@[s as int]
                                + (if has_slot(bucket@.take(q as int), s) && skip != Some(s) {
                                1int
                            } else {
                                0int
                            }),
                    decreases bucket@.len() - q,
                {
                    let slot: usize = bucket[q].slot;
                    proof {
                        let seen = bucket@.take(q as int);
                        let more = bucket@.take(q + 1);
                        assert forall|s: usize| #[trigger]
                            has_slot(more, s) <==> has_slot(seen, s) || s == slot by {
                            if s == slot {
                                assert(more[q as int].slot == s);
                            }
                        }
                    }
                    if skip != Some(slot) {
                        let hits: usize = tally[slot];
                        tally.set(slot, hits + 1);
                    }
                    q += 1;
                }
                proof {
                    assert(bucket@.take(bucket@.len() as int) =~= bucket@);
                    assert forall|s: usize| s < origins.len() implies (has_slot(bucket@, s)
                        <==> model::evidence(self@.postings, key, #[trigger] origins[s as int]@)) by {
                        lemma_slot_is_origin(origins, bucket@, s);
                    }
                }
            },
            None => {
            },
        }
    }

    /// For each origin of the index, the number of distinct keys of `sub`
    /// that speak for a likeness with it; and the number of distinct keys of
    /// `sub`.
    fn tally(&self, sub: &Submission<T>) -> (r: (Vec<usize>, usize))
        requires
            self.wf(),
        ensures
            r.0@.len() == self.origins@.len(),
            r.1 == self.keys_of_submission(sub).len(),
            self.keys_of_submission(sub).finite(),
            forall|s: int|
                0 <= s < self.origins@.len() ==> (#[trigger] r.0@[s]) == (if self.origins@[s]@
                    == sub.spec_origin() {
                    0nat
                } else {
                    model::shared_keys(
                        self@.postings,
                        self.keys_of_submission(sub),
                        self.origins@[s]@,
                    ).len()
                }),
    {
        let ghost postings = self@.postings;
        let ghost origins = self.origins@;
        let ghost this = sub.spec_origin();
        let ghost n = self.n as nat;
        let skip = self.slot_of(sub.origin());
        let mut tally: Vec<usize> = Vec::new();
        while tally.len() < self.origins.len()
            invariant
                tally@.len() <= self.origins@.len(),
                forall|s: int| 0 <= s < tally@.len() ==> (#[trigger] tally@[s]) == 0,
            decreases self.origins@.len() - tally@.len(),
        {
            tally.push(0);
        }
        let mut seen: HashSet<u64> = HashSet::new();
        let units = sub.units();
        proof {
            assert forall|s: int| 0 <= s < origins.len() implies model::shared_keys(
                postings,
                Set::<u64>::empty(),
                #[trigger] origins[s]@,
            ).len() == 0 by {
                assert(model::shared_keys(postings, Set::<u64>::empty(), origins[s]@)
                    =~= Set::<u64>::empty());
            }
        }
        let mut u: usize = 0;
        while u < units.len()
            invariant
                self.wf(),
                u <= units@.len(),
                units@ == sub.spec_units(),
                postings == self@.postings,
                origins == self.origins@,
                this == sub.spec_origin(),
                n == self.n,
                tally@.len() == origins.len(),
                match skip {
                    Some(slot) => slot < origins.len() && origins[slot as int]@ == this,
                    None => !origin_set(origins).contains(this),
                },
                seen@ == model::key_set(
                    ngram::submission_fingerprints(units@.take(u as int), n, self.strategy),
                ),
                forall|s: int|
                    0 <= s < origins.len() ==> (#[trigger] tally@[s]) == (if origins[s]@ == this {
                        0nat
                    } else {
                        model::shared_keys(postings, seen@, origins[s]@).len()
                    }),
            decreases units@.len() - u,
        {
            let fps = ngram::fingerprints(units[u].tokens(), self.n, &self.strategy);
            let ghost done = ngram::submission_fingerprints(
                units@.take(u as int),
                n,
                self.strategy,
            );
            let ghost here = ngram::fingerprints_view(fps@);
            let mut j: usize = 0;
            while j < fps.len()
                invariant
                    self.wf(),
                    j <= fps@.len(),
                    here == ngram::fingerprints_view(fps@),
                    postings == self@.postings,
                    origins == self.origins@,
                    tally@.len() == origins.len(),
                    match skip {
                        Some(slot) => slot < origins.len() && origins[slot as int]@ == this,
                        None => !origin_set(origins).contains(this),
                    },
                    seen@ == model::key_set(done + here.take(j as int)),
                    forall|s: int|
                        0 <= s < origins.len() ==> (#[trigger] tally@[s]) == (if origins[s]@ == this {
                            0nat
                        } else {
                            model::shared_keys(postings, seen@, origins[s]@).len()
                        }),
                decreases fps@.len() - j,
            {
                let key: u64 = fps[j].0;
                let ghost before = seen@;
                proof {
                    model::lemma_key_set_finite(done + here.take(j as int));
                    model::lemma_key_set_push(done + here.take(j as int), here[j as int]);
                    assert((done + here.take(j as int)).push(here[j as int]) =~= done + here.take(
                        j + 1,
                    ));
                }
                if seen.insert(key) {
                    proof {
                        model::lemma_key_set_finite(done + here.take(j + 1));
                        assert(seen@.len() == vstd::std_specs::hash::spec_hash_set_len(&seen));
                        assert forall|s: int| 0 <= s < tally@.len() implies (#[trigger] tally@[s])
                            < usize::MAX by {
                            self.lemma_view_wf();
                            model::lemma_shared_keys_bounds(postings, before, origins[s]@);
                        }
                    }
                    let ghost earlier = tally@;
                    self.credit(&mut tally, key, skip);
                    proof {
                        assert forall|s: int| 0 <= s < origins.len() implies (#[trigger] tally@[s]) == (
                        if origins[s]@ == this {
                            0nat
                        } else {
                            model::shared_keys(postings, seen@, origins[s]@).len()
                        }) by {
                            model::lemma_shared_keys_insert(postings, before, key, origins[s]@);
                            assert(tally.len() == origins.len());
                            let at = s as usize;
                            assert(tally@[at as int] == earlier[at as int] + (if model::evidence(
                                postings,
                                key,
                                origins[at as int]@,
                            ) && skip != Some(at) {
                                1int
                            } else {
                                0int
                            }));
                            match skip {
                                Some(slot) => {
                                },
                                None => {
                                },
                            }
                        }
                    }
                } else {
                    proof {
                        assert(before.insert(key) =~= before);
                    }
                }
                j += 1;
            }
            proof {
                assert(here.take(fps@.len() as int) =~= here);
                assert(units@.take(u + 1).drop_last() =~= units@.take(u as int));
            }
            u += 1;
        }
        proof {
            assert(units@.take(units@.len() as int) =~= units@);
            model::lemma_key_set_finite(
                ngram::submission_fingerprints(units@, n, self.strategy),
            );
        }
        let count: usize = seen.len();
        (tally, count)
    }

    /// The distinct keys among the fingerprints of `sub`, as this index
    /// makes them.
    pub open spec fn keys_of_submission(&self, sub: &Submission<T>) -> Set<u64> {
        model::key_set(
            ngram::submission_fingerprints(
                sub.spec_units(),
                self.spec_n() as nat,
                self.spec_strategy(),
            ),
        )
    }

    /// Scores `sub` against every other origin of the index. A match is
    /// reported for each origin, other than that of `sub`, with which `sub`
    /// shares a key at least that no exempted code holds, and whose Jaccard
    /// score is strictly above `kj` or whose alt-min score is strictly above
    /// `km`. No origin is reported twice.
    pub fn score_cutoff(&self, sub: &Submission<T>, kj: Threshold, km: Threshold) -> (r: Vec<Match>)
        requires
            self.wf(),
        ensures
            forall|i: int|
                0 <= i < r@.len() ==> reported(
                    self@.postings,
                    sub.spec_origin(),
                    self.keys_of_submission(sub),
                    kj,
                    km,
                    (#[trigger] r@[i])@,
                ),
            forall|m: MatchView|
                reported(self@.postings, sub.spec_origin(), self.keys_of_submission(sub), kj, km, m)
                    ==> exists|i: int| 0 <= i < r@.len() && (#[trigger] r@[i])@ == m,
            forall|i: int, j: int|
                0 <= i < j < r@.len() ==> (#[trigger] r@[i])@.that != (#[trigger] r@[j])@.that,
    {
        let ghost postings = self@.postings;
        let ghost origins = self.origins@;
        let ghost this = sub.spec_origin();
        let ghost keys = self.keys_of_submission(sub);
        let (tally, count) = self.tally(sub);
        let mut out: Vec<Match> = Vec::new();
        let mut s: usize = 0;
        while s < self.origins.len()
            invariant
                self.wf(),
                s <= origins.len(),
                postings == self@.postings,
                origins == self.origins@,
                this == sub.spec_origin(),
                keys == self.keys_of_submission(sub),
                keys.finite(),
                count == keys.len(),
                tally@.len() == origins.len(),
                forall|t: int|
                    0 <= t < origins.len() ==> (#[trigger] tally@[t]) == (if origins[t]@ == this {
                        0nat
                    } else {
                        model::shared_keys(postings, keys, origins[t]@).len()
                    }),
                forall|i: int|
                    0 <= i < out@.len() ==> reported(postings, this, keys, kj, km, (#[trigger] out@[i])@)
                        && exists|t: int| 0 <= t < s && (#[trigger] origins[t])@ == out@[i]@.that,
                forall|t: int|
                    0 <= t < s && reported(
                        postings,
                        this,
                        keys,
                        kj,
                        km,
                        match_for(postings, this, keys, (#[trigger] origins[t])@),
                    ) ==> exists|i: int|
                        0 <= i < out@.len() && (#[trigger] out@[i])@ == match_for(
                            postings,
                            this,
                            keys,
                            origins[t]@,
                        ),
                forall|i: int, j: int|
                    0 <= i < j < out@.len() ==> (#[trigger] out@[i])@.that != (#[trigger] out@[j])@.that,
            decreases origins.len() - s,
        {
            let hits: usize = tally[s];
            let ghost that = origins[s as int]@;
            let ghost expected = match_for(postings, this, keys, that);
            let ghost earlier = out@;
            if hits > 0 {
                proof {
                    self.lemma_view_wf();
                    model::lemma_shared_keys_bounds(postings, keys, that);
                }
                let m = Match::new(
                    sub.origin().clone(),
                    self.origins[s].clone(),
                    hits,
                    count,
                    self.counts[s],
                );
                if m.exceeds_jaccard(kj) || m.exceeds_altmin(km) {
                    out.push(m);
                    proof {
                        assert forall|i: int| 0 <= i < out@.len() implies reported(
                            postings,
                            this,
                            keys,
                            kj,
                            km,
                            (#[trigger] out@[i])@,
                        ) && exists|t: int| 0 <= t < s + 1 && (#[trigger] origins[t])@ == out@[i]@.that by {
                            if i < earlier.len() {
                                let t = choose|t: int|
                                    0 <= t < s && (#[trigger] origins[t])@ == earlier[i]@.that;
                            }
                        }
                        assert forall|i: int, j: int| 0 <= i < j < out@.len() implies (
                        #[trigger] out@[i])@.that != (#[trigger] out@[j])@.that by {
                            if j < earlier.len() {
                            } else {
                                let t = choose|t: int|
                                    0 <= t < s && (#[trigger] origins[t])@ == earlier[i]@.that;
                            }
                        }
                    }
                }
            }
            proof {
                assert forall|t: int|
                    0 <= t < s + 1 && reported(
                        postings,
                        this,
                        keys,
                        kj,
                        km,
                        match_for(postings, this, keys, (#[trigger] origins[t])@),
                    ) implies exists|i: int|
                    0 <= i < out@.len() && (#[trigger] out@[i])@ == match_for(
                        postings,
                        this,
                        keys,
                        origins[t]@,
                    ) by {
                    if t < s {
                        let i = choose|i: int|
                            0 <= i < earlier.len() && (#[trigger] earlier[i])@ == match_for(
                                postings,
                                this,
                                keys,
                                origins[t]@,
                            );
                        assert(out@[i] == earlier[i]);
                    } else {
                        assert(out@[earlier.len() as int]@ == expected);
                    }
                }
            }
            s += 1;
        }
        proof {
            assert forall|m: MatchView| reported(postings, this, keys, kj, km, m) implies exists|
                i: int,
            |
                0 <= i < out@.len() && (#[trigger] out@[i])@ == m by {
                self.lemma_view_wf();
                model::lemma_shared_keys_bounds(postings, keys, m.that);
                let shared = model::shared_keys(postings, keys, m.that);
                let key = shared.choose();
                assert(shared.contains(key));
                lemma_origin_has_slot(origins, self.map@[key]@, m.that);
                let t = choose|t: int|
                    0 <= t < origins.len() && (#[trigger] origins[t])@ == m.that && has_slot(
                        self.map@[key]@,
                        t as usize,
                    );
            }
        }
        out
    }

    /// Scores `sub` with both thresholds at zero: every origin with which it
    /// shares a key that no exempted code holds is reported.
    pub fn score(&self, sub: &Submission<T>) -> (r: Vec<Match>)
        requires
            self.wf(),
        ensures
            forall|i: int|
                0 <= i < r@.len() ==> reported(
                    self@.postings,
                    sub.spec_origin(),
                    self.keys_of_submission(sub),
                    Threshold { num: 0, den: 1 },
                    Threshold { num: 0, den: 1 },
                    (#[trigger] r@[i])@,
                ),
            forall|m: MatchView|
                reported(
                    self@.postings,
                    sub.spec_origin(),
                    self.keys_of_submission(sub),
                    Threshold { num: 0, den: 1 },
                    Threshold { num: 0, den: 1 },
                    m,
                ) ==> exists|i: int| 0 <= i < r@.len() && (#[trigger] r@[i])@ == m,
            forall|i: int, j: int|
                0 <= i < j < r@.len() ==> (#[trigger] r@[i])@.that != (#[trigger] r@[j])@.that,
    {
        self.score_cutoff(sub, Threshold::zero(), Threshold::zero())
    }

    /// The number of distinct fingerprints recorded for `origin`, where it
    /// has been populated.
    pub fn count(&self, origin: &Origin) -> (r: Option<usize>)
        requires
            self.wf(),
        ensures
            match r {
                Some(count) => self@.origins.contains(origin@) && count == self@.count(origin@),
                None => !self@.origins.contains(origin@),
            },
    {
        match self.slot_of(origin) {
            Some(slot) => Some(self.counts[slot]),
            None => None,
        }
    }
}

} // verus!
