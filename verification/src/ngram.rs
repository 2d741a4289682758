//! The fingerprint generator: a window of fixed width slides over a stream of
//! tokens, and each position of the window gives one fingerprint.

use crate::frontend::{self, CodeUnit, FileRange, Location, LocationView, Token};
use crate::strategy::Strategy;
use vstd::prelude::*;

verus! {

/// The merge of two locations: the span from the earlier start to the later
/// end where both lie in one file, and unknown otherwise.
pub open spec fn merge(a: LocationView, b: LocationView) -> LocationView {
    match (a, b) {
        (
            LocationView::File { name: n1, range: r1 },
            LocationView::File { name: n2, range: r2 },
        ) => if n1 == n2 {
            LocationView::File {
                name: n1,
                range: FileRange {
                    start: r1.start.earlier(r2.start),
                    end: r1.end.later(r2.end),
                },
            }
        } else {
            LocationView::Unknown
        },
        _ => LocationView::Unknown,
    }
}

/// The merge of a run of locations, first to last.
pub open spec fn span(locs: Seq<LocationView>) -> LocationView
    decreases locs.len(),
{
    if locs.len() == 0 {
        LocationView::Unknown
    } else if locs.len() == 1 {
        locs[0]
    } else {
        merge(span(locs.drop_last()), locs.last())
    }
}

/// Every location of `locs` lies in the file `name`.
pub open spec fn all_in_file(locs: Seq<LocationView>, name: Seq<char>) -> bool {
    forall|i: int| 0 <= i < locs.len() ==> (#[trigger] locs[i]) is File && locs[i]->name == name
}

/// `range` is the smallest span that covers every location of `locs`: it
/// starts where the earliest of them starts and ends where the latest ends.
pub open spec fn tightly_covers(range: FileRange, locs: Seq<LocationView>) -> bool {
    &&& forall|i: int|
        0 <= i < locs.len() ==> range.start.before_eq((#[trigger] locs[i])->range.start)
            && locs[i]->range.end.before_eq(range.end)
    &&& exists|i: int| 0 <= i < locs.len() && (#[trigger] locs[i])->range.start == range.start
    &&& exists|i: int| 0 <= i < locs.len() && (#[trigger] locs[i])->range.end == range.end
}

/// Merging a location with itself changes nothing.
pub proof fn lemma_merge_same(a: LocationView)
    ensures
        merge(a, a) == a,
{
}

/// What the merge of a window's locations is: where all `locs` lie in one
/// file, the smallest span of that file that covers them all; where any is
/// unknown or two lie in different files, unknown.
pub proof fn lemma_span_covers(locs: Seq<LocationView>)
    requires
        locs.len() > 0,
    ensures
        match span(locs) {
            LocationView::File { name, range } => all_in_file(locs, name) && tightly_covers(
                range,
                locs,
            ),
            LocationView::Unknown => forall|name: Seq<char>| !all_in_file(locs, name),
        },
    decreases locs.len(),
{
    if locs.len() > 1 {
        let init = locs.drop_last();
        lemma_span_covers(init);
        match (span(init), locs.last()) {
            (
                LocationView::File { name: n1, range: r1 },
                LocationView::File { name: n2, range: r2 },
            ) if n1 == n2 => {
                let range = span(locs)->range;
                assert forall|i: int| 0 <= i < locs.len() implies (#[trigger] locs[i]) is File
                    && locs[i]->name == n1 && range.start.before_eq(locs[i]->range.start)
                    && locs[i]->range.end.before_eq(range.end) by {
                    if i < init.len() {
                        assert(init[i] is File);
                        assert(init[i]->range.end.before_eq(r1.end));
                    }
                }
            },
            _ => {
                assert forall|name: Seq<char>| !all_in_file(locs, name) by {
                    if all_in_file(locs, name) {
                        assert(all_in_file(init, name)) by {
                            assert forall|i: int| 0 <= i < init.len() implies (
                            #[trigger] init[i]) is File && init[i]->name == name by {
                                assert(locs[i] is File);
                            }
                        }
                        assert(init[0]->name == name);
                        assert(locs[locs.len() - 1]->name == name);
                    }
                }
            },
        }
    }
}

/// Merges two locations.
pub fn merge_loc(l1: &Location, l2: &Location) -> (r: Location)
    ensures
        r@ == merge(l1@, l2@),
{
    match (l1, l2) {
        (Location::File { name: n1, range: r1 }, Location::File { name: n2, range: r2 }) => {
            if *n1 == *n2 {
                Location::File {
                    name: n1.clone(),
                    range: FileRange {
                        start: if r1.start.precedes(&r2.start) {
                            r1.start
                        } else {
                            r2.start
                        },
                        end: if r1.end.precedes(&r2.end) {
                            r2.end
                        } else {
                            r1.end
                        },
                    },
                }
            } else {
                Location::Unknown
            }
        },
        _ => Location::Unknown,
    }
}

/// How many windows of width `n` a stream of `len` tokens has.
pub open spec fn window_count(len: nat, n: nat) -> nat {
    if len >= n {
        (len - n + 1) as nat
    } else {
        0
    }
}

/// The fingerprint of the window that starts at token `i`: the key the
/// strategy gives its tokens, and the merge of their locations.
pub open spec fn fingerprint_at<T, S: Strategy<T>>(
    stream: Seq<(T, Location)>,
    n: nat,
    strategy: S,
    i: int,
) -> (u64, LocationView) {
    let window = stream.subrange(i, i + n);
    (
        strategy.key_of(n, frontend::tokens_of(window)),
        span(frontend::locations_of(window)),
    )
}

/// The fingerprints of a stream, in the order in which their windows start.
pub open spec fn fingerprints_of<T, S: Strategy<T>>(
    stream: Seq<(T, Location)>,
    n: nat,
    strategy: S,
) -> Seq<(u64, LocationView)> {
    Seq::new(window_count(stream.len(), n), |i: int| fingerprint_at(stream, n, strategy, i))
}

/// What a vector of fingerprints stands for.
pub open spec fn fingerprints_view(fps: Seq<(u64, Location)>) -> Seq<(u64, LocationView)> {
    Seq::new(fps.len(), |i: int| (fps[i].0, fps[i].1@))
}

/// Walks over a stream of tokens and hands out its fingerprints one by one.
pub struct NGramHashIterator<'a, T, S> where T: Token, S: Strategy<T> {
    tokens: &'a Vec<(T, Location)>,
    strategy: &'a S,
    n: usize,
    pos: usize,
}

impl<'a, T: Token, S: Strategy<T>> NGramHashIterator<'a, T, S> {
    /// The width of the window is at least one, and the walk has not gone
    /// past the last window.
    pub closed spec fn wf(&self) -> bool {
        self.n >= 1 && self.pos <= window_count(self.tokens@.len(), self.n as nat)
    }

    /// The fingerprints that are still to come.
    pub closed spec fn remaining(&self) -> Seq<(u64, LocationView)> {
        fingerprints_of(self.tokens@, self.n as nat, *self.strategy).skip(self.pos as int)
    }

    /// A walk over the fingerprints of `tokens`, for windows of width `n`
    /// keyed by `strategy`.
    pub fn new(tokens: &'a Vec<(T, Location)>, n: usize, strategy: &'a S) -> (r: Self)
        requires
            n >= 1,
        ensures
            r.wf(),
            r.remaining() == fingerprints_of(tokens@, n as nat, *strategy),
    {
        NGramHashIterator { tokens, strategy, n, pos: 0 }
    }

    /// The next fingerprint, or `None` when every window has been handed out.
    pub fn next(&mut self) -> (r: Option<(u64, Location)>)
        requires
            old(self).wf(),
        ensures
            final(self).wf(),
            match r {
                Some((key, loc)) => old(self).remaining().len() > 0 && (key, loc@) == old(
                    self,
                ).remaining()[0] && final(self).remaining() == old(self).remaining().skip(1),
                None => old(self).remaining().len() == 0 && final(self).remaining() == old(
                    self,
                ).remaining(),
            },
    {
        let tokens: &'a Vec<(T, Location)> = self.tokens;
        let n: usize = self.n;
        let start: usize = self.pos;
        if tokens.len() < n || start > tokens.len() - n {
            return None;
        }
        let ghost window = tokens@.subrange(start as int, start + n);
        let ghost locs = frontend::locations_of(window);
        let mut picked: Vec<&T> = Vec::new();
        let mut loc = tokens[start].1.clone();
        let mut j: usize = 0;
        while j < n
            invariant
                j <= n,
                n >= 1,
                start + n <= tokens.len(),
                window == tokens@.subrange(start as int, start + n),
                locs == frontend::locations_of(window),
                picked@.len() == j,
                forall|q: int| 0 <= q < j ==> *(#[trigger] picked@[q]) == window[q].0,
                loc@ == (if j == 0 {
                    locs[0]
                } else {
                    span(locs.take(j as int))
                }),
            decreases n - j,
        {
            let pair = &tokens[start + j];
            picked.push(&pair.0);
            loc = merge_loc(&loc, &pair.1);
            proof {
                if j == 0 {
                    lemma_merge_same(locs[0]);
                } else {
                    assert(locs.take(j as int + 1).drop_last() == locs.take(j as int));
                }
            }
            j += 1;
        }
        let key = self.strategy.key(n, &picked);
        proof {
            assert(locs.take(n as int) == locs);
            assert(picked@.map_values(|t: &T| *t) == frontend::tokens_of(window));
        }
        self.pos = start + 1;
        Some((key, loc))
    }
}

/// All the fingerprints of a stream of tokens, for windows of width `n`.
pub fn fingerprints<T: Token, S: Strategy<T>>(
    tokens: &Vec<(T, Location)>,
    n: usize,
    strategy: &S,
) -> (r: Vec<(u64, Location)>)
    requires
        n >= 1,
    ensures
        fingerprints_view(r@) == fingerprints_of(tokens@, n as nat, *strategy),
        r@.len() == window_count(tokens@.len(), n as nat),
{
    let mut walk = NGramHashIterator::new(tokens, n, strategy);
    let mut out: Vec<(u64, Location)> = Vec::new();
    let ghost all = fingerprints_of(tokens@, n as nat, *strategy);
    loop
        invariant
            walk.wf(),
            all == fingerprints_of(tokens@, n as nat, *strategy),
            out@.len() <= all.len(),
            walk.remaining() == all.skip(out@.len() as int),
            fingerprints_view(out@) == all.take(out@.len() as int),
        decreases all.len() - out@.len(),
    {
        match walk.next() {
            Some(fp) => {
                out.push(fp);
            },
            None => {
                return out;
            },
        }
    }
}

/// The fingerprints of the files of a submission, file after file.
pub open spec fn submission_fingerprints<T: Token, S: Strategy<T>>(
    units: Seq<CodeUnit<T>>,
    n: nat,
    strategy: S,
) -> Seq<(u64, LocationView)>
    decreases units.len(),
{
    if units.len() == 0 {
        Seq::empty()
    } else {
        submission_fingerprints(units.drop_last(), n, strategy) + fingerprints_of(
            units.last().stream(),
            n,
            strategy,
        )
    }
}

} // verus!
