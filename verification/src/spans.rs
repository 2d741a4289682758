//! From the operations of a scope parser to a stream of tokens: every scope
//! that is pushed is a token, seen where it was pushed, and a token's span
//! ends where the next token starts.

use crate::frontend::{FilePos, FileRange, Location, LocationView};
use vstd::prelude::*;

verus! {

/// One operation on the stack of scopes, as a parser reports it for a point
/// of a line.
pub enum ScopeOp<T> {
    /// A scope is entered.
    Push(T),
    /// So many scopes are left.
    Pop(usize),
    /// Scopes are set aside for a while.
    Clear,
    /// The scopes set aside are brought back.
    Restore,
    /// Nothing happens.
    Noop,
}

/// The low 32 bits of a line or column number.
pub open spec fn low_bits(x: usize) -> u32 {
    (x as int % 0x1_0000_0000) as u32
}

/// Where a token is seen that starts at `column` of `line` in the file
/// `name`: its end is not known yet and stands at zero. A line or column at
/// or beyond 2^32 wraps around.
pub open spec fn opened(name: Seq<char>, line: usize, column: usize) -> LocationView {
    LocationView::File {
        name,
        range: FileRange {
            start: FilePos { line: low_bits(line), char: low_bits(column) },
            end: FilePos { line: 0, char: 0 },
        },
    }
}

/// The tokens that the operations of one line give: one for each push, in
/// order.
pub open spec fn pushes_of_line<T>(
    name: Seq<char>,
    line: usize,
    ops: Seq<(usize, ScopeOp<T>)>,
) -> Seq<(T, LocationView)>
    decreases ops.len(),
{
    if ops.len() == 0 {
        Seq::empty()
    } else {
        let before = pushes_of_line(name, line, ops.drop_last());
        match ops.last().1 {
            ScopeOp::Push(scope) => before.push((scope, opened(name, line, ops.last().0))),
            _ => before,
        }
    }
}

/// The tokens that the operations of the first `count` lines give.
pub open spec fn pushes_of<T>(
    name: Seq<char>,
    lines: Seq<Vec<(usize, ScopeOp<T>)>>,
    count: nat,
) -> Seq<(T, LocationView)>
    decreases count,
{
    if count == 0 || count > lines.len() {
        Seq::empty()
    } else {
        pushes_of(name, lines, (count - 1) as nat) + pushes_of_line(
            name,
            (count - 1) as usize,
            lines[count - 1]@,
        )
    }
}

/// What a stream of tokens stands for.
pub open spec fn stream_view<T>(stream: Seq<(T, Location)>) -> Seq<(T, LocationView)> {
    Seq::new(stream.len(), |i: int| (stream[i].0, stream[i].1@))
}

/// The location of a token once the token after it is known: it ends where
/// that one starts, and it is unknown where either is.
pub open spec fn closed_by(own: LocationView, next: LocationView) -> LocationView {
    match (own, next) {
        (
            LocationView::File { name, range },
            LocationView::File { name: _, range: after },
        ) => LocationView::File { name, range: FileRange { start: range.start, end: after.start } },
        _ => LocationView::Unknown,
    }
}

/// The locations of a stream once every token but the last ends where the
/// next one starts. The last token is left as it is.
pub open spec fn closed<T>(stream: Seq<(T, LocationView)>) -> Seq<(T, LocationView)> {
    Seq::new(
        stream.len(),
        |i: int|
            if i + 1 < stream.len() {
                (stream[i].0, closed_by(stream[i].1, stream[i + 1].1))
            } else {
                stream[i]
            },
    )
}

/// The location of a token that starts at `column` of `line`.
pub fn open_at(name: &str, line: usize, column: usize) -> (r: Location)
    ensures
        r@ == opened(name@, line, column),
{
    Location::File {
        name: name.to_owned(),
        range: FileRange {
            start: FilePos { line: wrap(line), char: wrap(column) },
            end: FilePos { line: 0, char: 0 },
        },
    }
}

/// The low 32 bits of a line or column number.
fn wrap(x: usize) -> (r: u32)
    ensures
        r == low_bits(x),
{
    (x as u64 % 0x1_0000_0000u64) as u32
}

/// Turns the operations of a file, line by line, into its tokens: a token for
/// every scope pushed, in the order of the pushes.
pub fn collect_pushes<T>(name: &str, lines: Vec<Vec<(usize, ScopeOp<T>)>>) -> (r: Vec<
    (T, Location),
>)
    ensures
        stream_view(r@) == pushes_of(name@, lines@, lines@.len()),
{
    let mut tokens: Vec<(T, Location)> = Vec::new();
    let total: usize = lines.len();
    let mut line: usize = 0;
    for ops in outer: lines
        invariant
            outer.seq() == lines@,
            total == lines@.len(),
            line == outer.index(),
            stream_view(tokens@) == pushes_of(name@, lines@, line as nat),
    {
        let ghost done = pushes_of(name@, lines@, line as nat);
        let ghost all = ops@;
        for op in inner: ops
            invariant
                inner.seq() == all,
                line < lines@.len(),
                all == lines@[line as int]@,
                done == pushes_of(name@, lines@, line as nat),
                stream_view(tokens@) == done + pushes_of_line(name@, line, all.take(inner.index())),
        {
            let ghost at = inner.index();
            proof {
                assert(all.take(at + 1).drop_last() =~= all.take(at));
            }
            match op.1 {
                ScopeOp::Push(scope) => {
                    let ghost before = tokens@;
                    let loc = open_at(name, line, op.0);
                    tokens.push((scope, loc));
                    proof {
                        assert(stream_view(tokens@) =~= stream_view(before).push(
                            (scope, opened(name@, line, op.0)),
                        ));
                    }
                },
                _ => {},
            }
        }
        proof {
            assert(all.take(all.len() as int) =~= all);
        }
        line = line + 1;
    }
    tokens
}

/// The location of a token, given the location of the token after it.
pub fn close(own: Location, next: &Location) -> (r: Location)
    ensures
        r@ == closed_by(own@, next@),
{
    match own {
        Location::File { name, range } => match next {
            Location::File { name: _, range: after } => Location::File {
                name,
                range: FileRange { start: range.start, end: after.start },
            },
            Location::Unknown => Location::Unknown,
        },
        Location::Unknown => Location::Unknown,
    }
}

/// Lets every token but the last end where the next one starts.
pub fn close_ranges<T>(tokens: Vec<(T, Location)>) -> (r: Vec<(T, Location)>)
    ensures
        stream_view(r@) == closed(stream_view(tokens@)),
{
    let ghost all = stream_view(tokens@);
    let mut out: Vec<(T, Location)> = Vec::new();
    let mut pending: Option<(T, Location)> = None;
    for token in it: tokens
        invariant
            it.seq() == tokens@,
            all == stream_view(tokens@),
            pending is Some <==> it.index() > 0,
            pending matches Some(held) ==> held == tokens@[it.index() - 1],
            out@.len() == (if it.index() > 0 {
                it.index() - 1
            } else {
                0
            }),
            forall|i: int| 0 <= i < out@.len() ==> (#[trigger] stream_view(out@)[i]) == closed(all)[i],
    {
        let ghost before = out@;
        match pending {
            Some(held) => {
                let loc = close(held.1, &token.1);
                out.push((held.0, loc));
                proof {
                    let at = it.index() - 1;
                    assert forall|i: int| 0 <= i < out@.len() implies (#[trigger] stream_view(
                        out@,
                    )[i]) == closed(all)[i] by {
                        if i < at {
                            assert(stream_view(before)[i] == closed(all)[i]);
                        }
                    }
                }
            },
            None => {},
        }
        pending = Some(token);
    }
    match pending {
        Some(held) => {
            let ghost before = out@;
            out.push(held);
            proof {
                assert forall|i: int| 0 <= i < out@.len() implies (#[trigger] stream_view(out@)[i])
                    == closed(all)[i] by {
                    if i < before.len() {
                        assert(stream_view(before)[i] == closed(all)[i]);
                    }
                }
            }
        },
        None => {},
    }
    out
}

} // verus!
