use lichen::frontend::{FilePos, FileRange, Location};
use lichen::spans::{close, close_ranges, collect_pushes, open_at, ScopeOp};

fn file(name: &str, start: (u32, u32), end: (u32, u32)) -> Location {
    Location::File {
        name: name.to_string(),
        range: FileRange {
            start: FilePos { line: start.0, char: start.1 },
            end: FilePos { line: end.0, char: end.1 },
        },
    }
}

#[test]
fn a_token_is_opened_where_it_starts() {
    assert_eq!(open_at("a.rs", 3, 14), file("a.rs", (3, 14), (0, 0)));
    assert_eq!(open_at("", 0, 0), file("", (0, 0), (0, 0)));
    assert_eq!(open_at("a.rs", u32::MAX as usize, u32::MAX as usize), file("a.rs", (u32::MAX, u32::MAX), (0, 0)));
}

#[test]
fn every_push_is_a_token() {
    let lines = vec![
        vec![(0, ScopeOp::Push("source")), (0, ScopeOp::Push("keyword")), (2, ScopeOp::Pop(1)), (3, ScopeOp::Push("name"))],
        vec![],
        vec![(0, ScopeOp::Noop), (4, ScopeOp::Clear), (4, ScopeOp::Restore), (5, ScopeOp::Push("string")), (9, ScopeOp::Pop(2))],
    ];
    let tokens = collect_pushes("a.rs", lines);
    assert_eq!(
        tokens,
        vec![
            ("source", file("a.rs", (0, 0), (0, 0))),
            ("keyword", file("a.rs", (0, 0), (0, 0))),
            ("name", file("a.rs", (0, 3), (0, 0))),
            ("string", file("a.rs", (2, 5), (0, 0))),
        ]
    );
}

#[test]
fn no_push_is_no_token() {
    let none: Vec<(&str, Location)> = collect_pushes("a.rs", Vec::new());
    assert!(none.is_empty());
    let lines: Vec<Vec<(usize, ScopeOp<&str>)>> = vec![vec![(0, ScopeOp::Pop(1))], vec![(1, ScopeOp::Noop)]];
    assert!(collect_pushes("a.rs", lines).is_empty());
}

#[test]
fn a_token_ends_where_the_next_one_starts() {
    let tokens = vec![
        (1u8, file("a.rs", (0, 0), (0, 0))),
        (2u8, file("a.rs", (0, 3), (0, 0))),
        (3u8, file("a.rs", (2, 5), (0, 0))),
    ];
    assert_eq!(
        close_ranges(tokens),
        vec![
            (1u8, file("a.rs", (0, 0), (0, 3))),
            (2u8, file("a.rs", (0, 3), (2, 5))),
            (3u8, file("a.rs", (2, 5), (0, 0))),
        ]
    );
}

#[test]
fn closing_keeps_a_short_stream() {
    let none: Vec<(u8, Location)> = Vec::new();
    assert!(close_ranges(none).is_empty());
    let one = vec![(1u8, file("a.rs", (4, 2), (9, 9)))];
    assert_eq!(close_ranges(one.clone()), one);
}

#[test]
fn closing_next_to_an_unknown_place_is_unknown() {
    let tokens = vec![
        (1u8, file("a.rs", (0, 0), (0, 0))),
        (2u8, Location::Unknown),
        (3u8, file("a.rs", (2, 5), (0, 0))),
        (4u8, file("b.rs", (7, 1), (0, 0))),
    ];
    assert_eq!(
        close_ranges(tokens),
        vec![
            (1u8, Location::Unknown),
            (2u8, Location::Unknown),
            (3u8, file("a.rs", (2, 5), (7, 1))),
            (4u8, file("b.rs", (7, 1), (0, 0))),
        ]
    );
}

#[test]
fn one_location_is_closed_by_the_next() {
    let own = file("a.rs", (1, 2), (8, 8));
    assert_eq!(close(own.clone(), &file("z.rs", (3, 4), (5, 6))), file("a.rs", (1, 2), (3, 4)));
    assert_eq!(close(own, &Location::Unknown), Location::Unknown);
    assert_eq!(close(Location::Unknown, &file("a.rs", (3, 4), (5, 6))), Location::Unknown);
}

#[test]
fn a_file_is_tokenized_in_two_passes() {
    let lines = vec![
        vec![(0, ScopeOp::Push(10u64)), (4, ScopeOp::Push(11))],
        vec![(2, ScopeOp::Pop(1)), (2, ScopeOp::Push(12))],
    ];
    let tokens = close_ranges(collect_pushes("m.py", lines));
    assert_eq!(
        tokens,
        vec![
            (10, file("m.py", (0, 0), (0, 4))),
            (11, file("m.py", (0, 4), (1, 2))),
            (12, file("m.py", (1, 2), (0, 0))),
        ]
    );
}
