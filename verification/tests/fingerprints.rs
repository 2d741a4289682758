use lichen::frontend::{FilePos, FileRange, Location, Token};
use lichen::ngram::{fingerprints, merge_loc, NGramHashIterator};
use lichen::strategy::{Strategy, StructuralHash};
use std::collections::hash_map::DefaultHasher;
use std::hash::Hasher;

fn file(name: &str, start: (u32, u32), end: (u32, u32)) -> Location {
    Location::File {
        name: name.to_string(),
        range: FileRange {
            start: FilePos { line: start.0, char: start.1 },
            end: FilePos { line: end.0, char: end.1 },
        },
    }
}

fn plain(tokens: &[u64]) -> Vec<(u64, Location)> {
    tokens.iter().map(|t| (*t, Location::Unknown)).collect()
}

fn key(window: &[u64]) -> u64 {
    let refs: Vec<&u64> = window.iter().collect();
    StructuralHash.key(window.len(), &refs)
}

#[test]
fn fingerprint_count_is_length_minus_width_plus_one() {
    for len in 0..8usize {
        for n in 1..6usize {
            let tokens: Vec<u64> = (0..len as u64).collect();
            let stream = plain(&tokens);
            let expected = if len >= n { len - n + 1 } else { 0 };
            assert_eq!(fingerprints(&stream, n, &StructuralHash).len(), expected);
        }
    }
}

#[test]
fn fingerprints_come_in_window_order() {
    let stream = plain(&[1, 2, 3, 4, 5]);
    let fps = fingerprints(&stream, 3, &StructuralHash);
    let keys: Vec<u64> = fps.iter().map(|fp| fp.0).collect();
    assert_eq!(keys, vec![key(&[1, 2, 3]), key(&[2, 3, 4]), key(&[3, 4, 5])]);
}

#[test]
fn the_iterator_hands_out_each_fingerprint_once() {
    let stream = plain(&[4, 5, 6, 7]);
    let strategy = StructuralHash;
    let mut walk = NGramHashIterator::new(&stream, 2, &strategy);
    assert_eq!(walk.next(), Some((key(&[4, 5]), Location::Unknown)));
    assert_eq!(walk.next(), Some((key(&[5, 6]), Location::Unknown)));
    assert_eq!(walk.next(), Some((key(&[6, 7]), Location::Unknown)));
    assert_eq!(walk.next(), None);
    assert_eq!(walk.next(), None);
}

#[test]
fn a_stream_shorter_than_the_window_has_no_fingerprint() {
    let stream = plain(&[1, 2]);
    let strategy = StructuralHash;
    let mut walk = NGramHashIterator::new(&stream, 3, &strategy);
    assert_eq!(walk.next(), None);
    assert!(fingerprints(&stream, 3, &strategy).is_empty());
    assert!(fingerprints(&plain(&[]), 1, &strategy).is_empty());
}

#[test]
fn a_window_of_one_token_is_the_token() {
    let stream = vec![(9u64, file("a", (2, 3), (2, 7)))];
    let fps = fingerprints(&stream, 1, &StructuralHash);
    assert_eq!(fps, vec![(key(&[9]), file("a", (2, 3), (2, 7)))]);
}

#[test]
fn an_integer_token_is_fed_as_its_bytes() {
    let mut fed = DefaultHasher::new();
    0x0102_0304_0506_0708u64.feed(&mut fed);
    let mut written = DefaultHasher::new();
    written.write(&[8, 7, 6, 5, 4, 3, 2, 1]);
    assert_eq!(fed.finish(), written.finish());
}

#[test]
fn the_default_key_is_the_digest_of_the_tokens_in_order() {
    let mut state = DefaultHasher::new();
    state.write(&1u64.to_le_bytes());
    state.write(&2u64.to_le_bytes());
    state.write(&3u64.to_le_bytes());
    assert_eq!(key(&[1, 2, 3]), state.finish());
}

#[test]
fn reversing_a_window_changes_its_key() {
    assert_ne!(key(&[1, 2, 3]), key(&[3, 2, 1]));
    assert_ne!(key(&[1, 2]), key(&[2, 1]));
    assert_ne!(key(&[5, 5, 6]), key(&[6, 5, 5]));
    assert_eq!(key(&[1, 2, 1]), key(&[1, 2, 1]));
}

#[test]
fn the_same_window_always_has_the_same_key() {
    let a = fingerprints(&plain(&[1, 2, 3, 1, 2, 3]), 3, &StructuralHash);
    assert_eq!(a[0].0, a[3].0);
    let b = fingerprints(&vec![(1u64, file("x", (0, 0), (0, 1))), (2, Location::Unknown), (3, Location::Unknown)], 3, &StructuralHash);
    assert_eq!(a[0].0, b[0].0);
}

#[test]
fn merging_in_one_file_spans_both() {
    let a = file("a.c", (3, 4), (3, 9));
    let b = file("a.c", (1, 7), (2, 0));
    assert_eq!(merge_loc(&a, &b), file("a.c", (1, 7), (3, 9)));
    assert_eq!(merge_loc(&b, &a), file("a.c", (1, 7), (3, 9)));
    assert_eq!(merge_loc(&a, &a), a);
}

#[test]
fn merging_orders_positions_by_line_then_column() {
    let a = file("a.c", (2, 9), (2, 1));
    let b = file("a.c", (3, 0), (1, 8));
    assert_eq!(merge_loc(&a, &b), file("a.c", (2, 9), (2, 1)));
    let c = file("a.c", (2, 3), (2, 5));
    assert_eq!(merge_loc(&a, &c), file("a.c", (2, 3), (2, 5)));
}

#[test]
fn merging_across_files_is_unknown() {
    let a = file("a.c", (1, 0), (1, 5));
    let b = file("b.c", (1, 0), (1, 5));
    assert_eq!(merge_loc(&a, &b), Location::Unknown);
    assert_eq!(merge_loc(&a, &Location::Unknown), Location::Unknown);
    assert_eq!(merge_loc(&Location::Unknown, &b), Location::Unknown);
    assert_eq!(merge_loc(&Location::Unknown, &Location::Unknown), Location::Unknown);
}

#[test]
fn a_window_is_located_by_the_span_of_its_tokens() {
    let stream = vec![
        (1u64, file("a.c", (1, 0), (1, 2))),
        (2u64, file("a.c", (1, 3), (1, 5))),
        (3u64, file("a.c", (2, 0), (2, 4))),
        (4u64, file("a.c", (5, 1), (5, 2))),
    ];
    let fps = fingerprints(&stream, 3, &StructuralHash);
    assert_eq!(fps.len(), 2);
    assert_eq!(fps[0].1, file("a.c", (1, 0), (2, 4)));
    assert_eq!(fps[1].1, file("a.c", (1, 3), (5, 2)));
}

#[test]
fn a_window_with_an_unknown_token_is_unknown() {
    let stream = vec![
        (1u64, file("a.c", (1, 0), (1, 2))),
        (2u64, Location::Unknown),
        (3u64, file("a.c", (2, 0), (2, 4))),
        (4u64, file("a.c", (5, 1), (5, 2))),
        (5u64, file("b.c", (5, 1), (5, 2))),
    ];
    let fps = fingerprints(&stream, 2, &StructuralHash);
    assert_eq!(fps[0].1, Location::Unknown);
    assert_eq!(fps[1].1, Location::Unknown);
    assert_eq!(fps[2].1, file("a.c", (2, 0), (5, 2)));
    assert_eq!(fps[3].1, Location::Unknown);
}
