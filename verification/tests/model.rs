use lichen::frontend::{CodeUnit, FilePos, FileRange, Location, Origin, Source, Submission, Tokenizer};

/// Splits a text at spaces and numbers the words it knows.
struct Words;

impl Tokenizer<u64> for Words {
    fn tokenize(&self, path: &str, text: &str) -> Vec<(u64, Location)> {
        let mut column = 0u32;
        let mut out = Vec::new();
        for word in text.split(' ') {
            let end = column + word.len() as u32;
            let loc = Location::File {
                name: path.to_string(),
                range: FileRange { start: FilePos { line: 0, char: column }, end: FilePos { line: 0, char: end } },
            };
            out.push((word.len() as u64, loc));
            column = end + 1;
        }
        out
    }
}

#[test]
fn origins_are_equal_by_tag_and_payload() {
    assert_eq!(Origin::student("ann"), Origin::student("ann"));
    assert_ne!(Origin::student("ann"), Origin::student("bob"));
    assert_ne!(Origin::student("ann"), Origin::corpus("ann", ""));
    assert_eq!(Origin::corpus("g", "d"), Origin::corpus("g", "d"));
    assert_ne!(Origin::corpus("g", "d"), Origin::corpus("g", "e"));
    assert_ne!(Origin::corpus("g", "d"), Origin::corpus("h", "d"));
    assert_eq!(Origin::allowed(), Origin::allowed());
    assert_ne!(Origin::allowed(), Origin::student("allowed"));
    assert_eq!(Origin::student("ann").clone(), Origin::student("ann"));
    assert_eq!(Origin::corpus("g", "d").clone(), Origin::corpus("g", "d"));
}

#[test]
fn origins_are_built_as_their_variants() {
    assert!(matches!(Origin::student("ann"), Origin::Student { username } if username == "ann"));
    assert!(matches!(Origin::corpus("g", "d"), Origin::Corpus { group, desc } if group == "g" && desc == "d"));
    assert!(matches!(Origin::allowed(), Origin::Allowed));
    assert!(Origin::allowed().is_allowed());
    assert!(!Origin::student("ann").is_allowed());
    assert!(!Origin::corpus("g", "d").is_allowed());
}

#[test]
fn origins_are_labelled() {
    assert_eq!(Origin::student("ann").label(), "ann");
    assert_eq!(Origin::corpus("s19", "hw1").label(), "s19:hw1");
    assert_eq!(Origin::corpus("", "").label(), ":");
    assert_eq!(Origin::allowed().label(), "allowed");
}

#[test]
fn positions_are_ordered_by_line_then_column() {
    let a = FilePos { line: 1, char: 9 };
    let b = FilePos { line: 2, char: 0 };
    let c = FilePos { line: 2, char: 5 };
    assert!(a < b && b < c && a < c);
    assert!(a.precedes(&b) && b.precedes(&c) && a.precedes(&a));
    assert!(!b.precedes(&a) && !c.precedes(&b));
    assert_eq!(a.min(b), a);
    assert_eq!(c.max(b), c);
}

#[test]
fn locations_are_equal_by_file_and_range() {
    let range = FileRange { start: FilePos { line: 1, char: 2 }, end: FilePos { line: 3, char: 4 } };
    let other = FileRange { start: FilePos { line: 1, char: 2 }, end: FilePos { line: 3, char: 5 } };
    let a = Location::File { name: "a".to_string(), range };
    assert_eq!(a, a.clone());
    assert_eq!(a, Location::File { name: "a".to_string(), range });
    assert_ne!(a, Location::File { name: "b".to_string(), range });
    assert_ne!(a, Location::File { name: "a".to_string(), range: other });
    assert_ne!(a, Location::Unknown);
    assert_eq!(Location::Unknown, Location::Unknown);
}

#[test]
fn a_source_pairs_an_origin_with_a_location() {
    let range = FileRange { start: FilePos { line: 1, char: 2 }, end: FilePos { line: 3, char: 4 } };
    let loc = Location::File { name: "a".to_string(), range };
    let source = Source::new(Origin::student("ann"), loc.clone());
    assert_eq!(*source.origin(), Origin::student("ann"));
    assert_eq!(*source.location(), loc);
    assert!(!source.is_allowed());
    assert!(Source::new(Origin::allowed(), Location::Unknown).is_allowed());
    assert_eq!(source.clone(), source);
    assert_ne!(source, Source::new(Origin::student("ann"), Location::Unknown));
    assert_ne!(source, Source::new(Origin::student("bob"), loc));
}

#[test]
fn a_unit_keeps_what_it_was_made_of() {
    let tokens = vec![(1u64, Location::Unknown), (2u64, Location::Unknown)];
    let unit = CodeUnit::new(Some("a.c".to_string()), "int x;".to_string(), tokens.clone());
    assert_eq!(unit.tokens(), &tokens);
    assert_eq!(unit.filename(), &Some("a.c".to_string()));
    assert_eq!(unit.contents(), "int x;");
    let bare: CodeUnit<u64> = CodeUnit::new(None, String::new(), Vec::new());
    assert!(bare.tokens().is_empty());
    assert_eq!(bare.filename(), &None);
}

#[test]
fn a_unit_is_tokenized_from_its_text() {
    let unit = CodeUnit::from_text(&Words, "dir/a.txt", Some("a.txt".to_string()), "ab cde f".to_string());
    assert_eq!(unit.filename(), &Some("a.txt".to_string()));
    assert_eq!(unit.contents(), "ab cde f");
    let tokens = unit.tokens();
    assert_eq!(tokens.len(), 3);
    assert_eq!(tokens[0].0, 2);
    assert_eq!(tokens[1].0, 3);
    assert_eq!(tokens[2].0, 1);
    assert_eq!(
        tokens[1].1,
        Location::File {
            name: "dir/a.txt".to_string(),
            range: FileRange { start: FilePos { line: 0, char: 3 }, end: FilePos { line: 0, char: 6 } },
        }
    );
}

#[test]
fn a_submission_keeps_its_origin_and_files() {
    let one = Submission::single_file(
        Origin::student("ann"),
        CodeUnit::new(None, String::new(), vec![(1u64, Location::Unknown)]),
    );
    assert_eq!(*one.origin(), Origin::student("ann"));
    assert_eq!(one.units().len(), 1);
    assert_eq!(one.units()[0].tokens().len(), 1);
    let units = vec![
        CodeUnit::new(Some("a".to_string()), String::new(), vec![(1u64, Location::Unknown)]),
        CodeUnit::new(Some("b".to_string()), String::new(), Vec::new()),
    ];
    let many = Submission::files(Origin::corpus("g", "d"), units);
    assert_eq!(*many.origin(), Origin::corpus("g", "d"));
    assert_eq!(many.units().len(), 2);
    assert_eq!(many.units()[0].filename(), &Some("a".to_string()));
    assert_eq!(many.units()[1].filename(), &Some("b".to_string()));
    let none: Submission<u64> = Submission::files(Origin::allowed(), Vec::new());
    assert!(none.units().is_empty());
}
