//! The provenance and location model: who a piece of code came from, and where
//! in a file a token was seen, together with the containers that carry token
//! streams into the index.

use std::collections::hash_map::DefaultHasher;
use std::hash::Hasher;
use vstd::prelude::*;
use vstd::std_specs::cmp::PartialEqSpecImpl;
use vstd::string::StringExecFns;

verus! {

/// Who a submission belongs to.
#[derive(Debug, Eq, Hash)]
pub enum Origin {
    /// A student currently in the course.
    Student { username: String },
    /// Part of the known existing code.
    Corpus { group: String, desc: String },
    /// Part of the provided code, which is no evidence of copying.
    Allowed,
}

/// The mathematical value of an [`Origin`]: its tag and the characters of its
/// payload.
pub enum OriginView {
    Student { username: Seq<char> },
    Corpus { group: Seq<char>, desc: Seq<char> },
    Allowed,
}

impl View for Origin {
    type V = OriginView;

    open spec fn view(&self) -> OriginView {
        match self {
            Origin::Student { username } => OriginView::Student { username: username@ },
            Origin::Corpus { group, desc } => OriginView::Corpus { group: group@, desc: desc@ },
            Origin::Allowed => OriginView::Allowed,
        }
    }
}

impl OriginView {
    /// The text an origin is printed as: the user name, `group:desc`, or the
    /// word `allowed`.
    pub open spec fn label(self) -> Seq<char> {
        match self {
            OriginView::Student { username } => username,
            OriginView::Corpus { group, desc } => group + seq![':'] + desc,
            OriginView::Allowed => "allowed"@,
        }
    }
}

impl Origin {
    /// The origin of a student's own work.
    pub fn student(username: &str) -> (r: Origin)
        ensures
            r@ == (OriginView::Student { username: username@ }),
    {
        Origin::Student { username: username.to_owned() }
    }

    /// The origin of code that is known from before.
    pub fn corpus(group: &str, desc: &str) -> (r: Origin)
        ensures
            r@ == (OriginView::Corpus { group: group@, desc: desc@ }),
    {
        Origin::Corpus { group: group.to_owned(), desc: desc.to_owned() }
    }

    /// The origin of code that everybody was given.
    pub fn allowed() -> (r: Origin)
        ensures
            r@ == OriginView::Allowed,
    {
        Origin::Allowed
    }

    /// Whether this is the origin of exempted code.
    pub fn is_allowed(&self) -> (r: bool)
        ensures
            r == (self@ == OriginView::Allowed),
    {
        match self {
            Origin::Allowed => true,
            _ => false,
        }
    }

    /// The text this origin is printed as.
    pub fn label(&self) -> (r: String)
        ensures
            r@ == self@.label(),
    {
        match self {
            Origin::Student { username } => username.clone(),
            Origin::Corpus { group, desc } => {
                let mut text = group.clone();
                text.append(":");
                text.append(desc.as_str());
                proof {
                    reveal_strlit(":");
                }
                text
            },
            Origin::Allowed => "allowed".to_owned(),
        }
    }
}

impl Clone for Origin {
    fn clone(&self) -> (r: Origin)
        ensures
            r@ == self@,
    {
        match self {
            Origin::Student { username } => Origin::Student { username: username.clone() },
            Origin::Corpus { group, desc } => Origin::Corpus {
                group: group.clone(),
                desc: desc.clone(),
            },
            Origin::Allowed => Origin::Allowed,
        }
    }
}

impl PartialEq for Origin {
    fn eq(&self, other: &Origin) -> (r: bool) {
        match (self, other) {
            (Origin::Student { username: a }, Origin::Student { username: b }) => *a == *b,
            (Origin::Corpus { group: a, desc: c }, Origin::Corpus { group: b, desc: d }) => *a
                == *b && *c == *d,
            (Origin::Allowed, Origin::Allowed) => true,
            _ => false,
        }
    }
}

impl PartialEqSpecImpl for Origin {
    open spec fn obeys_eq_spec() -> bool {
        true
    }

    open spec fn eq_spec(&self, other: &Origin) -> bool {
        self@ == other@
    }
}

/// A position in a file. Positions are ordered by line, then by column.
#[derive(Debug, Clone, Copy, PartialEq, Eq, Structural, Hash, PartialOrd, Ord)]
pub struct FilePos {
    pub line: u32,
    pub char: u32,
}

impl FilePos {
    /// `self` comes no later than `other`.
    pub open spec fn before_eq(self, other: FilePos) -> bool {
        self.line < other.line || (self.line == other.line && self.char <= other.char)
    }

    /// The earlier of two positions.
    pub open spec fn earlier(self, other: FilePos) -> FilePos {
        if self.before_eq(other) {
            self
        } else {
            other
        }
    }

    /// The later of two positions.
    pub open spec fn later(self, other: FilePos) -> FilePos {
        if self.before_eq(other) {
            other
        } else {
            self
        }
    }

    /// Whether `self` comes no later than `other`.
    pub fn precedes(&self, other: &FilePos) -> (r: bool)
        ensures
            r == self.before_eq(*other),
    {
        self.line < other.line || (self.line == other.line && self.char <= other.char)
    }
}

/// A span between two positions of one file.
#[derive(Debug, Clone, Copy, PartialEq, Eq, Structural, Hash)]
pub struct FileRange {
    pub start: FilePos,
    pub end: FilePos,
}

/// Where a token, or a window of tokens, was seen.
#[derive(Debug, Eq, Hash)]
pub enum Location {
    File { name: String, range: FileRange },
    Unknown,
}

/// The mathematical value of a [`Location`].
pub enum LocationView {
    File { name: Seq<char>, range: FileRange },
    Unknown,
}

impl View for Location {
    type V = LocationView;

    open spec fn view(&self) -> LocationView {
        match self {
            Location::File { name, range } => LocationView::File { name: name@, range: *range },
            Location::Unknown => LocationView::Unknown,
        }
    }
}

impl Clone for Location {
    fn clone(&self) -> (r: Location)
        ensures
            r@ == self@,
    {
        match self {
            Location::File { name, range } => Location::File { name: name.clone(), range: *range },
            Location::Unknown => Location::Unknown,
        }
    }
}

impl PartialEq for Location {
    fn eq(&self, other: &Location) -> (r: bool) {
        match (self, other) {
            (Location::File { name: a, range: r }, Location::File { name: b, range: s }) => *a
                == *b && *r == *s,
            (Location::Unknown, Location::Unknown) => true,
            _ => false,
        }
    }
}

impl PartialEqSpecImpl for Location {
    open spec fn obeys_eq_spec() -> bool {
        true
    }

    open spec fn eq_spec(&self, other: &Location) -> bool {
        self@ == other@
    }
}

/// One observed occurrence of a fingerprint: whose it is and where it was seen.
#[derive(Debug, Eq, Hash)]
pub struct Source {
    orig: Origin,
    loc: Location,
}

/// The mathematical value of a [`Source`].
pub struct SourceView {
    pub origin: OriginView,
    pub loc: LocationView,
}

impl View for Source {
    type V = SourceView;

    closed spec fn view(&self) -> SourceView {
        SourceView { origin: self.orig@, loc: self.loc@ }
    }
}

impl Source {
    /// An occurrence at `loc` in the code of `origin`.
    pub fn new(origin: Origin, loc: Location) -> (r: Source)
        ensures
            r@ == (SourceView { origin: origin@, loc: loc@ }),
    {
        Source { orig: origin, loc }
    }

    /// Whose occurrence this is.
    pub fn origin(&self) -> (r: &Origin)
        ensures
            r@ == self@.origin,
    {
        &self.orig
    }

    /// Where the occurrence was seen.
    pub fn location(&self) -> (r: &Location)
        ensures
            r@ == self@.loc,
    {
        &self.loc
    }

    /// Whether the occurrence is one in exempted code.
    pub fn is_allowed(&self) -> (r: bool)
        ensures
            r == (self@.origin == OriginView::Allowed),
    {
        match &self.orig {
            Origin::Allowed => true,
            _ => false,
        }
    }
}

impl Clone for Source {
    fn clone(&self) -> (r: Source)
        ensures
            r@ == self@,
    {
        Source { orig: self.orig.clone(), loc: self.loc.clone() }
    }
}

impl PartialEq for Source {
    fn eq(&self, other: &Source) -> (r: bool) {
        self.orig == other.orig && self.loc == other.loc
    }
}

impl PartialEqSpecImpl for Source {
    open spec fn obeys_eq_spec() -> bool {
        true
    }

    open spec fn eq_spec(&self, other: &Source) -> bool {
        self@ == other@
    }
}

/// A token of a source text. The index never looks inside a token: all it
/// asks of one is the bytes by which it is known to a hasher.
pub trait Token {
    /// The bytes that stand for this token.
    spec fn encoding(&self) -> Seq<u8>;

    /// Writes the token's bytes to `state`, in one write.
    fn feed(&self, state: &mut DefaultHasher)
        ensures
            final(state)@ == old(state)@.push(self.encoding()),
    ;
}

impl Token for u64 {
    open spec fn encoding(&self) -> Seq<u8> {
        vstd::bytes::spec_u64_to_le_bytes(*self)
    }

    fn feed(&self, state: &mut DefaultHasher) {
        let bytes = vstd::bytes::u64_to_le_bytes(*self);
        state.write(bytes.as_slice());
    }
}

/// Turns the text of a file into its tokens, each with the place it was seen.
pub trait Tokenizer<T> where T: Token {
    /// The tokens of `text`, which was read from the file at `path`.
    fn tokenize(&self, path: &str, text: &str) -> Vec<(T, Location)>;
}

/// The tokens of a stream, without their locations.
pub open spec fn tokens_of<T>(stream: Seq<(T, Location)>) -> Seq<T> {
    Seq::new(stream.len(), |i: int| stream[i].0)
}

/// The locations of a stream, without their tokens.
pub open spec fn locations_of<T>(stream: Seq<(T, Location)>) -> Seq<LocationView> {
    Seq::new(stream.len(), |i: int| stream[i].1@)
}

/// One file's worth of content.
pub struct CodeUnit<T> {
    filename: Option<String>,
    contents: String,
    tokens: Vec<(T, Location)>,
}

impl<T> CodeUnit<T> where T: Token {
    /// The name of the file, where it has one.
    pub closed spec fn spec_filename(&self) -> Option<Seq<char>> {
        match self.filename {
            Some(name) => Some(name@),
            None => None,
        }
    }

    /// The text of the file.
    pub closed spec fn spec_contents(&self) -> Seq<char> {
        self.contents@
    }

    /// The file's tokens, in the order the tokenizer gave them.
    pub closed spec fn stream(&self) -> Seq<(T, Location)> {
        self.tokens@
    }

    /// A unit made of a file's name, its text and the tokens found in it.
    pub fn new(filename: Option<String>, contents: String, tokens: Vec<(T, Location)>) -> (r: Self)
        ensures
            r.spec_filename() == (match filename {
                Some(name) => Some(name@),
                None => None,
            }),
            r.spec_contents() == contents@,
            r.stream() == tokens@,
    {
        CodeUnit { filename, contents, tokens }
    }

    /// A unit made of the text of the file at `path`, tokenized by `t`: its
    /// tokens are what `t` makes of the path and the text.
    pub fn from_text<F: Tokenizer<T>>(
        t: &F,
        path: &str,
        filename: Option<String>,
        text: String,
    ) -> (r: Self)
        ensures
            r.spec_filename() == (match filename {
                Some(name) => Some(name@),
                None => None,
            }),
            r.spec_contents() == text@,
            exists|read: &str, made: Vec<(T, Location)>|
                read@ == text@ && made@ == r.stream() && #[trigger] call_ensures(
                    F::tokenize,
                    (t, path, read),
                    made,
                ),
    {
        let read = text.as_str();
        let tokens = t.tokenize(path, read);
        CodeUnit { filename, contents: text, tokens }
    }

    /// The file's tokens, each with the place it was seen.
    pub fn tokens(&self) -> (r: &Vec<(T, Location)>)
        ensures
            r@ == self.stream(),
    {
        &self.tokens
    }

    /// The name of the file, where it has one.
    pub fn filename(&self) -> (r: &Option<String>)
        ensures
            (match *r {
                Some(name) => Some(name@),
                None => None,
            }) == self.spec_filename(),
    {
        &self.filename
    }

    /// The text of the file.
    pub fn contents(&self) -> (r: &String)
        ensures
            r@ == self.spec_contents(),
    {
        &self.contents
    }
}

/// The code handed in under one origin: its files, in order.
pub struct Submission<T> {
    origin: Origin,
    units: Vec<CodeUnit<T>>,
}

impl<T> Submission<T> where T: Token {
    /// Whose submission this is.
    pub closed spec fn spec_origin(&self) -> OriginView {
        self.origin@
    }

    /// The files of the submission.
    pub closed spec fn spec_units(&self) -> Seq<CodeUnit<T>> {
        self.units@
    }

    /// A submission of a single file.
    pub fn single_file(origin: Origin, unit: CodeUnit<T>) -> (r: Self)
        ensures
            r.spec_origin() == origin@,
            r.spec_units() == seq![unit],
    {
        let mut units: Vec<CodeUnit<T>> = Vec::new();
        units.push(unit);
        Submission { origin, units }
    }

    /// A submission of several files, kept in the order given.
    pub fn files(origin: Origin, units: Vec<CodeUnit<T>>) -> (r: Self)
        ensures
            r.spec_origin() == origin@,
            r.spec_units() == units@,
    {
        Submission { origin, units }
    }

    /// The files of the submission.
    pub fn units(&self) -> (r: &Vec<CodeUnit<T>>)
        ensures
            r@ == self.spec_units(),
    {
        &self.units
    }

    /// Whose submission this is.
    pub fn origin(&self) -> (r: &Origin)
        ensures
            r@ == self.spec_origin(),
    {
        &self.origin
    }
}

} // verus!
