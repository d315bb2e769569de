//! The closed error taxonomy shared by parsing, materializing and the
//! registries.

use crate::helper::{decimal, to_decimal, url_name, url_text};
use std::ops::Range;
use url::Url;
use vstd::prelude::*;
use vstd::std_specs::convert::FromSpecImpl;
use vstd::string::StringExecFns;

verus! {

/// `url::Url`, an opaque reference to the file a declaration came from. The
/// library stores it and hands it back; it never looks inside.
#[verifier::external_type_specification]
#[verifier::external_body]
pub struct ExUrl(Url);

/// `Clone::clone` of `url::Url`, which is derived: the clone is the same URL.
pub assume_specification[ <Url as Clone>::clone ](url: &Url) -> (res: Url)
    ensures
        res == *url,
;

/// The result type of every fallible operation.
pub type LifeResult<T> = Result<T, LifeError>;

/// The three kinds of failure.
#[derive(Debug)]
pub enum LifeErrorKind {
    /// An environment or I/O failure met while loading a source.
    RuntimeError { message: String },
    /// A grammar or lexical violation, with the place it was found.
    SyntaxError { message: String, file: Option<Url>, span: Range<usize> },
    /// A registry key collision, citing the entry that holds the key (`old`)
    /// and the entry that asked for it (`new`).
    DuplicateError {
        message: String,
        old: (Option<Url>, Range<usize>),
        new: (Option<Url>, Range<usize>),
    },
}

/// An error of this library: a boxed [`LifeErrorKind`].
#[derive(Debug)]
pub struct LifeError {
    kind: Box<LifeErrorKind>,
}

/// The mathematical model of a place in a source: the file, if one is
/// known, and a half-open byte range.
pub ghost struct Place {
    pub file: Option<Url>,
    pub start: nat,
    pub end: nat,
}

/// The mathematical model of an error.
pub ghost enum Failure {
    /// An environment or I/O failure.
    Runtime { message: Seq<char> },
    /// A grammar or lexical violation at `place`.
    Syntax { message: Seq<char>, place: Place },
    /// A registry key collision between the entry at `old`, which holds the
    /// key, and the entry at `new`, which asked for it.
    Duplicate { message: Seq<char>, old: Place, new: Place },
}

/// The model of a place given as a file and a byte range.
pub open spec fn place_of(place: (Option<Url>, Range<usize>)) -> Place {
    Place { file: place.0, start: place.1.start as nat, end: place.1.end as nat }
}

impl View for LifeErrorKind {
    type V = Failure;

    open spec fn view(&self) -> Failure {
        match self {
            LifeErrorKind::RuntimeError { message } => Failure::Runtime { message: message@ },
            LifeErrorKind::SyntaxError { message, file, span } => Failure::Syntax {
                message: message@,
                place: place_of((*file, *span)),
            },
            LifeErrorKind::DuplicateError { message, old, new } => Failure::Duplicate {
                message: message@,
                old: place_of(*old),
                new: place_of(*new),
            },
        }
    }
}

/// A copy of an optional file reference.
pub fn clone_file(file: &Option<Url>) -> (res: Option<Url>)
    ensures
        res == *file,
{
    match file {
        Some(url) => Some(url.clone()),
        None => None,
    }
}

/// A copy of a place: the same file, the same byte range.
pub fn clone_place(place: &(Option<Url>, Range<usize>)) -> (res: (Option<Url>, Range<usize>))
    ensures
        place_of(res) == place_of(*place),
{
    (clone_file(&place.0), Range { start: place.1.start, end: place.1.end })
}

impl Clone for LifeErrorKind {
    fn clone(&self) -> (res: Self)
        ensures
            res@ == self@,
    {
        match self {
            LifeErrorKind::RuntimeError { message } => LifeErrorKind::RuntimeError {
                message: message.clone(),
            },
            LifeErrorKind::SyntaxError { message, file, span } => LifeErrorKind::SyntaxError {
                message: message.clone(),
                file: clone_file(file),
                span: Range { start: span.start, end: span.end },
            },
            LifeErrorKind::DuplicateError { message, old, new } => LifeErrorKind::DuplicateError {
                message: message.clone(),
                old: clone_place(old),
                new: clone_place(new),
            },
        }
    }
}

impl View for LifeError {
    type V = Failure;

    open spec fn view(&self) -> Failure {
        self.spec_kind()@
    }
}

impl Clone for LifeError {
    fn clone(&self) -> (res: Self)
        ensures
            res@ == self@,
    {
        LifeError { kind: Box::new(self.kind().clone()) }
    }
}

impl LifeError {
    /// The kind of this error, as contracts see it.
    pub closed spec fn spec_kind(&self) -> &LifeErrorKind {
        &*self.kind
    }

    /// Get the kind of the error.
    #[verifier::when_used_as_spec(spec_kind)]
    pub fn kind(&self) -> (kind: &LifeErrorKind)
        ensures
            kind == self.spec_kind(),
    {
        &self.kind
    }

    /// True when the error is a syntax error over the byte range
    /// `[start, end)` with no file attached and the given message.
    pub open spec fn is_syntax(&self, message: Seq<char>, start: int, end: int) -> bool {
        &&& 0 <= start
        &&& 0 <= end
        &&& self@ == Failure::Syntax {
            message,
            place: Place { file: None, start: start as nat, end: end as nat },
        }
    }

    /// True when the error is a syntax error.
    pub open spec fn is_syntax_error(&self) -> bool {
        self@ is Syntax
    }

    /// True when the error is a runtime error with the given message.
    pub open spec fn is_runtime(&self, message: Seq<char>) -> bool {
        self@ == Failure::Runtime { message }
    }

    /// The text of the error for people to read: the kind of the error,
    /// the message, and the places that locate the problem, each with the
    /// name of its file where the file is known.
    pub fn to_string(&self) -> (text: String)
        ensures
            text@ == self@.shown(),
    {
        self.kind().to_string()
    }

    /// An error of the given kind.
    pub fn new(kind: LifeErrorKind) -> (error: Self)
        ensures
            *error.kind() == kind,
            error@ == kind@,
    {
        LifeError { kind: Box::new(kind) }
    }

    /// A runtime error with the given message.
    pub fn runtime(message: &str) -> (error: Self)
        ensures
            error@ == (Failure::Runtime { message: message@ }),
    {
        LifeError::new(LifeErrorKind::RuntimeError { message: message.to_owned() })
    }

    /// A syntax error at the byte range `[start, end)` with no file attached.
    pub fn syntax(message: &str, start: usize, end: usize) -> (error: Self)
        ensures
            error.is_syntax(message@, start as int, end as int),
    {
        LifeError::new(
            LifeErrorKind::SyntaxError {
                message: message.to_owned(),
                file: None,
                span: Range { start, end },
            },
        )
    }

    /// A duplicate error that cites `old` as the place of the entry that
    /// holds a key and `new` as the place of the entry that asked for it.
    pub fn duplicate(
        message: &str,
        old: (Option<Url>, Range<usize>),
        new: (Option<Url>, Range<usize>),
    ) -> (error: Self)
        ensures
            error@ == (Failure::Duplicate {
                message: message@,
                old: place_of(old),
                new: place_of(new),
            }),
    {
        LifeError::new(LifeErrorKind::DuplicateError { message: message.to_owned(), old, new })
    }
}

/// The name of a file for people to read: the text of its URL, and no text
/// where there is no file.
pub open spec fn name_of(file: Option<Url>) -> Seq<char> {
    match file {
        Some(url) => url_name(url),
        None => Seq::empty(),
    }
}

/// The text of a place: the byte range, after the name of the file and the
/// word `at` where the file is known.
pub open spec fn place_text(place: Place, name: Seq<char>) -> Seq<char> {
    let range = decimal(place.start) + ".."@ + decimal(place.end);
    if place.file is Some {
        name + " at "@ + range
    } else {
        range
    }
}

impl Failure {
    /// The text of the error for people to read, where `first` is the name
    /// of the first file it cites and `second` that of the second: the kind
    /// of the error, the message, and the places that locate the problem. A
    /// duplicate error cites both declarations.
    pub open spec fn text(self, first: Seq<char>, second: Seq<char>) -> Seq<char> {
        match self {
            Failure::Runtime { message } => "Runtime Error: "@ + message,
            Failure::Syntax { message, place } => "Syntax Error: "@ + message + " at "@
                + place_text(place, first),
            Failure::Duplicate { message, old, new } => "Duplicate Error: "@ + message + " at "@
                + place_text(old, first) + " and "@ + place_text(new, second),
        }
    }

    /// The text of the error for people to read, each file under the text
    /// of its URL.
    pub open spec fn shown(self) -> Seq<char> {
        match self {
            Failure::Runtime { .. } => self.text(Seq::empty(), Seq::empty()),
            Failure::Syntax { place, .. } => self.text(name_of(place.file), Seq::empty()),
            Failure::Duplicate { old, new, .. } => self.text(name_of(old.file), name_of(new.file)),
        }
    }
}

/// The text of the place `place`, where `name` is the name of its file.
pub fn place_to_string(place: &(Option<Url>, Range<usize>), name: &str) -> (text: String)
    ensures
        text@ == place_text(place_of(*place), name@),
{
    let mut text = String::new();
    if place.0.is_some() {
        text.append(name);
        text.append(" at ");
    }
    let start = to_decimal(place.1.start);
    text.append(start.as_str());
    text.append("..");
    let end = to_decimal(place.1.end);
    text.append(end.as_str());
    proof {
        let range = decimal(place.1.start as nat) + ".."@ + decimal(place.1.end as nat);
        if place.0 is Some {
            assert(text@ =~= name@ + " at "@ + range);
        } else {
            assert(text@ =~= range);
        }
    }
    text
}

/// The name of a file for people to read, or nothing where there is no
/// file.
fn file_name(file: &Option<Url>) -> (name: String)
    ensures
        name@ == name_of(*file),
{
    match file {
        Some(url) => url_text(url),
        None => String::new(),
    }
}

impl LifeErrorKind {
    /// The text of the error for people to read, where `first` is the name
    /// of the first file it cites and `second` that of the second.
    pub fn describe(&self, first: &str, second: &str) -> (text: String)
        ensures
            text@ == self@.text(first@, second@),
    {
        match self {
            LifeErrorKind::RuntimeError { message } => {
                let mut text = String::from_str("Runtime Error: ");
                text.append(message.as_str());
                text
            },
            LifeErrorKind::SyntaxError { message, file, span } => {
                let mut text = String::from_str("Syntax Error: ");
                text.append(message.as_str());
                text.append(" at ");
                let place = (clone_file(file), Range { start: span.start, end: span.end });
                let site = place_to_string(&place, first);
                text.append(site.as_str());
                proof {
                    assert(text@ =~= "Syntax Error: "@ + message@ + " at "@ + site@);
                }
                text
            },
            LifeErrorKind::DuplicateError { message, old, new } => {
                let mut text = String::from_str("Duplicate Error: ");
                text.append(message.as_str());
                text.append(" at ");
                let site = place_to_string(old, first);
                text.append(site.as_str());
                text.append(" and ");
                let other = place_to_string(new, second);
                text.append(other.as_str());
                proof {
                    assert(text@ =~= "Duplicate Error: "@ + message@ + " at "@ + site@ + " and "@
                        + other@);
                }
                text
            },
        }
    }

    /// The text of the error for people to read: the kind of the error,
    /// the message, and the places that locate the problem, each with the
    /// name of its file where the file is known.
    pub fn to_string(&self) -> (text: String)
        ensures
            text@ == self@.shown(),
    {
        let (first, second) = match self {
            LifeErrorKind::RuntimeError { .. } => (String::new(), String::new()),
            LifeErrorKind::SyntaxError { file, .. } => (file_name(file), String::new()),
            LifeErrorKind::DuplicateError { old, new, .. } => (
                file_name(&old.0),
                file_name(&new.0),
            ),
        };
        self.describe(first.as_str(), second.as_str())
    }
}

/// True when `res` is the result that `failure` describes: success where
/// there is no failure, and the error of that failure otherwise.
pub open spec fn fails_with(res: Result<(), LifeError>, failure: Option<Failure>) -> bool {
    match res {
        Ok(_) => failure is None,
        Err(error) => failure == Some(error@),
    }
}

impl From<LifeErrorKind> for LifeError {
    /// The error of the given kind.
    fn from(value: LifeErrorKind) -> (error: Self)
        ensures
            *error.kind() == value,
            error@ == value@,
    {
        Self { kind: Box::new(value) }
    }
}

impl FromSpecImpl<LifeErrorKind> for LifeError {
    open spec fn obeys_from_spec() -> bool {
        true
    }

    closed spec fn from_spec(value: LifeErrorKind) -> Self {
        Self { kind: Box::new(value) }
    }
}

/// The message of the error that the unit value stands for.
pub const VOID: &'static str = "void exception";

impl From<()> for LifeError {
    /// The unit value stands for a failure about which nothing is known.
    fn from(value: ()) -> (error: Self)
        ensures
            error.is_runtime(VOID@),
    {
        LifeError::runtime(VOID)
    }
}

impl FromSpecImpl<()> for LifeError {
    open spec fn obeys_from_spec() -> bool {
        false
    }

    open spec fn from_spec(value: ()) -> Self {
        arbitrary()
    }
}

} // verus!
