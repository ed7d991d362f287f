//! Located failures and their collection.

use crate::text::texts;
use toml::de::Error as TomlError;
use vstd::prelude::*;
use vstd::string::*;

verus! {

/// The kinds of file-system failure that the traversal tells apart.
#[derive(Debug, Clone, Copy, PartialEq, Eq, Structural)]
pub enum IoKind {
    NotFound,
    AlreadyExists,
    Other,
}

/// A failed file-system operation: its kind and the system's message.
#[derive(Debug, PartialEq, Eq)]
pub struct IoFailure {
    pub kind: IoKind,
    pub message: String,
}

/// A failure of the template engine, with the engine's own message.
#[derive(Debug, PartialEq, Eq)]
pub enum TemplateFailure {
    Parse(String),
    Render(String),
}

/// What went wrong, without the place.
#[derive(Debug, PartialEq, Eq)]
pub enum InnerError {
    Io(IoFailure),
    Template(TemplateFailure),
    Toml(TomlError),
    Type,
}

impl InnerError {
    /// What the failure is called in a report.
    pub open spec fn message_spec(self) -> Seq<char> {
        match self {
            InnerError::Io(failure) => "IO Error: "@ + failure.message@,
            InnerError::Template(_) => "Failed to parse template file"@,
            InnerError::Toml(_) => "Failed to parse toml file"@,
            InnerError::Type => "Unsupported variable type"@,
        }
    }

    /// What the failure is called in a report.
    pub fn message(&self) -> (text: String)
        ensures
            text@ == self.message_spec(),
    {
        match self {
            InnerError::Io(failure) => String::from_str("IO Error: ").concat(
                failure.message.as_str(),
            ),
            InnerError::Template(_) => String::from_str("Failed to parse template file"),
            InnerError::Toml(_) => String::from_str("Failed to parse toml file"),
            InnerError::Type => String::from_str("Unsupported variable type"),
        }
    }
}

/// The error that the TOML parser reports; carried through unread.
#[verifier::external_type_specification]
#[verifier::external_body]
pub struct ExTomlError(TomlError);

/// A failure together with the path it concerns.
#[derive(Debug, PartialEq, Eq)]
pub struct Error {
    location: String,
    inner: InnerError,
}

/// The mathematical content of an [`Error`].
pub struct ErrorView {
    pub location: Seq<char>,
    pub inner: InnerError,
}

impl View for Error {
    type V = ErrorView;

    closed spec fn view(&self) -> ErrorView {
        ErrorView { location: self.location@, inner: self.inner }
    }
}

impl Error {
    /// Attaches `inner` to the path `location`.
    pub fn new(location: String, inner: InnerError) -> (e: Error)
        ensures
            e@ == (ErrorView { location: location@, inner }),
    {
        Error { location, inner }
    }

    /// The path the failure concerns.
    pub fn location(&self) -> (path: &String)
        ensures
            path@ == self@.location,
    {
        &self.location
    }

    /// The failure itself.
    pub fn inner(&self) -> (inner: &InnerError)
        ensures
            *inner == self@.inner,
    {
        &self.inner
    }
}

/// Attaching the path a failure concerns.
pub trait ErrorLocation {
    type Err;

    fn with_location(self, path: &str) -> Self::Err;
}

impl ErrorLocation for InnerError {
    type Err = Error;

    fn with_location(self, path: &str) -> (e: Error)
        ensures
            e@ == (ErrorView { location: path@, inner: self }),
    {
        Error { location: String::from_str(path), inner: self }
    }
}

impl ErrorLocation for IoFailure {
    type Err = Error;

    fn with_location(self, path: &str) -> (e: Error)
        ensures
            e@ == (ErrorView { location: path@, inner: InnerError::Io(self) }),
    {
        Error { location: String::from_str(path), inner: InnerError::Io(self) }
    }
}

impl ErrorLocation for TemplateFailure {
    type Err = Error;

    fn with_location(self, path: &str) -> (e: Error)
        ensures
            e@ == (ErrorView { location: path@, inner: InnerError::Template(self) }),
    {
        Error { location: String::from_str(path), inner: InnerError::Template(self) }
    }
}

impl<T> ErrorLocation for Result<T, InnerError> {
    type Err = Result<T, Error>;

    fn with_location(self, path: &str) -> (r: Result<T, Error>)
        ensures
            match self {
                Ok(value) => r == Ok::<T, Error>(value),
                Err(inner) => r matches Err(e) && e@ == (ErrorView { location: path@, inner }),
            },
    {
        match self {
            Ok(value) => Ok(value),
            Err(inner) => Err(Error { location: String::from_str(path), inner }),
        }
    }
}

impl<T> ErrorLocation for Result<T, IoFailure> {
    type Err = Result<T, Error>;

    fn with_location(self, path: &str) -> (r: Result<T, Error>)
        ensures
            match self {
                Ok(value) => r == Ok::<T, Error>(value),
                Err(failure) => r matches Err(e) && e@ == (ErrorView {
                    location: path@,
                    inner: InnerError::Io(failure),
                }),
            },
    {
        match self {
            Ok(value) => Ok(value),
            Err(failure) => Err(
                Error { location: String::from_str(path), inner: InnerError::Io(failure) },
            ),
        }
    }
}

/// The decimal digit for `d`.
pub open spec fn digit(d: nat) -> char {
    if d == 0 {
        '0'
    } else if d == 1 {
        '1'
    } else if d == 2 {
        '2'
    } else if d == 3 {
        '3'
    } else if d == 4 {
        '4'
    } else if d == 5 {
        '5'
    } else if d == 6 {
        '6'
    } else if d == 7 {
        '7'
    } else if d == 8 {
        '8'
    } else {
        '9'
    }
}

/// The decimal numeral of `n`.
pub open spec fn decimal(n: nat) -> Seq<char>
    decreases n,
{
    if n < 10 {
        seq![digit(n)]
    } else {
        decimal(n / 10).push(digit(n % 10))
    }
}

/// The decimal numeral of `n`, with a leading zero where it has one digit.
pub open spec fn two_digits(n: nat) -> Seq<char> {
    if n < 10 {
        seq!['0'] + decimal(n)
    } else {
        decimal(n)
    }
}

/// A text in quotes, with the characters escaped that cannot stand for
/// themselves: the form in which a report shows a path.
pub uninterp spec fn quoted(text: Seq<char>) -> Seq<char>;

/// Formats `text` with `{:?}`, the `Debug` form of `str`: the text in
/// double quotes with escapes, which depends on `text` alone.
#[verifier::external_body]
fn quote(text: &str) -> (shown: String)
    ensures
        shown@ == quoted(text@),
{
    format!("{:?}", text)
}

/// The first line of a report on `count` failures.
pub open spec fn header_line(count: nat) -> Seq<char> {
    decimal(count) + " errors occured:"@
}

/// The line of a report that says where failure number `index` occurred.
pub open spec fn location_line(index: nat, location: Seq<char>) -> Seq<char> {
    "  err "@ + two_digits(index) + " at "@ + quoted(location) + ":"@
}

/// The line of a report that says what a failure was.
pub open spec fn message_line(inner: InnerError) -> Seq<char> {
    "      "@ + inner.message_spec()
}

/// Two lines for every failure of `errors`, in their order: where it
/// occurred, under its number counted from zero, and what it was.
pub open spec fn entry_lines(errors: Seq<ErrorView>) -> Seq<Seq<char>>
    decreases errors.len(),
{
    if errors.len() == 0 {
        Seq::empty()
    } else {
        entry_lines(errors.drop_last()).push(
            location_line((errors.len() - 1) as nat, errors.last().location),
        ).push(message_line(errors.last().inner))
    }
}

/// The report on `errors`: nothing where there is no failure; otherwise
/// the count, then for every failure its number and place and what it was.
pub open spec fn report(errors: Seq<ErrorView>) -> Seq<Seq<char>> {
    if errors.len() == 0 {
        Seq::empty()
    } else {
        seq![header_line(errors.len())] + entry_lines(errors)
    }
}

fn digit_text(d: usize) -> (text: &'static str)
    requires
        d < 10,
    ensures
        text@ == seq![digit(d as nat)],
{
    proof {
        reveal_strlit("0");
        reveal_strlit("1");
        reveal_strlit("2");
        reveal_strlit("3");
        reveal_strlit("4");
        reveal_strlit("5");
        reveal_strlit("6");
        reveal_strlit("7");
        reveal_strlit("8");
        reveal_strlit("9");
    }
    let text = match d {
        0 => "0",
        1 => "1",
        2 => "2",
        3 => "3",
        4 => "4",
        5 => "5",
        6 => "6",
        7 => "7",
        8 => "8",
        _ => "9",
    };
    assert(text@ =~= seq![digit(d as nat)]);
    text
}

/// The decimal numeral of `n`.
pub fn numeral(n: usize) -> (text: String)
    ensures
        text@ == decimal(n as nat),
    decreases n,
{
    if n < 10 {
        String::from_str(digit_text(n))
    } else {
        let text = numeral(n / 10).concat(digit_text(n % 10));
        assert(text@ =~= decimal(n as nat));
        text
    }
}

/// The line that says where failure number `index` occurred, given the
/// place as it is to be shown.
pub fn place_line(index: usize, shown: &str) -> (line: String)
    ensures
        line@ == "  err "@ + two_digits(index as nat) + " at "@ + shown@ + ":"@,
{
    let number = if index < 10 {
        String::from_str("0").concat(numeral(index).as_str())
    } else {
        numeral(index)
    };
    proof {
        reveal_strlit("0");
        assert("0"@ =~= seq!['0']);
    }
    String::from_str("  err ").concat(number.as_str()).concat(" at ").concat(shown).concat(":")
}

/// The line that says what the failure `inner` was.
pub fn what_line(inner: &InnerError) -> (line: String)
    ensures
        line@ == message_line(*inner),
{
    String::from_str("      ").concat(inner.message().as_str())
}

/// An ordered collection of located failures.
#[derive(Debug, PartialEq, Eq)]
pub struct Errors {
    errors: Vec<Error>,
}

impl View for Errors {
    type V = Seq<ErrorView>;

    closed spec fn view(&self) -> Seq<ErrorView> {
        Seq::new(self.errors@.len(), |i: int| self.errors@[i]@)
    }
}

impl Errors {
    /// The empty collection.
    pub fn new() -> (errors: Errors)
        ensures
            errors@ == Seq::<ErrorView>::empty(),
    {
        Errors { errors: Vec::new() }
    }

    /// The collection that holds `error` alone.
    pub fn single(error: Error) -> (errors: Errors)
        ensures
            errors@ == seq![error@],
    {
        let mut held: Vec<Error> = Vec::new();
        held.push(error);
        let errors = Errors { errors: held };
        assert(errors@ =~= seq![error@]);
        errors
    }

    /// Absorbs one more failure, behind those already held.
    pub fn push(&mut self, error: Error)
        ensures
            final(self)@ == old(self)@.push(error@),
    {
        self.errors.push(error);
        assert(self@ =~= old(self)@.push(error@));
    }

    /// The number of failures held.
    pub fn len(&self) -> (n: usize)
        ensures
            n == self@.len(),
    {
        self.errors.len()
    }

    /// The failure at position `i`.
    pub fn get(&self, i: usize) -> (error: &Error)
        requires
            i < self@.len(),
        ensures
            error@ == self@[i as int],
    {
        &self.errors[i]
    }

    /// Appends the failures of `other`, in their order, behind those already held.
    pub fn join(&mut self, other: Errors)
        ensures
            final(self)@ == old(self)@ + other@,
    {
        let mut rest = other;
        self.errors.append(&mut rest.errors);
        assert(self@ =~= old(self)@ + other@);
    }

    /// The lines that report the failures held: none where there is no
    /// failure; otherwise the count, then two lines for every failure.
    pub fn log(&self) -> (lines: Vec<String>)
        ensures
            texts(lines@) == report(self@),
    {
        let mut lines: Vec<String> = Vec::new();
        let n = self.errors.len();
        if n == 0 {
            assert(texts(lines@) =~= report(self@));
            return lines;
        }
        lines.push(numeral(n).concat(" errors occured:"));
        let mut i: usize = 0;
        assert(self@.take(0) =~= Seq::<ErrorView>::empty());
        assert(texts(lines@) =~= seq![header_line(n as nat)] + entry_lines(self@.take(0)));
        while i < n
            invariant
                n == self.errors@.len(),
                n == self@.len(),
                i <= n,
                texts(lines@) == seq![header_line(n as nat)] + entry_lines(self@.take(i as int)),
            decreases n - i,
        {
            let error = &self.errors[i];
            let ghost before = texts(lines@);
            proof {
                let next = self@.take(i + 1);
                assert(next.drop_last() =~= self@.take(i as int));
                assert(next.last() == error@);
            }
            let shown = quote(error.location.as_str());
            let place = place_line(i, shown.as_str());
            let what = what_line(&error.inner);
            lines.push(place);
            lines.push(what);
            assert(texts(lines@) =~= before.push(
                location_line(i as nat, error@.location),
            ).push(message_line(error@.inner)));
            i = i + 1;
        }
        assert(self@.take(n as int) =~= self@);
        lines
    }

    /// Whether no failure was recorded.
    pub fn is_empty(&self) -> (empty: bool)
        ensures
            empty == (self@.len() == 0),
    {
        self.errors.is_empty()
    }
}

/// The views of a sequence of errors.
pub open spec fn views(errors: Seq<Error>) -> Seq<ErrorView> {
    Seq::new(errors.len(), |i: int| errors[i]@)
}

impl Default for Errors {
    fn default() -> (errors: Errors)
        ensures
            errors@ == Seq::<ErrorView>::empty(),
    {
        Errors::new()
    }
}

impl From<Vec<Error>> for Errors {
    fn from(errors: Vec<Error>) -> (collected: Errors)
        ensures
            collected@ == views(errors@),
    {
        let collected = Errors { errors };
        assert(collected@ =~= views(errors@));
        collected
    }
}

impl vstd::std_specs::convert::FromSpecImpl<Vec<Error>> for Errors {
    open spec fn obeys_from_spec() -> bool {
        true
    }

    closed spec fn from_spec(errors: Vec<Error>) -> Errors {
        Errors { errors }
    }
}

impl From<Error> for Errors {
    fn from(error: Error) -> (collected: Errors)
        ensures
            collected@ == seq![error@],
    {
        Errors::single(error)
    }
}

impl vstd::std_specs::convert::FromSpecImpl<Error> for Errors {
    open spec fn obeys_from_spec() -> bool {
        false
    }

    closed spec fn from_spec(error: Error) -> Errors {
        choose|errors: Errors| errors@ == seq![error@]
    }
}

/// Joining is associative: it does not matter which of two joins is made first.
pub proof fn lemma_join_associative(
    first: Seq<ErrorView>,
    second: Seq<ErrorView>,
    third: Seq<ErrorView>,
)
    ensures
        (first + second) + third == first + (second + third),
{
    assert((first + second) + third =~= first + (second + third));
}

/// The empty collection is the identity of joining, on either side.
pub proof fn lemma_join_identity(errors: Seq<ErrorView>)
    ensures
        Seq::<ErrorView>::empty() + errors == errors,
        errors + Seq::<ErrorView>::empty() == errors,
{
    assert(Seq::<ErrorView>::empty() + errors =~= errors);
    assert(errors + Seq::<ErrorView>::empty() =~= errors);
}

} // verus!
