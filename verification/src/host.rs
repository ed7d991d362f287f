//! What is known of the machine and the account: the values of the
//! bindings `hostname`, `username` and `os`.
//!
//! The caller reads the host-identity file, runs the commands and looks up
//! the account variables; what it found, if anything, is turned into the
//! values here.

use crate::text::chars_of;
use vstd::prelude::*;
use vstd::string::*;

verus! {

/// The characters that count as white space: those with the Unicode
/// property `White_Space`.
pub open spec fn is_space_spec(c: char) -> bool {
    ||| ('\u{9}' <= c && c <= '\u{d}')
    ||| c == ' '
    ||| c == '\u{85}'
    ||| c == '\u{a0}'
    ||| c == '\u{1680}'
    ||| ('\u{2000}' <= c && c <= '\u{200a}')
    ||| c == '\u{2028}'
    ||| c == '\u{2029}'
    ||| c == '\u{202f}'
    ||| c == '\u{205f}'
    ||| c == '\u{3000}'
}

/// Whether `c` counts as white space.
pub fn is_space(c: char) -> (space: bool)
    ensures
        space == is_space_spec(c),
{
    ('\u{9}' <= c && c <= '\u{d}') || c == ' ' || c == '\u{85}' || c == '\u{a0}' || c
        == '\u{1680}' || ('\u{2000}' <= c && c <= '\u{200a}') || c == '\u{2028}' || c
        == '\u{2029}' || c == '\u{202f}' || c == '\u{205f}' || c == '\u{3000}'
}

/// `text` without the white space it starts with.
pub open spec fn trim_start(text: Seq<char>) -> Seq<char>
    decreases text.len(),
{
    if text.len() > 0 && is_space_spec(text[0]) {
        trim_start(text.drop_first())
    } else {
        text
    }
}

/// `text` without the white space it ends with.
pub open spec fn trim_end(text: Seq<char>) -> Seq<char>
    decreases text.len(),
{
    if text.len() > 0 && is_space_spec(text.last()) {
        trim_end(text.drop_last())
    } else {
        text
    }
}

/// `text` without the white space around it.
pub open spec fn trimmed(text: Seq<char>) -> Seq<char> {
    trim_end(trim_start(text))
}

/// Removes the white space around `text`.
pub fn trim(text: &str) -> (inner: String)
    ensures
        inner@ == trimmed(text@),
{
    let chars = chars_of(text);
    let n = chars.len();
    let mut start: usize = 0;
    assert(chars@.skip(0) =~= chars@);
    while start < n && is_space(chars[start])
        invariant
            n == chars@.len(),
            start <= n,
            trim_start(chars@) == trim_start(chars@.skip(start as int)),
        decreases n - start,
    {
        assert(chars@.skip(start as int)[0] == chars@[start as int]);
        assert(chars@.skip(start as int).drop_first() =~= chars@.skip(start + 1));
        start = start + 1;
    }
    let ghost rest = chars@.skip(start as int);
    assert(rest.len() > 0 ==> rest[0] == chars@[start as int]);
    assert(trim_start(chars@) == rest);
    let mut end: usize = n;
    assert(rest.take(n - start) =~= rest);
    while end > start && is_space(chars[end - 1])
        invariant
            n == chars@.len(),
            start <= end <= n,
            rest == chars@.skip(start as int),
            trim_end(rest) == trim_end(rest.take(end - start)),
        decreases end,
    {
        assert(rest.take(end - start).last() == chars@[end - 1]);
        assert(rest.take(end - start).drop_last() =~= rest.take(end - start - 1));
        end = end - 1;
    }
    assert(end > start ==> rest.take(end - start).last() == chars@[end - 1]);
    assert(trim_end(rest) == rest.take(end - start));
    assert(text@.subrange(start as int, end as int) =~= rest.take(end - start));
    String::from_str(text.substring_char(start, end))
}

/// The lower-case form of a text under Unicode's case mapping.
pub uninterp spec fn lowercased(text: Seq<char>) -> Seq<char>;

/// Calls `str::to_lowercase`. The result is the lower-case form of `text`
/// under Unicode's case mapping, which depends on `text` alone.
#[verifier::external_body]
fn lowercase(text: &str) -> (lower: String)
    ensures
        lower@ == lowercased(text@),
{
    text.to_lowercase()
}

/// The value of `hostname`: what the host-identity file held or, where
/// that could not be read, what the host-identity command printed,
/// without the white space around it; empty where neither is known.
pub open spec fn hostname_spec(file: Option<Seq<char>>, command: Option<Seq<char>>) -> Seq<char> {
    match file {
        Some(text) => trimmed(text),
        None => match command {
            Some(text) => trimmed(text),
            None => Seq::empty(),
        },
    }
}

/// Computes the value of `hostname` from what the host-identity file held
/// and what the host-identity command printed.
pub fn hostname(file: Option<&str>, command: Option<&str>) -> (name: String)
    ensures
        name@ == hostname_spec(
            match file {
                Some(text) => Some(text@),
                None => None,
            },
            match command {
                Some(text) => Some(text@),
                None => None,
            },
        ),
{
    match file {
        Some(text) => trim(text),
        None => match command {
            Some(text) => trim(text),
            None => String::new(),
        },
    }
}

/// The value of `username`: the first of the two account names that is
/// known and not empty; empty where there is none.
pub open spec fn username_spec(first: Option<Seq<char>>, second: Option<Seq<char>>) -> Seq<char> {
    if first is Some && first->0.len() > 0 {
        first->0
    } else if second is Some && second->0.len() > 0 {
        second->0
    } else {
        Seq::empty()
    }
}

/// Computes the value of `username` from the two account variables.
pub fn username(first: Option<&str>, second: Option<&str>) -> (name: String)
    ensures
        name@ == username_spec(
            match first {
                Some(text) => Some(text@),
                None => None,
            },
            match second {
                Some(text) => Some(text@),
                None => None,
            },
        ),
{
    match first {
        Some(text) => {
            if !text.is_empty() {
                return String::from_str(text);
            }
        },
        None => {},
    }
    match second {
        Some(text) => {
            if !text.is_empty() {
                return String::from_str(text);
            }
        },
        None => {},
    }
    String::new()
}

/// The placeholder for a platform that could not be identified.
pub open spec fn unknown_platform() -> Seq<char> {
    "unknown"@
}

/// The value of `os`: what the platform-identification command printed,
/// trimmed and in lower case; the placeholder where the command gave nothing.
pub open spec fn operating_system_spec(output: Option<Seq<char>>) -> Seq<char> {
    match output {
        Some(text) => lowercased(trimmed(text)),
        None => unknown_platform(),
    }
}

/// Computes the value of `os` from what the platform-identification
/// command printed.
pub fn operating_system(output: Option<&str>) -> (name: String)
    ensures
        name@ == operating_system_spec(
            match output {
                Some(text) => Some(text@),
                None => None,
            },
        ),
{
    match output {
        Some(text) => {
            let inner = trim(text);
            lowercase(inner.as_str())
        },
        None => String::from_str("unknown"),
    }
}

} // verus!
