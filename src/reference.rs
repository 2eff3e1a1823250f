//! The reference grammar `<book>:<chapter>[:<verse>[-<verse>]]`.
use vstd::prelude::*;
use crate::text::{
    chars_of, find_char, first_of, is_number, lemma_split_nonempty, number_value, parse_number,
    split_chars, split_on, string_of,
};

verus! {

/// What is wrong with a reference that does not follow the grammar.
#[derive(Clone, Copy, Debug, PartialEq, Eq, Structural)]
pub enum ParseError {
    /// Only a book was given.
    MissingChapter,
    /// The chapter segment is not a number.
    InvalidChapter,
    /// A single verse that is not a number.
    InvalidVerse,
    /// The verse before `-` is not a number.
    InvalidStartVerse,
    /// The verse after `-` is not a number.
    InvalidEndVerse,
    /// More than three `:`-separated segments.
    TooManySegments,
    /// Free text held no embedded reference.
    NoReferenceFound,
}

/// A parsed reference: the book token as typed, a chapter and an inclusive
/// verse range; `end` is `None` for "through the last verse of the chapter".
#[derive(Debug)]
pub struct Reference {
    pub book: String,
    pub chapter: usize,
    pub start: usize,
    pub end: Option<usize>,
}

/// The mathematical content of a [`Reference`].
pub struct RefModel {
    pub book: Seq<char>,
    pub chapter: usize,
    pub start: usize,
    pub end: Option<usize>,
}

impl Reference {
    /// The reference as characters and numbers.
    pub open spec fn model(&self) -> RefModel {
        RefModel { book: self.book@, chapter: self.chapter, start: self.start, end: self.end }
    }
}

/// The verse segment: one verse, or two joined by the first `-`.
pub open spec fn verse_range_spec(v: Seq<char>) -> Result<(usize, Option<usize>), ParseError> {
    match first_of(v, '-') {
        Some(d) => {
            let a = v.subrange(0, d);
            let b = v.subrange(d + 1, v.len() as int);
            if !is_number(a) {
                Err(ParseError::InvalidStartVerse)
            } else if !is_number(b) {
                Err(ParseError::InvalidEndVerse)
            } else {
                Ok((number_value(a) as usize, Some(number_value(b) as usize)))
            }
        },
        None => {
            if !is_number(v) {
                Err(ParseError::InvalidVerse)
            } else {
                Ok((number_value(v) as usize, Some(number_value(v) as usize)))
            }
        },
    }
}

/// What a reference string means under the strict grammar.
pub open spec fn parse_spec(s: Seq<char>) -> Result<RefModel, ParseError> {
    let parts = split_on(s, ':');
    if parts.len() < 2 {
        Err(ParseError::MissingChapter)
    } else if !is_number(parts[1]) {
        Err(ParseError::InvalidChapter)
    } else if parts.len() > 3 {
        Err(ParseError::TooManySegments)
    } else if parts.len() == 2 {
        Ok(RefModel { book: parts[0], chapter: number_value(parts[1]) as usize, start: 1, end: None })
    } else {
        match verse_range_spec(parts[2]) {
            Ok((a, b)) => Ok(
                RefModel { book: parts[0], chapter: number_value(parts[1]) as usize, start: a, end: b },
            ),
            Err(e) => Err(e),
        }
    }
}

fn parse_verse_range(v: &Vec<char>) -> (r: Result<(usize, Option<usize>), ParseError>)
    ensures
        r == verse_range_spec(v@),
{
    match find_char(v, '-') {
        Some(d) => {
            let mut a: Vec<char> = Vec::new();
            let mut b: Vec<char> = Vec::new();
            let mut i: usize = 0;
            while i < v.len()
                invariant
                    d < v@.len(),
                    i <= v@.len(),
                    a@ == v@.subrange(0, if i < d { i as int } else { d as int }),
                    b@ == v@.subrange(d + 1, if i > d + 1 { i as int } else { d + 1 }),
                decreases v@.len() - i,
            {
                if i < d {
                    a.push(v[i]);
                } else if i > d {
                    b.push(v[i]);
                }
                i += 1;
            }
            match parse_number(&a) {
                None => Err(ParseError::InvalidStartVerse),
                Some(x) => match parse_number(&b) {
                    None => Err(ParseError::InvalidEndVerse),
                    Some(y) => Ok((x, Some(y))),
                },
            }
        },
        None => match parse_number(v) {
            None => Err(ParseError::InvalidVerse),
            Some(x) => Ok((x, Some(x))),
        },
    }
}

/// Parses `reference` under the strict grammar.
pub fn parse_reference(reference: &str) -> (r: Result<Reference, ParseError>)
    ensures
        r matches Ok(rf) ==> parse_spec(reference@) == Ok::<RefModel, ParseError>(rf.model()),
        r matches Err(e) ==> parse_spec(reference@) == Err::<RefModel, ParseError>(e),
{
    let cs = chars_of(reference);
    let parts = split_chars(&cs, ':');
    proof {
        lemma_split_nonempty(cs@, ':');
    }
    if parts.len() < 2 {
        return Err(ParseError::MissingChapter);
    }
    let chapter = match parse_number(&parts[1]) {
        Some(n) => n,
        None => {
            return Err(ParseError::InvalidChapter);
        },
    };
    if parts.len() > 3 {
        return Err(ParseError::TooManySegments);
    }
    let book = string_of(parts[0].as_slice());
    if parts.len() == 2 {
        return Ok(Reference { book, chapter, start: 1, end: None });
    }
    match parse_verse_range(&parts[2]) {
        Ok((start, end)) => Ok(Reference { book, chapter, start, end }),
        Err(e) => Err(e),
    }
}

/// Shape of a reference embedded in free text: word characters, then a chapter
/// and a verse, and an optional end verse.
pub const EMBEDDED_PATTERN: &'static str = r"(\w+):(\d+):(\d+)(?:-(\d+))?";

/// The text of the leftmost-first match of regular expression `pattern` in
/// `text`; `None` when nothing matches or the pattern does not compile.
pub uninterp spec fn regex_first_match(pattern: Seq<char>, text: Seq<char>) -> Option<Seq<char>>;

/// Relies on `regex::Regex::new` and `regex::Regex::find`: the matched text is
/// a function of the pattern and the haystack alone.
#[verifier::external_body]
fn first_match(pattern: &str, text: &str) -> (r: Option<String>)
    ensures
        r matches Some(m) ==> regex_first_match(pattern@, text@) == Some(m@),
        r is None ==> regex_first_match(pattern@, text@) is None,
{
    match regex::Regex::new(pattern) {
        Ok(re) => re.find(text).map(|m| m.as_str().to_string()),
        Err(_) => None,
    }
}

/// The embedded reference that a search of free text gives.
pub open spec fn found_spec(found: Option<Seq<char>>) -> Result<RefModel, ParseError> {
    match found {
        Some(m) => parse_spec(m),
        None => Err(ParseError::NoReferenceFound),
    }
}

/// The first substring of `text` that has the shape of a reference.
pub fn find_reference(text: &str) -> (r: Option<String>)
    ensures
        r matches Some(m) ==> regex_first_match(EMBEDDED_PATTERN@, text@) == Some(m@),
        r is None ==> regex_first_match(EMBEDDED_PATTERN@, text@) is None,
{
    first_match(EMBEDDED_PATTERN, text)
}

/// The characters of an optional text.
pub open spec fn text_of(found: Option<&str>) -> Option<Seq<char>> {
    match found {
        Some(m) => Some(m@),
        None => None,
    }
}

/// Parses the outcome of a search for an embedded reference.
pub fn parse_found(found: Option<&str>) -> (r: Result<Reference, ParseError>)
    ensures
        r matches Ok(rf) ==> found_spec(text_of(found)) == Ok::<RefModel, ParseError>(rf.model()),
        r matches Err(e) ==> found_spec(text_of(found)) == Err::<RefModel, ParseError>(e),
{
    match found {
        Some(m) => parse_reference(m),
        None => Err(ParseError::NoReferenceFound),
    }
}

/// Relaxed mode: finds the first embedded reference in free text and parses it.
pub fn parse_embedded(text: &str) -> (r: Result<Reference, ParseError>)
    ensures
        r matches Ok(rf) ==> found_spec(regex_first_match(EMBEDDED_PATTERN@, text@))
            == Ok::<RefModel, ParseError>(rf.model()),
        r matches Err(e) ==> found_spec(regex_first_match(EMBEDDED_PATTERN@, text@))
            == Err::<RefModel, ParseError>(e),
{
    match find_reference(text) {
        Some(m) => parse_found(Some(m.as_str())),
        None => parse_found(None),
    }
}

} // verus!
