//! From a raw reference to display lines.
use vstd::prelude::*;
use vstd::string::StrSliceExecFns;
use crate::corpus::{extract_spec, get_verses, Corpus};
use crate::format::{format_spec, wrap, REF_COLUMN};
use crate::reference::{
    found_spec, parse_embedded, parse_reference, parse_spec, regex_first_match, ParseError,
    RefModel, EMBEDDED_PATTERN,
};
use crate::resolver::{find_book_name, is_best_book, no_match, resolve_book};

verus! {

/// What resolving one reference came to.
#[derive(Debug)]
pub enum Resolution {
    /// The book was found (`guessed`: only as a fallback, nothing matched its
    /// name) and these are the display lines of the verses.
    Verses { book: String, guessed: bool, lines: Vec<String> },
    /// The book was settled on but has no such chapter.
    NoVerses { book: String, guessed: bool },
    /// No name in the corpus resembles the book token, and no fallback was allowed.
    UnknownBook,
    /// The reference named no book; the raw input is all there is to show.
    NoBook,
    /// The reference does not follow the grammar.
    Invalid(ParseError),
}

/// The reference that the input means: strict grammar, or in relaxed mode the
/// first embedded reference.
pub open spec fn parsed_input(input: Seq<char>, relaxed: bool) -> Result<RefModel, ParseError> {
    if relaxed {
        found_spec(regex_first_match(EMBEDDED_PATTERN@, input))
    } else {
        parse_spec(input)
    }
}

/// `name` is the book that `token` settles on: the best match, or with no
/// match at all the first book.
pub open spec fn settles_on(c: &Corpus, token: Seq<char>, name: Seq<char>) -> bool {
    if no_match(c, token) {
        c.books@.len() > 0 && name == c.books@[0].name@
    } else {
        exists|i: int| #[trigger] is_best_book(c, token, i) && name == c.books@[i].name@
    }
}

/// Each line of `e` laid out at `width` columns.
pub open spec fn formatted(e: Seq<Seq<char>>, width: nat) -> Seq<Seq<char>> {
    e.map_values(|l: Seq<char>| format_spec(l, width))
}

/// The characters of each string.
pub open spec fn views(v: Seq<String>) -> Seq<Seq<char>> {
    v.map_values(|l: String| l@)
}

/// The outcome that resolving `parsed` against `c` must have.
pub open spec fn describes(
    c: &Corpus,
    parsed: Result<RefModel, ParseError>,
    width: nat,
    fallback: bool,
    r: &Resolution,
) -> bool {
    match parsed {
        Err(e) => *r == Resolution::Invalid(e),
        Ok(m) => if m.book.len() == 0 {
            *r == Resolution::NoBook
        } else if no_match(c, m.book) && (!fallback || c.books@.len() == 0) {
            *r == Resolution::UnknownBook
        } else {
            match r {
                Resolution::Verses { book, guessed, lines } => {
                    &&& *guessed == no_match(c, m.book)
                    &&& settles_on(c, m.book, book@)
                    &&& extract_spec(c, book@, m.chapter, m.start, m.end) matches Some(e)
                    &&& views(lines@) == formatted(e, width)
                },
                Resolution::NoVerses { book, guessed } => {
                    &&& *guessed == no_match(c, m.book)
                    &&& settles_on(c, m.book, book@)
                    &&& extract_spec(c, book@, m.chapter, m.start, m.end) is None
                },
                _ => false,
            }
        },
    }
}

/// Resolves `reference` (free text searched for an embedded reference when
/// `from_llm`) against `corpus` and lays out the verses at `wrap_width`
/// columns. With `fallback`, a book token that resembles no name settles on
/// the first book, flagged as guessed; without it, that is `UnknownBook`.
pub fn try_print_verses(
    corpus: &Corpus,
    reference: &str,
    wrap_width: usize,
    from_llm: bool,
    fallback: bool,
) -> (r: Resolution)
    requires
        wrap_width >= REF_COLUMN,
    ensures
        describes(corpus, parsed_input(reference@, from_llm), wrap_width as nat, fallback, &r),
{
    let parsed = if from_llm {
        parse_embedded(reference)
    } else {
        parse_reference(reference)
    };
    let rf = match parsed {
        Ok(rf) => rf,
        Err(e) => {
            return Resolution::Invalid(e);
        },
    };
    if rf.book.as_str().unicode_len() == 0 {
        return Resolution::NoBook;
    }
    let (book, guessed) = match resolve_book(corpus, rf.book.as_str()) {
        Some(i) => (corpus.books[i].name.clone(), false),
        None => {
            if !fallback || corpus.books.len() == 0 {
                return Resolution::UnknownBook;
            }
            find_book_name(corpus, rf.book.as_str())
        },
    };
    match get_verses(corpus, book.as_str(), rf.chapter, rf.start, rf.end) {
        None => Resolution::NoVerses { book, guessed },
        Some(verses) => {
            let ghost e = extract_spec(corpus, book@, rf.chapter, rf.start, rf.end)->0;
            let mut lines: Vec<String> = Vec::new();
            let mut q: usize = 0;
            while q < verses.len()
                invariant
                    verses@.len() == e.len(),
                    forall|j: int| 0 <= j < e.len() ==> #[trigger] verses@[j]@ == e[j],
                    wrap_width >= REF_COLUMN,
                    q <= verses@.len(),
                    lines@.len() == q,
                    views(lines@) == formatted(e.subrange(0, q as int), wrap_width as nat),
                decreases verses@.len() - q,
            {
                let line = wrap(verses[q].as_str(), wrap_width);
                let ghost prev = lines@;
                lines.push(line);
                proof {
                    let w = wrap_width as nat;
                    assert forall|j: int| 0 <= j < q + 1 implies #[trigger] views(lines@)[j]
                        == formatted(e.subrange(0, q + 1), w)[j] by {
                        if j < q {
                            assert(views(prev)[j] == formatted(e.subrange(0, q as int), w)[j]);
                            assert(lines@[j] == prev[j]);
                        }
                    }
                    assert(views(lines@) =~= formatted(e.subrange(0, q + 1), w));
                }
                q += 1;
            }
            assert(e.subrange(0, e.len() as int) =~= e);
            Resolution::Verses { book, guessed, lines }
        },
    }
}

} // verus!
