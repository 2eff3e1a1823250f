//! The scripture corpus: books, their chapters and verses.
use vstd::prelude::*;
use crate::text::{decimal, push_decimal, push_text, same_text, string_of};

verus! {

/// One verse record; a field missing from the source data is `None`.
#[derive(Debug)]
pub struct Verse {
    pub number: Option<u64>,
    pub text: Option<String>,
}

/// A chapter: its number and its verses in order.
#[derive(Debug)]
pub struct Chapter {
    pub number: usize,
    pub verses: Vec<Verse>,
}

/// A book: its canonical name, the other names it answers to, its chapters.
#[derive(Debug)]
pub struct Book {
    pub name: String,
    pub alternatives: Vec<String>,
    pub chapters: Vec<Chapter>,
}

/// The whole corpus, books in a fixed order that decides ties in lookups.
#[derive(Debug)]
pub struct Corpus {
    pub books: Vec<Book>,
}

impl Corpus {
    /// The number of names of book `i`: its canonical name and its alternatives.
    pub open spec fn slot_count(&self, i: int) -> int {
        self.books@[i].alternatives@.len() as int + 1
    }

    /// Name `j` of book `i`: `0` is the canonical name, `j > 0` alternative `j - 1`.
    pub open spec fn slot_name(&self, i: int, j: int) -> Seq<char> {
        if j == 0 {
            self.books@[i].name@
        } else {
            self.books@[i].alternatives@[j - 1]@
        }
    }

    pub open spec fn valid_slot(&self, i: int, j: int) -> bool {
        0 <= i < self.books@.len() && 0 <= j < self.slot_count(i)
    }
}

/// Book `i` is the first book named `name`.
pub open spec fn is_first_book(c: &Corpus, name: Seq<char>, i: int) -> bool {
    &&& 0 <= i < c.books@.len()
    &&& c.books@[i].name@ == name
    &&& forall|j: int| 0 <= j < i ==> c.books@[j].name@ != name
}

/// Chapter `k` of `b` is its first chapter numbered `n`.
pub open spec fn is_first_chapter(b: &Book, n: usize, k: int) -> bool {
    &&& 0 <= k < b.chapters@.len()
    &&& b.chapters@[k].number == n
    &&& forall|j: int| 0 <= j < k ==> b.chapters@[j].number != n
}

/// Verse position `q` (counted from 1) lies in the range `start ..= end`.
pub open spec fn in_range(start: usize, end: Option<usize>, q: int) -> bool {
    start <= q && match end {
        Some(e) => q <= e,
        None => true,
    }
}

/// The rendered line `"<chapter>:<verse> <text>"`.
pub open spec fn verse_line(chapter: usize, number: u64, text: Seq<char>) -> Seq<char> {
    decimal(chapter as nat) + seq![':'] + decimal(number as nat) + seq![' '] + text
}

/// The lines for the first `k` verses of `vs`: those in range whose record is complete.
pub open spec fn rendered(vs: Seq<Verse>, chapter: usize, start: usize, end: Option<usize>, k: int) -> Seq<Seq<char>>
    decreases k,
{
    if k <= 0 {
        Seq::empty()
    } else {
        let prev = rendered(vs, chapter, start, end, k - 1);
        let v = vs[k - 1];
        if in_range(start, end, k) && v.number is Some && v.text is Some {
            prev.push(verse_line(chapter, v.number->0, v.text->0@))
        } else {
            prev
        }
    }
}

/// The lines that a lookup of `name`, `chapter` and a verse range gives, or
/// `None` when the book or the chapter is missing.
pub open spec fn extract_spec(c: &Corpus, name: Seq<char>, chapter: usize, start: usize, end: Option<usize>) -> Option<Seq<Seq<char>>> {
    if exists|i: int, k: int| is_first_book(c, name, i) && #[trigger] is_first_chapter(&c.books@[i], chapter, k) {
        let (i, k) = choose|i: int, k: int| is_first_book(c, name, i) && #[trigger] is_first_chapter(&c.books@[i], chapter, k);
        let vs = c.books@[i].chapters@[k].verses@;
        Some(rendered(vs, chapter, start, end, vs.len() as int))
    } else {
        None
    }
}

proof fn lemma_first_book_unique(c: &Corpus, name: Seq<char>, i: int, i2: int)
    requires
        is_first_book(c, name, i),
        is_first_book(c, name, i2),
    ensures
        i == i2,
{
    if i < i2 {
        assert(c.books@[i].name@ != name);
    } else if i2 < i {
        assert(c.books@[i2].name@ != name);
    }
}

proof fn lemma_first_chapter_unique(b: &Book, n: usize, k: int, k2: int)
    requires
        is_first_chapter(b, n, k),
        is_first_chapter(b, n, k2),
    ensures
        k == k2,
{
    if k < k2 {
        assert(b.chapters@[k].number != n);
    } else if k2 < k {
        assert(b.chapters@[k2].number != n);
    }
}

fn render_verse(chapter: usize, number: u64, text: &str) -> (r: String)
    ensures
        r@ == verse_line(chapter, number, text@),
{
    let mut out: Vec<char> = Vec::new();
    push_decimal(chapter as u64, &mut out);
    out.push(':');
    push_decimal(number, &mut out);
    out.push(' ');
    push_text(text, &mut out);
    assert(out@ =~= verse_line(chapter, number, text@));
    string_of(out.as_slice())
}

fn find_book(corpus: &Corpus, name: &str) -> (r: Option<usize>)
    ensures
        r matches Some(i) ==> is_first_book(corpus, name@, i as int),
        r is None ==> forall|a: int| !is_first_book(corpus, name@, a),
{
    let mut i: usize = 0;
    while i < corpus.books.len()
        invariant
            i <= corpus.books@.len(),
            forall|j: int| 0 <= j < i ==> corpus.books@[j].name@ != name@,
        decreases corpus.books@.len() - i,
    {
        if same_text(corpus.books[i].name.as_str(), name) {
            return Some(i);
        }
        i += 1;
    }
    assert forall|a: int| !is_first_book(corpus, name@, a) by {
        if 0 <= a < corpus.books@.len() {
            assert(corpus.books@[a].name@ != name@);
        }
    }
    None
}

fn find_chapter(b: &Book, chapter: usize) -> (r: Option<usize>)
    ensures
        r matches Some(k) ==> is_first_chapter(b, chapter, k as int),
        r is None ==> forall|k: int| !is_first_chapter(b, chapter, k),
{
    let mut k: usize = 0;
    while k < b.chapters.len()
        invariant
            k <= b.chapters@.len(),
            forall|j: int| 0 <= j < k ==> b.chapters@[j].number != chapter,
        decreases b.chapters@.len() - k,
    {
        if b.chapters[k].number == chapter {
            return Some(k);
        }
        k += 1;
    }
    None
}

/// The verses of chapter `chapter` of book `book` at positions `start ..= end`
/// (counted from 1; `None` runs to the last verse), each rendered as
/// `"<chapter>:<verse> <text>"`; records lacking a number or a text are left
/// out. `None` when the corpus has no such book or chapter.
pub fn get_verses(corpus: &Corpus, book: &str, chapter: usize, start: usize, end: Option<usize>) -> (r: Option<Vec<String>>)
    ensures
        r is None <==> extract_spec(corpus, book@, chapter, start, end) is None,
        r matches Some(lines) ==> {
            let e = extract_spec(corpus, book@, chapter, start, end)->0;
            &&& lines@.len() == e.len()
            &&& forall|q: int| 0 <= q < e.len() ==> #[trigger] lines@[q]@ == e[q]
        },
{
    let i = match find_book(corpus, book) {
        Some(i) => i,
        None => {
            assert forall|a: int, k2: int| !(is_first_book(corpus, book@, a) && #[trigger] is_first_chapter(&corpus.books@[a], chapter, k2)) by {}
            return None;
        },
    };
    let b = &corpus.books[i];
    let k = match find_chapter(b, chapter) {
        Some(k) => k,
        None => {
            assert forall|a: int, k2: int| !(is_first_book(corpus, book@, a) && #[trigger] is_first_chapter(&corpus.books@[a], chapter, k2)) by {
                if is_first_book(corpus, book@, a) {
                    lemma_first_book_unique(corpus, book@, a, i as int);
                }
            }
            return None;
        },
    };
    proof {
        let (i2, k2) = choose|i2: int, k2: int| is_first_book(corpus, book@, i2) && #[trigger] is_first_chapter(&corpus.books@[i2], chapter, k2);
        lemma_first_book_unique(corpus, book@, i as int, i2);
        lemma_first_chapter_unique(b, chapter, k as int, k2);
    }
    let vs = &b.chapters[k].verses;
    let mut lines: Vec<String> = Vec::new();
    let mut p: usize = 0;
    while p < vs.len()
        invariant
            p <= vs@.len(),
            lines@.len() == rendered(vs@, chapter, start, end, p as int).len(),
            forall|q: int| 0 <= q < lines@.len() ==> #[trigger] lines@[q]@ == rendered(vs@, chapter, start, end, p as int)[q],
        decreases vs@.len() - p,
    {
        let pos = p + 1;
        let wanted = start <= pos && match end {
            Some(e) => pos <= e,
            None => true,
        };
        if wanted {
            match (&vs[p].number, &vs[p].text) {
                (Some(n), Some(t)) => {
                    let line = render_verse(chapter, *n, t.as_str());
                    lines.push(line);
                },
                _ => {},
            }
        }
        p += 1;
    }
    Some(lines)
}

} // verus!
