//! Fuzzy lookup of a book by any of its names.
use vstd::prelude::*;
use crate::corpus::Corpus;

verus! {

/// The bit pattern of `1.0f64`, the highest Jaro–Winkler similarity.
pub const FULL_MATCH: u64 = 0x3FF0_0000_0000_0000;

/// The Jaro–Winkler similarity of two strings, as the bit pattern of the `f64`
/// that strsim computes. On values in `[0, 1]` that pattern orders as the
/// numbers do, and `0.0` has the pattern `0`.
pub uninterp spec fn similarity_bits(a: Seq<char>, b: Seq<char>) -> u64;

/// The score of `b` against `a`: a string scores a full match against itself.
pub open spec fn score(a: Seq<char>, b: Seq<char>) -> u64 {
    if a == b {
        FULL_MATCH
    } else {
        similarity_bits(a, b)
    }
}

/// Relies on `strsim::jaro_winkler`: its result lies in `[0.0, 1.0]` (clamped
/// above, a sum of non-negative terms below), and a string compared with
/// itself scores exactly `1.0` (every character matches in place, none is
/// transposed).
#[verifier::external_body]
fn similarity(a: &str, b: &str) -> (r: u64)
    ensures
        a@ != b@ ==> r == similarity_bits(a@, b@),
        a@ == b@ ==> r == FULL_MATCH,
        r <= FULL_MATCH,
{
    strsim::jaro_winkler(a, b).to_bits()
}

/// Slot `(i1, j1)` is scanned before slot `(i2, j2)`.
pub open spec fn before(i1: int, j1: int, i2: int, j2: int) -> bool {
    i1 < i2 || (i1 == i2 && j1 < j2)
}

pub open spec fn slot_score(c: &Corpus, token: Seq<char>, i: int, j: int) -> u64 {
    score(token, c.slot_name(i, j))
}

/// Slot `(i, j)` is the first of the slots with the highest score, and that
/// score is above zero.
pub open spec fn is_best_slot(c: &Corpus, token: Seq<char>, i: int, j: int) -> bool {
    &&& c.valid_slot(i, j)
    &&& slot_score(c, token, i, j) > 0
    &&& forall|a: int, b: int|
        c.valid_slot(a, b) ==> #[trigger] slot_score(c, token, a, b) <= slot_score(c, token, i, j)
    &&& forall|a: int, b: int|
        c.valid_slot(a, b) && before(a, b, i, j) ==> #[trigger] slot_score(c, token, a, b)
            < slot_score(c, token, i, j)
}

/// Book `i` owns the first of the highest-scoring names.
pub open spec fn is_best_book(c: &Corpus, token: Seq<char>, i: int) -> bool {
    exists|j: int| is_best_slot(c, token, i, j)
}

/// Every name of every book scores zero against `token`.
pub open spec fn no_match(c: &Corpus, token: Seq<char>) -> bool {
    forall|a: int, b: int| c.valid_slot(a, b) ==> #[trigger] slot_score(c, token, a, b) == 0
}

/// The index of the book whose name or alternative name is most similar to
/// `token`; among equal scores the first in scan order (books in order, each
/// book's canonical name before its alternatives) wins. `None` when every
/// score is zero.
pub fn resolve_book(corpus: &Corpus, token: &str) -> (r: Option<usize>)
    ensures
        r is None ==> no_match(corpus, token@),
        r matches Some(i) ==> is_best_book(corpus, token@, i as int),
{
    let mut best_score: u64 = 0;
    let mut best_book: usize = 0;
    let ghost mut best_slot: int = 0;
    let mut i: usize = 0;
    while i < corpus.books.len()
        invariant
            i <= corpus.books@.len(),
            forall|a: int, b: int|
                corpus.valid_slot(a, b) && a < i ==> #[trigger] slot_score(corpus, token@, a, b)
                    <= best_score,
            best_score > 0 ==> {
                &&& best_book < i
                &&& corpus.valid_slot(best_book as int, best_slot)
                &&& slot_score(corpus, token@, best_book as int, best_slot) == best_score
                &&& forall|a: int, b: int|
                    corpus.valid_slot(a, b) && before(a, b, best_book as int, best_slot)
                        ==> #[trigger] slot_score(corpus, token@, a, b) < best_score
            },
        decreases corpus.books@.len() - i,
    {
        let book = &corpus.books[i];
        let n = book.alternatives.len();
        let first = similarity(token, book.name.as_str());
        if first > best_score {
            best_score = first;
            best_book = i;
            proof {
                best_slot = 0;
            }
        }
        let mut k: usize = 0;
        while k < n
            invariant
                i < corpus.books@.len(),
                book == corpus.books@[i as int],
                n == book.alternatives@.len(),
                k <= n,
                forall|a: int, b: int|
                    corpus.valid_slot(a, b) && before(a, b, i as int, k + 1)
                        ==> #[trigger] slot_score(corpus, token@, a, b) <= best_score,
                best_score > 0 ==> {
                    &&& before(best_book as int, best_slot, i as int, k + 1)
                    &&& corpus.valid_slot(best_book as int, best_slot)
                    &&& slot_score(corpus, token@, best_book as int, best_slot) == best_score
                    &&& forall|a: int, b: int|
                        corpus.valid_slot(a, b) && before(a, b, best_book as int, best_slot)
                            ==> #[trigger] slot_score(corpus, token@, a, b) < best_score
                },
            decreases n - k,
        {
            let alt_score = similarity(token, book.alternatives[k].as_str());
            assert(alt_score == slot_score(corpus, token@, i as int, k + 1));
            if alt_score > best_score {
                best_score = alt_score;
                best_book = i;
                proof {
                    best_slot = k + 1;
                }
            }
            k += 1;
        }
        i += 1;
    }
    if best_score == 0 {
        None
    } else {
        assert(is_best_slot(corpus, token@, best_book as int, best_slot));
        assert(is_best_book(corpus, token@, best_book as int));
        Some(best_book)
    }
}

/// The canonical name of the best-matching book; when no name is similar at
/// all, the first book's name, and the flag is `true`.
pub fn find_book_name(corpus: &Corpus, name: &str) -> (r: (String, bool))
    requires
        corpus.books@.len() > 0,
    ensures
        r.1 <==> no_match(corpus, name@),
        r.1 ==> r.0@ == corpus.books@[0].name@,
        !r.1 ==> exists|i: int|
            #[trigger] is_best_book(corpus, name@, i) && r.0@ == corpus.books@[i].name@,
{
    match resolve_book(corpus, name) {
        Some(i) => (corpus.books[i].name.clone(), false),
        None => (corpus.books[0].name.clone(), true),
    }
}

/// A token equal to a name of book `b` resolves to `b`, provided no name of
/// another book scores a full match against it.
pub proof fn lemma_exact_name_resolves(c: &Corpus, b: int, k: int)
    requires
        c.valid_slot(b, k),
        forall|a: int, j: int|
            c.valid_slot(a, j) && a != b ==> #[trigger] slot_score(c, c.slot_name(b, k), a, j)
                < FULL_MATCH,
    ensures
        !no_match(c, c.slot_name(b, k)),
        forall|i: int| #[trigger] is_best_book(c, c.slot_name(b, k), i) ==> i == b,
{
    let t = c.slot_name(b, k);
    assert(slot_score(c, t, b, k) == FULL_MATCH);
    assert forall|i: int| #[trigger] is_best_book(c, t, i) implies i == b by {
        let j = choose|j: int| is_best_slot(c, t, i, j);
        assert(slot_score(c, t, b, k) <= slot_score(c, t, i, j));
        if i != b {
            assert(slot_score(c, t, i, j) < FULL_MATCH);
        }
    }
}

/// Resolving the canonical name of a book gives that book, unless a name of
/// another book is an equally good match.
pub proof fn lemma_canonical_name_resolves(c: &Corpus, b: int)
    requires
        0 <= b < c.books@.len(),
        forall|a: int, j: int|
            c.valid_slot(a, j) && a != b ==> #[trigger] slot_score(c, c.books@[b].name@, a, j)
                < FULL_MATCH,
    ensures
        !no_match(c, c.books@[b].name@),
        forall|i: int| #[trigger] is_best_book(c, c.books@[b].name@, i) ==> i == b,
{
    lemma_exact_name_resolves(c, b, 0);
}

/// Resolving an alternative name of a book gives that book's canonical name,
/// unless a name of another book is an equally good match.
pub proof fn lemma_alternative_name_resolves(c: &Corpus, b: int, k: int)
    requires
        0 <= b < c.books@.len(),
        0 <= k < c.books@[b].alternatives@.len(),
        forall|a: int, j: int|
            c.valid_slot(a, j) && a != b ==> #[trigger] slot_score(
                c,
                c.books@[b].alternatives@[k]@,
                a,
                j,
            ) < FULL_MATCH,
    ensures
        !no_match(c, c.books@[b].alternatives@[k]@),
        forall|i: int| #[trigger] is_best_book(c, c.books@[b].alternatives@[k]@, i) ==> i == b,
{
    lemma_exact_name_resolves(c, b, k + 1);
}

} // verus!
