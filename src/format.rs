//! Fixed-width layout of rendered verse lines.
use vstd::prelude::*;
use vstd::string::StringExecFns;
use crate::text::{
    chars_of, find_char, first_of, is_first, lemma_first_unique, lemma_split_concat,
    lemma_split_nonempty, lemma_split_pieces_free, lemma_split_single, slice_chars, split_chars,
    split_on, string_of,
};

verus! {

/// Column at which a verse body starts, less the separating space.
pub const REF_COLUMN: usize = 6;

/// What a line without a space between reference and body is replaced by.
pub const FORMAT_ERROR: &'static str = "Eroare de formatare";

/// The text that textwrap's `fill` makes of `text` at `width` columns without
/// breaking words.
pub uninterp spec fn filled(text: Seq<char>, width: nat) -> Seq<char>;

/// Relies on `textwrap::fill` with `Options::new(width).break_words(false)`:
/// the result depends on the text and the width alone.
#[verifier::external_body]
fn fill_text(text: &str, width: usize) -> (r: String)
    ensures
        r@ == filled(text@, width as nat),
{
    textwrap::fill(text, textwrap::Options::new(width).break_words(false))
}

/// `l` without one trailing carriage return.
pub open spec fn strip_cr(l: Seq<char>) -> Seq<char> {
    if l.len() > 0 && l.last() == '\r' {
        l.drop_last()
    } else {
        l
    }
}

/// The lines of `s` as `str::lines` gives them: split at `'\n'`, a `"\r\n"`
/// ending counts as one, and a final line ending adds no empty line.
pub open spec fn lines_of(s: Seq<char>) -> Seq<Seq<char>> {
    let p = split_on(s, '\n');
    let n = p.len() as int;
    let m = if p[n - 1].len() == 0 { n - 1 } else { n };
    Seq::new(m as nat, |k: int| if k < n - 1 { strip_cr(p[k]) } else { p[k] })
}

pub open spec fn spaces(n: nat) -> Seq<char> {
    Seq::new(n, |_i: int| ' ')
}

/// The reference padded to the body column, then one space.
pub open spec fn head(rf: Seq<char>) -> Seq<char> {
    rf + spaces(if rf.len() < REF_COLUMN { (REF_COLUMN - rf.len()) as nat } else { 0 }) + seq![' ']
}

/// The first `k` lines laid out: the first after the reference, each further
/// one on a new line under the body column.
pub open spec fn laid_out(rf: Seq<char>, ls: Seq<Seq<char>>, k: int) -> Seq<char>
    decreases k,
{
    if k <= 0 {
        Seq::empty()
    } else if k == 1 {
        head(rf) + ls[0]
    } else {
        laid_out(rf, ls, k - 1) + seq!['\n'] + spaces(7) + ls[k - 1]
    }
}

/// The display form of `"<ref> <body>"` at `width` columns.
pub open spec fn format_spec(line: Seq<char>, width: nat) -> Seq<char> {
    match first_of(line, ' ') {
        None => FORMAT_ERROR@,
        Some(d) => {
            let ls = lines_of(filled(line.subrange(d + 1, line.len() as int), (width - REF_COLUMN) as nat));
            laid_out(line.subrange(0, d), ls, ls.len() as int)
        },
    }
}

fn strip_line(l: &Vec<char>) -> (r: Vec<char>)
    ensures
        r@ == strip_cr(l@),
{
    if l.len() > 0 && l[l.len() - 1] == '\r' {
        let r = slice_chars(l, 0, l.len() - 1);
        assert(r@ =~= l@.drop_last());
        r
    } else {
        let r = slice_chars(l, 0, l.len());
        assert(r@ =~= l@);
        r
    }
}

fn lines(cs: &Vec<char>) -> (r: Vec<Vec<char>>)
    ensures
        r@.len() == lines_of(cs@).len(),
        forall|k: int| 0 <= k < r@.len() ==> #[trigger] r@[k]@ == lines_of(cs@)[k],
{
    let pieces = split_chars(cs, '\n');
    proof {
        lemma_split_nonempty(cs@, '\n');
    }
    let n = pieces.len();
    let m = if pieces[n - 1].len() == 0 { n - 1 } else { n };
    let mut r: Vec<Vec<char>> = Vec::new();
    let mut k: usize = 0;
    while k < m
        invariant
            n == pieces@.len(),
            n == split_on(cs@, '\n').len(),
            forall|j: int| 0 <= j < n ==> #[trigger] pieces@[j]@ == split_on(cs@, '\n')[j],
            m as int == lines_of(cs@).len(),
            m <= n,
            k <= m,
            r@.len() == k,
            forall|j: int| 0 <= j < k ==> #[trigger] r@[j]@ == lines_of(cs@)[j],
        decreases m - k,
    {
        let l = if k < n - 1 {
            strip_line(&pieces[k])
        } else {
            let c = slice_chars(&pieces[k], 0, pieces[k].len());
            assert(c@ =~= pieces@[k as int]@);
            c
        };
        r.push(l);
        k += 1;
    }
    r
}

fn push_spaces(out: &mut Vec<char>, n: usize)
    ensures
        final(out)@ == old(out)@ + spaces(n as nat),
{
    let ghost start = old(out)@;
    let mut i: usize = 0;
    while i < n
        invariant
            i <= n,
            out@ == start + spaces(i as nat),
        decreases n - i,
    {
        out.push(' ');
        i += 1;
        assert(out@ =~= start + spaces(i as nat));
    }
}

fn push_all(out: &mut Vec<char>, v: &Vec<char>)
    ensures
        final(out)@ == old(out)@ + v@,
{
    let ghost start = old(out)@;
    let mut i: usize = 0;
    while i < v.len()
        invariant
            i <= v@.len(),
            out@ == start + v@.subrange(0, i as int),
        decreases v@.len() - i,
    {
        out.push(v[i]);
        i += 1;
    }
    assert(v@.subrange(0, v@.len() as int) =~= v@);
}

/// Lays out a rendered line `"<ref> <body>"`: the reference padded to six
/// characters and a space, then the body filled to `width - 6` columns, with
/// each continuation line indented by seven spaces. A line without a space
/// gives [`FORMAT_ERROR`].
pub fn wrap(text: &str, width: usize) -> (r: String)
    requires
        width >= REF_COLUMN,
    ensures
        r@ == format_spec(text@, width as nat),
{
    let cs = chars_of(text);
    let d = match find_char(&cs, ' ') {
        Some(d) => d,
        None => {
            return String::from_str(FORMAT_ERROR);
        },
    };
    let n = cs.len();
    assert(d < n);
    let rf = slice_chars(&cs, 0, d);
    let body = slice_chars(&cs, d + 1, n);
    let body_text = string_of(body.as_slice());
    let filled_text = fill_text(body_text.as_str(), width - REF_COLUMN);
    let fcs = chars_of(filled_text.as_str());
    let ls = lines(&fcs);
    let ghost big = lines_of(filled(cs@.subrange(d + 1, cs@.len() as int), (width - REF_COLUMN) as nat));
    let mut out: Vec<char> = Vec::new();
    let mut k: usize = 0;
    while k < ls.len()
        invariant
            ls@.len() == big.len(),
            forall|j: int| 0 <= j < ls@.len() ==> #[trigger] ls@[j]@ == big[j],
            k <= ls@.len(),
            out@ == laid_out(rf@, big, k as int),
        decreases ls@.len() - k,
    {
        if k == 0 {
            push_all(&mut out, &rf);
            let pad = if rf.len() < REF_COLUMN { REF_COLUMN - rf.len() } else { 0 };
            push_spaces(&mut out, pad);
            out.push(' ');
        } else {
            out.push('\n');
            push_spaces(&mut out, 7);
        }
        push_all(&mut out, &ls[k]);
        k += 1;
        assert(out@ =~= laid_out(rf@, big, k as int));
    }
    string_of(out.as_slice())
}

/// The rows of a layout: the head and first line, then each further line
/// under the body column.
pub open spec fn rows(rf: Seq<char>, ls: Seq<Seq<char>>, k: int) -> Seq<Seq<char>> {
    Seq::new(k as nat, |j: int| if j == 0 { head(rf) + ls[0] } else { spaces(7) + ls[j] })
}

pub open spec fn free_of(s: Seq<char>, c: char) -> bool {
    forall|i: int| 0 <= i < s.len() ==> s[i] != c
}

/// Reads a laid-out verse back: the reference before the first space, and
/// each row with its head or its indent removed.
pub open spec fn unformat(out: Seq<char>) -> (Seq<char>, Seq<Seq<char>>) {
    let r = split_on(out, '\n');
    let first = r[0];
    let d = match first_of(first, ' ') {
        Some(d) => d,
        None => first.len() as int,
    };
    let rf = first.subrange(0, d);
    let h = head(rf).len() as int;
    (
        rf,
        Seq::new(
            r.len(),
            |j: int|
                if j == 0 {
                    first.subrange(h, first.len() as int)
                } else {
                    r[j].subrange(7, r[j].len() as int)
                },
        ),
    )
}

proof fn lemma_rows_split(rf: Seq<char>, ls: Seq<Seq<char>>, k: int)
    requires
        1 <= k <= ls.len(),
        free_of(rf, '\n'),
        forall|j: int| 0 <= j < ls.len() ==> free_of(#[trigger] ls[j], '\n'),
    ensures
        split_on(laid_out(rf, ls, k), '\n') == rows(rf, ls, k),
    decreases k,
{
    if k == 1 {
        let x = head(rf) + ls[0];
        assert(free_of(ls[0], '\n'));
        assert forall|i: int| 0 <= i < x.len() implies x[i] != '\n' by {
            if i >= head(rf).len() {
                assert(x[i] == ls[0][i - head(rf).len()]);
            }
        }
        lemma_split_single(x, '\n');
        assert(rows(rf, ls, 1) =~= seq![x]);
    } else {
        lemma_rows_split(rf, ls, k - 1);
        let y = spaces(7) + ls[k - 1];
        assert(free_of(ls[k - 1], '\n'));
        assert forall|i: int| 0 <= i < y.len() implies y[i] != '\n' by {
            if i >= 7 {
                assert(y[i] == ls[k - 1][i - 7]);
            }
        }
        lemma_split_single(y, '\n');
        lemma_split_concat(laid_out(rf, ls, k - 1), y, '\n');
        assert(laid_out(rf, ls, k) =~= laid_out(rf, ls, k - 1) + seq!['\n'] + y);
        assert(rows(rf, ls, k) =~= rows(rf, ls, k - 1) + seq![y]);
    }
}

proof fn lemma_lines_free(s: Seq<char>)
    ensures
        forall|j: int| 0 <= j < lines_of(s).len() ==> free_of(#[trigger] lines_of(s)[j], '\n'),
{
    lemma_split_nonempty(s, '\n');
    lemma_split_pieces_free(s, '\n');
    let p = split_on(s, '\n');
    assert forall|j: int| 0 <= j < lines_of(s).len() implies free_of(#[trigger] lines_of(s)[j], '\n') by {
        assert forall|i: int| 0 <= i < lines_of(s)[j].len() implies lines_of(s)[j][i] != '\n' by {
            assert(lines_of(s)[j][i] == p[j][i]);
        }
    }
}

/// A verse laid out by [`wrap`] begins with its reference, padded with spaces
/// to six characters (none when it has six or more), and one space.
pub proof fn lemma_reference_column(line: Seq<char>, width: nat, d: int)
    requires
        width >= REF_COLUMN,
        first_of(line, ' ') == Some(d),
        lines_of(filled(line.subrange(d + 1, line.len() as int), (width - REF_COLUMN) as nat)).len()
            > 0,
    ensures
        format_spec(line, width).subrange(0, head(line.subrange(0, d)).len() as int) == line.subrange(0, d)
            + spaces(if d < REF_COLUMN { (REF_COLUMN - d) as nat } else { 0 }) + seq![' '],
{
    let rf = line.subrange(0, d);
    let ls = lines_of(filled(line.subrange(d + 1, line.len() as int), (width - REF_COLUMN) as nat));
    lemma_laid_out_head(rf, ls, ls.len() as int);
    assert(format_spec(line, width) == laid_out(rf, ls, ls.len() as int));
}

proof fn lemma_laid_out_head(rf: Seq<char>, ls: Seq<Seq<char>>, k: int)
    requires
        1 <= k <= ls.len(),
    ensures
        laid_out(rf, ls, k).len() >= head(rf).len(),
        laid_out(rf, ls, k).subrange(0, head(rf).len() as int) == head(rf),
    decreases k,
{
    if k == 1 {
        assert((head(rf) + ls[0]).subrange(0, head(rf).len() as int) =~= head(rf));
    } else {
        lemma_laid_out_head(rf, ls, k - 1);
        let prev = laid_out(rf, ls, k - 1);
        let whole = prev + seq!['\n'] + spaces(7) + ls[k - 1];
        assert(whole.subrange(0, head(rf).len() as int) =~= prev.subrange(0, head(rf).len() as int));
    }
}

/// Laying out `"<ref> <body>"` and reading it back gives the reference and
/// the lines that the body was filled into, each without its indent, so the
/// words of the body come back in order, only the spacing between lines lost.
pub proof fn lemma_unformat_recovers(line: Seq<char>, width: nat, d: int)
    requires
        width >= REF_COLUMN,
        first_of(line, ' ') == Some(d),
        free_of(line.subrange(0, d), '\n'),
        lines_of(filled(line.subrange(d + 1, line.len() as int), (width - REF_COLUMN) as nat)).len()
            > 0,
    ensures
        unformat(format_spec(line, width)) == (
            line.subrange(0, d),
            lines_of(filled(line.subrange(d + 1, line.len() as int), (width - REF_COLUMN) as nat)),
        ),
{
    let rf = line.subrange(0, d);
    let ls = lines_of(filled(line.subrange(d + 1, line.len() as int), (width - REF_COLUMN) as nat));
    let n = ls.len() as int;
    let out = format_spec(line, width);
    assert(out == laid_out(rf, ls, n));
    lemma_lines_free(filled(line.subrange(d + 1, line.len() as int), (width - REF_COLUMN) as nat));
    lemma_rows_split(rf, ls, n);
    let r = split_on(out, '\n');
    assert(r == rows(rf, ls, n));
    let first = r[0];
    assert(first == head(rf) + ls[0]);
    assert(is_first(line, ' ', d)) by {
        let e = choose|e: int| is_first(line, ' ', e);
        assert(is_first(line, ' ', e));
    }
    assert(is_first(first, ' ', rf.len() as int)) by {
        assert(first[rf.len() as int] == ' ');
        assert forall|j: int| 0 <= j < rf.len() implies first[j] != ' ' by {
            assert(first[j] == line[j]);
        }
    }
    lemma_first_unique(first, ' ', rf.len() as int);
    assert(first.subrange(0, rf.len() as int) =~= rf);
    let h = head(rf).len() as int;
    let back = unformat(out).1;
    assert forall|j: int| 0 <= j < n implies #[trigger] back[j] == ls[j] by {
        if j == 0 {
            assert(first.subrange(h, first.len() as int) =~= ls[0]);
        } else {
            assert(r[j] == spaces(7) + ls[j]);
            assert(r[j].subrange(7, r[j].len() as int) =~= ls[j]);
        }
    }
    assert(back =~= ls);
}

} // verus!
