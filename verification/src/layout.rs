//! Layouts: a text taken as pieces of fixed text with incidental text
//! between them. Two layouts of the same pieces are given the same tree,
//! so incidental text may be added between the pieces, changed or taken
//! away, as long as the pieces stay apart.
//!
//! Pieces stay apart where no character that follows a piece would be read
//! together with its end. That rules out a letter or digit behind a name,
//! a digit behind a number or behind `-`, `-` behind `<` or `-`, and `=`
//! behind `=`. The second `-` matters because `--` begins a comment: in
//! `a -1` a comment that begins with `-`, put behind the operator, takes
//! the operator with it.

use crate::grammar::{spec_exp, token, Rule};
use crate::laws::{
    is_absorbed, is_settled, keeps_step, law_exp_whole, law_same_exp, law_str_ends_at_quote,
    same_result, same_steps, same_tag,
};
use crate::lexical::{spec_bool, spec_int, spec_junk, spec_junk_piece, spec_var};
use crate::text::{is_alpha, is_digit, lemma_run, lemma_run_is, member, run, Class};
use vstd::prelude::*;

verus! {

/// A stretch of text in which no incidental text may be put.
pub ghost enum Piece {
    /// Names, numbers, operators and brackets, as written.
    Plain(Seq<char>),
    /// A string literal, given by what stands between its quotes.
    Quoted(Seq<char>),
}

/// A character of a name, of a number, of an operator or a bracket.
pub open spec fn is_plain(c: char) -> bool {
    member(Class::Word, c) || c == '=' || c == '<' || c == '?' || c == '+' || c == '-' || c == '*'
        || c == ';' || c == ',' || c == ':' || c == '|' || c == '&' || c == '!' || c == '('
        || c == ')'
}

/// The text of a piece.
pub open spec fn text_of(p: Piece) -> Seq<char> {
    match p {
        Piece::Plain(t) => t,
        Piece::Quoted(body) => "'"@ + body + "'"@,
    }
}

/// A plain piece is not empty, holds plain characters only and no `--`; a
/// quoted piece holds no quote.
pub open spec fn is_piece(p: Piece) -> bool {
    match p {
        Piece::Plain(t) => t.len() >= 1 && (forall|i: int| 0 <= i < t.len() ==> is_plain(#[trigger] t[i]))
            && (forall|i: int| 0 <= i < t.len() - 1 ==> !(#[trigger] t[i] == '-' && t[i + 1] == '-')),
        Piece::Quoted(body) => !body.contains('\''),
    }
}

/// The text `t` ends in a name: from some letter or underscore on, it
/// holds letters, digits and underscores only.
pub open spec fn ends_in_name(t: Seq<char>) -> bool {
    exists|k: int| 0 <= k < t.len() && #[trigger] starts_name(t, k)
}

/// From index `k` on, `t` is a name.
pub open spec fn starts_name(t: Seq<char>, k: int) -> bool {
    0 <= k < t.len() && (is_alpha(t[k]) || t[k] == '_') && forall|m: int|
        k <= m < t.len() ==> member(Class::Word, #[trigger] t[m])
}

/// The character `c`, put right behind the plain text `t`, would be read
/// together with the end of `t`: as more of a name or of a number, as the
/// second half of `<-` or `==`, or as the start of a comment.
pub open spec fn joins(t: Seq<char>, c: char) -> bool {
    let last = t[t.len() - 1];
    (member(Class::Word, c) && ends_in_name(t)) || (is_digit(c) && (is_digit(last) || last == '-'))
        || (c == '-' && (last == '<' || last == '-')) || (c == '=' && last == '=')
}

/// The text of a layout from the gap in front of piece `i` on.
pub open spec fn tail_text(pieces: Seq<Piece>, gaps: Seq<Seq<char>>, i: int) -> Seq<char>
    decreases pieces.len() - i,
{
    if 0 <= i < pieces.len() {
        gaps[i] + text_of(pieces[i]) + tail_text(pieces, gaps, i + 1)
    } else {
        gaps[pieces.len() as int]
    }
}

/// The text of a layout: a gap, then each piece with the gap behind it.
pub open spec fn layout_text(pieces: Seq<Piece>, gaps: Seq<Seq<char>>) -> Seq<char> {
    tail_text(pieces, gaps, 0)
}

/// `gaps` lays out `pieces`: there is a gap in front of each piece and one
/// behind the last; every gap in front of a piece is incidental text that
/// ends where it ends, or empty; the last gap is incidental text, or
/// empty; and what follows a plain piece does not join it.
pub open spec fn fits(pieces: Seq<Piece>, gaps: Seq<Seq<char>>) -> bool {
    &&& gaps.len() == pieces.len() + 1
    &&& forall|i: int| 0 <= i < pieces.len() ==> is_piece(#[trigger] pieces[i])
    &&& forall|j: int| 0 <= j < pieces.len() ==> is_absorbed(#[trigger] gaps[j])
    &&& spec_junk(gaps[pieces.len() as int]).len() == 0
    &&& forall|i: int|
        0 <= i < pieces.len() ==> (#[trigger] pieces[i] is Plain ==> apart(
            pieces[i]->Plain_0,
            tail_text(pieces, gaps, i + 1),
        ))
}

/// What follows the plain text `t` does not join it.
pub open spec fn apart(t: Seq<char>, behind: Seq<char>) -> bool {
    behind.len() == 0 || !joins(t, behind[0])
}

/// The text of a layout from within piece `i`, `k` characters in.
pub open spec fn spot(pieces: Seq<Piece>, gaps: Seq<Seq<char>>, i: int, k: int) -> Seq<char> {
    text_of(pieces[i]).skip(k) + tail_text(pieces, gaps, i + 1)
}

/// `x` and `y` are the same spot of two layouts of the same pieces. Within
/// a quoted piece no spot counts but its two ends.
pub open spec fn at(
    pieces: Seq<Piece>,
    g: Seq<Seq<char>>,
    h: Seq<Seq<char>>,
    i: int,
    k: int,
    x: Seq<char>,
    y: Seq<char>,
) -> bool {
    &&& 0 <= i < pieces.len()
    &&& 0 <= k <= text_of(pieces[i]).len()
    &&& pieces[i] is Quoted ==> k == 0 || k == text_of(pieces[i]).len()
    &&& x == spot(pieces, g, i, k)
    &&& y == spot(pieces, h, i, k)
}

/// `x` and `y` are the same place in two layouts of the same pieces: their
/// starts, the same spot, or their ends.
pub open spec fn related(
    pieces: Seq<Piece>,
    g: Seq<Seq<char>>,
    h: Seq<Seq<char>>,
    x: Seq<char>,
    y: Seq<char>,
) -> bool {
    ||| (x == layout_text(pieces, g) && y == layout_text(pieces, h))
    ||| (x.len() == 0 && y.len() == 0)
    ||| exists|i: int, k: int| #[trigger] at(pieces, g, h, i, k, x, y)
}

/// The relation of the same places in two layouts.
pub open spec fn same_place(
    pieces: Seq<Piece>,
    g: Seq<Seq<char>>,
    h: Seq<Seq<char>>,
) -> spec_fn(Seq<char>, Seq<char>) -> bool {
    |x: Seq<char>, y: Seq<char>| related(pieces, g, h, x, y)
}

/// No incidental text stands at the front of a text that begins with a
/// plain character, unless it begins with `--`.
pub proof fn lemma_plain_settled(x: Seq<char>)
    requires
        x.len() >= 1,
        is_plain(x[0]) || x[0] == '\'',
        x.len() >= 2 ==> !(x[0] == '-' && x[1] == '-'),
    ensures
        is_settled(x),
{
    reveal_strlit("--");
    reveal_strlit("/*");
    assert(run(x, Class::Space) == 0);
    if "--"@.is_prefix_of(x) {
        assert("--"@[0] == x.subrange(0, 2)[0]);
        assert("--"@[1] == x.subrange(0, 2)[1]);
    }
    if "/*"@.is_prefix_of(x) {
        assert("/*"@[0] == x.subrange(0, 2)[0]);
    }
    assert(spec_junk_piece(x) is None);
}

/// A spot within a piece is settled.
pub proof fn lemma_spot_settled(pieces: Seq<Piece>, gaps: Seq<Seq<char>>, i: int, k: int)
    requires
        fits(pieces, gaps),
        0 <= i < pieces.len(),
        0 <= k < text_of(pieces[i]).len(),
        pieces[i] is Quoted ==> k == 0,
    ensures
        is_settled(spot(pieces, gaps, i, k)),
        spot(pieces, gaps, i, k).len() >= 1,
{
    let t = text_of(pieces[i]);
    let behind = tail_text(pieces, gaps, i + 1);
    let x = spot(pieces, gaps, i, k);
    assert(is_piece(pieces[i]));
    assert(x[0] == t[k]);
    match pieces[i] {
        Piece::Plain(_) => {
            assert(apart(t, behind));
            if x.len() >= 2 {
                if k + 1 < t.len() {
                    assert(x[1] == t[k + 1]);
                } else {
                    assert(x[1] == behind[0]);
                }
            }
        },
        Piece::Quoted(body) => {
            reveal_strlit("'");
            assert(t[0] == '\'');
            if x.len() >= 2 {
            }
        },
    }
    lemma_plain_settled(x);
}

/// Skipping the incidental text at a gap leads to the piece behind it, or
/// to the end.
pub proof fn lemma_gap_skipped(pieces: Seq<Piece>, gaps: Seq<Seq<char>>, j: int)
    requires
        fits(pieces, gaps),
        0 <= j <= pieces.len(),
    ensures
        j < pieces.len() ==> spec_junk(tail_text(pieces, gaps, j)) == spot(pieces, gaps, j, 0),
        j == pieces.len() ==> spec_junk(tail_text(pieces, gaps, j)).len() == 0,
{
    if j < pieces.len() {
        assert(is_absorbed(gaps[j]));
        let x = spot(pieces, gaps, j, 0);
        assert(is_piece(pieces[j]));
        if pieces[j] is Quoted {
            reveal_strlit("'");
        }
        assert(text_of(pieces[j]).len() >= 1);
        lemma_spot_settled(pieces, gaps, j, 0);
        assert(text_of(pieces[j]).skip(0) =~= text_of(pieces[j]));
        assert(tail_text(pieces, gaps, j) =~= gaps[j] + x);
        assert(spec_junk(gaps[j] + x) == spec_junk(x));
    }
}

/// Going on within a piece leads to a later spot of it.
pub proof fn lemma_spot_shift(pieces: Seq<Piece>, gaps: Seq<Seq<char>>, i: int, k: int, m: int)
    requires
        0 <= i < pieces.len(),
        0 <= k,
        0 <= m,
        k + m <= text_of(pieces[i]).len(),
    ensures
        spot(pieces, gaps, i, k).skip(m) == spot(pieces, gaps, i, k + m),
        spot(pieces, gaps, i, k).take(m) == text_of(pieces[i]).subrange(k, k + m),
        forall|n: int| 0 <= n < m ==> spot(pieces, gaps, i, k)[n] == text_of(pieces[i])[k + n],
{
    let t = text_of(pieces[i]);
    let behind = tail_text(pieces, gaps, i + 1);
    assert((t.skip(k) + behind).skip(m) =~= t.skip(k + m) + behind);
    assert((t.skip(k) + behind).take(m) =~= t.subrange(k, k + m));
}

/// A later spot of a plain piece is the same place in both layouts.
pub proof fn lemma_spot_related(
    pieces: Seq<Piece>,
    g: Seq<Seq<char>>,
    h: Seq<Seq<char>>,
    i: int,
    k: int,
    m: int,
)
    requires
        0 <= i < pieces.len(),
        pieces[i] is Plain || (k == 0 && m == text_of(pieces[i]).len()),
        0 <= k,
        0 <= m,
        k + m <= text_of(pieces[i]).len(),
    ensures
        same_place(pieces, g, h)(
            spot(pieces, g, i, k).skip(m),
            spot(pieces, h, i, k).skip(m),
        ),
{
    lemma_spot_shift(pieces, g, i, k, m);
    lemma_spot_shift(pieces, h, i, k, m);
    assert(at(pieces, g, h, i, k + m, spot(pieces, g, i, k + m), spot(pieces, h, i, k + m)));
}

/// The shape of the fixed spellings of the grammar: one plain character,
/// or `<-`, or `==`.
pub open spec fn is_symbol(t: Seq<char>) -> bool {
    (t.len() == 1 && is_plain(t[0])) || (t.len() == 2 && ((t[0] == '<' && t[1] == '-') || (t[0]
        == '=' && t[1] == '=')))
}

/// Every operator and bracket is a symbol.
pub proof fn lemma_symbols(rule: Rule)
    ensures
        is_symbol(token(rule)),
        is_symbol(")"@),
        is_symbol(","@),
{
    reveal_strlit("=");
    reveal_strlit("<-");
    reveal_strlit("?");
    reveal_strlit("+");
    reveal_strlit("-");
    reveal_strlit("*");
    reveal_strlit(";");
    reveal_strlit(",");
    reveal_strlit(":");
    reveal_strlit("==");
    reveal_strlit("|");
    reveal_strlit("&");
    reveal_strlit("!");
    reveal_strlit("(");
    reveal_strlit(")");
}

/// At a spot of a plain piece, a symbol is found in both layouts or in
/// neither.
pub proof fn lemma_plain_symbol(
    pieces: Seq<Piece>,
    g: Seq<Seq<char>>,
    h: Seq<Seq<char>>,
    i: int,
    k: int,
    t: Seq<char>,
)
    requires
        fits(pieces, g),
        fits(pieces, h),
        0 <= i < pieces.len(),
        pieces[i] is Plain,
        0 <= k < text_of(pieces[i]).len(),
        is_symbol(t),
    ensures
        same_tag(same_place(pieces, g, h), t, spot(pieces, g, i, k), spot(pieces, h, i, k)),
{
    let text = text_of(pieces[i]);
    let x = spot(pieces, g, i, k);
    let y = spot(pieces, h, i, k);
    let left = text.len() - k;
    assert(apart(text, tail_text(pieces, g, i + 1)));
    assert(apart(text, tail_text(pieces, h, i + 1)));
    if t.len() <= left {
        lemma_spot_shift(pieces, g, i, k, t.len() as int);
        lemma_spot_shift(pieces, h, i, k, t.len() as int);
        assert(x.subrange(0, t.len() as int) =~= x.take(t.len() as int));
        assert(y.subrange(0, t.len() as int) =~= y.take(t.len() as int));
        lemma_spot_related(pieces, g, h, i, k, t.len() as int);
    } else {
        lemma_spot_shift(pieces, g, i, k, 1);
        lemma_spot_shift(pieces, h, i, k, 1);
        if t.is_prefix_of(x) {
            assert(t[0] == x.subrange(0, 2)[0]);
            assert(t[1] == x.subrange(0, 2)[1]);
            assert(x[1] == tail_text(pieces, g, i + 1)[0]);
            assert(false);
        }
        if t.is_prefix_of(y) {
            assert(t[0] == y.subrange(0, 2)[0]);
            assert(t[1] == y.subrange(0, 2)[1]);
            assert(y[1] == tail_text(pieces, h, i + 1)[0]);
            assert(false);
        }
    }
}

/// At a spot of a plain piece, a word of letters is found in both layouts
/// or in neither.
pub proof fn lemma_plain_word(
    pieces: Seq<Piece>,
    g: Seq<Seq<char>>,
    h: Seq<Seq<char>>,
    i: int,
    k: int,
    w: Seq<char>,
)
    requires
        fits(pieces, g),
        fits(pieces, h),
        0 <= i < pieces.len(),
        pieces[i] is Plain,
        0 <= k < text_of(pieces[i]).len(),
        w.len() >= 1,
        forall|n: int| 0 <= n < w.len() ==> is_alpha(#[trigger] w[n]),
    ensures
        same_tag(same_place(pieces, g, h), w, spot(pieces, g, i, k), spot(pieces, h, i, k)),
{
    let text = text_of(pieces[i]);
    let x = spot(pieces, g, i, k);
    let y = spot(pieces, h, i, k);
    let left = text.len() - k;
    assert(apart(text, tail_text(pieces, g, i + 1)));
    assert(apart(text, tail_text(pieces, h, i + 1)));
    if w.len() <= left {
        lemma_spot_shift(pieces, g, i, k, w.len() as int);
        lemma_spot_shift(pieces, h, i, k, w.len() as int);
        assert(x.subrange(0, w.len() as int) =~= x.take(w.len() as int));
        assert(y.subrange(0, w.len() as int) =~= y.take(w.len() as int));
        lemma_spot_related(pieces, g, h, i, k, w.len() as int);
    } else {
        lemma_spot_shift(pieces, g, i, k, left);
        lemma_spot_shift(pieces, h, i, k, left);
        if w.is_prefix_of(x) {
            lemma_word_joins(text, k, w, x);
            assert(x[left] == tail_text(pieces, g, i + 1)[0]);
            assert(false);
        }
        if w.is_prefix_of(y) {
            lemma_word_joins(text, k, w, y);
            assert(y[left] == tail_text(pieces, h, i + 1)[0]);
            assert(false);
        }
    }
}

/// A word that begins within a text and goes on behind it joins the text
/// to what follows.
pub proof fn lemma_word_joins(text: Seq<char>, k: int, w: Seq<char>, x: Seq<char>)
    requires
        0 <= k < text.len(),
        w.len() > text.len() - k,
        forall|n: int| 0 <= n < w.len() ==> is_alpha(#[trigger] w[n]),
        w.is_prefix_of(x),
        forall|n: int| 0 <= n < text.len() - k ==> x[n] == text[k + n],
    ensures
        x.len() > text.len() - k,
        joins(text, x[text.len() - k]),
{
    let left = text.len() - k;
    let head = x.subrange(0, w.len() as int);
    assert forall|n: int| 0 <= n < w.len() implies is_alpha(#[trigger] x[n]) by {
        assert(w[n] == head[n]);
    }
    assert forall|m: int| k <= m < text.len() implies member(Class::Word, #[trigger] text[m]) by {
        assert(x[m - k] == text[m]);
        assert(is_alpha(x[m - k]));
    }
    assert(x[0] == text[k]);
    assert(starts_name(text, k));
    assert(is_alpha(x[left]));
}

/// At a spot of a plain piece, a run of word characters or of digits ends
/// at the same place in both layouts, and within the piece.
pub proof fn lemma_plain_run(
    pieces: Seq<Piece>,
    gaps: Seq<Seq<char>>,
    i: int,
    k: int,
    class: Class,
)
    requires
        fits(pieces, gaps),
        0 <= i < pieces.len(),
        pieces[i] is Plain,
        0 <= k <= text_of(pieces[i]).len(),
        class == Class::Digit || (class == Class::Word && k < text_of(pieces[i]).len() && (is_alpha(
            text_of(pieces[i])[k],
        ) || text_of(pieces[i])[k] == '_')),
        k == text_of(pieces[i]).len() ==> text_of(pieces[i])[k - 1] == '-',
    ensures
        run(spot(pieces, gaps, i, k), class) == run(text_of(pieces[i]).skip(k), class),
        run(text_of(pieces[i]).skip(k), class) <= text_of(pieces[i]).len() - k,
{
    let text = text_of(pieces[i]);
    let suf = text.skip(k);
    let behind = tail_text(pieces, gaps, i + 1);
    let x = spot(pieces, gaps, i, k);
    let m = run(suf, class) as int;
    lemma_run(suf, class);
    assert(apart(text, behind));
    assert forall|n: int| 0 <= n < m implies member(class, #[trigger] x[n]) by {
        assert(x[n] == suf[n]);
    }
    if m < suf.len() {
        assert(x[m] == suf[m]);
    } else if behind.len() > 0 {
        assert(x[m] == behind[0]);
        if class == Class::Word {
            assert forall|n: int| k <= n < text.len() implies member(
                Class::Word,
                #[trigger] text[n],
            ) by {
                assert(text[n] == suf[n - k]);
            }
            assert(starts_name(text, k));
        } else if k < text.len() {
            assert(text[text.len() - 1] == suf[suf.len() - 1]);
        }
    }
    lemma_run_is(x, class, m);
}

/// At a spot of a plain piece, an identifier reads the same in both
/// layouts.
pub proof fn lemma_plain_var(
    pieces: Seq<Piece>,
    g: Seq<Seq<char>>,
    h: Seq<Seq<char>>,
    i: int,
    k: int,
)
    requires
        fits(pieces, g),
        fits(pieces, h),
        0 <= i < pieces.len(),
        pieces[i] is Plain,
        0 <= k < text_of(pieces[i]).len(),
    ensures
        same_result(
            same_place(pieces, g, h),
            spec_var(spot(pieces, g, i, k)),
            spec_var(spot(pieces, h, i, k)),
        ),
{
    let text = text_of(pieces[i]);
    let x = spot(pieces, g, i, k);
    let y = spot(pieces, h, i, k);
    lemma_spot_shift(pieces, g, i, k, 1);
    lemma_spot_shift(pieces, h, i, k, 1);
    assert(x[0] == text[k]);
    assert(y[0] == text[k]);
    if is_alpha(text[k]) || text[k] == '_' {
        lemma_plain_run(pieces, g, i, k, Class::Word);
        lemma_plain_run(pieces, h, i, k, Class::Word);
        let m = run(text.skip(k), Class::Word) as int;
        lemma_spot_shift(pieces, g, i, k, m);
        lemma_spot_shift(pieces, h, i, k, m);
        lemma_spot_related(pieces, g, h, i, k, m);
    }
}

/// At a spot of a plain piece, an integer reads the same in both layouts.
pub proof fn lemma_plain_int(
    pieces: Seq<Piece>,
    g: Seq<Seq<char>>,
    h: Seq<Seq<char>>,
    i: int,
    k: int,
)
    requires
        fits(pieces, g),
        fits(pieces, h),
        0 <= i < pieces.len(),
        pieces[i] is Plain,
        0 <= k < text_of(pieces[i]).len(),
    ensures
        same_result(
            same_place(pieces, g, h),
            spec_int(spot(pieces, g, i, k)),
            spec_int(spot(pieces, h, i, k)),
        ),
{
    reveal_strlit("-");
    let text = text_of(pieces[i]);
    let x = spot(pieces, g, i, k);
    let y = spot(pieces, h, i, k);
    lemma_spot_shift(pieces, g, i, k, 1);
    lemma_spot_shift(pieces, h, i, k, 1);
    assert(x[0] == text[k]);
    assert(y[0] == text[k]);
    assert("-"@.is_prefix_of(x) == (text[k] == '-')) by {
        if "-"@.is_prefix_of(x) {
            assert("-"@[0] == x.subrange(0, 1)[0]);
        } else if text[k] == '-' {
            assert("-"@ =~= x.subrange(0, 1));
        }
    }
    assert("-"@.is_prefix_of(y) == (text[k] == '-')) by {
        if "-"@.is_prefix_of(y) {
            assert("-"@[0] == y.subrange(0, 1)[0]);
        } else if text[k] == '-' {
            assert("-"@ =~= y.subrange(0, 1));
        }
    }
    let from = if text[k] == '-' {
        k + 1
    } else {
        k
    };
    lemma_plain_run(pieces, g, i, from, Class::Digit);
    lemma_plain_run(pieces, h, i, from, Class::Digit);
    let m = run(text.skip(from), Class::Digit) as int;
    lemma_spot_shift(pieces, g, i, from, m);
    lemma_spot_shift(pieces, h, i, from, m);
    if m > 0 {
        lemma_spot_related(pieces, g, h, i, from, m);
    }
}

/// At a spot of a plain piece, every lexical step reads the same in both
/// layouts.
pub proof fn lemma_plain_steps(
    pieces: Seq<Piece>,
    g: Seq<Seq<char>>,
    h: Seq<Seq<char>>,
    i: int,
    k: int,
)
    requires
        fits(pieces, g),
        fits(pieces, h),
        0 <= i < pieces.len(),
        pieces[i] is Plain,
        0 <= k < text_of(pieces[i]).len(),
    ensures
        same_steps(same_place(pieces, g, h), spot(pieces, g, i, k), spot(pieces, h, i, k)),
{
    let r = same_place(pieces, g, h);
    let text = text_of(pieces[i]);
    let x = spot(pieces, g, i, k);
    let y = spot(pieces, h, i, k);
    assert forall|rule: Rule| #[trigger] same_tag(r, token(rule), x, y) by {
        lemma_symbols(rule);
        lemma_plain_symbol(pieces, g, h, i, k, token(rule));
    }
    lemma_symbols(Rule::Atom);
    lemma_plain_symbol(pieces, g, h, i, k, ")"@);
    lemma_plain_symbol(pieces, g, h, i, k, ","@);
    reveal_strlit("true");
    reveal_strlit("false");
    lemma_plain_word(pieces, g, h, i, k, "true"@);
    lemma_plain_word(pieces, g, h, i, k, "false"@);
    lemma_plain_var(pieces, g, h, i, k);
    lemma_plain_int(pieces, g, h, i, k);
    lemma_spot_shift(pieces, g, i, k, 1);
    lemma_spot_shift(pieces, h, i, k, 1);
    assert(is_piece(pieces[i]));
    assert(is_plain(text[k]));
    reveal_strlit("'");
    assert(!"'"@.is_prefix_of(x)) by {
        if "'"@.is_prefix_of(x) {
            assert("'"@[0] == x.subrange(0, 1)[0]);
        }
    }
    assert(!"'"@.is_prefix_of(y)) by {
        if "'"@.is_prefix_of(y) {
            assert("'"@[0] == y.subrange(0, 1)[0]);
        }
    }
}

/// Nothing but a string literal begins with a quote, and nothing at all
/// is found in an empty text.
pub proof fn lemma_no_step(r: spec_fn(Seq<char>, Seq<char>) -> bool, x: Seq<char>, y: Seq<char>)
    requires
        (x.len() == 0 && y.len() == 0) || (x.len() > 0 && y.len() > 0 && x[0] == '\'' && y[0]
            == '\''),
    ensures
        forall|rule: Rule| #[trigger] same_tag(r, token(rule), x, y),
        same_tag(r, ")"@, x, y),
        same_tag(r, ","@, x, y),
        spec_bool(x) is Err,
        spec_bool(y) is Err,
        spec_int(x) is Err,
        spec_int(y) is Err,
        spec_var(x) is Err,
        spec_var(y) is Err,
{
    assert forall|t: Seq<char>| is_symbol(t) implies !t.is_prefix_of(x) && !t.is_prefix_of(y) by {
        if t.is_prefix_of(x) {
            assert(t[0] == x.subrange(0, t.len() as int)[0]);
        }
        if t.is_prefix_of(y) {
            assert(t[0] == y.subrange(0, t.len() as int)[0]);
        }
    }
    assert forall|rule: Rule| #[trigger] same_tag(r, token(rule), x, y) by {
        lemma_symbols(rule);
    }
    lemma_symbols(Rule::Atom);
    reveal_strlit("true");
    reveal_strlit("false");
    reveal_strlit("-");
    if "true"@.is_prefix_of(x) {
        assert("true"@[0] == x.subrange(0, 4)[0]);
    }
    if "true"@.is_prefix_of(y) {
        assert("true"@[0] == y.subrange(0, 4)[0]);
    }
    if "false"@.is_prefix_of(x) {
        assert("false"@[0] == x.subrange(0, 5)[0]);
    }
    if "false"@.is_prefix_of(y) {
        assert("false"@[0] == y.subrange(0, 5)[0]);
    }
    if "-"@.is_prefix_of(x) {
        assert("-"@[0] == x.subrange(0, 1)[0]);
    }
    if "-"@.is_prefix_of(y) {
        assert("-"@[0] == y.subrange(0, 1)[0]);
    }
    assert(run(x, Class::Digit) == 0);
    assert(run(y, Class::Digit) == 0);
}

/// At the front of a quoted piece, every lexical step reads the same in
/// both layouts.
pub proof fn lemma_quoted_steps(pieces: Seq<Piece>, g: Seq<Seq<char>>, h: Seq<Seq<char>>, i: int)
    requires
        fits(pieces, g),
        fits(pieces, h),
        0 <= i < pieces.len(),
        pieces[i] is Quoted,
    ensures
        same_steps(same_place(pieces, g, h), spot(pieces, g, i, 0), spot(pieces, h, i, 0)),
{
    reveal_strlit("'");
    let r = same_place(pieces, g, h);
    let body = pieces[i]->Quoted_0;
    let text = text_of(pieces[i]);
    let x = spot(pieces, g, i, 0);
    let y = spot(pieces, h, i, 0);
    let a = tail_text(pieces, g, i + 1);
    let b = tail_text(pieces, h, i + 1);
    assert(is_piece(pieces[i]));
    assert(text.skip(0) =~= text);
    assert(x =~= "'"@ + body + "'"@ + a);
    assert(y =~= "'"@ + body + "'"@ + b);
    assert(x[0] == '\'');
    assert(y[0] == '\'');
    lemma_no_step(r, x, y);
    law_str_ends_at_quote(body, a);
    law_str_ends_at_quote(body, b);
    lemma_spot_related(pieces, g, h, i, 0, text.len() as int);
    lemma_spot_shift(pieces, g, i, 0, text.len() as int);
    lemma_spot_shift(pieces, h, i, 0, text.len() as int);
    assert(text.skip(text.len() as int) + a =~= a);
    assert(text.skip(text.len() as int) + b =~= b);
}

/// The same places of two layouts are told apart by no lexical step.
pub proof fn lemma_related_steps(
    pieces: Seq<Piece>,
    g: Seq<Seq<char>>,
    h: Seq<Seq<char>>,
    x: Seq<char>,
    y: Seq<char>,
)
    requires
        fits(pieces, g),
        fits(pieces, h),
    ensures
        keeps_step(same_place(pieces, g, h), x, y),
{
    let r = same_place(pieces, g, h);
    if r(x, y) {
        if x.len() == 0 && y.len() == 0 {
            lemma_gap_end(x);
            lemma_gap_end(y);
            lemma_no_step(r, x, y);
            reveal_strlit("'");
        } else if x == layout_text(pieces, g) && y == layout_text(pieces, h) {
            lemma_gap_skipped(pieces, g, 0);
            lemma_gap_skipped(pieces, h, 0);
            if pieces.len() > 0 {
                lemma_piece_len(pieces[0]);
                assert(at(pieces, g, h, 0, 0, spec_junk(x), spec_junk(y)));
                if is_settled(x) && is_settled(y) {
                    lemma_spot_steps(pieces, g, h, 0, 0);
                }
            } else {
                if is_settled(x) && is_settled(y) {
                    lemma_no_step(r, x, y);
                    reveal_strlit("'");
                }
            }
        } else {
            let (i, k) = choose|i: int, k: int| #[trigger] at(pieces, g, h, i, k, x, y);
            if k < text_of(pieces[i]).len() {
                lemma_spot_settled(pieces, g, i, k);
                lemma_spot_settled(pieces, h, i, k);
                lemma_spot_steps(pieces, g, h, i, k);
            } else {
                let text = text_of(pieces[i]);
                assert(text.skip(k) + tail_text(pieces, g, i + 1) =~= tail_text(pieces, g, i + 1));
                assert(text.skip(k) + tail_text(pieces, h, i + 1) =~= tail_text(pieces, h, i + 1));
                lemma_gap_skipped(pieces, g, i + 1);
                lemma_gap_skipped(pieces, h, i + 1);
                if i + 1 < pieces.len() {
                    lemma_piece_len(pieces[i + 1]);
                    assert(at(pieces, g, h, i + 1, 0, spec_junk(x), spec_junk(y)));
                    if is_settled(x) && is_settled(y) {
                        lemma_spot_steps(pieces, g, h, i + 1, 0);
                    }
                } else {
                    if is_settled(x) && is_settled(y) {
                        lemma_no_step(r, x, y);
                        reveal_strlit("'");
                    }
                }
            }
        }
    }
}

/// No piece is empty.
pub proof fn lemma_piece_len(p: Piece)
    requires
        is_piece(p),
    ensures
        text_of(p).len() >= 1,
{
    reveal_strlit("'");
}

/// Nothing is skipped in an empty text.
pub proof fn lemma_gap_end(x: Seq<char>)
    requires
        x.len() == 0,
    ensures
        spec_junk(x) == x,
{
    reveal_strlit("--");
    reveal_strlit("/*");
    assert(spec_junk_piece(x) is None);
}

/// At the front of a piece or within a plain one, every lexical step
/// reads the same in both layouts.
pub proof fn lemma_spot_steps(
    pieces: Seq<Piece>,
    g: Seq<Seq<char>>,
    h: Seq<Seq<char>>,
    i: int,
    k: int,
)
    requires
        fits(pieces, g),
        fits(pieces, h),
        0 <= i < pieces.len(),
        0 <= k < text_of(pieces[i]).len(),
        pieces[i] is Quoted ==> k == 0,
    ensures
        same_steps(same_place(pieces, g, h), spot(pieces, g, i, k), spot(pieces, h, i, k)),
{
    if pieces[i] is Plain {
        lemma_plain_steps(pieces, g, h, i, k);
    } else {
        lemma_quoted_steps(pieces, g, h, i);
    }
}

/// No text at all is incidental text that ends where it ends: a gap may be
/// empty.
pub proof fn law_nothing_absorbed()
    ensures
        is_absorbed(Seq::<char>::empty()),
{
    assert forall|x: Seq<char>| #[trigger]
        spec_junk(Seq::<char>::empty() + x) == spec_junk(x) by {
        assert(Seq::<char>::empty() + x =~= x);
    }
}

/// Two layouts of the same pieces are given the same result as complete
/// programs: the same tree with nothing left, or a refusal. So incidental
/// text may be put between any two pieces of a program, changed there or
/// taken away, as long as what follows a piece does not join it.
///
/// A piece is any stretch in which the two layouts agree: one token, or
/// several that stand together in both, such as `-1` or `a==b`.
pub proof fn law_layouts_same_tree(pieces: Seq<Piece>, g: Seq<Seq<char>>, h: Seq<Seq<char>>)
    requires
        fits(pieces, g),
        fits(pieces, h),
    ensures
        match spec_exp(layout_text(pieces, g)) {
            Ok(found) => spec_exp(layout_text(pieces, h)) == Ok::<_, crate::error::Failure>(found),
            Err(_) => spec_exp(layout_text(pieces, h)) is Err,
        },
{
    let r = same_place(pieces, g, h);
    assert forall|x: Seq<char>, y: Seq<char>| #[trigger] keeps_step(r, x, y) by {
        lemma_related_steps(pieces, g, h, x, y);
    }
    law_same_exp(r, layout_text(pieces, g), layout_text(pieces, h));
    law_exp_whole(layout_text(pieces, g));
    law_exp_whole(layout_text(pieces, h));
    if let Ok((_, rest_g)) = spec_exp(layout_text(pieces, g)) {
        let rest_h = spec_exp(layout_text(pieces, h))->Ok_0.1;
        assert(rest_g =~= rest_h);
    }
}

} // verus!
