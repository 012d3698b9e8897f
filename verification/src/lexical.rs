//! The lexical rules: incidental text, and the four kinds of leaf.

use crate::ast::{Bool, Int, Str, Var};
use crate::error::{failed, outcome, ErrorKind, Failure, ParseError, Parsed};
use crate::scan::{alpha1, alphanumeric1, digit1, is_not, multispace1, tag, take_until};
use crate::text::{
    find, is_alpha, is_digit, is_suffix, lemma_find, lemma_run, lemma_run_is, lemma_skip_suffix,
    lemma_suffix_chain, member, run, run_split, Class,
};
use vstd::prelude::*;
use vstd::string::StringExecFns;

verus! {

/// A non-empty run of whitespace.
pub open spec fn spec_whitespace(s: Seq<char>) -> Parsed<()> {
    match run_split(s, Class::Space) {
        Some((rest, _)) => Ok(((), rest)),
        None => failed(s, ErrorKind::MultiSpace),
    }
}

/// `--` and then every character up to the end of the line, of which
/// there may be none; the line feed itself is not part of the comment.
pub open spec fn spec_line_comment(s: Seq<char>) -> Parsed<()> {
    if "--"@.is_prefix_of(s) {
        let body = s.skip("--"@.len() as int);
        Ok(((), body.skip(run(body, Class::NoneOf("\n"@)) as int)))
    } else {
        failed(s, ErrorKind::Tag)
    }
}

/// `/*`, up to and including the first `*/` that follows. A comment that
/// is never closed does not match.
pub open spec fn spec_multi_line_comment(s: Seq<char>) -> Parsed<()> {
    if "/*"@.is_prefix_of(s) {
        let body = s.skip("/*"@.len() as int);
        match find(body, "*/"@) {
            Some(i) => Ok(((), body.skip(i as int + "*/"@.len()))),
            None => failed(body, ErrorKind::TakeUntil),
        }
    } else {
        failed(s, ErrorKind::Tag)
    }
}

/// What follows one piece of incidental text at the front of `s`: a run of
/// whitespace, else a line comment, else a block comment.
pub open spec fn spec_junk_piece(s: Seq<char>) -> Option<Seq<char>> {
    match spec_whitespace(s) {
        Ok((_, rest)) => Some(rest),
        Err(_) => match spec_line_comment(s) {
            Ok((_, rest)) => Some(rest),
            Err(_) => match spec_multi_line_comment(s) {
                Ok((_, rest)) => Some(rest),
                Err(_) => None,
            },
        },
    }
}

/// What follows the longest run of incidental text at the front of `s`.
pub open spec fn spec_junk(s: Seq<char>) -> Seq<char>
    decreases s.len(),
{
    match spec_junk_piece(s) {
        Some(rest) => {
            proof {
                lemma_junk_piece(s);
            }
            spec_junk(rest)
        },
        None => s,
    }
}

/// `true` or `false`, whatever follows.
pub open spec fn spec_bool(s: Seq<char>) -> Parsed<bool> {
    if "true"@.is_prefix_of(s) {
        Ok((true, s.skip("true"@.len() as int)))
    } else if "false"@.is_prefix_of(s) {
        Ok((false, s.skip("false"@.len() as int)))
    } else {
        failed(s, ErrorKind::Tag)
    }
}

/// The value of a decimal digit.
pub open spec fn digit_value(c: char) -> int {
    c as int - '0' as int
}

/// The number that a sequence of decimal digits denotes.
pub open spec fn decimal(digits: Seq<char>) -> int
    decreases digits.len(),
{
    if digits.len() == 0 {
        0
    } else {
        decimal(digits.drop_last()) * 10 + digit_value(digits.last())
    }
}

/// An optional `-` and the longest run of digits, as a 64-bit signed
/// integer. Digits that denote a number outside that range do not match.
pub open spec fn spec_int(s: Seq<char>) -> Parsed<i64> {
    let negative = "-"@.is_prefix_of(s);
    let unsigned = if negative {
        s.skip("-"@.len() as int)
    } else {
        s
    };
    match run_split(unsigned, Class::Digit) {
        Some((rest, digits)) => match spec_to_int(negative, digits) {
            Some(value) => Ok((value, rest)),
            None => failed(s, ErrorKind::MapRes),
        },
        None => failed(unsigned, ErrorKind::Digit),
    }
}

/// A quote, every character up to the next quote, and that quote.
pub open spec fn spec_str(s: Seq<char>) -> Parsed<Seq<char>> {
    if "'"@.is_prefix_of(s) {
        let body = s.skip("'"@.len() as int);
        let n = run(body, Class::NoneOf("'"@)) as int;
        let close = body.skip(n);
        if "'"@.is_prefix_of(close) {
            Ok((body.take(n), close.skip("'"@.len() as int)))
        } else {
            failed(close, ErrorKind::Tag)
        }
    } else {
        failed(s, ErrorKind::Tag)
    }
}

/// A letter or an underscore, and then the longest run of letters, digits
/// and underscores.
pub open spec fn spec_var(s: Seq<char>) -> Parsed<Seq<char>> {
    if s.len() > 0 && (is_alpha(s[0]) || s[0] == '_') {
        let n = run(s, Class::Word) as int;
        Ok((s.take(n), s.skip(n)))
    } else {
        failed(s, ErrorKind::Tag)
    }
}

/// A piece of incidental text is never empty.
pub proof fn lemma_junk_piece(s: Seq<char>)
    ensures
        match spec_junk_piece(s) {
            Some(rest) => rest.len() < s.len() && rest == s.skip(s.len() - rest.len()),
            None => true,
        },
{
    reveal_strlit("--");
    reveal_strlit("/*");
    reveal_strlit("*/");
    lemma_run(s, Class::Space);
    if spec_whitespace(s) is Err {
        if spec_line_comment(s) is Ok {
            let body = s.skip(2);
            lemma_run(body, Class::NoneOf("\n"@));
            let n = run(body, Class::NoneOf("\n"@)) as int;
            assert(body.skip(n) =~= s.skip(2 + n));
        } else if spec_multi_line_comment(s) is Ok {
            let body = s.skip(2);
            lemma_find(body, "*/"@);
            let i = find(body, "*/"@).unwrap() as int;
            assert(body.skip(i + 2) =~= s.skip(4 + i));
        }
    }
}

/// A leaf that matches takes at least one character and leaves a suffix
/// of its input; one that fails reports a suffix of its input.
pub proof fn lemma_leaf_suffix(s: Seq<char>)
    ensures
        match spec_bool(s) {
            Ok((_, rest)) => is_suffix(rest, s) && rest.len() < s.len(),
            Err(e) => is_suffix(e.input, s),
        },
        match spec_int(s) {
            Ok((_, rest)) => is_suffix(rest, s) && rest.len() < s.len(),
            Err(e) => is_suffix(e.input, s),
        },
        match spec_str(s) {
            Ok((_, rest)) => is_suffix(rest, s) && rest.len() < s.len(),
            Err(e) => is_suffix(e.input, s),
        },
        match spec_var(s) {
            Ok((_, rest)) => is_suffix(rest, s) && rest.len() < s.len(),
            Err(e) => is_suffix(e.input, s),
        },
{
    reveal_strlit("true");
    reveal_strlit("false");
    reveal_strlit("-");
    reveal_strlit("'");
    assert(s.skip(0) =~= s);
    lemma_run(s, Class::Word);
    let unsigned = if "-"@.is_prefix_of(s) {
        s.skip(1)
    } else {
        s
    };
    lemma_run(unsigned, Class::Digit);
    lemma_skip_suffix(unsigned, run(unsigned, Class::Digit) as int);
    if "-"@.is_prefix_of(s) {
        lemma_skip_suffix(s, 1);
        lemma_suffix_chain(unsigned.skip(run(unsigned, Class::Digit) as int), unsigned, s);
    }
    if "'"@.is_prefix_of(s) {
        let body = s.skip(1);
        lemma_run(body, Class::NoneOf("'"@));
        let close = body.skip(run(body, Class::NoneOf("'"@)) as int);
        lemma_skip_suffix(body, run(body, Class::NoneOf("'"@)) as int);
        lemma_suffix_chain(close, body, s);
        if "'"@.is_prefix_of(close) {
            lemma_skip_suffix(close, 1);
            lemma_suffix_chain(close.skip(1), close, s);
        }
    }
}

/// Skips a non-empty run of whitespace.
pub fn whitespace<'a>(input: &'a str) -> (r: Result<(&'a str, ()), ParseError<'a>>)
    ensures
        outcome(r) == spec_whitespace(input@),
{
    match multispace1(input) {
        Some((rest, _)) => Ok((rest, ())),
        None => Err(ParseError { input, code: ErrorKind::MultiSpace }),
    }
}

/// Skips a line comment.
pub fn line_comment<'a>(input: &'a str) -> (r: Result<(&'a str, ()), ParseError<'a>>)
    ensures
        outcome(r) == spec_line_comment(input@),
{
    match tag("--", input) {
        Some(body) => match is_not("\n", body) {
            Some((rest, _)) => Ok((rest, ())),
            None => {
                assert(body@.skip(0) =~= body@);
                Ok((body, ()))
            },
        },
        None => Err(ParseError { input, code: ErrorKind::Tag }),
    }
}

/// Skips a block comment.
pub fn multi_line_comment<'a>(input: &'a str) -> (r: Result<(&'a str, ()), ParseError<'a>>)
    ensures
        outcome(r) == spec_multi_line_comment(input@),
{
    match tag("/*", input) {
        Some(body) => match take_until("*/", body) {
            Some((close, before)) => {
                proof {
                    lemma_find(body@, "*/"@);
                }
                match tag("*/", close) {
                    Some(rest) => {
                        assert(rest@ =~= body@.skip(before@.len() as int + "*/"@.len()));
                        Ok((rest, ()))
                    },
                    None => Err(ParseError { input: close, code: ErrorKind::Tag }),
                }
            },
            None => Err(ParseError { input: body, code: ErrorKind::TakeUntil }),
        },
        None => Err(ParseError { input, code: ErrorKind::Tag }),
    }
}

/// One piece of incidental text, if the input begins with one.
fn junk_piece<'a>(input: &'a str) -> (r: Option<&'a str>)
    ensures
        match r {
            Some(rest) => spec_junk_piece(input@) == Some(rest@),
            None => spec_junk_piece(input@) is None,
        },
{
    match whitespace(input) {
        Ok((rest, _)) => Some(rest),
        Err(_) => match line_comment(input) {
            Ok((rest, _)) => Some(rest),
            Err(_) => match multi_line_comment(input) {
                Ok((rest, _)) => Some(rest),
                Err(_) => None,
            },
        },
    }
}

/// What follows the longest run of incidental text at the front of
/// `input`.
pub fn skip_junk<'a>(input: &'a str) -> (rest: &'a str)
    ensures
        rest@ == spec_junk(input@),
{
    let mut rest = input;
    loop
        invariant
            spec_junk(rest@) == spec_junk(input@),
        decreases rest@.len(),
    {
        proof {
            lemma_junk_piece(rest@);
        }
        match junk_piece(rest) {
            Some(next) => {
                rest = next;
            },
            None => {
                return rest;
            },
        }
    }
}

/// Skips the longest run of incidental text, which may be empty. Never
/// fails: text that only looks like the start of a comment is left in
/// place for the next rule to refuse.
pub fn junk<'a>(input: &'a str) -> (r: Result<(&'a str, ()), ParseError<'a>>)
    ensures
        outcome(r) == Ok::<((), Seq<char>), Failure>(((), spec_junk(input@))),
{
    Ok((skip_junk(input), ()))
}

/// Matches a boolean literal.
pub fn parse_bool<'a>(input: &'a str) -> (r: Result<(&'a str, Bool), ParseError<'a>>)
    ensures
        outcome(r) == spec_bool(input@),
{
    match tag("true", input) {
        Some(rest) => Ok((rest, Bool(true))),
        None => match tag("false", input) {
            Some(rest) => Ok((rest, Bool(false))),
            None => Err(ParseError { input, code: ErrorKind::Tag }),
        },
    }
}

/// Matches a quoted string literal.
pub fn parse_str<'a>(input: &'a str) -> (r: Result<(&'a str, Str), ParseError<'a>>)
    ensures
        outcome(r) == spec_str(input@),
{
    match tag("'", input) {
        Some(body) => {
            let (close, text) = match is_not("'", body) {
                Some((close, text)) => (close, text.to_owned()),
                None => (body, String::new()),
            };
            assert(close@ =~= body@.skip(run(body@, Class::NoneOf("'"@)) as int));
            assert(text@ =~= body@.take(run(body@, Class::NoneOf("'"@)) as int));
            match tag("'", close) {
                Some(rest) => Ok((rest, Str(text))),
                None => Err(ParseError { input: close, code: ErrorKind::Tag }),
            }
        },
        None => Err(ParseError { input, code: ErrorKind::Tag }),
    }
}

/// Matches an identifier.
pub fn parse_var<'a>(input: &'a str) -> (r: Result<(&'a str, Var), ParseError<'a>>)
    ensures
        outcome(r) == spec_var(input@),
{
    proof {
        reveal_strlit("_");
        lemma_run(input@, Class::Alpha);
    }
    let (after_first, mut name) = match alpha1(input) {
        Some((rest, word)) => (rest, word.to_owned()),
        None => match tag("_", input) {
            Some(rest) => {
                assert(input@[0] == "_"@[0]);
                (rest, "_".to_owned())
            },
            None => {
                proof {
                    if input@.len() > 0 && input@[0] == '_' {
                        assert("_"@ =~= input@.subrange(0, 1));
                    }
                }
                return Err(ParseError { input, code: ErrorKind::Tag });
            },
        },
    };
    let mut rest = after_first;
    loop
        invariant
            name@ + rest@ =~= input@,
            name@.len() >= 1,
            forall|i: int| 0 <= i < name@.len() ==> member(Class::Word, #[trigger] input@[i]),
            is_alpha(input@[0]) || input@[0] == '_',
        decreases rest@.len(),
    {
        proof {
            reveal_strlit("_");
            lemma_run(rest@, Class::AlphaNumeric);
        }
        let ghost before = name@;
        match alphanumeric1(rest) {
            Some((next, word)) => {
                assert forall|i: int| 0 <= i < before.len() + word@.len() implies member(
                    Class::Word,
                    #[trigger] input@[i],
                ) by {
                    if i >= before.len() {
                        assert(input@[i] == rest@[i - before.len()]);
                    }
                }
                name.append(word);
                rest = next;
            },
            None => match tag("_", rest) {
                Some(next) => {
                    assert(rest@[0] == "_"@[0]);
                    assert(input@[before.len() as int] == rest@[0]);
                    name.append("_");
                    rest = next;
                },
                None => {
                    proof {
                        if rest@.len() > 0 {
                            assert(input@[before.len() as int] == rest@[0]);
                            if rest@[0] == '_' {
                                assert("_"@ =~= rest@.subrange(0, 1));
                            }
                        }
                        lemma_run_is(input@, Class::Word, before.len() as int);
                        assert(name@ =~= input@.take(before.len() as int));
                        assert(rest@ =~= input@.skip(before.len() as int));
                    }
                    return Ok((rest, Var(name)));
                },
            },
        }
    }
}

/// The largest magnitude that a 64-bit signed integer can have.
const MAGNITUDE_LIMIT: u64 = 9223372036854775808;

/// The value of a decimal digit, where `c` is one.
fn digit_of(c: char) -> (d: Option<u64>)
    ensures
        match d {
            Some(value) => is_digit(c) && value == digit_value(c) && value <= 9,
            None => !is_digit(c),
        },
{
    if '0' <= c && c <= '9' {
        Some((c as u32 - '0' as u32) as u64)
    } else {
        None
    }
}

/// What a sign and a text of digits denote: a number, where the text is
/// not empty, holds decimal digits only and the number fits 64 bits.
pub open spec fn spec_to_int(negative: bool, digits: Seq<char>) -> Option<i64> {
    let value = if negative {
        -decimal(digits)
    } else {
        decimal(digits)
    };
    if digits.len() > 0 && (forall|i: int| 0 <= i < digits.len() ==> is_digit(#[trigger] digits[i]))
        && i64::MIN <= value <= i64::MAX {
        Some(value as i64)
    } else {
        None
    }
}

/// The signed number that the digits denote.
pub fn to_int(negative: bool, digits: &str) -> (r: Option<i64>)
    ensures
        r == spec_to_int(negative, digits@),
{
    let n = digits.unicode_len();
    if n == 0 {
        return None;
    }
    let mut i: usize = 0;
    let mut magnitude: u64 = 0;
    let mut over = false;
    while i < n
        invariant
            i <= n,
            n == digits@.len(),
            forall|j: int| 0 <= j < i ==> is_digit(#[trigger] digits@[j]),
            !over ==> magnitude == decimal(digits@.take(i as int)) && magnitude
                <= MAGNITUDE_LIMIT,
            over ==> decimal(digits@.take(i as int)) > MAGNITUDE_LIMIT,
        decreases n - i,
    {
        let d = match digit_of(digits.get_char(i)) {
            Some(d) => d,
            None => {
                return None;
            },
        };
        proof {
            let longer = digits@.take(i + 1);
            assert(longer.drop_last() =~= digits@.take(i as int));
            assert(longer.last() == digits@[i as int]);
        }
        if !over {
            if magnitude > (MAGNITUDE_LIMIT - d) / 10 {
                over = true;
            } else {
                magnitude = magnitude * 10 + d;
            }
        }
        i += 1;
    }
    assert(digits@.take(n as int) =~= digits@);
    if over {
        None
    } else if negative {
        if magnitude == MAGNITUDE_LIMIT {
            Some(i64::MIN)
        } else {
            Some(-(magnitude as i64))
        }
    } else if magnitude < MAGNITUDE_LIMIT {
        Some(magnitude as i64)
    } else {
        None
    }
}

/// Matches an integer literal.
pub fn parse_int<'a>(input: &'a str) -> (r: Result<(&'a str, Int), ParseError<'a>>)
    ensures
        outcome(r) == spec_int(input@),
{
    let (negative, unsigned) = match tag("-", input) {
        Some(rest) => (true, rest),
        None => (false, input),
    };
    proof {
        lemma_run(unsigned@, Class::Digit);
    }
    match digit1(unsigned) {
        Some((rest, digits)) => match to_int(negative, digits) {
            Some(value) => Ok((rest, Int(value))),
            None => Err(ParseError { input, code: ErrorKind::MapRes }),
        },
        None => Err(ParseError { input: unsigned, code: ErrorKind::Digit }),
    }
}

} // verus!
