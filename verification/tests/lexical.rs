use query_parser::ast::{Bool, Exp, Int, Str, Var};
use query_parser::error::{ErrorKind, ParseError};
use query_parser::lexical::{
    junk, line_comment, multi_line_comment, parse_bool, parse_int, parse_str, parse_var,
    skip_junk, to_int, whitespace,
};
use query_parser::parse::parse_atom;

fn fails<'a, T>(input: &'a str, code: ErrorKind) -> Result<(&'a str, T), ParseError<'a>> {
    Err(ParseError { input, code })
}

#[test]
fn whitespace_takes_the_whole_run() {
    assert_eq!(whitespace(" \t\r\n x "), Ok(("x ", ())));
    assert_eq!(whitespace("x "), fails("x ", ErrorKind::MultiSpace));
    assert_eq!(whitespace(""), fails("", ErrorKind::MultiSpace));
}

#[test]
fn line_comment_runs_to_the_end_of_the_line() {
    assert_eq!(line_comment("--x\ny"), Ok(("\ny", ())));
    assert_eq!(line_comment("---- x -- y\n--z"), Ok(("\n--z", ())));
    assert_eq!(line_comment("- -"), fails("- -", ErrorKind::Tag));
    assert_eq!(line_comment("-"), fails("-", ErrorKind::Tag));
    assert_eq!(line_comment(" --x"), fails(" --x", ErrorKind::Tag));
}

#[test]
fn line_comment_may_be_empty() {
    assert_eq!(line_comment("--\n"), Ok(("\n", ())));
    assert_eq!(line_comment("--\nx"), Ok(("\nx", ())));
    assert_eq!(line_comment("--"), Ok(("", ())));
}

#[test]
fn block_comments_do_not_nest() {
    assert_eq!(multi_line_comment("/* a /* b */ c */"), Ok((" c */", ())));
    assert_eq!(multi_line_comment("/**/x"), Ok(("x", ())));
    assert_eq!(multi_line_comment("/*/"), fails("/", ErrorKind::TakeUntil));
    assert_eq!(multi_line_comment("x/* */"), fails("x/* */", ErrorKind::Tag));
}

#[test]
fn junk_takes_any_mixture() {
    assert_eq!(junk(""), Ok(("", ())));
    assert_eq!(junk("x"), Ok(("x", ())));
    assert_eq!(junk(" -- a\n/* b */\t/* c */-- d\n  x -- e"), Ok(("x -- e", ())));
    assert_eq!(skip_junk("  /* b */ -- c"), "");
}

#[test]
fn junk_takes_empty_line_comments() {
    assert_eq!(junk(" --\nx"), Ok(("x", ())));
    assert_eq!(junk("--\n--\n\n--"), Ok(("", ())));
    assert_eq!(junk("x --"), Ok(("x --", ())));
    assert_eq!(skip_junk("--"), "");
}

#[test]
fn junk_stops_at_what_is_no_comment() {
    assert_eq!(junk("  /* never closed"), Ok(("/* never closed", ())));
    assert_eq!(junk(" -/ x"), Ok(("-/ x", ())));
    assert_eq!(junk(" /x"), Ok(("/x", ())));
    assert_eq!(junk(" - x"), Ok(("- x", ())));
}

#[test]
fn bool_is_a_prefix() {
    assert_eq!(parse_bool("truefoo"), Ok(("foo", Bool(true))));
    assert_eq!(parse_bool("falsetto"), Ok(("tto", Bool(false))));
    assert_eq!(parse_bool("True"), fails("True", ErrorKind::Tag));
    assert_eq!(parse_bool(""), fails("", ErrorKind::Tag));
}

#[test]
fn atom_reads_a_boolean_before_an_identifier() {
    assert_eq!(parse_atom("truefoo"), Ok(("foo", Exp::Bool(Bool(true)))));
    assert_eq!(parse_atom("tru"), Ok(("", Exp::Var(Var("tru".to_string())))));
}

#[test]
fn int_at_the_limits() {
    assert_eq!(parse_int("9223372036854775807"), Ok(("", Int(i64::MAX))));
    assert_eq!(parse_int("-9223372036854775808"), Ok(("", Int(i64::MIN))));
    assert_eq!(
        parse_int("9223372036854775808"),
        fails("9223372036854775808", ErrorKind::MapRes)
    );
    assert_eq!(
        parse_int("-9223372036854775809 x"),
        fails("-9223372036854775809 x", ErrorKind::MapRes)
    );
    assert_eq!(
        parse_int("100000000000000000000000000000"),
        fails("100000000000000000000000000000", ErrorKind::MapRes)
    );
}

#[test]
fn int_forms() {
    assert_eq!(parse_int("-42"), Ok(("", Int(-42))));
    assert_eq!(parse_int("007"), Ok(("", Int(7))));
    assert_eq!(parse_int("-0"), Ok(("", Int(0))));
    assert_eq!(parse_int("12-3"), Ok(("-3", Int(12))));
    assert_eq!(parse_int("-x"), fails("x", ErrorKind::Digit));
    assert_eq!(parse_int("x"), fails("x", ErrorKind::Digit));
    assert_eq!(parse_int("- 1"), fails(" 1", ErrorKind::Digit));
    assert_eq!(parse_int("+1"), fails("+1", ErrorKind::Digit));
}

#[test]
fn to_int_is_exact() {
    assert_eq!(to_int(false, "1234567890"), Some(1234567890));
    assert_eq!(to_int(true, "1234567890"), Some(-1234567890));
    assert_eq!(to_int(false, ""), None);
    assert_eq!(to_int(true, ""), None);
    assert_eq!(to_int(false, "12a"), None);
    assert_eq!(to_int(false, "-12"), None);
    assert_eq!(to_int(false, "\u{663}"), None);
    assert_eq!(to_int(true, "0"), Some(0));
    assert_eq!(to_int(true, "9223372036854775808"), Some(i64::MIN));
    assert_eq!(to_int(false, "9223372036854775808"), None);
    assert_eq!(to_int(true, "9223372036854775809"), None);
    assert_eq!(to_int(false, "0000000000000000000000000000009"), Some(9));
}

#[test]
fn atom_leaves_what_follows_an_integer() {
    assert_eq!(parse_atom("-42"), Ok(("", Exp::Int(Int(-42)))));
    assert_eq!(parse_atom("-42hello"), Ok(("hello", Exp::Int(Int(-42)))));
}

#[test]
fn str_has_no_escapes() {
    assert_eq!(parse_str("''"), Ok(("", Str(String::new()))));
    assert_eq!(parse_str("'a\\'b'"), Ok(("b'", Str("a\\".to_string()))));
    assert_eq!(parse_str("'-- x /* y */\n'z"), Ok(("z", Str("-- x /* y */\n".to_string()))));
    assert_eq!(parse_str("'h\u{e9}llo \u{1F600}' x"), Ok((" x", Str("h\u{e9}llo \u{1F600}".to_string()))));
}

#[test]
fn str_must_close() {
    assert_eq!(parse_str("'abc"), fails("", ErrorKind::Tag));
    assert_eq!(parse_str("'"), fails("", ErrorKind::Tag));
    assert_eq!(parse_str("abc'"), fails("abc'", ErrorKind::Tag));
    assert_eq!(parse_str(""), fails("", ErrorKind::Tag));
}

#[test]
fn var_forms() {
    assert_eq!(parse_var("_"), Ok(("", Var("_".to_string()))));
    assert_eq!(parse_var("__a1__b2 c"), Ok((" c", Var("__a1__b2".to_string()))));
    assert_eq!(parse_var("a1b2_c3-d"), Ok(("-d", Var("a1b2_c3".to_string()))));
    assert_eq!(parse_var("true"), Ok(("", Var("true".to_string()))));
    assert_eq!(parse_var("x\u{e9}"), Ok(("\u{e9}", Var("x".to_string()))));
    assert_eq!(parse_var("1abc"), fails("1abc", ErrorKind::Tag));
    assert_eq!(parse_var("\u{e9}x"), fails("\u{e9}x", ErrorKind::Tag));
    assert_eq!(parse_var(""), fails("", ErrorKind::Tag));
}
