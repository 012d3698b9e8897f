//! The executable rules of the cascade and the entry point. Each returns
//! exactly what the grammar assigns to its input.

use crate::ast::{
    names, And, Cell, Difference, Equals, Exp, Let, Not, Or, Product, Row, Select, Table, Union,
    Var, Where,
};
use crate::error::{outcome, ErrorKind, ParseError};
use crate::grammar::{
    is_chain, join, lemma_junk, lemma_rule_suffix, lemma_tail_suffix, lemma_token, lemma_vars,
    rank, spec_exp, spec_parens, spec_program, spec_rule, spec_tail, spec_vars, tighter, token,
    Rule, Tail,
};
use crate::lexical::{
    lemma_leaf_suffix, parse_bool, parse_int, parse_str, parse_var, skip_junk, spec_junk,
};
use crate::scan::tag;
use vstd::prelude::*;

verus! {

/// What an executable rule found behind its left operand.
pub(crate) enum Found<'a> {
    Absent,
    Failed(ParseError<'a>),
    Parsed(&'a str, Exp),
}

/// The model of what was found.
pub(crate) open spec fn tail_of(found: Found) -> Tail {
    match found {
        Found::Absent => Tail::Absent,
        Found::Failed(e) => Tail::Failed(e@),
        Found::Parsed(rest, right) => Tail::Parsed(right@, rest@),
    }
}

/// The spelling of a rule's operator.
fn token_of(rule: Rule) -> (t: &'static str)
    ensures
        t@ == token(rule),
{
    match rule {
        Rule::Let => "=",
        Rule::Select => "<-",
        Rule::Where => "?",
        Rule::Union => "+",
        Rule::Difference => "-",
        Rule::Product => "*",
        Rule::Table => ";",
        Rule::Row => ",",
        Rule::Cell => ":",
        Rule::Equals => "==",
        Rule::Or => "|",
        Rule::And => "&",
        Rule::Not => "!",
        Rule::Atom => "(",
    }
}

/// The rule that binds next-tighter.
fn tighter_of(rule: Rule) -> (next: Rule)
    ensures
        next == tighter(rule),
{
    match rule {
        Rule::Let => Rule::Select,
        Rule::Select => Rule::Where,
        Rule::Where => Rule::Union,
        Rule::Union => Rule::Difference,
        Rule::Difference => Rule::Product,
        Rule::Product => Rule::Table,
        Rule::Table => Rule::Row,
        Rule::Row => Rule::Cell,
        Rule::Cell => Rule::Equals,
        Rule::Equals => Rule::Or,
        Rule::Or => Rule::And,
        Rule::And => Rule::Not,
        Rule::Not => Rule::Atom,
        Rule::Atom => Rule::Atom,
    }
}

/// Builds the node of a chain rule.
fn join_exp(rule: Rule, left: Exp, right: Exp) -> (e: Exp)
    requires
        is_chain(rule),
    ensures
        e@ == join(rule, left@, right@),
{
    let l = Box::new(left);
    let r = Box::new(right);
    match rule {
        Rule::Where => Exp::Where(Where(l, r)),
        Rule::Union => Exp::Union(Union(l, r)),
        Rule::Difference => Exp::Difference(Difference(l, r)),
        Rule::Product => Exp::Product(Product(l, r)),
        Rule::Table => Exp::Table(Table(l, r)),
        Rule::Row => Exp::Row(Row(l, r)),
        Rule::Equals => Exp::Equals(Equals(l, r)),
        Rule::Or => Exp::Or(Or(l, r)),
        _ => Exp::And(And(l, r)),
    }
}

/// Parses a complete program: the whole input must be one expression,
/// with incidental text before and behind it at most. On success the
/// input that is handed back is empty.
///
/// The rules call one another, and themselves, once for each level of
/// nesting in the input: every bracket, and every operand on the right of
/// a chain, adds calls of up to one rule for each level of the cascade. The
/// depth of the call stack thus grows with the depth of the expression,
/// and an input that nests deeply enough, such as thousands of brackets or
/// a chain of thousands of operands, can exhaust the stack. Nothing here
/// bounds that depth.
pub fn parse_exp<'a>(input: &'a str) -> (r: Result<(&'a str, Exp), ParseError<'a>>)
    ensures
        outcome(r) == spec_exp(input@),
{
    match parse_program(input) {
        Ok((rest, exp)) => if rest.is_empty() {
            Ok((rest, exp))
        } else {
            Err(ParseError { input: rest, code: ErrorKind::Eof })
        },
        Err(e) => Err(e),
    }
}

/// Parses one expression with incidental text before and behind it, and
/// hands back whatever input follows.
///
/// As for `parse_exp`, the call stack grows with the depth of the
/// expression, and deep nesting can exhaust it.
pub fn parse_program<'a>(input: &'a str) -> (r: Result<(&'a str, Exp), ParseError<'a>>)
    ensures
        outcome(r) == spec_program(input@),
    decreases input@.len(), 14int, 0int,
{
    proof {
        lemma_junk(input@);
    }
    match parse_let(skip_junk(input)) {
        Ok((rest, exp)) => Ok((skip_junk(rest), exp)),
        Err(e) => Err(e),
    }
}

/// Applies the rule that is named.
pub fn parse_rule<'a>(rule: Rule, input: &'a str) -> (r: Result<(&'a str, Exp), ParseError<'a>>)
    ensures
        outcome(r) == spec_rule(rule, input@),
    decreases input@.len(), rank(rule), 3int,
{
    match rule {
        Rule::Let => parse_let(input),
        Rule::Select => parse_select(input),
        Rule::Where => parse_where(input),
        Rule::Union => parse_union(input),
        Rule::Difference => parse_difference(input),
        Rule::Product => parse_product(input),
        Rule::Table => parse_table(input),
        Rule::Row => parse_row(input),
        Rule::Cell => parse_cell(input),
        Rule::Equals => parse_equals(input),
        Rule::Or => parse_or(input),
        Rule::And => parse_and(input),
        Rule::Not => parse_not(input),
        Rule::Atom => parse_atom(input),
    }
}

/// `name = bound body`, else whatever `parse_select` finds.
pub fn parse_let<'a>(input: &'a str) -> (r: Result<(&'a str, Exp), ParseError<'a>>)
    ensures
        outcome(r) == spec_rule(Rule::Let, input@),
    decreases input@.len(), 13int, 2int,
{
    parse_ternary_op(input)
}

/// The column list of one name.
fn single(name: Var) -> (columns: Vec<Var>)
    ensures
        names(columns@) == seq![name@],
{
    let columns = vec![name];
    assert(names(columns@) =~= seq![name@]);
    columns
}

/// The column list that begins with `name` and goes on with `more`.
fn prepend(name: Var, more: Vec<Var>) -> (columns: Vec<Var>)
    ensures
        names(columns@) == seq![name@] + names(more@),
{
    let mut columns = more;
    columns.insert(0, name);
    assert(names(columns@) =~= seq![name@] + names(more@));
    columns
}

/// A column list.
pub fn parse_select_vars<'a>(input: &'a str) -> (r: Result<(&'a str, Vec<Var>), ParseError<'a>>)
    ensures
        match r {
            Ok((rest, columns)) => spec_vars(input@) == Ok::<_, crate::error::Failure>(
                (names(columns@), rest@),
            ),
            Err(e) => spec_vars(input@) == Err::<(Seq<Seq<char>>, Seq<char>), _>(e@),
        },
    decreases input@.len(),
{
    match parse_var(input) {
        Ok((after, name)) => {
            proof {
                lemma_leaf_suffix(input@);
                lemma_junk(after@);
                reveal_strlit(",");
            }
            match tag(",", skip_junk(after)) {
                Some(behind) => {
                    proof {
                        lemma_junk(behind@);
                    }
                    match parse_select_vars(skip_junk(behind)) {
                        Ok((rest, more)) => Ok((rest, prepend(name, more))),
                        Err(_) => Ok((after, single(name))),
                    }
                },
                None => Ok((after, single(name))),
            }
        },
        Err(e) => Err(e),
    }
}

/// `columns <- source`, else whatever `parse_where` finds.
pub fn parse_select<'a>(input: &'a str) -> (r: Result<(&'a str, Exp), ParseError<'a>>)
    ensures
        outcome(r) == spec_rule(Rule::Select, input@),
    decreases input@.len(), 12int, 2int,
{
    match parse_select_vars(input) {
        Ok((after, columns)) => {
            proof {
                lemma_vars(input@);
            }
            match parse_tail(Rule::Select, after) {
                Found::Parsed(rest, source) => Ok(
                    (rest, Exp::Select(Select(columns, Box::new(source)))),
                ),
                Found::Failed(e) => Err(e),
                Found::Absent => parse_where(input),
            }
        },
        Err(_) => parse_where(input),
    }
}

/// `source ? predicate`.
pub fn parse_where<'a>(input: &'a str) -> (r: Result<(&'a str, Exp), ParseError<'a>>)
    ensures
        outcome(r) == spec_rule(Rule::Where, input@),
    decreases input@.len(), 11int, 2int,
{
    parse_binary_op(input, Rule::Where)
}

/// `left + right`.
pub fn parse_union<'a>(input: &'a str) -> (r: Result<(&'a str, Exp), ParseError<'a>>)
    ensures
        outcome(r) == spec_rule(Rule::Union, input@),
    decreases input@.len(), 10int, 2int,
{
    parse_binary_op(input, Rule::Union)
}

/// `left - right`.
pub fn parse_difference<'a>(input: &'a str) -> (r: Result<(&'a str, Exp), ParseError<'a>>)
    ensures
        outcome(r) == spec_rule(Rule::Difference, input@),
    decreases input@.len(), 9int, 2int,
{
    parse_binary_op(input, Rule::Difference)
}

/// `left * right`.
pub fn parse_product<'a>(input: &'a str) -> (r: Result<(&'a str, Exp), ParseError<'a>>)
    ensures
        outcome(r) == spec_rule(Rule::Product, input@),
    decreases input@.len(), 8int, 2int,
{
    parse_binary_op(input, Rule::Product)
}

/// `row ; rows`.
pub fn parse_table<'a>(input: &'a str) -> (r: Result<(&'a str, Exp), ParseError<'a>>)
    ensures
        outcome(r) == spec_rule(Rule::Table, input@),
    decreases input@.len(), 7int, 2int,
{
    parse_binary_op(input, Rule::Table)
}

/// `cell , cells`.
pub fn parse_row<'a>(input: &'a str) -> (r: Result<(&'a str, Exp), ParseError<'a>>)
    ensures
        outcome(r) == spec_rule(Rule::Row, input@),
    decreases input@.len(), 6int, 2int,
{
    parse_binary_op(input, Rule::Row)
}

/// `key : value`, else whatever `parse_equals` finds.
pub fn parse_cell<'a>(input: &'a str) -> (r: Result<(&'a str, Exp), ParseError<'a>>)
    ensures
        outcome(r) == spec_rule(Rule::Cell, input@),
    decreases input@.len(), 5int, 2int,
{
    match parse_var(input) {
        Ok((after, key)) => {
            proof {
                lemma_leaf_suffix(input@);
            }
            match parse_tail(Rule::Cell, after) {
                Found::Parsed(rest, value) => Ok((rest, Exp::Cell(Cell(key, Box::new(value))))),
                Found::Failed(e) => Err(e),
                Found::Absent => parse_equals(input),
            }
        },
        Err(_) => parse_equals(input),
    }
}

/// `left == right`.
pub fn parse_equals<'a>(input: &'a str) -> (r: Result<(&'a str, Exp), ParseError<'a>>)
    ensures
        outcome(r) == spec_rule(Rule::Equals, input@),
    decreases input@.len(), 4int, 2int,
{
    parse_binary_op(input, Rule::Equals)
}

/// `left | right`.
pub fn parse_or<'a>(input: &'a str) -> (r: Result<(&'a str, Exp), ParseError<'a>>)
    ensures
        outcome(r) == spec_rule(Rule::Or, input@),
    decreases input@.len(), 3int, 2int,
{
    parse_binary_op(input, Rule::Or)
}

/// `left & right`.
pub fn parse_and<'a>(input: &'a str) -> (r: Result<(&'a str, Exp), ParseError<'a>>)
    ensures
        outcome(r) == spec_rule(Rule::And, input@),
    decreases input@.len(), 2int, 2int,
{
    parse_binary_op(input, Rule::And)
}

/// `! operand`, else whatever `parse_atom` finds.
pub fn parse_not<'a>(input: &'a str) -> (r: Result<(&'a str, Exp), ParseError<'a>>)
    ensures
        outcome(r) == spec_rule(Rule::Not, input@),
    decreases input@.len(), 1int, 2int,
{
    parse_unary_op(input)
}

/// A bracketed expression, a boolean, an integer, a string or an
/// identifier: the first of these that matches.
pub fn parse_atom<'a>(input: &'a str) -> (r: Result<(&'a str, Exp), ParseError<'a>>)
    ensures
        outcome(r) == spec_rule(Rule::Atom, input@),
    decreases input@.len(), 0int, 2int,
{
    match parse_parens(input) {
        Ok(nested) => Ok(nested),
        Err(_) => match parse_bool(input) {
            Ok((rest, b)) => Ok((rest, Exp::Bool(b))),
            Err(_) => match parse_int(input) {
                Ok((rest, n)) => Ok((rest, Exp::Int(n))),
                Err(_) => match parse_str(input) {
                    Ok((rest, text)) => Ok((rest, Exp::Str(text))),
                    Err(_) => match parse_var(input) {
                        Ok((rest, name)) => Ok((rest, Exp::Var(name))),
                        Err(e) => Err(e),
                    },
                },
            },
        },
    }
}

/// `( program )`.
pub fn parse_parens<'a>(input: &'a str) -> (r: Result<(&'a str, Exp), ParseError<'a>>)
    ensures
        outcome(r) == spec_parens(input@),
    decreases input@.len(), 0int, 1int,
{
    match tag("(", input) {
        Some(inside) => {
            proof {
                reveal_strlit("(");
            }
            match parse_program(inside) {
                Ok((at_close, inner)) => match tag(")", at_close) {
                    Some(rest) => Ok((rest, inner)),
                    None => Err(ParseError { input: at_close, code: ErrorKind::Tag }),
                },
                Err(e) => Err(e),
            }
        },
        None => Err(ParseError { input, code: ErrorKind::Tag }),
    }
}

/// The rule with three operands, which is `Let`: a binder, `=`, the bound
/// expression and, with no separator, the body. Where any part of that is
/// missing, the rule gives way to `parse_select` on the same input.
fn parse_ternary_op<'a>(input: &'a str) -> (r: Result<(&'a str, Exp), ParseError<'a>>)
    ensures
        outcome(r) == spec_rule(Rule::Let, input@),
    decreases input@.len(), 13int, 1int,
{
    match parse_var(input) {
        Ok((after, name)) => {
            proof {
                lemma_leaf_suffix(input@);
            }
            match parse_tail(Rule::Let, after) {
                Found::Parsed(behind, bound) => {
                    proof {
                        lemma_tail_suffix(Rule::Let, after@);
                        lemma_junk(behind@);
                        lemma_junk(spec_junk(behind@));
                    }
                    match parse_let(skip_junk(skip_junk(behind))) {
                        Ok((rest, body)) => Ok(
                            (rest, Exp::Let(Let(name, Box::new(bound), Box::new(body)))),
                        ),
                        Err(_) => parse_select(input),
                    }
                },
                _ => parse_select(input),
            }
        },
        Err(_) => parse_select(input),
    }
}

/// A chain rule: a left operand of the next-tighter rule, then, where the
/// rule's operator follows, a right operand of the rule itself. Without the
/// operator the left operand is the result. With the operator but no right
/// operand the rule fails.
fn parse_binary_op<'a>(input: &'a str, rule: Rule) -> (r: Result<(&'a str, Exp), ParseError<'a>>)
    requires
        is_chain(rule),
    ensures
        outcome(r) == spec_rule(rule, input@),
    decreases input@.len(), rank(rule), 1int,
{
    match parse_rule(tighter_of(rule), input) {
        Ok((after, left)) => {
            proof {
                lemma_rule_suffix(tighter(rule), input@);
            }
            match parse_tail(rule, after) {
                Found::Parsed(rest, right) => Ok((rest, join_exp(rule, left, right))),
                Found::Failed(e) => Err(e),
                Found::Absent => Ok((after, left)),
            }
        },
        Err(e) => Err(e),
    }
}

/// The rule with one operand, which is `Not`: `!` and an operand of the
/// rule itself, else whatever `parse_atom` finds.
fn parse_unary_op<'a>(input: &'a str) -> (r: Result<(&'a str, Exp), ParseError<'a>>)
    ensures
        outcome(r) == spec_rule(Rule::Not, input@),
    decreases input@.len(), 1int, 1int,
{
    match tag("!", input) {
        Some(behind) => {
            proof {
                reveal_strlit("!");
                lemma_junk(behind@);
            }
            match parse_not(skip_junk(behind)) {
                Ok((rest, operand)) => Ok((rest, Exp::Not(Not(Box::new(operand))))),
                Err(_) => parse_atom(input),
            }
        },
        None => parse_atom(input),
    }
}

/// Looks behind a left operand of `rule` for the rule's operator and a
/// right operand.
fn parse_tail<'a>(rule: Rule, after_left: &'a str) -> (r: Found<'a>)
    ensures
        tail_of(r) == spec_tail(rule, after_left@),
    decreases after_left@.len(), rank(rule), 0int,
{
    match tag(token_of(rule), skip_junk(after_left)) {
        Some(behind) => {
            proof {
                lemma_token(rule);
                lemma_junk(after_left@);
                lemma_junk(behind@);
            }
            match parse_rule(rule, skip_junk(behind)) {
                Ok((rest, right)) => Found::Parsed(rest, right),
                Err(e) => Found::Failed(e),
            }
        },
        None => Found::Absent,
    }
}

} // verus!
