//! The grammar: what each rule of the precedence cascade assigns to an
//! input, as a function on sequences of characters.
//!
//! A rule looks at the front of its input. It yields a term and the input
//! that follows the text it matched, or it fails; nothing is consumed by a
//! rule that fails. Incidental text may stand between any two tokens.
//!
//! The rules have three shapes.
//! - A binary rule reads a left operand and looks for its operator behind
//!   it. Without the operator, or without a left operand, it gives way to
//!   the next-tighter rule on the same input. With the operator the right
//!   operand is owed: where none follows the rule fails, and no shorter
//!   match is tried in its place. The right operand belongs to the rule
//!   itself, so a chain groups to the right.
//! - `Let` reads a binder, `=`, the bound expression and the body, the
//!   last two by `Let` itself and with nothing between them. Where that
//!   form does not match in full, `Let` gives way to `Select` on the same
//!   input.
//! - `Not` reads `!` and an operand of its own, and gives way to `Atom`
//!   where that does not match.
//!
//! Nothing is reserved and nothing is looked ahead for: where the bound
//! expression of a `Let` ends is decided by how far it can be read.

use crate::ast::{has_columns, Term};
use crate::error::{failed, ErrorKind, Failure, Parsed};
use crate::lexical::{
    lemma_junk_piece, lemma_leaf_suffix, spec_bool, spec_int, spec_junk, spec_junk_piece,
    spec_str, spec_var,
};
use crate::text::{is_suffix, lemma_run, lemma_skip_suffix, lemma_suffix_chain, Class};
use vstd::prelude::*;

verus! {

/// The rules of the cascade, from the loosest binding to the tightest.
#[derive(Clone, Copy, Debug, PartialEq, Eq)]
pub enum Rule {
    Let,
    Select,
    Where,
    Union,
    Difference,
    Product,
    Table,
    Row,
    Cell,
    Equals,
    Or,
    And,
    Not,
    Atom,
}

/// How loosely a rule binds: `Atom` binds tightest.
pub open spec fn rank(rule: Rule) -> nat {
    match rule {
        Rule::Let => 13,
        Rule::Select => 12,
        Rule::Where => 11,
        Rule::Union => 10,
        Rule::Difference => 9,
        Rule::Product => 8,
        Rule::Table => 7,
        Rule::Row => 6,
        Rule::Cell => 5,
        Rule::Equals => 4,
        Rule::Or => 3,
        Rule::And => 2,
        Rule::Not => 1,
        Rule::Atom => 0,
    }
}

/// The rule that binds next-tighter; `Atom` is the end of the cascade.
pub open spec fn tighter(rule: Rule) -> Rule {
    match rule {
        Rule::Let => Rule::Select,
        Rule::Select => Rule::Where,
        Rule::Where => Rule::Union,
        Rule::Union => Rule::Difference,
        Rule::Difference => Rule::Product,
        Rule::Product => Rule::Table,
        Rule::Table => Rule::Row,
        Rule::Row => Rule::Cell,
        Rule::Cell => Rule::Equals,
        Rule::Equals => Rule::Or,
        Rule::Or => Rule::And,
        Rule::And => Rule::Not,
        Rule::Not => Rule::Atom,
        Rule::Atom => Rule::Atom,
    }
}

/// The spelling of a rule's operator; for `Atom`, of the bracket that
/// opens a nested expression.
pub open spec fn token(rule: Rule) -> Seq<char> {
    match rule {
        Rule::Let => "="@,
        Rule::Select => "<-"@,
        Rule::Where => "?"@,
        Rule::Union => "+"@,
        Rule::Difference => "-"@,
        Rule::Product => "*"@,
        Rule::Table => ";"@,
        Rule::Row => ","@,
        Rule::Cell => ":"@,
        Rule::Equals => "=="@,
        Rule::Or => "|"@,
        Rule::And => "&"@,
        Rule::Not => "!"@,
        Rule::Atom => "("@,
    }
}

/// The rules whose two operands are both expressions and whose left
/// operand belongs to the next-tighter rule.
pub open spec fn is_chain(rule: Rule) -> bool {
    match rule {
        Rule::Where
        | Rule::Union
        | Rule::Difference
        | Rule::Product
        | Rule::Table
        | Rule::Row
        | Rule::Equals
        | Rule::Or
        | Rule::And => true,
        _ => false,
    }
}

/// The term that a chain rule builds from its operands.
pub open spec fn join(rule: Rule, left: Term, right: Term) -> Term {
    match rule {
        Rule::Where => Term::Where(Box::new(left), Box::new(right)),
        Rule::Union => Term::Union(Box::new(left), Box::new(right)),
        Rule::Difference => Term::Difference(Box::new(left), Box::new(right)),
        Rule::Product => Term::Product(Box::new(left), Box::new(right)),
        Rule::Table => Term::Table(Box::new(left), Box::new(right)),
        Rule::Row => Term::Row(Box::new(left), Box::new(right)),
        Rule::Equals => Term::Equals(Box::new(left), Box::new(right)),
        Rule::Or => Term::Or(Box::new(left), Box::new(right)),
        _ => Term::And(Box::new(left), Box::new(right)),
    }
}

/// What a rule finds behind its left operand.
pub ghost enum Tail {
    /// The operator does not follow: the rule gives way to the next.
    Absent,
    /// The operator follows, but no right operand: the rule fails.
    Failed(Failure),
    /// The operator and the right operand, and the input behind them.
    Parsed(Term, Seq<char>),
}

/// Every operator has at least one character.
pub proof fn lemma_token(rule: Rule)
    ensures
        token(rule).len() >= 1,
{
    reveal_strlit("=");
    reveal_strlit("<-");
    reveal_strlit("?");
    reveal_strlit("+");
    reveal_strlit("-");
    reveal_strlit("*");
    reveal_strlit(";");
    reveal_strlit(",");
    reveal_strlit(":");
    reveal_strlit("==");
    reveal_strlit("|");
    reveal_strlit("&");
    reveal_strlit("!");
    reveal_strlit("(");
}

/// Skipping incidental text never lengthens the input, and leaves a suffix
/// of it.
pub proof fn lemma_junk(s: Seq<char>)
    ensures
        is_suffix(spec_junk(s), s),
        spec_junk_piece(spec_junk(s)) is None,
    decreases s.len(),
{
    lemma_junk_piece(s);
    match spec_junk_piece(s) {
        Some(rest) => {
            lemma_junk(rest);
            assert(rest.skip(rest.len() - spec_junk(rest).len()) =~= s.skip(
                s.len() - spec_junk(rest).len(),
            ));
        },
        None => {
            assert(s.skip(0) =~= s);
        },
    }
}

/// A column list: identifiers separated by commas, as many as follow one
/// another.
pub open spec fn spec_vars(s: Seq<char>) -> Parsed<Seq<Seq<char>>>
    decreases s.len(),
{
    match spec_var(s) {
        Ok((name, after)) => {
            let at_comma = spec_junk(after);
            if ","@.is_prefix_of(at_comma) {
                proof {
                    reveal_strlit(",");
                    lemma_run(s, Class::Word);
                    lemma_junk(after);
                    lemma_junk(at_comma.skip(","@.len() as int));
                }
                match spec_vars(spec_junk(at_comma.skip(","@.len() as int))) {
                    Ok((more, rest)) => Ok((seq![name] + more, rest)),
                    Err(_) => Ok((seq![name], after)),
                }
            } else {
                Ok((seq![name], after))
            }
        },
        Err(e) => Err(e),
    }
}

/// A column list that matches has at least one name, takes at least one
/// character and leaves a suffix of its input; one that fails reports its
/// input.
pub proof fn lemma_vars(s: Seq<char>)
    ensures
        match spec_vars(s) {
            Ok((columns, rest)) => columns.len() >= 1 && is_suffix(rest, s) && rest.len()
                < s.len(),
            Err(e) => e == (Failure { input: s, code: ErrorKind::Tag }),
        },
    decreases s.len(),
{
    lemma_leaf_suffix(s);
    match spec_var(s) {
        Ok((name, after)) => {
            let at_comma = spec_junk(after);
            lemma_junk(after);
            if ","@.is_prefix_of(at_comma) {
                reveal_strlit(",");
                let behind = at_comma.skip(1);
                lemma_junk(behind);
                lemma_vars(spec_junk(behind));
                lemma_skip_suffix(at_comma, 1);
                match spec_vars(spec_junk(behind)) {
                    Ok((more, rest)) => {
                        lemma_suffix_chain(rest, spec_junk(behind), behind);
                        lemma_suffix_chain(rest, behind, at_comma);
                        lemma_suffix_chain(rest, at_comma, after);
                        lemma_suffix_chain(rest, after, s);
                    },
                    Err(_) => {},
                }
            }
        },
        Err(_) => {},
    }
}

/// What `rule` assigns to the input `s`.
///
/// Wherever a rule goes on behind an operand, it first tests that the
/// operand left no more input than it was given. That test never fails
/// (`lemma_rule_suffix`); it is what shows that the definition terminates.
pub open spec fn spec_rule(rule: Rule, s: Seq<char>) -> Parsed<Term>
    decreases s.len(), rank(rule), 1int,
{
    match rule {
        Rule::Let => match spec_var(s) {
            Ok((name, after)) => {
                proof {
                    lemma_run(s, Class::Word);
                }
                match spec_tail(Rule::Let, after) {
                    Tail::Parsed(bound, behind) if behind.len() < s.len() => {
                        proof {
                            lemma_junk(behind);
                            lemma_junk(spec_junk(behind));
                        }
                        match spec_rule(Rule::Let, spec_junk(spec_junk(behind))) {
                            Ok((body, rest)) => Ok(
                                (Term::Let(name, Box::new(bound), Box::new(body)), rest),
                            ),
                            Err(_) => spec_rule(Rule::Select, s),
                        }
                    },
                    _ => spec_rule(Rule::Select, s),
                }
            },
            Err(_) => spec_rule(Rule::Select, s),
        },
        Rule::Select => match spec_vars(s) {
            Ok((columns, after)) => {
                proof {
                    lemma_vars(s);
                }
                match spec_tail(Rule::Select, after) {
                    Tail::Parsed(source, rest) => Ok(
                        (Term::Select(columns, Box::new(source)), rest),
                    ),
                    Tail::Failed(e) => Err(e),
                    Tail::Absent => spec_rule(Rule::Where, s),
                }
            },
            Err(_) => spec_rule(Rule::Where, s),
        },
        Rule::Cell => match spec_var(s) {
            Ok((key, after)) => {
                proof {
                    lemma_run(s, Class::Word);
                }
                match spec_tail(Rule::Cell, after) {
                    Tail::Parsed(value, rest) => Ok((Term::Cell(key, Box::new(value)), rest)),
                    Tail::Failed(e) => Err(e),
                    Tail::Absent => spec_rule(Rule::Equals, s),
                }
            },
            Err(_) => spec_rule(Rule::Equals, s),
        },
        Rule::Not => if "!"@.is_prefix_of(s) {
            proof {
                reveal_strlit("!");
                lemma_junk(s.skip("!"@.len() as int));
            }
            match spec_rule(Rule::Not, spec_junk(s.skip("!"@.len() as int))) {
                Ok((operand, rest)) => Ok((Term::Not(Box::new(operand)), rest)),
                Err(_) => spec_rule(Rule::Atom, s),
            }
        } else {
            spec_rule(Rule::Atom, s)
        },
        Rule::Atom => match spec_parens(s) {
            Ok(nested) => Ok(nested),
            Err(_) => match spec_bool(s) {
                Ok((b, rest)) => Ok((Term::Bool(b), rest)),
                Err(_) => match spec_int(s) {
                    Ok((n, rest)) => Ok((Term::Int(n), rest)),
                    Err(_) => match spec_str(s) {
                        Ok((text, rest)) => Ok((Term::Str(text), rest)),
                        Err(_) => match spec_var(s) {
                            Ok((name, rest)) => Ok((Term::Var(name), rest)),
                            Err(e) => Err(e),
                        },
                    },
                },
            },
        },
        _ => match spec_rule(tighter(rule), s) {
            Ok((left, after)) if after.len() <= s.len() => match spec_tail(rule, after) {
                Tail::Parsed(right, rest) => Ok((join(rule, left, right), rest)),
                Tail::Failed(e) => Err(e),
                Tail::Absent => Ok((left, after)),
            },
            other => other,
        },
    }
}

/// What follows a left operand of `rule`: incidental text, the operator,
/// incidental text, and a right operand that `rule` itself matches.
pub open spec fn spec_tail(rule: Rule, after_left: Seq<char>) -> Tail
    decreases after_left.len(), rank(rule), 0int,
{
    let at_operator = spec_junk(after_left);
    if token(rule).is_prefix_of(at_operator) {
        let behind = at_operator.skip(token(rule).len() as int);
        proof {
            lemma_token(rule);
            lemma_junk(after_left);
            lemma_junk(behind);
        }
        match spec_rule(rule, spec_junk(behind)) {
            Ok((right, rest)) => Tail::Parsed(right, rest),
            Err(e) => Tail::Failed(e),
        }
    } else {
        Tail::Absent
    }
}

/// A bracketed expression: `(`, a whole program, `)`.
pub open spec fn spec_parens(s: Seq<char>) -> Parsed<Term>
    decreases s.len(), 0nat, 0int,
{
    if "("@.is_prefix_of(s) {
        proof {
            reveal_strlit("(");
        }
        match spec_program(s.skip("("@.len() as int)) {
            Ok((inner, at_close)) => if ")"@.is_prefix_of(at_close) {
                Ok((inner, at_close.skip(")"@.len() as int)))
            } else {
                failed(at_close, ErrorKind::Tag)
            },
            Err(e) => Err(e),
        }
    } else {
        failed(s, ErrorKind::Tag)
    }
}

/// A program: one expression of the loosest rule, with incidental text
/// before and behind it.
pub open spec fn spec_program(s: Seq<char>) -> Parsed<Term>
    decreases s.len(), 14nat, 0int,
{
    proof {
        lemma_junk(s);
    }
    match spec_rule(Rule::Let, spec_junk(s)) {
        Ok((term, rest)) => Ok((term, spec_junk(rest))),
        Err(e) => Err(e),
    }
}

/// A complete program: a program behind which no input is left.
pub open spec fn spec_exp(s: Seq<char>) -> Parsed<Term> {
    match spec_program(s) {
        Ok((term, rest)) => if rest.len() == 0 {
            Ok((term, rest))
        } else {
            failed(rest, ErrorKind::Eof)
        },
        Err(e) => Err(e),
    }
}

/// A rule that matches takes at least one character and leaves a suffix of
/// its input, and every projection in its term names a column; one that
/// fails reports a suffix of its input.
pub proof fn lemma_rule_suffix(rule: Rule, s: Seq<char>)
    ensures
        match spec_rule(rule, s) {
            Ok((term, rest)) => is_suffix(rest, s) && rest.len() < s.len() && has_columns(term),
            Err(e) => is_suffix(e.input, s),
        },
    decreases s.len(), rank(rule), 1int,
{
    lemma_leaf_suffix(s);
    match rule {
        Rule::Let => {
            lemma_rule_suffix(Rule::Select, s);
            if let Ok((name, after)) = spec_var(s) {
                lemma_tail_suffix(Rule::Let, after);
                if let Tail::Parsed(bound, behind) = spec_tail(Rule::Let, after) {
                    lemma_junk(behind);
                    lemma_junk(spec_junk(behind));
                    let at_body = spec_junk(spec_junk(behind));
                    lemma_rule_suffix(Rule::Let, at_body);
                    if let Ok((body, rest)) = spec_rule(Rule::Let, at_body) {
                        lemma_suffix_chain(rest, at_body, spec_junk(behind));
                        lemma_suffix_chain(rest, spec_junk(behind), behind);
                        lemma_suffix_chain(rest, behind, after);
                        lemma_suffix_chain(rest, after, s);
                    }
                }
            }
        },
        Rule::Select => {
            lemma_rule_suffix(Rule::Where, s);
            lemma_vars(s);
            if let Ok((columns, after)) = spec_vars(s) {
                lemma_tail_suffix(Rule::Select, after);
                match spec_tail(Rule::Select, after) {
                    Tail::Parsed(_, rest) => lemma_suffix_chain(rest, after, s),
                    Tail::Failed(e) => lemma_suffix_chain(e.input, after, s),
                    Tail::Absent => {},
                }
            }
        },
        Rule::Cell => {
            lemma_rule_suffix(Rule::Equals, s);
            if let Ok((key, after)) = spec_var(s) {
                lemma_tail_suffix(Rule::Cell, after);
                match spec_tail(Rule::Cell, after) {
                    Tail::Parsed(_, rest) => lemma_suffix_chain(rest, after, s),
                    Tail::Failed(e) => lemma_suffix_chain(e.input, after, s),
                    Tail::Absent => {},
                }
            }
        },
        Rule::Not => {
            lemma_rule_suffix(Rule::Atom, s);
            if "!"@.is_prefix_of(s) {
                reveal_strlit("!");
                let behind = s.skip(1);
                lemma_junk(behind);
                lemma_rule_suffix(Rule::Not, spec_junk(behind));
                if let Ok((_, rest)) = spec_rule(Rule::Not, spec_junk(behind)) {
                    lemma_suffix_chain(rest, spec_junk(behind), behind);
                    lemma_skip_suffix(s, 1);
                    lemma_suffix_chain(rest, behind, s);
                }
            }
        },
        Rule::Atom => {
            lemma_parens_suffix(s);
        },
        _ => {
            lemma_rule_suffix(tighter(rule), s);
            if let Ok((left, after)) = spec_rule(tighter(rule), s) {
                lemma_tail_suffix(rule, after);
                match spec_tail(rule, after) {
                    Tail::Parsed(_, rest) => lemma_suffix_chain(rest, after, s),
                    Tail::Failed(e) => lemma_suffix_chain(e.input, after, s),
                    Tail::Absent => {},
                }
            }
        },
    }
}

/// What is found behind a left operand lies behind it.
pub proof fn lemma_tail_suffix(rule: Rule, after_left: Seq<char>)
    ensures
        match spec_tail(rule, after_left) {
            Tail::Parsed(right, rest) => is_suffix(rest, after_left) && rest.len()
                < after_left.len() && has_columns(right),
            Tail::Failed(e) => is_suffix(e.input, after_left),
            Tail::Absent => true,
        },
    decreases after_left.len(), rank(rule), 0int,
{
    let at_operator = spec_junk(after_left);
    lemma_junk(after_left);
    if token(rule).is_prefix_of(at_operator) {
        lemma_token(rule);
        let behind = at_operator.skip(token(rule).len() as int);
        lemma_junk(behind);
        lemma_skip_suffix(at_operator, token(rule).len() as int);
        lemma_rule_suffix(rule, spec_junk(behind));
        match spec_rule(rule, spec_junk(behind)) {
            Ok((_, rest)) => {
                lemma_suffix_chain(rest, spec_junk(behind), behind);
                lemma_suffix_chain(rest, behind, at_operator);
                lemma_suffix_chain(rest, at_operator, after_left);
            },
            Err(e) => {
                lemma_suffix_chain(e.input, spec_junk(behind), behind);
                lemma_suffix_chain(e.input, behind, at_operator);
                lemma_suffix_chain(e.input, at_operator, after_left);
            },
        }
    }
}

/// The same, for a bracketed expression.
pub proof fn lemma_parens_suffix(s: Seq<char>)
    ensures
        match spec_parens(s) {
            Ok((term, rest)) => is_suffix(rest, s) && rest.len() < s.len() && has_columns(term),
            Err(e) => is_suffix(e.input, s),
        },
    decreases s.len(), 0nat, 0int,
{
    assert(s.skip(0) =~= s);
    if "("@.is_prefix_of(s) {
        reveal_strlit("(");
        reveal_strlit(")");
        let inside = s.skip(1);
        lemma_skip_suffix(s, 1);
        lemma_program_suffix(inside);
        match spec_program(inside) {
            Ok((_, at_close)) => {
                lemma_suffix_chain(at_close, inside, s);
                if ")"@.is_prefix_of(at_close) {
                    lemma_skip_suffix(at_close, 1);
                    lemma_suffix_chain(at_close.skip(1), at_close, s);
                }
            },
            Err(e) => {
                lemma_suffix_chain(e.input, inside, s);
            },
        }
    }
}

/// The same, for a program.
pub proof fn lemma_program_suffix(s: Seq<char>)
    ensures
        match spec_program(s) {
            Ok((term, rest)) => is_suffix(rest, s) && rest.len() < s.len() && has_columns(term),
            Err(e) => is_suffix(e.input, s),
        },
    decreases s.len(), 14nat, 0int,
{
    lemma_junk(s);
    lemma_rule_suffix(Rule::Let, spec_junk(s));
    match spec_rule(Rule::Let, spec_junk(s)) {
        Ok((_, rest)) => {
            lemma_junk(rest);
            lemma_suffix_chain(rest, spec_junk(s), s);
            lemma_suffix_chain(spec_junk(rest), rest, s);
        },
        Err(e) => {
            lemma_suffix_chain(e.input, spec_junk(s), s);
        },
    }
}

} // verus!
