//! Laws of the grammar: what holds of every input.

use crate::ast::{has_columns, Term};
use crate::error::Parsed;
use crate::grammar::{
    is_chain, join, lemma_junk, lemma_program_suffix, lemma_rule_suffix,
    lemma_tail_suffix, lemma_token, lemma_vars, rank, spec_exp, spec_parens, spec_program,
    spec_rule, spec_tail, spec_vars, tighter, token, Rule, Tail,
};
use crate::lexical::{
    lemma_leaf_suffix, spec_bool, spec_int, spec_junk, spec_junk_piece,
    spec_str, spec_var,
};
use crate::text::{
    find, is_space, lemma_find_behind, lemma_run, lemma_run_behind, lemma_run_is, member, run, Class,
};
use vstd::prelude::*;

verus! {

/// `s` begins with a chain of `rule`: operands of the next-tighter rule
/// with the rule's operator between each two of them, and no operator
/// behind the last, where `rest` begins.
pub open spec fn is_chain_of(
    rule: Rule,
    s: Seq<char>,
    operands: Seq<Term>,
    rest: Seq<char>,
) -> bool
    decreases operands.len(),
{
    operands.len() >= 1 && match spec_rule(tighter(rule), s) {
        Ok((first, after)) => {
            let at_operator = spec_junk(after);
            first == operands[0] && if operands.len() == 1 {
                !token(rule).is_prefix_of(at_operator) && rest == after
            } else {
                token(rule).is_prefix_of(at_operator) && is_chain_of(
                    rule,
                    spec_junk(at_operator.skip(token(rule).len() as int)),
                    operands.skip(1),
                    rest,
                )
            }
        },
        Err(_) => false,
    }
}

/// The operands of a chain, grouped from the right.
pub open spec fn nest(rule: Rule, operands: Seq<Term>) -> Term
    decreases operands.len(),
{
    if operands.len() <= 1 {
        operands[0]
    } else {
        join(rule, operands[0], nest(rule, operands.skip(1)))
    }
}

/// A chain of one operator groups to the right: `a OP b OP c` is
/// `OP(a, OP(b, c))`, and so on for any number of operands.
pub proof fn law_chain_groups_right(
    rule: Rule,
    s: Seq<char>,
    operands: Seq<Term>,
    rest: Seq<char>,
)
    requires
        is_chain(rule),
        is_chain_of(rule, s, operands, rest),
    ensures
        spec_rule(rule, s) == Ok::<_, crate::error::Failure>((nest(rule, operands), rest)),
        operands.len() == 3 ==> nest(rule, operands) == join(
            rule,
            operands[0],
            join(rule, operands[1], operands[2]),
        ),
    decreases operands.len(),
{
    lemma_rule_suffix(tighter(rule), s);
    let after = spec_rule(tighter(rule), s)->Ok_0.1;
    let at_operator = spec_junk(after);
    if operands.len() > 1 {
        let behind = spec_junk(at_operator.skip(token(rule).len() as int));
        law_chain_groups_right(rule, behind, operands.skip(1), rest);
        assert(spec_tail(rule, after) == Tail::Parsed(nest(rule, operands.skip(1)), rest));
    } else {
        assert(spec_tail(rule, after) == Tail::Absent);
    }
    if operands.len() == 3 {
        let two = operands.skip(1);
        assert(two.skip(1)[0] == operands[2]);
        assert(two[0] == operands[1]);
        assert(nest(rule, two.skip(1)) == operands[2]);
        assert(nest(rule, two) == join(rule, operands[1], operands[2]));
    }
}

/// `s` begins with a nest of cells: the keys `keys`, each with `:` behind
/// it, and then an operand `value` of the next-tighter rule with no cell
/// of its own in front of it, behind which `rest` begins.
pub open spec fn is_cells_of(
    s: Seq<char>,
    keys: Seq<Seq<char>>,
    value: Term,
    rest: Seq<char>,
) -> bool
    decreases keys.len(),
{
    if keys.len() == 0 {
        spec_rule(Rule::Equals, s) == Ok::<_, crate::error::Failure>((value, rest)) && match spec_var(
            s,
        ) {
            Ok((_, after)) => !token(Rule::Cell).is_prefix_of(spec_junk(after)),
            Err(_) => true,
        }
    } else {
        match spec_var(s) {
            Ok((key, after)) => {
                let at_colon = spec_junk(after);
                key == keys[0] && token(Rule::Cell).is_prefix_of(at_colon) && is_cells_of(
                    spec_junk(at_colon.skip(token(Rule::Cell).len() as int)),
                    keys.skip(1),
                    value,
                    rest,
                )
            },
            Err(_) => false,
        }
    }
}

/// The cells of a nest, grouped from the right.
pub open spec fn nest_cells(keys: Seq<Seq<char>>, value: Term) -> Term
    decreases keys.len(),
{
    if keys.len() == 0 {
        value
    } else {
        Term::Cell(keys[0], Box::new(nest_cells(keys.skip(1), value)))
    }
}

/// Cells group to the right as chains do: `a: b: c` is
/// `Cell(a, Cell(b, c))`, and so on for any number of keys.
pub proof fn law_cells_group_right(
    s: Seq<char>,
    keys: Seq<Seq<char>>,
    value: Term,
    rest: Seq<char>,
)
    requires
        is_cells_of(s, keys, value, rest),
    ensures
        spec_rule(Rule::Cell, s) == Ok::<_, crate::error::Failure>((nest_cells(keys, value), rest)),
        keys.len() == 2 ==> nest_cells(keys, value) == Term::Cell(
            keys[0],
            Box::new(Term::Cell(keys[1], Box::new(value))),
        ),
    decreases keys.len(),
{
    if keys.len() > 0 {
        let after = spec_var(s)->Ok_0.1;
        let at_colon = spec_junk(after);
        let behind = spec_junk(at_colon.skip(token(Rule::Cell).len() as int));
        law_cells_group_right(behind, keys.skip(1), value, rest);
        assert(spec_tail(Rule::Cell, after) == Tail::Parsed(
            nest_cells(keys.skip(1), value),
            rest,
        ));
    } else {
        if let Ok((_, after)) = spec_var(s) {
            assert(spec_tail(Rule::Cell, after) == Tail::Absent);
        }
    }
    if keys.len() == 2 {
        let one = keys.skip(1);
        assert(one[0] == keys[1]);
        assert(one.skip(1).len() == 0);
        assert(nest_cells(one.skip(1), value) == value);
        assert(nest_cells(one, value) == Term::Cell(keys[1], Box::new(value)));
    }
}

/// `s` begins with a list of the identifiers `columns`, with a comma
/// between each two of them, and no comma behind the last, where `rest`
/// begins.
pub open spec fn is_list_of(s: Seq<char>, columns: Seq<Seq<char>>, rest: Seq<char>) -> bool
    decreases columns.len(),
{
    columns.len() >= 1 && match spec_var(s) {
        Ok((first, after)) => {
            let at_comma = spec_junk(after);
            first == columns[0] && if columns.len() == 1 {
                !","@.is_prefix_of(at_comma) && rest == after
            } else {
                ","@.is_prefix_of(at_comma) && is_list_of(
                    spec_junk(at_comma.skip(","@.len() as int)),
                    columns.skip(1),
                    rest,
                )
            }
        },
        Err(_) => false,
    }
}

/// A projection keeps its columns: as many as were written, in the order
/// in which they were written.
pub proof fn law_select_keeps_columns(
    s: Seq<char>,
    columns: Seq<Seq<char>>,
    after: Seq<char>,
    source: Term,
    rest: Seq<char>,
)
    requires
        is_list_of(s, columns, after),
        spec_tail(Rule::Select, after) == Tail::Parsed(source, rest),
    ensures
        spec_vars(s) == Ok::<_, crate::error::Failure>((columns, after)),
        spec_rule(Rule::Select, s) == Ok::<_, crate::error::Failure>(
            (Term::Select(columns, Box::new(source)), rest),
        ),
    decreases columns.len(),
{
    lemma_list(s, columns, after);
}

/// A list of identifiers is read as a column list, name by name.
pub proof fn lemma_list(s: Seq<char>, columns: Seq<Seq<char>>, rest: Seq<char>)
    requires
        is_list_of(s, columns, rest),
    ensures
        spec_vars(s) == Ok::<_, crate::error::Failure>((columns, rest)),
    decreases columns.len(),
{
    if columns.len() > 1 {
        let after = spec_var(s)->Ok_0.1;
        let at_comma = spec_junk(after);
        let behind = spec_junk(at_comma.skip(","@.len() as int));
        lemma_list(behind, columns.skip(1), rest);
        assert(seq![columns[0]] + columns.skip(1) =~= columns);
    } else {
        assert(seq![columns[0]] =~= columns);
    }
}

/// No incidental text stands at the front of `s`.
pub open spec fn is_settled(s: Seq<char>) -> bool {
    spec_junk(s) == s
}

/// The fixed spelling `t` is found at the front of both inputs or of
/// neither, and what follows it in the one is related to what follows it in
/// the other.
pub open spec fn same_tag(
    r: spec_fn(Seq<char>, Seq<char>) -> bool,
    t: Seq<char>,
    x: Seq<char>,
    y: Seq<char>,
) -> bool {
    t.is_prefix_of(x) == t.is_prefix_of(y) && (t.is_prefix_of(x) ==> r(
        x.skip(t.len() as int),
        y.skip(t.len() as int),
    ))
}

/// Two results agree: the same value with related remainders, or two
/// failures.
pub open spec fn same_result<T>(
    r: spec_fn(Seq<char>, Seq<char>) -> bool,
    a: Parsed<T>,
    b: Parsed<T>,
) -> bool {
    match (a, b) {
        (Ok((va, ra)), Ok((vb, rb))) => va == vb && r(ra, rb),
        (Err(_), Err(_)) => true,
        _ => false,
    }
}

/// The same, for what is found behind a left operand.
pub open spec fn same_tail(r: spec_fn(Seq<char>, Seq<char>) -> bool, a: Tail, b: Tail) -> bool {
    match (a, b) {
        (Tail::Absent, Tail::Absent) => true,
        (Tail::Failed(_), Tail::Failed(_)) => true,
        (Tail::Parsed(ta, ra), Tail::Parsed(tb, rb)) => ta == tb && r(ra, rb),
        _ => false,
    }
}

/// Every lexical step reads the same at the front of `x` and of `y`.
pub open spec fn same_steps(
    r: spec_fn(Seq<char>, Seq<char>) -> bool,
    x: Seq<char>,
    y: Seq<char>,
) -> bool {
    &&& forall|rule: Rule| #[trigger] same_tag(r, token(rule), x, y)
    &&& same_tag(r, ")"@, x, y)
    &&& same_tag(r, ","@, x, y)
    &&& same_result(r, spec_bool(x), spec_bool(y))
    &&& same_result(r, spec_int(x), spec_int(y))
    &&& same_result(r, spec_str(x), spec_str(y))
    &&& same_result(r, spec_var(x), spec_var(y))
    &&& (x.len() == 0) == (y.len() == 0)
}

/// `r` relates inputs that no lexical step can tell apart: skipping
/// incidental text leads from related inputs to related inputs, and so
/// does every step that is taken where no incidental text stands.
pub open spec fn is_lexical_match(r: spec_fn(Seq<char>, Seq<char>) -> bool) -> bool {
    forall|x: Seq<char>, y: Seq<char>| #[trigger] keeps_step(r, x, y)
}

/// Where `r` relates `x` and `y`, it relates what a lexical step leaves of
/// them.
pub open spec fn keeps_step(
    r: spec_fn(Seq<char>, Seq<char>) -> bool,
    x: Seq<char>,
    y: Seq<char>,
) -> bool {
    r(x, y) ==> r(spec_junk(x), spec_junk(y)) && (is_settled(x) && is_settled(y) ==> same_steps(
        r,
        x,
        y,
    ))
}

/// What a lexical match says of one pair of inputs.
pub proof fn lemma_step(r: spec_fn(Seq<char>, Seq<char>) -> bool, x: Seq<char>, y: Seq<char>)
    requires
        is_lexical_match(r),
        r(x, y),
    ensures
        r(spec_junk(x), spec_junk(y)),
        is_settled(spec_junk(x)),
        is_settled(spec_junk(y)),
        is_settled(x) && is_settled(y) ==> same_steps(r, x, y),
        same_steps(r, spec_junk(x), spec_junk(y)),
{
    assert(keeps_step(r, x, y));
    assert(keeps_step(r, spec_junk(x), spec_junk(y)));
    lemma_junk(x);
    lemma_junk(y);
}

/// The grammar reads its input through the lexical rules alone. Inputs
/// that those rules cannot tell apart, such as a text and the same text
/// with more incidental text where some may stand, are given the same
/// tree by every rule.
///
/// The law is stated over a relation because what a token is depends on
/// the rule that reads it. In `a -1` the `-` is an operator and a comment
/// may follow it, unless the comment begins with `-` itself and so
/// swallows it; in `x = -1 y` the same two characters begin a number and
/// nothing may stand between them. For texts given as pieces with
/// incidental text between them, the module `layout` supplies the
/// relation.
pub proof fn law_same_steps_same_tree(
    r: spec_fn(Seq<char>, Seq<char>) -> bool,
    rule: Rule,
    x: Seq<char>,
    y: Seq<char>,
)
    requires
        is_lexical_match(r),
        r(x, y),
        is_settled(x),
        is_settled(y),
    ensures
        same_result(r, spec_rule(rule, x), spec_rule(rule, y)),
    decreases x.len(), rank(rule), 2int,
{
    match rule {
        Rule::Let => lemma_same_let(r, x, y),
        Rule::Select => lemma_same_select(r, x, y),
        Rule::Cell => lemma_same_cell(r, x, y),
        Rule::Not => lemma_same_not(r, x, y),
        Rule::Atom => lemma_same_parens(r, x, y),
        _ => lemma_same_chain(r, rule, x, y),
    }
}

/// The same, for a binding.
pub proof fn lemma_same_let(r: spec_fn(Seq<char>, Seq<char>) -> bool, x: Seq<char>, y: Seq<char>)
    requires
        is_lexical_match(r),
        r(x, y),
        is_settled(x),
        is_settled(y),
    ensures
        same_result(r, spec_rule(Rule::Let, x), spec_rule(Rule::Let, y)),
    decreases x.len(), 13nat, 1int,
{
    lemma_step(r, x, y);
    lemma_leaf_suffix(x);
    lemma_leaf_suffix(y);
    law_same_steps_same_tree(r, Rule::Select, x, y);
    if let Ok((_, after_x)) = spec_var(x) {
        let after_y = spec_var(y)->Ok_0.1;
        lemma_same_tail(r, Rule::Let, after_x, after_y);
        lemma_tail_suffix(Rule::Let, after_x);
        lemma_tail_suffix(Rule::Let, after_y);
        if let Tail::Parsed(_, behind_x) = spec_tail(Rule::Let, after_x) {
            let behind_y = spec_tail(Rule::Let, after_y)->Parsed_1;
            lemma_junk(behind_x);
            lemma_junk(spec_junk(behind_x));
            lemma_step(r, behind_x, behind_y);
            lemma_step(r, spec_junk(behind_x), spec_junk(behind_y));
            law_same_steps_same_tree(
                r,
                Rule::Let,
                spec_junk(spec_junk(behind_x)),
                spec_junk(spec_junk(behind_y)),
            );
        }
    }
}

/// The same, for a projection.
pub proof fn lemma_same_select(r: spec_fn(Seq<char>, Seq<char>) -> bool, x: Seq<char>, y: Seq<char>)
    requires
        is_lexical_match(r),
        r(x, y),
        is_settled(x),
        is_settled(y),
    ensures
        same_result(r, spec_rule(Rule::Select, x), spec_rule(Rule::Select, y)),
    decreases x.len(), 12nat, 1int,
{
    law_same_steps_same_tree(r, Rule::Where, x, y);
    lemma_same_vars(r, x, y);
    lemma_vars(x);
    if let Ok((_, after_x)) = spec_vars(x) {
        let after_y = spec_vars(y)->Ok_0.1;
        lemma_same_tail(r, Rule::Select, after_x, after_y);
    }
}

/// The same, for a cell.
pub proof fn lemma_same_cell(r: spec_fn(Seq<char>, Seq<char>) -> bool, x: Seq<char>, y: Seq<char>)
    requires
        is_lexical_match(r),
        r(x, y),
        is_settled(x),
        is_settled(y),
    ensures
        same_result(r, spec_rule(Rule::Cell, x), spec_rule(Rule::Cell, y)),
    decreases x.len(), 5nat, 1int,
{
    lemma_step(r, x, y);
    lemma_leaf_suffix(x);
    law_same_steps_same_tree(r, Rule::Equals, x, y);
    if let Ok((_, after_x)) = spec_var(x) {
        let after_y = spec_var(y)->Ok_0.1;
        lemma_same_tail(r, Rule::Cell, after_x, after_y);
    }
}

/// The same, for a negation.
pub proof fn lemma_same_not(r: spec_fn(Seq<char>, Seq<char>) -> bool, x: Seq<char>, y: Seq<char>)
    requires
        is_lexical_match(r),
        r(x, y),
        is_settled(x),
        is_settled(y),
    ensures
        same_result(r, spec_rule(Rule::Not, x), spec_rule(Rule::Not, y)),
    decreases x.len(), 1nat, 1int,
{
    lemma_step(r, x, y);
    law_same_steps_same_tree(r, Rule::Atom, x, y);
    assert(same_tag(r, token(Rule::Not), x, y));
    if "!"@.is_prefix_of(x) {
        reveal_strlit("!");
        let behind_x = x.skip(1);
        let behind_y = y.skip(1);
        lemma_junk(behind_x);
        lemma_step(r, behind_x, behind_y);
        law_same_steps_same_tree(r, Rule::Not, spec_junk(behind_x), spec_junk(behind_y));
    }
}

/// The same, for a chain rule.
pub proof fn lemma_same_chain(
    r: spec_fn(Seq<char>, Seq<char>) -> bool,
    rule: Rule,
    x: Seq<char>,
    y: Seq<char>,
)
    requires
        is_lexical_match(r),
        r(x, y),
        is_settled(x),
        is_settled(y),
        is_chain(rule),
    ensures
        same_result(r, spec_rule(rule, x), spec_rule(rule, y)),
    decreases x.len(), rank(rule), 1int,
{
    law_same_steps_same_tree(r, tighter(rule), x, y);
    lemma_rule_suffix(tighter(rule), x);
    lemma_rule_suffix(tighter(rule), y);
    if let Ok((_, after_x)) = spec_rule(tighter(rule), x) {
        let after_y = spec_rule(tighter(rule), y)->Ok_0.1;
        lemma_same_tail(r, rule, after_x, after_y);
    }
}

/// The same, for what is found behind a left operand.
pub proof fn lemma_same_tail(
    r: spec_fn(Seq<char>, Seq<char>) -> bool,
    rule: Rule,
    x: Seq<char>,
    y: Seq<char>,
)
    requires
        is_lexical_match(r),
        r(x, y),
    ensures
        same_tail(r, spec_tail(rule, x), spec_tail(rule, y)),
    decreases x.len(), rank(rule), 0int,
{
    let at_x = spec_junk(x);
    let at_y = spec_junk(y);
    lemma_junk(x);
    lemma_step(r, x, y);
    assert(same_tag(r, token(rule), at_x, at_y));
    if token(rule).is_prefix_of(at_x) {
        lemma_token(rule);
        let behind_x = at_x.skip(token(rule).len() as int);
        let behind_y = at_y.skip(token(rule).len() as int);
        lemma_junk(behind_x);
        lemma_step(r, behind_x, behind_y);
        law_same_steps_same_tree(r, rule, spec_junk(behind_x), spec_junk(behind_y));
    }
}

/// The same, for a column list.
pub proof fn lemma_same_vars(r: spec_fn(Seq<char>, Seq<char>) -> bool, x: Seq<char>, y: Seq<char>)
    requires
        is_lexical_match(r),
        r(x, y),
        is_settled(x),
        is_settled(y),
    ensures
        same_result(r, spec_vars(x), spec_vars(y)),
    decreases x.len(),
{
    lemma_step(r, x, y);
    lemma_leaf_suffix(x);
    if let Ok((_, after_x)) = spec_var(x) {
        let after_y = spec_var(y)->Ok_0.1;
        let at_x = spec_junk(after_x);
        let at_y = spec_junk(after_y);
        lemma_junk(after_x);
        lemma_step(r, after_x, after_y);
        if ","@.is_prefix_of(at_x) {
            reveal_strlit(",");
            let behind_x = at_x.skip(1);
            let behind_y = at_y.skip(1);
            lemma_junk(behind_x);
            lemma_step(r, behind_x, behind_y);
            lemma_same_vars(r, spec_junk(behind_x), spec_junk(behind_y));
        }
    }
}

/// The same, for a bracketed expression and for the tightest rule.
pub proof fn lemma_same_parens(
    r: spec_fn(Seq<char>, Seq<char>) -> bool,
    x: Seq<char>,
    y: Seq<char>,
)
    requires
        is_lexical_match(r),
        r(x, y),
        is_settled(x),
        is_settled(y),
    ensures
        same_result(r, spec_parens(x), spec_parens(y)),
        same_result(r, spec_rule(Rule::Atom, x), spec_rule(Rule::Atom, y)),
    decreases x.len(), 0nat, 1int,
{
    lemma_step(r, x, y);
    assert(same_tag(r, token(Rule::Atom), x, y));
    if "("@.is_prefix_of(x) {
        reveal_strlit("(");
        let inside_x = x.skip(1);
        let inside_y = y.skip(1);
        law_same_program(r, inside_x, inside_y);
        if let Ok((_, close_x)) = spec_program(inside_x) {
            let close_y = spec_program(inside_y)->Ok_0.1;
            lemma_program_settles(inside_x);
            lemma_program_settles(inside_y);
            lemma_step(r, close_x, close_y);
        }
    }
}

/// A program leaves no incidental text at the front of what follows it.
pub proof fn lemma_program_settles(s: Seq<char>)
    ensures
        match spec_program(s) {
            Ok((_, rest)) => is_settled(rest),
            Err(_) => true,
        },
{
    if let Ok((_, rest)) = spec_rule(Rule::Let, spec_junk(s)) {
        lemma_junk(rest);
    }
}

/// The same, for a program: incidental text at the front is skipped first,
/// so the two inputs need not be settled.
pub proof fn law_same_program(r: spec_fn(Seq<char>, Seq<char>) -> bool, x: Seq<char>, y: Seq<char>)
    requires
        is_lexical_match(r),
        r(x, y),
    ensures
        same_result(r, spec_program(x), spec_program(y)),
    decreases x.len(), 14nat, 0int,
{
    lemma_junk(x);
    lemma_step(r, x, y);
    law_same_steps_same_tree(r, Rule::Let, spec_junk(x), spec_junk(y));
    if let Ok((_, rest_x)) = spec_rule(Rule::Let, spec_junk(x)) {
        let rest_y = spec_rule(Rule::Let, spec_junk(y))->Ok_0.1;
        lemma_step(r, rest_x, rest_y);
    }
}

/// The same, for a complete program: both inputs are given the same tree,
/// or both are refused.
pub proof fn law_same_exp(r: spec_fn(Seq<char>, Seq<char>) -> bool, x: Seq<char>, y: Seq<char>)
    requires
        is_lexical_match(r),
        r(x, y),
    ensures
        match (spec_exp(x), spec_exp(y)) {
            (Ok((tx, _)), Ok((ty, _))) => tx == ty,
            (Err(_), Err(_)) => true,
            _ => false,
        },
{
    law_same_program(r, x, y);
    lemma_program_settles(x);
    lemma_program_settles(y);
    if let Ok((_, rest_x)) = spec_program(x) {
        let rest_y = spec_program(y)->Ok_0.1;
        lemma_step(r, rest_x, rest_y);
    }
}

/// `j` is incidental text that ends where it ends: in front of whatever
/// text, it is skipped whole and nothing more with it than without it.
pub open spec fn is_absorbed(j: Seq<char>) -> bool {
    forall|x: Seq<char>| #[trigger] spec_junk(j + x) == spec_junk(x)
}

/// Whitespace is absorbed.
pub proof fn law_whitespace_absorbed(j: Seq<char>)
    requires
        forall|i: int| 0 <= i < j.len() ==> is_space(#[trigger] j[i]),
    ensures
        is_absorbed(j),
{
    assert forall|x: Seq<char>| #[trigger] spec_junk(j + x) == spec_junk(x) by {
        lemma_run_behind(j, x, Class::Space);
        lemma_run(x, Class::Space);
        let m = run(x, Class::Space) as int;
        if j.len() == 0 {
            assert(j + x =~= x);
        } else {
            assert((j + x).skip(j.len() + m) =~= x.skip(m));
            if m == 0 {
                assert(x.skip(0) =~= x);
            }
        }
    }
}

/// A block comment is absorbed, where its body does not close it before
/// its end.
pub proof fn law_block_comment_absorbed(body: Seq<char>)
    requires
        find(body + "*/"@, "*/"@) == Some(body.len()),
    ensures
        is_absorbed("/*"@ + body + "*/"@),
{
    reveal_strlit("/*");
    reveal_strlit("*/");
    reveal_strlit("--");
    let j = "/*"@ + body + "*/"@;
    assert forall|x: Seq<char>| #[trigger] spec_junk(j + x) == spec_junk(x) by {
        let s = j + x;
        assert(s[0] == '/');
        assert(s[1] == '*');
        assert("/*"@ =~= s.subrange(0, 2));
        lemma_find_behind(body + "*/"@, "*/"@, x);
        assert(s.skip(2) =~= (body + "*/"@) + x);
        assert(s.skip(2).skip(body.len() as int + 2) =~= x);
    }
}

/// A line comment with the line feed that ends it is absorbed, whether or
/// not anything stands between `--` and the line feed.
pub proof fn law_line_comment_absorbed(body: Seq<char>)
    requires
        !body.contains('\n'),
    ensures
        is_absorbed("--"@ + body + "\n"@),
{
    reveal_strlit("--");
    reveal_strlit("\n");
    let j = "--"@ + body + "\n"@;
    let stop = Class::NoneOf("\n"@);
    law_whitespace_absorbed("\n"@);
    assert forall|x: Seq<char>| #[trigger] spec_junk(j + x) == spec_junk(x) by {
        let s = j + x;
        assert(s[0] == '-');
        assert("--"@ =~= s.subrange(0, 2));
        let behind = s.skip(2);
        assert(behind =~= body + ("\n"@ + x));
        assert forall|i: int| 0 <= i < body.len() implies member(stop, #[trigger] behind[i]) by {
            assert(behind[i] == body[i]);
            assert(body.contains(body[i]));
            assert forall|k: int| 0 <= k < "\n"@.len() implies "\n"@[k] != body[i] by {}
        }
        assert(behind[body.len() as int] == "\n"@[0]);
        assert("\n"@.contains('\n'));
        lemma_run_is(behind, stop, body.len() as int);
        assert(behind.skip(body.len() as int) =~= "\n"@ + x);
        assert(!is_space(s[0]));
        assert(run(s, Class::Space) == 0);
        assert(spec_junk_piece(s) == Some("\n"@ + x));
        assert(spec_junk(s) == spec_junk("\n"@ + x));
        assert(spec_junk("\n"@ + x) == spec_junk(x));
    }
}

/// Absorbed texts, one behind the other, are absorbed: so is any mixture
/// of whitespace and comments.
pub proof fn law_absorbed_twice(a: Seq<char>, b: Seq<char>)
    requires
        is_absorbed(a),
        is_absorbed(b),
    ensures
        is_absorbed(a + b),
{
    assert forall|x: Seq<char>| #[trigger] spec_junk((a + b) + x) == spec_junk(x) by {
        assert((a + b) + x =~= a + (b + x));
        assert(spec_junk(a + (b + x)) == spec_junk(b + x));
    }
}

/// Incidental text in front of a program changes nothing.
pub proof fn law_leading_junk(j: Seq<char>, s: Seq<char>)
    requires
        is_absorbed(j),
    ensures
        spec_program(j + s) == spec_program(s),
        spec_exp(j + s) == spec_exp(s),
{
    assert(spec_junk(j + s) == spec_junk(s));
}

/// A string literal ends at the first quote behind the one that opens it,
/// and what follows that quote is left for the next rule.
pub proof fn law_str_ends_at_quote(body: Seq<char>, rest: Seq<char>)
    requires
        !body.contains('\''),
    ensures
        spec_str("'"@ + body + "'"@ + rest) == Ok::<_, crate::error::Failure>((body, rest)),
{
    reveal_strlit("'");
    let s = "'"@ + body + "'"@ + rest;
    let stop = Class::NoneOf("'"@);
    assert("'"@ =~= s.subrange(0, 1));
    let inner = s.skip(1);
    assert(inner =~= body + ("'"@ + rest));
    assert forall|i: int| 0 <= i < body.len() implies member(stop, #[trigger] inner[i]) by {
        assert(inner[i] == body[i]);
        assert(body.contains(body[i]));
        assert forall|k: int| 0 <= k < "'"@.len() implies "'"@[k] != body[i] by {}
    }
    assert(inner[body.len() as int] == "'"@[0]);
    assert("'"@.contains('\''));
    lemma_run_is(inner, stop, body.len() as int);
    let close = inner.skip(body.len() as int);
    assert(close =~= "'"@ + rest);
    assert("'"@ =~= close.subrange(0, 1));
    assert(inner.take(body.len() as int) =~= body);
    assert(close.skip(1) =~= rest);
}

/// An integer literal is its digits, with the sign in front of them, and
/// what follows the digits is left for the next rule.
pub proof fn law_int_reads_its_digits(negative: bool, digits: Seq<char>, rest: Seq<char>)
    requires
        digits.len() >= 1,
        forall|i: int| 0 <= i < digits.len() ==> crate::text::is_digit(#[trigger] digits[i]),
        rest.len() == 0 || !crate::text::is_digit(rest[0]),
    ensures
        spec_int(
            if negative {
                "-"@ + digits + rest
            } else {
                digits + rest
            },
        ) == match crate::lexical::spec_to_int(negative, digits) {
            Some(value) => Ok::<_, crate::error::Failure>((value, rest)),
            None => crate::error::failed(
                if negative {
                    "-"@ + digits + rest
                } else {
                    digits + rest
                },
                crate::error::ErrorKind::MapRes,
            ),
        },
{
    reveal_strlit("-");
    let unsigned = digits + rest;
    assert forall|i: int| 0 <= i < digits.len() implies member(
        Class::Digit,
        #[trigger] unsigned[i],
    ) by {
        assert(unsigned[i] == digits[i]);
    }
    if rest.len() > 0 {
        assert(unsigned[digits.len() as int] == rest[0]);
    }
    lemma_run_is(unsigned, Class::Digit, digits.len() as int);
    assert(unsigned.take(digits.len() as int) =~= digits);
    assert(unsigned.skip(digits.len() as int) =~= rest);
    if negative {
        let s = "-"@ + digits + rest;
        assert("-"@ =~= s.subrange(0, 1));
        assert(s.skip(1) =~= unsigned);
    } else {
        if "-"@.is_prefix_of(unsigned) {
            assert("-"@[0] == unsigned.subrange(0, 1)[0]);
            assert(unsigned[0] == digits[0]);
        }
    }
}

/// No expression begins with `/`. So a block comment that is never
/// closed, which is not skipped as incidental text, is refused by every
/// rule that meets it.
pub proof fn law_slash_refused(rule: Rule, s: Seq<char>)
    requires
        s.len() > 0,
        s[0] == '/',
    ensures
        spec_rule(rule, s) is Err,
    decreases rank(rule),
{
    reveal_strlit("true");
    reveal_strlit("false");
    reveal_strlit("-");
    reveal_strlit("'");
    reveal_strlit("(");
    reveal_strlit("!");
    assert(!"true"@.is_prefix_of(s)) by {
        if "true"@.is_prefix_of(s) {
            assert("true"@[0] == s.subrange(0, 4)[0]);
        }
    }
    assert(!"false"@.is_prefix_of(s)) by {
        if "false"@.is_prefix_of(s) {
            assert("false"@[0] == s.subrange(0, 5)[0]);
        }
    }
    assert(!"-"@.is_prefix_of(s)) by {
        if "-"@.is_prefix_of(s) {
            assert("-"@[0] == s.subrange(0, 1)[0]);
        }
    }
    assert(!"'"@.is_prefix_of(s)) by {
        if "'"@.is_prefix_of(s) {
            assert("'"@[0] == s.subrange(0, 1)[0]);
        }
    }
    assert(!"("@.is_prefix_of(s)) by {
        if "("@.is_prefix_of(s) {
            assert("("@[0] == s.subrange(0, 1)[0]);
        }
    }
    assert(!"!"@.is_prefix_of(s)) by {
        if "!"@.is_prefix_of(s) {
            assert("!"@[0] == s.subrange(0, 1)[0]);
        }
    }
    assert(run(s, Class::Digit) == 0);
    assert(spec_var(s) is Err);
    assert(spec_vars(s) is Err);
    assert(spec_bool(s) is Err);
    assert(spec_int(s) is Err);
    assert(spec_str(s) is Err);
    assert(spec_parens(s) is Err);
    if rule != Rule::Atom {
        law_slash_refused(tighter(rule), s);
    }
    match rule {
        Rule::Let => {},
        Rule::Select => {},
        Rule::Cell => {},
        Rule::Not => {},
        Rule::Atom => {},
        _ => {
            assert(spec_rule(rule, s) == spec_rule(tighter(rule), s));
        },
    }
}

/// A complete program that matches is matched whole, and every projection
/// in its tree names at least one column.
pub proof fn law_exp_whole(s: Seq<char>)
    ensures
        match spec_exp(s) {
            Ok((term, rest)) => rest.len() == 0 && has_columns(term),
            Err(e) => crate::text::is_suffix(e.input, s),
        },
{
    lemma_program_suffix(s);
}

} // verus!
