use query_parser::ast::{
    copy_exp, And, Bool, Cell, Difference, Equals, Exp, Int, Let, Not, Or, Product, Row, Select,
    Str, Table, Union, Var, Where,
};
use query_parser::error::{ErrorKind, ParseError};
use query_parser::grammar::Rule;
use query_parser::parse::{
    parse_cell, parse_difference, parse_equals, parse_exp, parse_let, parse_not, parse_parens,
    parse_product, parse_program, parse_row, parse_rule, parse_select, parse_select_vars,
    parse_union, parse_where,
};

fn var(name: &str) -> Exp {
    Exp::Var(Var(name.to_string()))
}

fn num(n: i64) -> Exp {
    Exp::Int(Int(n))
}

fn text(s: &str) -> Exp {
    Exp::Str(Str(s.to_string()))
}

fn cell(key: &str, value: Exp) -> Exp {
    Exp::Cell(Cell(Var(key.to_string()), Box::new(value)))
}

fn bx(e: Exp) -> Box<Exp> {
    Box::new(e)
}

fn whole(e: Exp) -> Result<(&'static str, Exp), ParseError<'static>> {
    Ok(("", e))
}

fn fails(input: &str, code: ErrorKind) -> Result<(&str, Exp), ParseError<'_>> {
    Err(ParseError { input, code })
}

fn staff_program() -> Exp {
    Exp::Let(Let(
        Var("Staff".to_string()),
        bx(Exp::Table(Table(
            bx(Exp::Row(Row(
                bx(cell("name", text("Alice"))),
                bx(cell("id", num(1))),
            ))),
            bx(Exp::Row(Row(
                bx(cell("name", text("Bob"))),
                bx(cell("id", num(2))),
            ))),
        ))),
        bx(Exp::Let(Let(
            Var("bob".to_string()),
            bx(Exp::Select(Select(
                vec![Var("name".to_string())],
                bx(Exp::Where(Where(
                    bx(var("Staff")),
                    bx(Exp::Equals(Equals(bx(var("name")), bx(text("Bob"))))),
                ))),
            ))),
            bx(var("bob")),
        ))),
    ))
}

#[test]
fn chains_group_to_the_right() {
    assert_eq!(
        parse_exp("a ? b ? c"),
        whole(Exp::Where(Where(bx(var("a")), bx(Exp::Where(Where(bx(var("b")), bx(var("c"))))))))
    );
    assert_eq!(
        parse_exp("a + b + c"),
        whole(Exp::Union(Union(bx(var("a")), bx(Exp::Union(Union(bx(var("b")), bx(var("c"))))))))
    );
    assert_eq!(
        parse_exp("a - b - c"),
        whole(Exp::Difference(Difference(
            bx(var("a")),
            bx(Exp::Difference(Difference(bx(var("b")), bx(var("c")))))
        )))
    );
    assert_eq!(
        parse_exp("a * b * c"),
        whole(Exp::Product(Product(
            bx(var("a")),
            bx(Exp::Product(Product(bx(var("b")), bx(var("c")))))
        )))
    );
    assert_eq!(
        parse_exp("1 ; 2 ; 3"),
        whole(Exp::Table(Table(bx(num(1)), bx(Exp::Table(Table(bx(num(2)), bx(num(3))))))))
    );
    assert_eq!(
        parse_exp("1 , 2 , 3"),
        whole(Exp::Row(Row(bx(num(1)), bx(Exp::Row(Row(bx(num(2)), bx(num(3))))))))
    );
    assert_eq!(
        parse_exp("1 == 2 == 3"),
        whole(Exp::Equals(Equals(bx(num(1)), bx(Exp::Equals(Equals(bx(num(2)), bx(num(3))))))))
    );
    assert_eq!(
        parse_exp("a | b | c"),
        whole(Exp::Or(Or(bx(var("a")), bx(Exp::Or(Or(bx(var("b")), bx(var("c"))))))))
    );
    assert_eq!(
        parse_exp("a & b & c"),
        whole(Exp::And(And(bx(var("a")), bx(Exp::And(And(bx(var("b")), bx(var("c"))))))))
    );
}

#[test]
fn longer_chain_groups_to_the_right() {
    assert_eq!(
        parse_difference("a-b-c-d-e"),
        whole(Exp::Difference(Difference(
            bx(var("a")),
            bx(Exp::Difference(Difference(
                bx(var("b")),
                bx(Exp::Difference(Difference(
                    bx(var("c")),
                    bx(Exp::Difference(Difference(bx(var("d")), bx(var("e")))))
                )))
            )))
        )))
    );
}

#[test]
fn cells_and_bindings_nest_to_the_right() {
    assert_eq!(parse_cell("a: b: 1"), whole(cell("a", cell("b", num(1)))));
    assert_eq!(parse_cell("a: b: c"), whole(cell("a", cell("b", var("c")))));
    assert_eq!(
        parse_cell("a:b:c:d == 1"),
        whole(cell(
            "a",
            cell("b", cell("c", Exp::Equals(Equals(bx(var("d")), bx(num(1))))))
        ))
    );
    assert_eq!(
        parse_select("a <- b <- c"),
        whole(Exp::Select(Select(
            vec![Var("a".to_string())],
            bx(Exp::Select(Select(vec![Var("b".to_string())], bx(var("c")))))
        )))
    );
    assert_eq!(
        parse_let("a = 1 b = 2 b"),
        whole(Exp::Let(Let(
            Var("a".to_string()),
            bx(num(1)),
            bx(Exp::Let(Let(Var("b".to_string()), bx(num(2)), bx(var("b")))))
        )))
    );
}

#[test]
fn tighter_rules_bind_first() {
    assert_eq!(
        parse_exp("a + b * c - d"),
        whole(Exp::Union(Union(
            bx(var("a")),
            bx(Exp::Difference(Difference(
                bx(Exp::Product(Product(bx(var("b")), bx(var("c"))))),
                bx(var("d"))
            )))
        )))
    );
    assert_eq!(
        parse_exp("(a + b) * c"),
        whole(Exp::Product(Product(
            bx(Exp::Union(Union(bx(var("a")), bx(var("b"))))),
            bx(var("c"))
        )))
    );
}

#[test]
fn equals_behind_a_name_is_no_binding() {
    assert_eq!(parse_exp("a == b"), whole(Exp::Equals(Equals(bx(var("a")), bx(var("b"))))));
    assert_eq!(
        parse_exp("t = a == b t"),
        whole(Exp::Let(Let(
            Var("t".to_string()),
            bx(Exp::Equals(Equals(bx(var("a")), bx(var("b"))))),
            bx(var("t"))
        )))
    );
}

#[test]
fn select_keeps_its_columns_in_order() {
    let names = ["q", "w", "e", "r", "t", "y"];
    for n in 1..=names.len() {
        let source = format!("{} <- s", names[..n].join(" , "));
        let columns: Vec<Var> = names[..n].iter().map(|c| Var(c.to_string())).collect();
        assert_eq!(
            parse_exp(&source),
            Ok(("", Exp::Select(Select(columns, bx(var("s"))))))
        );
    }
}

#[test]
fn column_list_ends_at_the_last_name() {
    assert_eq!(
        parse_select_vars("x, y , z <- t"),
        Ok((" <- t", vec![Var("x".to_string()), Var("y".to_string()), Var("z".to_string())]))
    );
    assert_eq!(parse_select_vars("x, 1"), Ok((", 1", vec![Var("x".to_string())])));
    assert_eq!(parse_select_vars("x,"), Ok((",", vec![Var("x".to_string())])));
    assert_eq!(
        parse_select_vars("1, x"),
        Err(ParseError { input: "1, x", code: ErrorKind::Tag })
    );
}

#[test]
fn names_with_commas_but_no_arrow_are_a_row() {
    assert_eq!(parse_exp("x, 1"), whole(Exp::Row(Row(bx(var("x")), bx(num(1))))));
    assert_eq!(parse_exp("x, y"), whole(Exp::Row(Row(bx(var("x")), bx(var("y"))))));
}

#[test]
fn staff_scenario() {
    let source = "Staff =\n  name: 'Alice', id: 1;\n  name: 'Bob', id: 2\nbob = name <- Staff ? name == 'Bob'\nbob\n";
    assert_eq!(parse_exp(source), whole(staff_program()));
}

#[test]
fn incidental_text_between_tokens_changes_nothing() {
    let bare = "Staff=name:'Alice',id:1;name:'Bob',id:2bob=name<-Staff?name=='Bob'bob";
    let tokens = [
        "Staff", "=", "name", ":", "'Alice'", ",", "id", ":", "1", ";", "name", ":", "'Bob'",
        ",", "id", ":", "2", "bob", "=", "name", "<-", "Staff", "?", "name", "==", "'Bob'", "bob",
    ];
    assert_eq!(tokens.concat(), bare);
    let expected = staff_program();
    assert_eq!(parse_exp(bare), whole(copy_exp(&expected)));
    for gap in [" ", "\n\t\r ", "/* = */", " -- , ; 'x\n", "/**/ /* a */--b\n\n", " /* -- */ "] {
        let spaced = format!("{}{}{}", gap, tokens.join(gap), gap);
        assert_eq!(parse_exp(&spaced), Ok(("", copy_exp(&expected))));
        for at in 0..=tokens.len() {
            let once = format!("{}{}{}", tokens[..at].join(" "), gap, tokens[at..].join(" "));
            assert_eq!(parse_exp(&once), Ok(("", copy_exp(&expected))));
        }
    }
}

#[test]
fn pieces_that_stay_apart_keep_their_tree() {
    let pieces = ["x", "=", "-1", "y2", "==", "'a b'", "(", "z", ")"];
    let expected = Exp::Let(Let(
        Var("x".to_string()),
        bx(num(-1)),
        bx(Exp::Equals(Equals(bx(var("y2")), bx(text("a b"))))),
    ));
    // `-1` and `y2` would join, so a gap is needed between them; every
    // other gap may be empty. The bracket behind the string is no part of
    // the expression and is left over.
    let needed = ["", "", "", " ", "", "", "", "", "", ""];
    let bare: String = pieces.iter().zip(needed.iter()).map(|(p, g)| format!("{}{}", g, p)).collect();
    assert_eq!(bare, "x=-1 y2=='a b'(z)");
    assert_eq!(parse_exp(&bare), fails("(z)", ErrorKind::Eof));
    let pieces = &pieces[..6];
    let bare: String = pieces.iter().zip(needed.iter()).map(|(p, g)| format!("{}{}", g, p)).collect();
    assert_eq!(bare, "x=-1 y2=='a b'");
    assert_eq!(parse_exp(&bare), Ok(("", copy_exp(&expected))));
    for gap in [" ", "\n", "/* - */", "--\n", " -- = \n\t", "/*'*/"] {
        let wide = format!("{}{}{}", gap, pieces.join(gap), gap);
        assert_eq!(parse_exp(&wide), Ok(("", copy_exp(&expected))));
        let open_end = format!("{} -- to the end", pieces.join(gap));
        assert_eq!(parse_exp(&open_end), Ok(("", copy_exp(&expected))));
    }
}

#[test]
fn pieces_that_join_change_the_tree() {
    assert_eq!(parse_exp("x = -1 y"), whole(Exp::Let(Let(Var("x".to_string()), bx(num(-1)), bx(var("y"))))));
    assert_eq!(parse_exp("x = - 1 y"), fails("= - 1 y", ErrorKind::Eof));
    assert_eq!(parse_exp("a b"), fails("b", ErrorKind::Eof));
    assert_eq!(parse_exp("ab"), whole(var("ab")));
    assert_eq!(parse_exp("1 2"), fails("2", ErrorKind::Eof));
    assert_eq!(parse_exp("12"), whole(num(12)));
    assert_eq!(parse_exp("a = = b"), fails("= = b", ErrorKind::Eof));
    assert_eq!(parse_exp("a == b"), whole(Exp::Equals(Equals(bx(var("a")), bx(var("b"))))));
}

#[test]
fn a_comment_may_swallow_an_operator() {
    assert_eq!(
        parse_exp("a -1"),
        whole(Exp::Difference(Difference(bx(var("a")), bx(num(1)))))
    );
    assert_eq!(
        parse_exp("a - /* c */ 1"),
        whole(Exp::Difference(Difference(bx(var("a")), bx(num(1)))))
    );
    assert_eq!(parse_exp("a ---c\n1"), fails("1", ErrorKind::Eof));
}

#[test]
fn empty_line_comments_are_incidental() {
    assert_eq!(
        parse_exp("a --\n+ --\n b --"),
        whole(Exp::Union(Union(bx(var("a")), bx(var("b")))))
    );
    assert_eq!(parse_exp("--\nx"), whole(var("x")));
    assert_eq!(parse_exp("x--"), whole(var("x")));
    assert_eq!(parse_exp("a --\n1"), fails("1", ErrorKind::Eof));
}

#[test]
fn open_block_comment_is_refused() {
    assert_eq!(parse_exp("/* unterminated"), fails("/* unterminated", ErrorKind::Tag));
    assert_eq!(parse_exp("x /* unterminated"), fails("/* unterminated", ErrorKind::Eof));
    assert_eq!(parse_exp("x = /* unterminated"), fails("= /* unterminated", ErrorKind::Eof));
    assert_eq!(parse_exp("x + /* unterminated"), fails("/* unterminated", ErrorKind::Tag));
    assert_eq!(parse_let("/* x"), fails("/* x", ErrorKind::Tag));
}

#[test]
fn trailing_input_is_refused() {
    assert_eq!(parse_exp("x y"), fails("y", ErrorKind::Eof));
    assert_eq!(parse_exp("(1) )"), fails(")", ErrorKind::Eof));
    assert_eq!(parse_exp("1 2"), fails("2", ErrorKind::Eof));
    assert_eq!(parse_program("(1) )"), Ok((")", num(1))));
    assert_eq!(parse_program(" x y "), Ok(("y ", var("x"))));
}

#[test]
fn empty_input_is_refused() {
    assert_eq!(parse_exp(""), fails("", ErrorKind::Tag));
    assert_eq!(parse_exp("  -- nothing\n"), fails("", ErrorKind::Tag));
    assert_eq!(parse_exp("?"), fails("?", ErrorKind::Tag));
}

#[test]
fn operator_without_right_operand_fails_the_rule() {
    assert_eq!(parse_equals("x == "), fails("", ErrorKind::Tag));
    assert_eq!(parse_equals("x == ;"), fails(";", ErrorKind::Tag));
    assert_eq!(parse_union("a + b +"), fails("", ErrorKind::Tag));
    assert_eq!(parse_where("a ? )"), fails(")", ErrorKind::Tag));
    assert_eq!(parse_product("a * 99999999999999999999"), fails("99999999999999999999", ErrorKind::Tag));
    assert_eq!(parse_row("a , 'open"), fails("'open", ErrorKind::Tag));
    assert_eq!(parse_cell("k : "), fails("", ErrorKind::Tag));
    assert_eq!(parse_select("a, b <- "), fails("", ErrorKind::Tag));
    assert_eq!(parse_exp("x == "), fails("", ErrorKind::Tag));
}

#[test]
fn rule_without_its_operator_gives_way() {
    assert_eq!(parse_equals("x = 1"), Ok((" = 1", var("x"))));
    assert_eq!(parse_union("a - b"), Ok(("", Exp::Difference(Difference(bx(var("a")), bx(var("b")))))));
    assert_eq!(parse_cell("1: 2"), Ok((": 2", num(1))));
    assert_eq!(parse_select("a, 1 <- x"), Ok((" <- x", Exp::Row(Row(bx(var("a")), bx(num(1)))))));
}

#[test]
fn binding_without_body_gives_way() {
    assert_eq!(parse_let("x = 1"), Ok((" = 1", var("x"))));
    assert_eq!(parse_let("x = "), Ok((" = ", var("x"))));
    assert_eq!(parse_exp("x = 1"), fails("= 1", ErrorKind::Eof));
}

#[test]
fn negation_forms() {
    assert_eq!(parse_not("!  /* c */ !\n1"), whole(Exp::Not(Not(bx(Exp::Not(Not(bx(num(1)))))))));
    assert_eq!(parse_not("!"), fails("!", ErrorKind::Tag));
    assert_eq!(parse_not("! ?"), fails("! ?", ErrorKind::Tag));
    assert_eq!(
        parse_exp("!a & !b"),
        whole(Exp::And(And(bx(Exp::Not(Not(bx(var("a"))))), bx(Exp::Not(Not(bx(var("b"))))))))
    );
}

#[test]
fn brackets_hold_a_whole_program() {
    assert_eq!(parse_parens("( /* c */ x -- d\n )y"), Ok(("y", var("x"))));
    assert_eq!(
        parse_exp("(a = 1 a) + 2"),
        whole(Exp::Union(Union(
            bx(Exp::Let(Let(Var("a".to_string()), bx(num(1)), bx(var("a"))))),
            bx(num(2))
        )))
    );
    assert_eq!(parse_parens("(x"), fails("", ErrorKind::Tag));
    assert_eq!(parse_parens("()"), fails(")", ErrorKind::Tag));
    assert_eq!(parse_parens("x)"), fails("x)", ErrorKind::Tag));
    assert_eq!(parse_exp("(x"), fails("(x", ErrorKind::Tag));
}

#[test]
fn deep_brackets() {
    let depth = 200;
    let source = format!("{}7{}", "(".repeat(depth), ")".repeat(depth));
    assert_eq!(parse_exp(&source), Ok(("", num(7))));
}

#[test]
fn rule_by_name() {
    assert_eq!(parse_rule(Rule::Atom, "1 + 2"), Ok((" + 2", num(1))));
    assert_eq!(
        parse_rule(Rule::Union, "1 + 2"),
        whole(Exp::Union(Union(bx(num(1)), bx(num(2)))))
    );
    assert_eq!(parse_rule(Rule::Let, "x = 1 x"), parse_let("x = 1 x"));
    assert_eq!(parse_rule(Rule::Not, "!x"), parse_not("!x"));
}

#[test]
fn copies_are_equal() {
    let program = staff_program();
    assert_eq!(copy_exp(&program), program);
    assert_eq!(program.clone(), program);
    assert_eq!(Exp::Bool(Bool(true)).clone(), Exp::Bool(Bool(true)));
}
