use query_parser::ast::{
    And, Bool, Cell, Equals, Exp, Int, Let, Not, Or, Row, Select, Str, Table, Var, Where,
};
use query_parser::error::{ErrorKind, ParseError};
use query_parser::lexical::{
    junk, line_comment, multi_line_comment, parse_bool, parse_int, parse_str, parse_var,
};
use query_parser::parse::{
    parse_and, parse_atom, parse_exp, parse_let, parse_not, parse_or, parse_select, parse_table,
};

#[test]
fn test_program() {
    let program = Exp::Let(Let(
        Var("Staff".to_string()),
        Box::new(Exp::Table(Table(
            Box::new(Exp::Row(Row(
                Box::new(Exp::Cell(Cell(
                    Var("name".to_string()),
                    Box::new(Exp::Str(Str("Alice".to_string()))),
                ))),
                Box::new(Exp::Cell(Cell(
                    Var("id".to_string()),
                    Box::new(Exp::Int(Int(1))),
                ))),
            ))),
            Box::new(Exp::Row(Row(
                Box::new(Exp::Cell(Cell(
                    Var("name".to_string()),
                    Box::new(Exp::Str(Str("Bob".to_string()))),
                ))),
                Box::new(Exp::Cell(Cell(
                    Var("id".to_string()),
                    Box::new(Exp::Int(Int(2))),
                ))),
            ))),
        ))),
        Box::new(Exp::Let(Let(
            Var("bob".to_string()),
            Box::new(Exp::Select(Select(
                vec![Var("name".to_string())],
                Box::new(Exp::Where(Where(
                    Box::new(Exp::Var(Var("Staff".to_string()))),
                    Box::new(Exp::Equals(Equals(
                        Box::new(Exp::Var(Var("name".to_string()))),
                        Box::new(Exp::Str(Str("Bob".to_string()))),
                    ))),
                ))),
            ))),
            Box::new(Exp::Var(Var("bob".to_string()))),
        ))),
    ));

    assert_eq!(
        parse_exp(
            r#"
/* welcome to
my database */

Staff =
  name: 'Alice', id: 1; -- first row
  name: 'Bob', id: 2    -- second row

bob = name /* columns... */ <- Staff ? name == 'Bob'

bob
"#
        ),
        Ok(("", program.clone()))
    );

    assert_eq!(
        parse_exp("Staff=name:'Alice',id:1;name:'Bob',id:2bob=name<-Staff?name=='Bob'bob"),
        Ok(("", program.clone()))
    );

    assert_eq!(
        parse_exp(
            r#"
a = b
c, d <- e
"#
        ),
        Ok((
            "",
            Exp::Let(Let(
                Var("a".to_string()),
                Box::new(Exp::Var(Var("b".to_string()))),
                Box::new(Exp::Select(Select(
                    vec![Var("c".to_string()), Var("d".to_string())],
                    Box::new(Exp::Var(Var("e".to_string())))
                )))
            )),
        ))
    );

    assert_eq!(
        parse_exp(
            r#"
a =
  b = c
  d
e
"#
        ),
        Ok((
            "",
            Exp::Let(Let(
                Var("a".to_string()),
                Box::new(Exp::Let(Let(
                    Var("b".to_string()),
                    Box::new(Exp::Var(Var("c".to_string()))),
                    Box::new(Exp::Var(Var("d".to_string())))
                ))),
                Box::new(Exp::Var(Var("e".to_string())))
            ))
        ))
    );
}

#[test]
fn test_exp() {
    assert_eq!(
        parse_exp("true | false & !true"),
        Ok((
            "",
            Exp::Or(Or(
                Box::new(Exp::Bool(Bool(true))),
                Box::new(Exp::And(And(
                    Box::new(Exp::Bool(Bool(false))),
                    Box::new(Exp::Not(Not(Box::new(Exp::Bool(Bool(true))))))
                )))
            ))
        ))
    );
}

#[test]
fn test_let() {
    assert_eq!(
        parse_let("x = true false"),
        Ok((
            "",
            Exp::Let(Let(
                Var("x".to_string()),
                Box::new(Exp::Bool(Bool(true))),
                Box::new(Exp::Bool(Bool(false)))
            ))
        ))
    );
    assert_eq!(
        parse_let("x = true | false y"),
        Ok((
            "",
            Exp::Let(Let(
                Var("x".to_string()),
                Box::new(Exp::Or(Or(
                    Box::new(Exp::Bool(Bool(true))),
                    Box::new(Exp::Bool(Bool(false)))
                ))),
                Box::new(Exp::Var(Var("y".to_string()))),
            ))
        ))
    );
}

#[test]
fn test_parens() {
    assert_eq!(parse_exp("(1)"), Ok(("", Exp::Int(Int(1)))));
}

#[test]
fn test_select() {
    assert_eq!(
        parse_select("x <- true"),
        Ok((
            "",
            Exp::Select(Select(
                vec![Var("x".to_string())],
                Box::new(Exp::Bool(Bool(true)))
            ))
        ))
    );
    assert_eq!(
        parse_select("x, y <- true"),
        Ok((
            "",
            Exp::Select(Select(
                vec![Var("x".to_string()), Var("y".to_string())],
                Box::new(Exp::Bool(Bool(true)))
            ))
        ))
    );
    assert_eq!(
        parse_select("x, y, z <- true"),
        Ok((
            "",
            Exp::Select(Select(
                vec![
                    Var("x".to_string()),
                    Var("y".to_string()),
                    Var("z".to_string())
                ],
                Box::new(Exp::Bool(Bool(true)))
            ))
        ))
    );
}

#[test]
fn test_table() {
    assert_eq!(
        parse_table("name: 'Alice', id: 1; name: 'Bob', id: 2"),
        Ok((
            "",
            Exp::Table(Table(
                Box::new(Exp::Row(Row(
                    Box::new(Exp::Cell(Cell(
                        Var("name".to_string()),
                        Box::new(Exp::Str(Str("Alice".to_string())))
                    ))),
                    Box::new(Exp::Cell(Cell(
                        Var("id".to_string()),
                        Box::new(Exp::Int(Int(1)))
                    )))
                ))),
                Box::new(Exp::Row(Row(
                    Box::new(Exp::Cell(Cell(
                        Var("name".to_string()),
                        Box::new(Exp::Str(Str("Bob".to_string())))
                    ))),
                    Box::new(Exp::Cell(Cell(
                        Var("id".to_string()),
                        Box::new(Exp::Int(Int(2)))
                    )))
                )))
            ))
        ))
    );
}

#[test]
fn test_or() {
    assert_eq!(
        parse_or("true | false"),
        Ok((
            "",
            Exp::Or(Or(
                Box::new(Exp::Bool(Bool(true))),
                Box::new(Exp::Bool(Bool(false)))
            ))
        ))
    );
    assert_eq!(
        parse_or("true & false | !true"),
        Ok((
            "",
            Exp::Or(Or(
                Box::new(Exp::And(And(
                    Box::new(Exp::Bool(Bool(true))),
                    Box::new(Exp::Bool(Bool(false)))
                ))),
                Box::new(Exp::Not(Not(Box::new(Exp::Bool(Bool(true))))))
            ))
        ))
    );
}

#[test]
fn test_and() {
    assert_eq!(
        parse_and("true & false"),
        Ok((
            "",
            Exp::And(And(
                Box::new(Exp::Bool(Bool(true))),
                Box::new(Exp::Bool(Bool(false)))
            ))
        ))
    );
    assert_eq!(
        parse_and("true & false & !true"),
        Ok((
            "",
            Exp::And(And(
                Box::new(Exp::Bool(Bool(true))),
                Box::new(Exp::And(And(
                    Box::new(Exp::Bool(Bool(false))),
                    Box::new(Exp::Not(Not(Box::new(Exp::Bool(Bool(true))))))
                )))
            ))
        ))
    );
}

#[test]
fn test_not() {
    assert_eq!(
        parse_not("! true"),
        Ok(("", Exp::Not(Not(Box::new(Exp::Bool(Bool(true)))))))
    );
    assert_eq!(
        parse_not("!x"),
        Ok(("", Exp::Not(Not(Box::new(Exp::Var(Var("x".to_string())))))))
    );
    assert_eq!(
        parse_not("!!x"),
        Ok((
            "",
            Exp::Not(Not(Box::new(Exp::Not(Not(Box::new(Exp::Var(Var(
                "x".to_string()
            ))))))))
        ))
    );
}

#[test]
fn test_atom() {
    assert_eq!(parse_atom("true"), Ok(("", Exp::Bool(Bool(true)))));
    assert_eq!(parse_atom("123"), Ok(("", Exp::Int(Int(123)))));
    assert_eq!(
        parse_atom("'hello'"),
        Ok(("", Exp::Str(Str("hello".to_string()))))
    );
    assert_eq!(parse_atom("x"), Ok(("", Exp::Var(Var("x".to_string())))));
}

#[test]
fn test_bool() {
    assert_eq!(parse_bool("true"), Ok(("", Bool(true))));
    assert_eq!(parse_bool("false"), Ok(("", Bool(false))));
}

#[test]
fn test_int() {
    assert_eq!(parse_int("123"), Ok(("", Int(123))));
    assert_eq!(parse_int("-42hello"), Ok(("hello", Int(-42))));
}

#[test]
fn test_str() {
    assert_eq!(parse_str("''"), Ok(("", Str("".to_string()))));
    assert_eq!(parse_str("'hello'"), Ok(("", Str("hello".to_string()))));
    assert_eq!(
        parse_str("'hello'world"),
        Ok(("world", Str("hello".to_string())))
    );
}

#[test]
fn test_var() {
    assert_eq!(parse_var("x"), Ok(("", Var("x".to_string()))));
    assert_eq!(parse_var("_x_1"), Ok(("", Var("_x_1".to_string()))));
}

#[test]
fn test_junk() {
    assert_eq!(junk(" "), Ok(("", ())));
    assert_eq!(junk("\n"), Ok(("", ())));
}

#[test]
fn test_comment() {
    assert_eq!(line_comment("-- hello"), Ok(("", ())));
    assert_eq!(line_comment("-- hello\n"), Ok(("\n", ())));
    assert_eq!(line_comment("-- hello\nworld"), Ok(("\nworld", ())));
}

#[test]
fn test_multi_line_comment() {
    assert_eq!(multi_line_comment("/* hello */"), Ok(("", ())));
    assert_eq!(multi_line_comment("/* hello */world"), Ok(("world", ())));
    assert_eq!(
        multi_line_comment("/* hello"),
        Err(ParseError {
            input: " hello",
            code: ErrorKind::TakeUntil
        })
    );
}
