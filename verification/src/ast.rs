//! The syntax tree that the parser builds, and its mathematical model.

use vstd::prelude::*;

verus! {

/// An identifier.
#[derive(Debug, PartialEq, Eq)]
pub struct Var(pub String);

/// An integer literal.
#[derive(Clone, Copy, Debug, PartialEq, Eq)]
pub struct Int(pub i64);

/// A boolean literal.
#[derive(Clone, Copy, Debug, PartialEq, Eq)]
pub struct Bool(pub bool);

/// A quoted string literal, without its quotes.
#[derive(Debug, PartialEq, Eq)]
pub struct Str(pub String);

/// A binding: the binder, the bound expression and the body.
#[derive(Debug, PartialEq, Eq)]
pub struct Let(pub Var, pub Box<Exp>, pub Box<Exp>);

/// A projection: the columns, in source order, and the source expression.
#[derive(Debug, PartialEq, Eq)]
pub struct Select(pub Vec<Var>, pub Box<Exp>);

/// A filter: the source and the predicate.
#[derive(Debug, PartialEq, Eq)]
pub struct Where(pub Box<Exp>, pub Box<Exp>);

#[derive(Debug, PartialEq, Eq)]
pub struct Union(pub Box<Exp>, pub Box<Exp>);

#[derive(Debug, PartialEq, Eq)]
pub struct Difference(pub Box<Exp>, pub Box<Exp>);

#[derive(Debug, PartialEq, Eq)]
pub struct Product(pub Box<Exp>, pub Box<Exp>);

/// Rows, one after another.
#[derive(Debug, PartialEq, Eq)]
pub struct Table(pub Box<Exp>, pub Box<Exp>);

/// Cells, one after another.
#[derive(Debug, PartialEq, Eq)]
pub struct Row(pub Box<Exp>, pub Box<Exp>);

/// One field of a table: its key and its value.
#[derive(Debug, PartialEq, Eq)]
pub struct Cell(pub Var, pub Box<Exp>);

#[derive(Debug, PartialEq, Eq)]
pub struct Equals(pub Box<Exp>, pub Box<Exp>);

#[derive(Debug, PartialEq, Eq)]
pub struct Or(pub Box<Exp>, pub Box<Exp>);

#[derive(Debug, PartialEq, Eq)]
pub struct And(pub Box<Exp>, pub Box<Exp>);

#[derive(Debug, PartialEq, Eq)]
pub struct Not(pub Box<Exp>);

/// An expression of the language.
#[derive(Debug, PartialEq, Eq)]
pub enum Exp {
    Var(Var),
    Int(Int),
    Bool(Bool),
    Str(Str),
    Let(Let),
    Select(Select),
    Where(Where),
    Union(Union),
    Difference(Difference),
    Product(Product),
    Table(Table),
    Row(Row),
    Cell(Cell),
    Equals(Equals),
    Or(Or),
    And(And),
    Not(Not),
}

/// The mathematical model of an expression: the same tree, with every text
/// as a sequence of characters.
pub ghost enum Term {
    Var(Seq<char>),
    Int(i64),
    Bool(bool),
    Str(Seq<char>),
    Let(Seq<char>, Box<Term>, Box<Term>),
    Select(Seq<Seq<char>>, Box<Term>),
    Where(Box<Term>, Box<Term>),
    Union(Box<Term>, Box<Term>),
    Difference(Box<Term>, Box<Term>),
    Product(Box<Term>, Box<Term>),
    Table(Box<Term>, Box<Term>),
    Row(Box<Term>, Box<Term>),
    Cell(Seq<char>, Box<Term>),
    Equals(Box<Term>, Box<Term>),
    Or(Box<Term>, Box<Term>),
    And(Box<Term>, Box<Term>),
    Not(Box<Term>),
}

/// Every projection in the term names at least one column.
pub open spec fn has_columns(t: Term) -> bool
    decreases t,
{
    match t {
        Term::Var(_) | Term::Int(_) | Term::Bool(_) | Term::Str(_) => true,
        Term::Let(_, bound, body) => has_columns(*bound) && has_columns(*body),
        Term::Select(columns, source) => columns.len() >= 1 && has_columns(*source),
        Term::Where(l, r)
        | Term::Union(l, r)
        | Term::Difference(l, r)
        | Term::Product(l, r)
        | Term::Table(l, r)
        | Term::Row(l, r)
        | Term::Equals(l, r)
        | Term::Or(l, r)
        | Term::And(l, r) => has_columns(*l) && has_columns(*r),
        Term::Cell(_, value) => has_columns(*value),
        Term::Not(operand) => has_columns(*operand),
    }
}

impl View for Var {
    type V = Seq<char>;

    open spec fn view(&self) -> Seq<char> {
        self.0@
    }
}

impl View for Str {
    type V = Seq<char>;

    open spec fn view(&self) -> Seq<char> {
        self.0@
    }
}

impl View for Int {
    type V = i64;

    open spec fn view(&self) -> i64 {
        self.0
    }
}

impl View for Bool {
    type V = bool;

    open spec fn view(&self) -> bool {
        self.0
    }
}

/// The names of a column list, in order.
pub open spec fn names(vars: Seq<Var>) -> Seq<Seq<char>> {
    Seq::new(vars.len(), |i: int| vars[i]@)
}

/// The model of an expression.
pub open spec fn term_of(e: Exp) -> Term
    decreases e,
{
    match e {
        Exp::Var(v) => Term::Var(v@),
        Exp::Int(n) => Term::Int(n@),
        Exp::Bool(b) => Term::Bool(b@),
        Exp::Str(s) => Term::Str(s@),
        Exp::Let(Let(v, m, b)) => Term::Let(v@, Box::new(term_of(*m)), Box::new(term_of(*b))),
        Exp::Select(Select(vs, e)) => Term::Select(names(vs@), Box::new(term_of(*e))),
        Exp::Where(Where(l, r)) => Term::Where(Box::new(term_of(*l)), Box::new(term_of(*r))),
        Exp::Union(Union(l, r)) => Term::Union(Box::new(term_of(*l)), Box::new(term_of(*r))),
        Exp::Difference(Difference(l, r)) => Term::Difference(
            Box::new(term_of(*l)),
            Box::new(term_of(*r)),
        ),
        Exp::Product(Product(l, r)) => Term::Product(Box::new(term_of(*l)), Box::new(term_of(*r))),
        Exp::Table(Table(l, r)) => Term::Table(Box::new(term_of(*l)), Box::new(term_of(*r))),
        Exp::Row(Row(l, r)) => Term::Row(Box::new(term_of(*l)), Box::new(term_of(*r))),
        Exp::Cell(Cell(k, e)) => Term::Cell(k@, Box::new(term_of(*e))),
        Exp::Equals(Equals(l, r)) => Term::Equals(Box::new(term_of(*l)), Box::new(term_of(*r))),
        Exp::Or(Or(l, r)) => Term::Or(Box::new(term_of(*l)), Box::new(term_of(*r))),
        Exp::And(And(l, r)) => Term::And(Box::new(term_of(*l)), Box::new(term_of(*r))),
        Exp::Not(Not(e)) => Term::Not(Box::new(term_of(*e))),
    }
}

impl View for Exp {
    type V = Term;

    open spec fn view(&self) -> Term {
        term_of(*self)
    }
}

impl Clone for Var {
    fn clone(&self) -> (r: Self)
        ensures
            r@ == self@,
    {
        Var(self.0.clone())
    }
}

impl Clone for Str {
    fn clone(&self) -> (r: Self)
        ensures
            r@ == self@,
    {
        Str(self.0.clone())
    }
}

/// A copy of a column list.
pub fn copy_vars(vars: &Vec<Var>) -> (r: Vec<Var>)
    ensures
        names(r@) == names(vars@),
{
    let mut out: Vec<Var> = Vec::new();
    let mut i: usize = 0;
    while i < vars.len()
        invariant
            i <= vars.len(),
            out.len() == i,
            forall|j: int| 0 <= j < i ==> out[j]@ == vars[j]@,
        decreases vars.len() - i,
    {
        out.push(vars[i].clone());
        i += 1;
    }
    assert(names(out@) =~= names(vars@));
    out
}

/// A copy of a whole tree.
pub fn copy_exp(e: &Exp) -> (r: Exp)
    ensures
        r@ == e@,
    decreases *e,
{
    match e {
        Exp::Var(v) => Exp::Var(v.clone()),
        Exp::Int(n) => Exp::Int(Int(n.0)),
        Exp::Bool(b) => Exp::Bool(Bool(b.0)),
        Exp::Str(s) => Exp::Str(s.clone()),
        Exp::Let(Let(v, m, b)) => Exp::Let(
            Let(v.clone(), Box::new(copy_exp(m)), Box::new(copy_exp(b))),
        ),
        Exp::Select(Select(vs, e)) => Exp::Select(Select(copy_vars(vs), Box::new(copy_exp(e)))),
        Exp::Where(Where(l, r)) => Exp::Where(Where(Box::new(copy_exp(l)), Box::new(copy_exp(r)))),
        Exp::Union(Union(l, r)) => Exp::Union(Union(Box::new(copy_exp(l)), Box::new(copy_exp(r)))),
        Exp::Difference(Difference(l, r)) => Exp::Difference(
            Difference(Box::new(copy_exp(l)), Box::new(copy_exp(r))),
        ),
        Exp::Product(Product(l, r)) => Exp::Product(
            Product(Box::new(copy_exp(l)), Box::new(copy_exp(r))),
        ),
        Exp::Table(Table(l, r)) => Exp::Table(Table(Box::new(copy_exp(l)), Box::new(copy_exp(r)))),
        Exp::Row(Row(l, r)) => Exp::Row(Row(Box::new(copy_exp(l)), Box::new(copy_exp(r)))),
        Exp::Cell(Cell(k, e)) => Exp::Cell(Cell(k.clone(), Box::new(copy_exp(e)))),
        Exp::Equals(Equals(l, r)) => Exp::Equals(
            Equals(Box::new(copy_exp(l)), Box::new(copy_exp(r))),
        ),
        Exp::Or(Or(l, r)) => Exp::Or(Or(Box::new(copy_exp(l)), Box::new(copy_exp(r)))),
        Exp::And(And(l, r)) => Exp::And(And(Box::new(copy_exp(l)), Box::new(copy_exp(r)))),
        Exp::Not(Not(e)) => Exp::Not(Not(Box::new(copy_exp(e)))),
    }
}

impl Clone for Exp {
    fn clone(&self) -> (r: Self)
        ensures
            r@ == self@,
    {
        copy_exp(self)
    }
}

impl Clone for Where {
    fn clone(&self) -> (r: Self)
        ensures
            r.0@ == self.0@,
            r.1@ == self.1@,
    {
        Where(Box::new(copy_exp(&self.0)), Box::new(copy_exp(&self.1)))
    }
}

impl Clone for Union {
    fn clone(&self) -> (r: Self)
        ensures
            r.0@ == self.0@,
            r.1@ == self.1@,
    {
        Union(Box::new(copy_exp(&self.0)), Box::new(copy_exp(&self.1)))
    }
}

impl Clone for Difference {
    fn clone(&self) -> (r: Self)
        ensures
            r.0@ == self.0@,
            r.1@ == self.1@,
    {
        Difference(Box::new(copy_exp(&self.0)), Box::new(copy_exp(&self.1)))
    }
}

impl Clone for Product {
    fn clone(&self) -> (r: Self)
        ensures
            r.0@ == self.0@,
            r.1@ == self.1@,
    {
        Product(Box::new(copy_exp(&self.0)), Box::new(copy_exp(&self.1)))
    }
}

impl Clone for Table {
    fn clone(&self) -> (r: Self)
        ensures
            r.0@ == self.0@,
            r.1@ == self.1@,
    {
        Table(Box::new(copy_exp(&self.0)), Box::new(copy_exp(&self.1)))
    }
}

impl Clone for Row {
    fn clone(&self) -> (r: Self)
        ensures
            r.0@ == self.0@,
            r.1@ == self.1@,
    {
        Row(Box::new(copy_exp(&self.0)), Box::new(copy_exp(&self.1)))
    }
}

impl Clone for Equals {
    fn clone(&self) -> (r: Self)
        ensures
            r.0@ == self.0@,
            r.1@ == self.1@,
    {
        Equals(Box::new(copy_exp(&self.0)), Box::new(copy_exp(&self.1)))
    }
}

impl Clone for Or {
    fn clone(&self) -> (r: Self)
        ensures
            r.0@ == self.0@,
            r.1@ == self.1@,
    {
        Or(Box::new(copy_exp(&self.0)), Box::new(copy_exp(&self.1)))
    }
}

impl Clone for And {
    fn clone(&self) -> (r: Self)
        ensures
            r.0@ == self.0@,
            r.1@ == self.1@,
    {
        And(Box::new(copy_exp(&self.0)), Box::new(copy_exp(&self.1)))
    }
}

impl Clone for Let {
    fn clone(&self) -> (r: Self)
        ensures
            r.0@ == self.0@,
            r.1@ == self.1@,
            r.2@ == self.2@,
    {
        Let(self.0.clone(), Box::new(copy_exp(&self.1)), Box::new(copy_exp(&self.2)))
    }
}

impl Clone for Select {
    fn clone(&self) -> (r: Self)
        ensures
            names(r.0@) == names(self.0@),
            r.1@ == self.1@,
    {
        Select(copy_vars(&self.0), Box::new(copy_exp(&self.1)))
    }
}

impl Clone for Cell {
    fn clone(&self) -> (r: Self)
        ensures
            r.0@ == self.0@,
            r.1@ == self.1@,
    {
        Cell(self.0.clone(), Box::new(copy_exp(&self.1)))
    }
}

impl Clone for Not {
    fn clone(&self) -> (r: Self)
        ensures
            r.0@ == self.0@,
    {
        Not(Box::new(copy_exp(&self.0)))
    }
}

} // verus!
