//! The surface AST: immutable, value-semantic cells produced by a reader and
//! consumed by the compiler and the `syntax-rules` transformer.

use vstd::prelude::*;
use vstd::string::StringExecFns;

verus! {

/// The mathematical value of a [`Cell`]: the same tree with symbol names as
/// character sequences.
pub ghost enum Ast {
    Undefined,
    Void,
    Nil,
    Bool(bool),
    Number(i64),
    Symbol(Seq<char>),
    Pair(Box<Ast>, Box<Ast>),
}

/// A surface AST value. Pairs form proper lists (the cdr chain ends in `Nil`)
/// or improper lists (the chain ends in a non-pair atom).
#[derive(Debug)]
pub enum Cell {
    Undefined,
    Void,
    Nil,
    Bool(bool),
    Number(i64),
    Symbol(String),
    Pair(Box<Cell>, Box<Cell>),
}

pub open spec fn ast_of(c: Cell) -> Ast
    decreases c,
{
    match c {
        Cell::Undefined => Ast::Undefined,
        Cell::Void => Ast::Void,
        Cell::Nil => Ast::Nil,
        Cell::Bool(b) => Ast::Bool(b),
        Cell::Number(n) => Ast::Number(n),
        Cell::Symbol(s) => Ast::Symbol(s@),
        Cell::Pair(a, d) => Ast::Pair(Box::new(ast_of(*a)), Box::new(ast_of(*d))),
    }
}

impl View for Cell {
    type V = Ast;

    open spec fn view(&self) -> Ast {
        ast_of(*self)
    }
}

impl PartialEq for Cell {
    fn eq(&self, other: &Cell) -> (r: bool) {
        self.same(other)
    }
}

impl vstd::std_specs::cmp::PartialEqSpecImpl for Cell {
    open spec fn obeys_eq_spec() -> bool {
        true
    }

    open spec fn eq_spec(&self, other: &Cell) -> bool {
        self@ == other@
    }
}

impl Cell {
    /// Structural equality: the same tree, with symbols compared by name.
    pub fn same(&self, other: &Cell) -> (r: bool)
        ensures
            r == (self@ == other@),
        decreases *self,
    {
        match (self, other) {
            (Cell::Undefined, Cell::Undefined) => true,
            (Cell::Void, Cell::Void) => true,
            (Cell::Nil, Cell::Nil) => true,
            (Cell::Bool(a), Cell::Bool(b)) => *a == *b,
            (Cell::Number(a), Cell::Number(b)) => *a == *b,
            (Cell::Symbol(a), Cell::Symbol(b)) => *a == *b,
            (Cell::Pair(a1, d1), Cell::Pair(a2, d2)) => {
                let car_eq: bool = (&**a1).same(&**a2);
                car_eq && (&**d1).same(&**d2)
            },
            _ => false,
        }
    }

    /// Build a symbol cell from a name.
    pub fn symbol(name: &str) -> (r: Cell)
        ensures
            r@ == Ast::Symbol(name@),
    {
        Cell::Symbol(String::from_str(name))
    }

    /// Build a pair from two cells.
    pub fn new_pair(car: Cell, cdr: Cell) -> (r: Cell)
        ensures
            r@ == Ast::Pair(Box::new(car@), Box::new(cdr@)),
    {
        Cell::Pair(Box::new(car), Box::new(cdr))
    }

    /// Build a proper list holding the given cells in order.
    pub fn new_list(items: Vec<Cell>) -> (r: Cell)
        ensures
            r@ == list_ast(items@),
    {
        let mut items = items;
        let mut r = Cell::Nil;
        let ghost orig = items@;
        proof {
            assert(orig.take(orig.len() as int) =~= orig);
            assert(orig.skip(orig.len() as int) =~= Seq::<Cell>::empty());
        }
        while items.len() > 0
            invariant
                items@.len() <= orig.len(),
                items@ == orig.take(items@.len() as int),
                r@ == list_ast(orig.skip(items@.len() as int)),
            decreases items@.len(),
        {
            let ghost k = items@.len() as int;
            let ghost pre = items@;
            let c = items.pop().unwrap();
            proof {
                assert(pre.last() == orig.take(k)[k - 1]);
                assert(c == orig[k - 1]);
                assert(items@ =~= orig.take(k - 1));
                assert(orig.skip(k - 1)[0] == orig[k - 1]);
                assert(orig.skip(k - 1).drop_first() =~= orig.skip(k));
            }
            r = Cell::Pair(Box::new(c), Box::new(r));
        }
        proof {
            assert(orig.skip(0) =~= orig);
        }
        r
    }

    /// A deep copy with the same mathematical value.
    pub fn deep_clone(&self) -> (r: Cell)
        ensures
            r@ == self@,
        decreases *self,
    {
        match self {
            Cell::Undefined => Cell::Undefined,
            Cell::Void => Cell::Void,
            Cell::Nil => Cell::Nil,
            Cell::Bool(b) => Cell::Bool(*b),
            Cell::Number(n) => Cell::Number(*n),
            Cell::Symbol(s) => Cell::Symbol(s.clone()),
            Cell::Pair(a, d) => Cell::Pair(Box::new(a.deep_clone()), Box::new(d.deep_clone())),
        }
    }

    pub fn is_symbol(&self) -> (r: bool)
        ensures
            r == (self@ is Symbol),
    {
        match self {
            Cell::Symbol(_) => true,
            _ => false,
        }
    }

    pub fn is_pair(&self) -> (r: bool)
        ensures
            r == (self@ is Pair),
    {
        match self {
            Cell::Pair(_, _) => true,
            _ => false,
        }
    }

    /// Is this a proper list (a cdr chain ending in `Nil`)? `Nil` itself counts.
    pub fn is_list(&self) -> (r: bool)
        ensures
            r == proper(self@),
        decreases *self,
    {
        match self {
            Cell::Nil => true,
            Cell::Pair(_, d) => d.is_list(),
            _ => false,
        }
    }

    /// Is this a pair whose cdr chain ends in a non-`Nil` atom?
    pub fn is_improper_list(&self) -> (r: bool)
        ensures
            r == (self@ is Pair && !proper(self@)),
    {
        self.is_pair() && !self.is_list()
    }

    /// The head of a pair.
    pub fn car(&self) -> (r: Option<&Cell>)
        ensures
            (r is Some) <==> (self@ is Pair),
            self@ is Pair ==> (r matches Some(c) && c@ == *self@->Pair_0),
    {
        match self {
            Cell::Pair(a, _) => Some(&**a),
            _ => None,
        }
    }

    /// The tail of a pair.
    pub fn cdr(&self) -> (r: Option<&Cell>)
        ensures
            (r is Some) <==> (self@ is Pair),
            self@ is Pair ==> (r matches Some(c) && c@ == *self@->Pair_1),
    {
        match self {
            Cell::Pair(_, d) => Some(&**d),
            _ => None,
        }
    }

    /// A single-line text form of the cell.
    pub fn to_text(&self) -> (s: String)
        ensures
            s@ == ast_text(self@),
        decreases *self, 1int,
    {
        match self {
            Cell::Undefined => String::from_str("#<undefined>"),
            Cell::Void => String::from_str("#<void>"),
            Cell::Nil => String::from_str("()"),
            Cell::Bool(b) => {
                if *b {
                    String::from_str("#t")
                } else {
                    String::from_str("#f")
                }
            },
            Cell::Number(n) => i64_text(*n),
            Cell::Symbol(s) => s.clone(),
            Cell::Pair(_, _) => {
                let mut s = String::from_str("(");
                s.append(self.pair_body_text().as_str());
                s.append(")");
                s
            },
        }
    }

    /// The elements of a pair chain, space separated, with ` . ` before an
    /// improper tail.
    fn pair_body_text(&self) -> (s: String)
        ensures
            s@ == pair_body(self@),
        decreases *self, 0int,
    {
        match self {
            Cell::Pair(a, d) => {
                let ghost av = a@;
                let mut s = a.to_text();
                match &**d {
                    Cell::Nil => {
                        proof {
                            assert(ast_text(av) + Seq::<char>::empty() =~= ast_text(av));
                        }
                        s
                    },
                    Cell::Pair(_, _) => {
                        s.append(" ");
                        let rest = d.pair_body_text();
                        proof {
                            assert((ast_text(av) + " "@) + rest@ =~= ast_text(av) + (" "@
                                + rest@));
                        }
                        s.append(rest.as_str());
                        s
                    },
                    other => {
                        s.append(" . ");
                        let rest = other.to_text();
                        proof {
                            assert((ast_text(av) + " . "@) + rest@ =~= ast_text(av) + (" . "@
                                + rest@));
                        }
                        s.append(rest.as_str());
                        s
                    },
                }
            },
            _ => String::new(),
        }
    }
}

/// A cell and its value always carry the same constructor.
pub proof fn lemma_view_variants(c: Cell)
    ensures
        (c@ is Pair) <==> (c is Pair),
        (c@ is Symbol) <==> (c is Symbol),
        (c@ is Nil) <==> (c is Nil),
        (c@ is Undefined) <==> (c is Undefined),
        (c@ is Void) <==> (c is Void),
        (c@ is Bool) <==> (c is Bool),
        (c@ is Number) <==> (c is Number),
{
    match c {
        Cell::Undefined => {},
        Cell::Void => {},
        Cell::Nil => {},
        Cell::Bool(_) => {},
        Cell::Number(_) => {},
        Cell::Symbol(_) => {},
        Cell::Pair(_, _) => {},
    }
}

/// A proper list: a cdr chain ending in `Nil`.
pub open spec fn proper(a: Ast) -> bool
    decreases a,
{
    match a {
        Ast::Nil => true,
        Ast::Pair(_, d) => proper(*d),
        _ => false,
    }
}

/// The proper list holding the values of the given cells in order.
pub open spec fn list_ast(items: Seq<Cell>) -> Ast
    decreases items.len(),
{
    if items.len() == 0 {
        Ast::Nil
    } else {
        Ast::Pair(Box::new(items[0]@), Box::new(list_ast(items.drop_first())))
    }
}

pub open spec fn digit_seq(d: nat) -> Seq<char> {
    if d == 0 {
        "0"@
    } else if d == 1 {
        "1"@
    } else if d == 2 {
        "2"@
    } else if d == 3 {
        "3"@
    } else if d == 4 {
        "4"@
    } else if d == 5 {
        "5"@
    } else if d == 6 {
        "6"@
    } else if d == 7 {
        "7"@
    } else if d == 8 {
        "8"@
    } else {
        "9"@
    }
}

/// The decimal digits of `n`, most significant first.
pub open spec fn dec_text(n: nat) -> Seq<char>
    decreases n,
{
    if n < 10 {
        digit_seq(n)
    } else {
        dec_text(n / 10) + digit_seq(n % 10)
    }
}

/// The decimal text of `n`, with a leading minus sign when negative.
pub open spec fn int_text(n: int) -> Seq<char> {
    if n < 0 {
        "-"@ + dec_text((-n) as nat)
    } else {
        dec_text(n as nat)
    }
}

/// The single-line text form of an AST value.
pub open spec fn ast_text(a: Ast) -> Seq<char>
    decreases a, 1int,
{
    match a {
        Ast::Undefined => "#<undefined>"@,
        Ast::Void => "#<void>"@,
        Ast::Nil => "()"@,
        Ast::Bool(b) => if b {
            "#t"@
        } else {
            "#f"@
        },
        Ast::Number(n) => int_text(n as int),
        Ast::Symbol(s) => s,
        Ast::Pair(_, _) => "("@ + pair_body(a) + ")"@,
    }
}

pub open spec fn pair_body(a: Ast) -> Seq<char>
    decreases a, 0int,
{
    match a {
        Ast::Pair(x, d) => ast_text(*x) + (match *d {
            Ast::Nil => Seq::<char>::empty(),
            Ast::Pair(_, _) => " "@ + pair_body(*d),
            other => " . "@ + ast_text(other),
        }),
        _ => Seq::<char>::empty(),
    }
}

fn digit_str(d: u64) -> (s: &'static str)
    requires
        d < 10,
    ensures
        s@ == digit_seq(d as nat),
{
    if d == 0 {
        "0"
    } else if d == 1 {
        "1"
    } else if d == 2 {
        "2"
    } else if d == 3 {
        "3"
    } else if d == 4 {
        "4"
    } else if d == 5 {
        "5"
    } else if d == 6 {
        "6"
    } else if d == 7 {
        "7"
    } else if d == 8 {
        "8"
    } else {
        "9"
    }
}

pub fn u64_text(n: u64) -> (s: String)
    ensures
        s@ == dec_text(n as nat),
    decreases n,
{
    if n < 10 {
        String::from_str(digit_str(n))
    } else {
        let mut s = u64_text(n / 10);
        s.append(digit_str(n % 10));
        s
    }
}

/// The decimal text of an `i64`.
pub fn i64_text(n: i64) -> (s: String)
    ensures
        s@ == int_text(n as int),
{
    if n >= 0 {
        u64_text(n as u64)
    } else {
        let mut s = String::from_str("-");
        let m: u64 = ((-(n + 1)) as u64) + 1;
        proof {
            assert(m as nat == (-(n as int)) as nat);
        }
        s.append(u64_text(m).as_str());
        s
    }
}

} // verus!
