//! The virtual machine: registers, the evaluation pipeline, and the error
//! taxonomy every operation reports through.

use crate::cell::{Ast, Cell};
use crate::compile::{comp_issue_ok, compile_plan, expr_plan, prog_matches, seg_matches, CompIssue,
    PlanItem};
use crate::heap::{heap_extends, node_count, value_rep, Heap, HeapModel};
use crate::vcell::{OpCode, VCell};
use vstd::prelude::*;
use vstd::string::StringExecFns;

verus! {

/// The error taxonomy: shape, arity, compilation, macro definition and
/// runtime failures. Every operation returns its value or one of these;
/// errors abort the current top-level evaluation and leave the machine
/// reusable.
#[derive(Debug)]
pub enum Error {
    ExpectedType(&'static str, &'static str),
    ExpectedPairButFound(String),
    ExpectedStackValue,
    InvalidArgs(String, String, String),
    InvalidNumArgs(String),
    InvalidBytecode,
    InvalidDefineSyntax(String),
    InvalidProcedure(String),
    InvalidStackIndex(usize),
    InvalidSyntactic(String),
    InvalidSyntax(String),
    LambdaMissingExpression,
    MisplacedMacroKeyword(String),
    UnknownProcedure(String),
    VariableNotBound(String),
    UnquotedNil,
}

/// Equality of errors: the same variant with the same payload text.
pub open spec fn error_eq(a: Error, b: Error) -> bool {
    match (a, b) {
        (Error::ExpectedType(x1, y1), Error::ExpectedType(x2, y2)) => x1@ == x2@ && y1@ == y2@,
        (Error::ExpectedPairButFound(x1), Error::ExpectedPairButFound(x2)) => x1@ == x2@,
        (Error::ExpectedStackValue, Error::ExpectedStackValue) => true,
        (Error::InvalidArgs(x1, y1, z1), Error::InvalidArgs(x2, y2, z2)) => x1@ == x2@ && y1@
            == y2@ && z1@ == z2@,
        (Error::InvalidNumArgs(x1), Error::InvalidNumArgs(x2)) => x1@ == x2@,
        (Error::InvalidBytecode, Error::InvalidBytecode) => true,
        (Error::InvalidDefineSyntax(x1), Error::InvalidDefineSyntax(x2)) => x1@ == x2@,
        (Error::InvalidProcedure(x1), Error::InvalidProcedure(x2)) => x1@ == x2@,
        (Error::InvalidStackIndex(x1), Error::InvalidStackIndex(x2)) => x1 == x2,
        (Error::InvalidSyntactic(x1), Error::InvalidSyntactic(x2)) => x1@ == x2@,
        (Error::InvalidSyntax(x1), Error::InvalidSyntax(x2)) => x1@ == x2@,
        (Error::LambdaMissingExpression, Error::LambdaMissingExpression) => true,
        (Error::MisplacedMacroKeyword(x1), Error::MisplacedMacroKeyword(x2)) => x1@ == x2@,
        (Error::UnknownProcedure(x1), Error::UnknownProcedure(x2)) => x1@ == x2@,
        (Error::VariableNotBound(x1), Error::VariableNotBound(x2)) => x1@ == x2@,
        (Error::UnquotedNil, Error::UnquotedNil) => true,
        _ => false,
    }
}

impl PartialEq for Error {
    fn eq(&self, other: &Error) -> (r: bool) {
        self.same(other)
    }
}

impl vstd::std_specs::cmp::PartialEqSpecImpl for Error {
    open spec fn obeys_eq_spec() -> bool {
        true
    }

    open spec fn eq_spec(&self, other: &Error) -> bool {
        error_eq(*self, *other)
    }
}

fn str_eq(a: &str, b: &str) -> (r: bool)
    ensures
        r == (a@ == b@),
{
    String::from_str(a) == String::from_str(b)
}

impl Error {
    /// Equality: the same variant with the same payload.
    pub fn same(&self, other: &Error) -> (r: bool)
        ensures
            r == error_eq(*self, *other),
    {
        match (self, other) {
            (Error::ExpectedType(x1, y1), Error::ExpectedType(x2, y2)) => str_eq(x1, x2) && str_eq(
                y1,
                y2,
            ),
            (Error::ExpectedPairButFound(x1), Error::ExpectedPairButFound(x2)) => *x1 == *x2,
            (Error::ExpectedStackValue, Error::ExpectedStackValue) => true,
            (Error::InvalidArgs(x1, y1, z1), Error::InvalidArgs(x2, y2, z2)) => {
                let xe: bool = *x1 == *x2;
                let ye: bool = *y1 == *y2;
                xe && ye && *z1 == *z2
            },
            (Error::InvalidNumArgs(x1), Error::InvalidNumArgs(x2)) => *x1 == *x2,
            (Error::InvalidBytecode, Error::InvalidBytecode) => true,
            (Error::InvalidDefineSyntax(x1), Error::InvalidDefineSyntax(x2)) => *x1 == *x2,
            (Error::InvalidProcedure(x1), Error::InvalidProcedure(x2)) => *x1 == *x2,
            (Error::InvalidStackIndex(x1), Error::InvalidStackIndex(x2)) => *x1 == *x2,
            (Error::InvalidSyntactic(x1), Error::InvalidSyntactic(x2)) => *x1 == *x2,
            (Error::InvalidSyntax(x1), Error::InvalidSyntax(x2)) => *x1 == *x2,
            (Error::LambdaMissingExpression, Error::LambdaMissingExpression) => true,
            (Error::MisplacedMacroKeyword(x1), Error::MisplacedMacroKeyword(x2)) => *x1 == *x2,
            (Error::UnknownProcedure(x1), Error::UnknownProcedure(x2)) => *x1 == *x2,
            (Error::VariableNotBound(x1), Error::VariableNotBound(x2)) => *x1 == *x2,
            (Error::UnquotedNil, Error::UnquotedNil) => true,
            _ => false,
        }
    }

    /// The single-line message for this error.
    pub fn to_text(&self) -> (s: String)
        ensures
            s@ == error_text(*self),
    {
        match self {
            Error::ExpectedType(a, b) => {
                let mut s = String::from_str("expected ");
                s.append(*a);
                proof {
                    crate::vcell::seq_assoc_3::<char>("expected "@, a@, ", but found "@);
                }
                s.append(", but found ");
                s.append(*b);
                s
            },
            Error::ExpectedPairButFound(t) => {
                let mut s = String::from_str("expected pair, but found ");
                s.append(t.as_str());
                s
            },
            Error::ExpectedStackValue => String::from_str("expected stack value"),
            Error::InvalidArgs(p, e, g) => {
                let mut s = String::from_str("invalid argument for ");
                s.append(p.as_str());
                proof {
                    crate::vcell::seq_assoc_3::<char>("invalid argument for "@, p@, ": expected "@);
                }
                s.append(": expected ");
                s.append(e.as_str());
                proof {
                    crate::vcell::seq_assoc_3::<char>(
                        "invalid argument for "@ + p@ + ": expected "@,
                        e@,
                        ", but got "@,
                    );
                    crate::vcell::seq_assoc_3::<char>(
                        "invalid argument for "@ + p@ + ": expected "@ + e@,
                        ", but got "@,
                        g@,
                    );
                }
                s.append(", but got ");
                s.append(g.as_str());
                s
            },
            Error::InvalidNumArgs(p) => {
                let mut s = String::from_str("invalid number of arguments for ");
                s.append(p.as_str());
                s
            },
            Error::InvalidBytecode => String::from_str("invalid bytecode"),
            Error::InvalidDefineSyntax(t) => {
                let mut s = String::from_str("invalid define syntax: ");
                s.append(t.as_str());
                s
            },
            Error::InvalidProcedure(t) => {
                let mut s = String::from_str("call of non-procedure: ");
                s.append(t.as_str());
                s
            },
            Error::InvalidStackIndex(i) => {
                let mut s = String::from_str("invalid stack index: ");
                s.append(crate::vcell::usize_text(*i).as_str());
                s
            },
            Error::InvalidSyntactic(t) => {
                let mut s = String::from_str("invalid use of syntactic keyword ");
                s.append(t.as_str());
                s
            },
            Error::InvalidSyntax(t) => {
                let mut s = String::from_str("invalid syntax: ");
                s.append(t.as_str());
                s
            },
            Error::LambdaMissingExpression => String::from_str(
                "lambda require at least one expression",
            ),
            Error::MisplacedMacroKeyword(t) => {
                let mut s = String::from_str("misplaced macro keyword ");
                s.append(t.as_str());
                s
            },
            Error::UnknownProcedure(t) => {
                let mut s = String::from_str("unknown procedure ");
                s.append(t.as_str());
                s
            },
            Error::VariableNotBound(t) => {
                let mut s = String::from_str("variable ");
                s.append(t.as_str());
                proof {
                    crate::vcell::seq_assoc_3::<char>("variable "@, t@, " not bound"@);
                }
                s.append(" not bound");
                s
            },
            Error::UnquotedNil => String::from_str("invalid syntax: () must be quoted"),
        }
    }
}

/// The single-line message of each error.
pub open spec fn error_text(e: Error) -> Seq<char> {
    match e {
        Error::ExpectedType(a, b) => "expected "@ + a@ + ", but found "@ + b@,
        Error::ExpectedPairButFound(t) => "expected pair, but found "@ + t@,
        Error::ExpectedStackValue => "expected stack value"@,
        Error::InvalidArgs(p, e2, g) => "invalid argument for "@ + p@ + ": expected "@ + e2@
            + ", but got "@ + g@,
        Error::InvalidNumArgs(p) => "invalid number of arguments for "@ + p@,
        Error::InvalidBytecode => "invalid bytecode"@,
        Error::InvalidDefineSyntax(t) => "invalid define syntax: "@ + t@,
        Error::InvalidProcedure(t) => "call of non-procedure: "@ + t@,
        Error::InvalidStackIndex(i) => "invalid stack index: "@ + crate::cell::dec_text(i as nat),
        Error::InvalidSyntactic(t) => "invalid use of syntactic keyword "@ + t@,
        Error::InvalidSyntax(t) => "invalid syntax: "@ + t@,
        Error::LambdaMissingExpression => "lambda require at least one expression"@,
        Error::MisplacedMacroKeyword(t) => "misplaced macro keyword "@ + t@,
        Error::UnknownProcedure(t) => "unknown procedure "@ + t@,
        Error::VariableNotBound(t) => "variable "@ + t@ + " not bound"@,
        Error::UnquotedNil => "invalid syntax: () must be quoted"@,
    }
}


/// The machine's mathematical state: its heap and registers.
pub ghost struct VmModel {
    pub heap: HeapModel,
    pub stack: Seq<VCell>,
    pub acc: VCell,
    pub ep: usize,
    pub ip0: usize,
    pub ip1: usize,
    pub bp: usize,
}

/// A usable machine: the heap is well-formed and the accumulator holds a
/// reifiable value, never a bare pair.
pub open spec fn vm_wf(m: VmModel) -> bool {
    &&& m.heap.wf()
    &&& exists|a: Ast| value_rep(m.heap, m.acc, a)
    &&& !(m.acc is Pair)
}

/// Why a run failed.
pub ghost enum RunIssue {
    Bad,
    TypeErr(Seq<char>),
}

/// The tag name of a value, as the machine reports it in type errors.
pub open spec fn ast_type_text(a: Ast) -> Seq<char> {
    match a {
        Ast::Undefined => "undefined"@,
        Ast::Void => "void"@,
        Ast::Nil => "()"@,
        Ast::Bool(_) => "bool"@,
        Ast::Number(_) => "fixednum"@,
        Ast::Symbol(_) => "symbol"@,
        Ast::Pair(_, _) => "pair"@,
    }
}

/// The abstract machine over plan items: `Quote` loads its operand, `Car`
/// and `Cdr` step into a pair in the accumulator or fail with a type error,
/// and `Halt` yields the accumulator; anything else is invalid bytecode.
pub open spec fn arun(items: Seq<PlanItem>, pc: int, acc: Ast) -> Result<Ast, RunIssue>
    decreases items.len() - pc,
{
    if pc < 0 || pc >= items.len() {
        Err(RunIssue::Bad)
    } else {
        match items[pc] {
            PlanItem::Op(op) => {
                match op {
                    OpCode::Halt => Ok(acc),
                    OpCode::Quote => {
                        if pc + 1 < items.len() && items[pc + 1] is Quoted {
                            arun(items, pc + 2, items[pc + 1]->Quoted_0)
                        } else {
                            Err(RunIssue::Bad)
                        }
                    },
                    OpCode::Car => {
                        match acc {
                            Ast::Pair(a, _) => arun(items, pc + 1, *a),
                            _ => Err(RunIssue::TypeErr(ast_type_text(acc))),
                        }
                    },
                    OpCode::Cdr => {
                        match acc {
                            Ast::Pair(_, d) => arun(items, pc + 1, *d),
                            _ => Err(RunIssue::TypeErr(ast_type_text(acc))),
                        }
                    },
                }
            },
            PlanItem::Quoted(_) => Err(RunIssue::Bad),
        }
    }
}

/// Why an evaluation failed: at compile time or while running.
pub ghost enum EvalIssue {
    Compile(CompIssue),
    Run(RunIssue),
}

/// What evaluating an expression yields: compile it, run the program from
/// its start with an undefined accumulator, and reify the result.
pub open spec fn aeval(c: Ast) -> Result<Ast, EvalIssue> {
    match compile_plan(c) {
        Ok(items) => match arun(items, 0, Ast::Undefined) {
            Ok(a) => Ok(a),
            Err(ri) => Err(EvalIssue::Run(ri)),
        },
        Err(ci) => Err(EvalIssue::Compile(ci)),
    }
}

/// The error each evaluation failure is reported as.
pub open spec fn eval_issue_ok(i: EvalIssue, e: Error) -> bool {
    match i {
        EvalIssue::Compile(ci) => comp_issue_ok(ci, e),
        EvalIssue::Run(RunIssue::Bad) => e is InvalidBytecode,
        EvalIssue::Run(RunIssue::TypeErr(t)) => e matches Error::ExpectedType(ex, f) && ex@
            == "pair"@ && f@ == t,
    }
}

/// A value that is not a pointer carries the same tag as its value; a pair
/// value in a slot points at representations of its two sides.
proof fn lemma_rep_kind(m: HeapModel, v: VCell, a: Ast)
    requires
        value_rep(m, v, a),
        !(v is Ptr),
    ensures
        crate::vcell::type_text_of(v) == ast_type_text(a),
        (v is Pair) <==> (a is Pair),
        (v is Pair && a is Pair) ==> value_rep(m, VCell::Ptr(v->Pair_0), *a->Pair_0) && value_rep(
            m,
            VCell::Ptr(v->Pair_1),
            *a->Pair_1,
        ),
{
    match v {
        VCell::Undefined => {},
        VCell::Void => {},
        VCell::Nil => {},
        VCell::Bool(_) => {},
        VCell::FixedNum(_) => {},
        VCell::Symbol(_) => {},
        VCell::Pair(_, _) => {},
        _ => {},
    }
}

/// The registers other than the instruction pointer are untouched.
pub open spec fn regs_unchanged(m0: VmModel, m1: VmModel) -> bool {
    &&& m1.stack == m0.stack
    &&& m1.acc == m0.acc
    &&& m1.ep == m0.ep
    &&& m1.ip0 == m0.ip0
    &&& m1.ip1 == m0.ip1
    &&& m1.bp == m0.bp
}

/// The register and stack state of the virtual machine: an accumulator, an
/// instruction pointer naming the program's heap slot and an offset within
/// it, an environment pointer, a base pointer, a stack, and the heap.
#[derive(Debug)]
pub struct Vm {
    heap: Heap,
    stack: Vec<VCell>,
    acc: VCell,
    ep: usize,
    ip: (usize, usize),
    bp: usize,
}

impl View for Vm {
    type V = VmModel;

    closed spec fn view(&self) -> VmModel {
        VmModel {
            heap: self.heap@,
            stack: self.stack@,
            acc: self.acc,
            ep: self.ep,
            ip0: self.ip.0,
            ip1: self.ip.1,
            bp: self.bp,
        }
    }
}

/// The number of heap slots a machine starts with.
pub const HEAP_SIZE: usize = 1024;

impl Vm {
    /// A fresh machine: a heap of `HEAP_SIZE` free slots, an empty stack,
    /// an undefined accumulator, and no active frame.
    pub fn new() -> (r: Vm)
        ensures
            vm_wf(r@),
            r@.heap.cells.len() == HEAP_SIZE,
            r@.heap.free.len() == HEAP_SIZE,
            r@.heap.syms.len() == 0,
            r@.stack.len() == 0,
            r@.acc == VCell::Undefined,
            r@.ep == usize::MAX,
            r@.ip0 == usize::MAX,
            r@.ip1 == 0,
            r@.bp == 0,
    {
        let r = Vm {
            heap: Heap::new(HEAP_SIZE),
            ip: (usize::MAX, 0),
            stack: Vec::new(),
            ep: usize::MAX,
            acc: VCell::undefined(),
            bp: 0,
        };
        proof {
            assert(value_rep(r@.heap, r@.acc, Ast::Undefined));
        }
        r
    }
}

impl Vm {
    /// How many free heap slots remain; an embedder checks this before
    /// evaluating, since running out of slots is fatal.
    pub fn free_slots(&self) -> (r: usize)
        ensures
            r == self@.heap.free.len(),
    {
        self.heap.free_list_len()
    }
}

impl Default for Vm {
    fn default() -> (r: Self)
        ensures
            vm_wf(r@),
            r@.heap.cells.len() == HEAP_SIZE,
    {
        Self::new()
    }
}


impl Vm {
    /// Emit `Quote` and a pointer to the materialized datum.
    pub fn compile_quote(&mut self, bc: &mut Vec<VCell>, cell: &Cell) -> (r: Result<(), Error>)
        requires
            old(self)@.heap.wf(),
            old(self)@.heap.free.len() >= node_count(cell@),
        ensures
            final(self)@.heap.wf(),
            heap_extends(old(self)@.heap, final(self)@.heap),
            final(self)@.heap.free.len() >= old(self)@.heap.free.len() - node_count(cell@),
            regs_unchanged(old(self)@, final(self)@),
            r is Ok,
            final(bc)@.len() == old(bc)@.len() + 2,
            forall|j: int| 0 <= j < old(bc)@.len() ==> final(bc)@[j] == old(bc)@[j],
            seg_matches(
                final(self)@.heap,
                final(bc)@,
                old(bc)@.len() as int,
                seq![PlanItem::Op(OpCode::Quote), PlanItem::Quoted(cell@)],
            ),
    {
        bc.push(VCell::OpCode(OpCode::Quote));
        let p = self.heap.put_cell(cell);
        bc.push(p);
        Ok(())
    }

    /// Compile the argument, then emit `Car`.
    pub fn compile_car(&mut self, bc: &mut Vec<VCell>, cdr: &Cell) -> (r: Result<(), Error>)
        requires
            old(self)@.heap.wf(),
            old(self)@.heap.free.len() >= node_count(cdr@),
        ensures
            final(self)@.heap.wf(),
            heap_extends(old(self)@.heap, final(self)@.heap),
            final(self)@.heap.free.len() >= old(self)@.heap.free.len() - node_count(cdr@),
            regs_unchanged(old(self)@, final(self)@),
            match expr_plan(cdr@) {
                Ok(items) => {
                    &&& r is Ok
                    &&& final(bc)@.len() == old(bc)@.len() + items.len() + 1
                    &&& forall|j: int| 0 <= j < old(bc)@.len() ==> final(bc)@[j] == old(bc)@[j]
                    &&& seg_matches(
                        final(self)@.heap,
                        final(bc)@,
                        old(bc)@.len() as int,
                        items.push(PlanItem::Op(OpCode::Car)),
                    )
                },
                Err(issue) => r matches Err(e) && comp_issue_ok(issue, e) && final(self)@ == old(
                    self,
                )@ && final(bc)@ == old(bc)@,
            },
        decreases node_count(cdr@), 1int,
    {
        let rr = self.compile_expression(bc, cdr);
        match rr {
            Err(e) => Err(e),
            Ok(()) => {
                bc.push(VCell::OpCode(OpCode::Car));
                Ok(())
            },
        }
    }

    /// Compile the argument, then emit `Cdr`.
    pub fn compile_cdr(&mut self, bc: &mut Vec<VCell>, cdr: &Cell) -> (r: Result<(), Error>)
        requires
            old(self)@.heap.wf(),
            old(self)@.heap.free.len() >= node_count(cdr@),
        ensures
            final(self)@.heap.wf(),
            heap_extends(old(self)@.heap, final(self)@.heap),
            final(self)@.heap.free.len() >= old(self)@.heap.free.len() - node_count(cdr@),
            regs_unchanged(old(self)@, final(self)@),
            match expr_plan(cdr@) {
                Ok(items) => {
                    &&& r is Ok
                    &&& final(bc)@.len() == old(bc)@.len() + items.len() + 1
                    &&& forall|j: int| 0 <= j < old(bc)@.len() ==> final(bc)@[j] == old(bc)@[j]
                    &&& seg_matches(
                        final(self)@.heap,
                        final(bc)@,
                        old(bc)@.len() as int,
                        items.push(PlanItem::Op(OpCode::Cdr)),
                    )
                },
                Err(issue) => r matches Err(e) && comp_issue_ok(issue, e) && final(self)@ == old(
                    self,
                )@ && final(bc)@ == old(bc)@,
            },
        decreases node_count(cdr@), 1int,
    {
        let rr = self.compile_expression(bc, cdr);
        match rr {
            Err(e) => Err(e),
            Ok(()) => {
                bc.push(VCell::OpCode(OpCode::Cdr));
                Ok(())
            },
        }
    }

    /// Compile one expression: a number quotes itself; `(quote d)`, `(car e)`
    /// and `(cdr e)` dispatch on the head symbol; anything else is an unknown
    /// procedure.
    pub fn compile_expression(&mut self, bc: &mut Vec<VCell>, cell: &Cell) -> (r: Result<
        (),
        Error,
    >)
        requires
            old(self)@.heap.wf(),
            old(self)@.heap.free.len() >= node_count(cell@),
        ensures
            final(self)@.heap.wf(),
            heap_extends(old(self)@.heap, final(self)@.heap),
            final(self)@.heap.free.len() >= old(self)@.heap.free.len() - node_count(cell@),
            regs_unchanged(old(self)@, final(self)@),
            match expr_plan(cell@) {
                Ok(items) => {
                    &&& r is Ok
                    &&& final(bc)@.len() == old(bc)@.len() + items.len()
                    &&& forall|j: int| 0 <= j < old(bc)@.len() ==> final(bc)@[j] == old(bc)@[j]
                    &&& seg_matches(final(self)@.heap, final(bc)@, old(bc)@.len() as int, items)
                },
                Err(issue) => r matches Err(e) && comp_issue_ok(issue, e) && final(self)@ == old(
                    self,
                )@ && final(bc)@ == old(bc)@,
            },
        decreases node_count(cell@), 0int,
    {
        proof {
            crate::heap::lemma_extends_refl(old(self)@.heap);
        }
        match cell {
            Cell::Pair(car0, cdr0) => {
                let car = &**car0;
                let cdr = &**cdr0;
                proof {
                    crate::transform::lemma_node_count_pos(car@);
                    crate::transform::lemma_node_count_pos(cdr@);
                }
                let q = Cell::symbol("quote");
                let ca = Cell::symbol("car");
                let cd = Cell::symbol("cdr");
                if car.same(&q) {
                    match cdr {
                        Cell::Pair(a, _) => self.compile_quote(bc, &**a),
                        other => {
                            proof {
                                crate::cell::lemma_view_variants(*other);
                            }
                            Err(Error::ExpectedPairButFound(other.to_text()))
                        },
                    }
                } else if car.same(&ca) {
                    match cdr {
                        Cell::Pair(a, _) => self.compile_car(bc, &**a),
                        other => {
                            proof {
                                crate::cell::lemma_view_variants(*other);
                            }
                            Err(Error::ExpectedPairButFound(other.to_text()))
                        },
                    }
                } else if car.same(&cd) {
                    match cdr {
                        Cell::Pair(a, _) => self.compile_cdr(bc, &**a),
                        other => {
                            proof {
                                crate::cell::lemma_view_variants(*other);
                            }
                            Err(Error::ExpectedPairButFound(other.to_text()))
                        },
                    }
                } else {
                    Err(Error::UnknownProcedure(car.to_text()))
                }
            },
            Cell::Number(_) => self.compile_quote(bc, cell),
            other => {
                proof {
                    crate::cell::lemma_view_variants(*other);
                }
                Err(Error::UnknownProcedure(other.to_text()))
            },
        }
    }

    /// Translate an expression into an opcode sequence ending in one `Halt`.
    pub fn compile(&mut self, cell: &Cell) -> (r: Result<Vec<VCell>, Error>)
        requires
            old(self)@.heap.wf(),
            old(self)@.heap.free.len() >= node_count(cell@),
        ensures
            final(self)@.heap.wf(),
            heap_extends(old(self)@.heap, final(self)@.heap),
            final(self)@.heap.free.len() >= old(self)@.heap.free.len() - node_count(cell@),
            regs_unchanged(old(self)@, final(self)@),
            match compile_plan(cell@) {
                Ok(items) => r matches Ok(bc) && prog_matches(final(self)@.heap, bc@, items),
                Err(issue) => r matches Err(e) && comp_issue_ok(issue, e) && final(self)@ == old(
                    self,
                )@,
            },
    {
        let mut bc: Vec<VCell> = Vec::new();
        match self.compile_expression(&mut bc, cell) {
            Err(e) => Err(e),
            Ok(()) => {
                bc.push(VCell::OpCode(OpCode::Halt));
                Ok(bc)
            },
        }
    }
}


impl Vm {
    /// Fetch and execute opcodes until `Halt`, then reify the accumulator.
    /// The program is the `Lambda` slot the instruction pointer names, and
    /// realizes `items`; the accumulator holds the representation of `a0`.
    #[verifier::loop_isolation(false)]
    fn run(&mut self, Ghost(items): Ghost<Seq<PlanItem>>, Ghost(a0): Ghost<Ast>) -> (r: Result<
        Cell,
        Error,
    >)
        requires
            old(self)@.heap.wf(),
            old(self)@.ip0 < old(self)@.heap.cells.len(),
            old(self)@.heap.cells[old(self)@.ip0 as int] is Lambda,
            prog_matches(
                old(self)@.heap,
                old(self)@.heap.cells[old(self)@.ip0 as int]->Lambda_0@,
                items,
            ),
            value_rep(old(self)@.heap, old(self)@.acc, a0),
            !(old(self)@.acc is Pair),
        ensures
            final(self)@.heap == old(self)@.heap,
            final(self)@.stack == old(self)@.stack,
            final(self)@.ep == old(self)@.ep,
            final(self)@.bp == old(self)@.bp,
            final(self)@.ip0 == old(self)@.ip0,
            vm_wf(final(self)@),
            match arun(items, old(self)@.ip1 as int, a0) {
                Ok(a) => r matches Ok(c) && c@ == a,
                Err(RunIssue::Bad) => r matches Err(e) && e is InvalidBytecode,
                Err(RunIssue::TypeErr(t)) => r matches Err(e) && (e matches Error::ExpectedType(
                    ex,
                    f,
                ) && ex@ == "pair"@ && f@ == t),
            },
    {
        let ghost m = self@.heap;
        let ghost start = self@.ip1 as int;
        let ghost mut aacc: Ast = a0;
        let ip0 = self.ip.0;
        loop
            invariant
                self@.heap == m,
                self@.stack == old(self)@.stack,
                self@.ep == old(self)@.ep,
                self@.bp == old(self)@.bp,
                self@.ip0 == old(self)@.ip0,
                ip0 == self@.ip0,
                value_rep(m, self@.acc, aacc),
                !(self@.acc is Pair),
                arun(items, self@.ip1 as int, aacc) == arun(items, start, a0),
            decreases (if self@.ip1 <= items.len() {
                items.len() as int - self@.ip1 as int
            } else {
                0int
            }),
        {
            let ip1 = self.ip.1;
            let mut bad = false;
            let mut opcode: Option<OpCode> = None;
            let mut quote_operand: Option<VCell> = None;
            match self.heap.get_at_index(ip0) {
                VCell::Lambda(prog) => {
                    if ip1 >= prog.len() {
                        bad = true;
                    } else {
                        match &prog[ip1] {
                            VCell::OpCode(op) => {
                                opcode = Some(*op);
                                if let OpCode::Quote = op {
                                    if ip1 + 1 < prog.len() {
                                        match &prog[ip1 + 1] {
                                            VCell::Ptr(p) => {
                                                quote_operand = Some(VCell::Ptr(*p));
                                            },
                                            _ => {
                                                bad = true;
                                            },
                                        }
                                    } else {
                                        bad = true;
                                    }
                                }
                            },
                            _ => {
                                bad = true;
                            },
                        }
                    }
                },
                _ => {
                    proof {
                        assert(false);
                    }
                },
            }
            if bad {
                return Err(Error::InvalidBytecode);
            }
            let op = match opcode {
                Some(o) => o,
                None => vstd::pervasive::unreached(),
            };
            match op {
                OpCode::Halt => {
                    let c = self.heap.get_as_cell(&self.acc);
                    proof {
                        crate::heap::lemma_rep_unique(m, self@.acc, c@, aacc);
                    }
                    return Ok(c);
                },
                OpCode::Quote => {
                    let v = match quote_operand {
                        Some(v) => v,
                        None => vstd::pervasive::unreached(),
                    };
                    self.acc = v;
                    self.ip.1 = ip1 + 2;
                    proof {
                        assert(items[ip1 as int + 1] is Quoted);
                        aacc = items[ip1 as int + 1]->Quoted_0;
                    }
                },
                _ => {
                    // Car or Cdr: the accumulator must reference a pair.
                    let is_car = match op {
                        OpCode::Car => true,
                        _ => false,
                    };
                    let ptr: Option<usize> = match &self.acc {
                        VCell::Ptr(p) => Some(*p),
                        _ => None,
                    };
                    match ptr {
                        None => {
                            proof {
                                lemma_rep_kind(m, self@.acc, aacc);
                            }
                            return Err(Error::ExpectedType("pair", self.acc.type_text()));
                        },
                        Some(p) => {
                            let mut fields: Option<(usize, usize)> = None;
                            let mut found: &'static str = "";
                            match self.heap.get_at_index(p) {
                                VCell::Pair(x, y) => {
                                    fields = Some((*x, *y));
                                },
                                other => {
                                    found = other.type_text();
                                },
                            }
                            proof {
                                assert(value_rep(m, m.cells[p as int], aacc));
                                lemma_rep_kind(m, m.cells[p as int], aacc);
                            }
                            match fields {
                                Some((x, y)) => {
                                    self.acc = VCell::Ptr(if is_car {
                                        x
                                    } else {
                                        y
                                    });
                                    self.ip.1 = ip1 + 1;
                                    proof {
                                        aacc = if is_car {
                                            *aacc->Pair_0
                                        } else {
                                            *aacc->Pair_1
                                        };
                                    }
                                },
                                None => {
                                    return Err(Error::ExpectedType("pair", found));
                                },
                            }
                        },
                    }
                },
            }
        }
    }

    /// Compile the expression, place the program on the heap, run it from
    /// offset zero, and reify the accumulator as the result.
    pub fn eval(&mut self, cell: &Cell) -> (r: Result<Cell, Error>)
        requires
            vm_wf(old(self)@),
            old(self)@.heap.free.len() >= node_count(cell@) + 1,
        ensures
            vm_wf(final(self)@),
            heap_extends(old(self)@.heap, final(self)@.heap),
            final(self)@.heap.free.len() >= old(self)@.heap.free.len() - node_count(cell@) - 1,
            match aeval(cell@) {
                Ok(a) => r matches Ok(c) && c@ == a,
                Err(i) => r matches Err(e) && eval_issue_ok(i, e),
            },
    {
        let ghost m0 = self@.heap;
        let bc = match self.compile(cell) {
            Ok(b) => b,
            Err(e) => {
                proof {
                    crate::heap::lemma_extends_refl(m0);
                }
                return Err(e);
            },
        };
        let ghost m1 = self@.heap;
        let ghost items = compile_plan(cell@)->Ok_0;
        let ghost bcv = bc@;
        let lam = self.heap.put(VCell::Lambda(bc));
        let ghost m2 = self@.heap;
        let p = match lam {
            VCell::Ptr(p) => p,
            _ => vstd::pervasive::unreached(),
        };
        proof {
            assert(m1.free_slot_ok(m1.free[m1.free.len() - 1]));
            crate::compile::lemma_seg_frame(m1, m2, bcv, 0, items);
            assert(m2.cells[p as int]->Lambda_0@ == bcv);
            crate::heap::lemma_extends_trans(m0, m1, m2);
        }
        self.ip.0 = p;
        self.ip.1 = 0;
        self.acc = VCell::Undefined;
        proof {
            assert(value_rep(m2, VCell::Undefined, Ast::Undefined));
        }
        let r = self.run(Ghost(items), Ghost(Ast::Undefined));
        r
    }

    /// How many free slots a sequence of forms needs at most.
    pub open spec fn forms_need(s: Seq<Cell>) -> nat
        decreases s.len(),
    {
        if s.len() == 0 {
            0
        } else {
            node_count(s[0]@) + 1 + Self::forms_need(s.drop_first())
        }
    }

    /// What loading a sequence of forms yields: each is evaluated in order,
    /// stopping at the first failure.
    pub open spec fn spec_load(s: Seq<Cell>) -> Result<(), EvalIssue>
        decreases s.len(),
    {
        if s.len() == 0 {
            Ok(())
        } else {
            match aeval(s[0]@) {
                Ok(_) => Self::spec_load(s.drop_first()),
                Err(i) => Err(i),
            }
        }
    }

    /// Evaluate a sequence of already parsed prelude forms in order,
    /// stopping at the first failure.
    #[verifier::loop_isolation(false)]
    pub fn load_prelude(&mut self, forms: &Vec<Cell>) -> (r: Result<(), Error>)
        requires
            vm_wf(old(self)@),
            old(self)@.heap.free.len() >= Self::forms_need(forms@),
        ensures
            vm_wf(final(self)@),
            heap_extends(old(self)@.heap, final(self)@.heap),
            match Self::spec_load(forms@) {
                Ok(()) => r is Ok,
                Err(i) => r matches Err(e) && eval_issue_ok(i, e),
            },
    {
        let ghost m0 = self@.heap;
        let mut i: usize = 0;
        proof {
            crate::heap::lemma_extends_refl(m0);
            assert(forms@.skip(0) =~= forms@);
        }
        while i < forms.len()
            invariant
                i <= forms.len(),
                vm_wf(self@),
                heap_extends(m0, self@.heap),
                self@.heap.free.len() >= Self::forms_need(forms@.skip(i as int)),
                Self::spec_load(forms@) == Self::spec_load(forms@.skip(i as int)),
            decreases forms.len() - i,
        {
            proof {
                let tail = forms@.skip(i as int);
                assert(tail[0] == forms@[i as int]);
                assert(tail.drop_first() =~= forms@.skip(i + 1));
                assert(Self::forms_need(tail) == node_count(tail[0]@) + 1 + Self::forms_need(
                    tail.drop_first(),
                ));
            }
            let ghost pre = self@.heap;
            match self.eval(&forms[i]) {
                Ok(_) => {
                    proof {
                        crate::heap::lemma_extends_trans(m0, pre, self@.heap);
                    }
                },
                Err(e) => {
                    proof {
                        crate::heap::lemma_extends_trans(m0, pre, self@.heap);
                    }
                    return Err(e);
                },
            }
            i = i + 1;
        }
        proof {
            assert(forms@.skip(forms.len() as int) =~= Seq::<Cell>::empty());
        }
        Ok(())
    }
}

} // verus!



