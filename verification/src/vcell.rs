//! Heap-resident tagged values: atoms, interned symbols, pairs of slot
//! indices, opcodes, heap pointers, and the sentinels the virtual machine
//! computes with.

use crate::cell::{dec_text, i64_text, int_text, u64_text};
use vstd::prelude::*;
use vstd::string::StringExecFns;

verus! {

broadcast use vstd::std_specs::vec::axiom_vec_index_decreases;

/// A virtual machine instruction kind. `Quote` is followed by exactly one
/// operand slot; the others stand alone.
#[derive(Clone, Copy, Debug, PartialEq, Eq, Structural)]
pub enum OpCode {
    Car,
    Cdr,
    Halt,
    Quote,
}

/// The garbage collector's per-slot state. `Used` only exists between a mark
/// and the sweep that follows it.
#[derive(Clone, Copy, Debug, PartialEq, Eq, Structural)]
pub enum State {
    Free,
    Allocated,
    Used,
}

/// A heap value. A `Ptr` never points at another `Ptr`, and a `Pair`'s fields
/// are raw slot indices. A compiled program lives on the heap as one
/// `Lambda` value so the instruction pointer can name its slot.
#[derive(Debug)]
pub enum VCell {
    Undefined,
    Void,
    Nil,
    Bool(bool),
    FixedNum(i64),
    Symbol(String),
    Ptr(usize),
    Pair(usize, usize),
    OpCode(OpCode),
    Acc,
    EnvSlot(usize),
    Lambda(Vec<VCell>),
}

/// Structural equality of heap values: symbols by name, programs element by
/// element.
pub open spec fn vcell_eq(a: VCell, b: VCell) -> bool
    decreases a,
{
    match (a, b) {
        (VCell::Undefined, VCell::Undefined) => true,
        (VCell::Void, VCell::Void) => true,
        (VCell::Nil, VCell::Nil) => true,
        (VCell::Bool(x), VCell::Bool(y)) => x == y,
        (VCell::FixedNum(x), VCell::FixedNum(y)) => x == y,
        (VCell::Symbol(x), VCell::Symbol(y)) => x@ == y@,
        (VCell::Ptr(x), VCell::Ptr(y)) => x == y,
        (VCell::Pair(x1, y1), VCell::Pair(x2, y2)) => x1 == x2 && y1 == y2,
        (VCell::OpCode(x), VCell::OpCode(y)) => x == y,
        (VCell::Acc, VCell::Acc) => true,
        (VCell::EnvSlot(x), VCell::EnvSlot(y)) => x == y,
        (VCell::Lambda(u), VCell::Lambda(v)) => u@.len() == v@.len() && (forall|i: int|
            0 <= i < u@.len() ==> vcell_eq(#[trigger] u@[i], v@[i])),
        _ => false,
    }
}

impl PartialEq for VCell {
    fn eq(&self, other: &VCell) -> (r: bool) {
        self.same(other)
    }
}

impl vstd::std_specs::cmp::PartialEqSpecImpl for VCell {
    open spec fn obeys_eq_spec() -> bool {
        true
    }

    open spec fn eq_spec(&self, other: &VCell) -> bool {
        vcell_eq(*self, *other)
    }
}

impl VCell {
    /// Structural equality: the same tag and the same contents.
    #[verifier::loop_isolation(false)]
    pub fn same(&self, other: &VCell) -> (r: bool)
        ensures
            r == vcell_eq(*self, *other),
        decreases *self,
    {
        match (self, other) {
            (VCell::Undefined, VCell::Undefined) => true,
            (VCell::Void, VCell::Void) => true,
            (VCell::Nil, VCell::Nil) => true,
            (VCell::Bool(x), VCell::Bool(y)) => *x == *y,
            (VCell::FixedNum(x), VCell::FixedNum(y)) => *x == *y,
            (VCell::Symbol(x), VCell::Symbol(y)) => *x == *y,
            (VCell::Ptr(x), VCell::Ptr(y)) => *x == *y,
            (VCell::Pair(x1, y1), VCell::Pair(x2, y2)) => *x1 == *x2 && *y1 == *y2,
            (VCell::OpCode(x), VCell::OpCode(y)) => *x == *y,
            (VCell::Acc, VCell::Acc) => true,
            (VCell::EnvSlot(x), VCell::EnvSlot(y)) => *x == *y,
            (VCell::Lambda(u), VCell::Lambda(v)) => {
                if u.len() != v.len() {
                    false
                } else {
                    let mut i: usize = 0;
                    let mut ok = true;
                    while i < u.len()
                        invariant
                            i <= u.len(),
                            u@.len() == v@.len(),
                            ok == (forall|j: int| 0 <= j < i ==> vcell_eq(#[trigger] u@[j], v@[j])),
                        decreases u@.len() - i,
                    {
                        proof {
                            vstd::std_specs::vec::axiom_vec_index_decreases::<VCell>(*u, i as int);
                        }
                        let e = (&u[i]).same(&v[i]);
                        ok = ok && e;
                        i = i + 1;
                    }
                    ok
                }
            },
            _ => false,
        }
    }

    pub fn undefined() -> (r: VCell)
        ensures
            r == VCell::Undefined,
    {
        VCell::Undefined
    }

    pub fn ptr(p: usize) -> (r: VCell)
        ensures
            r == VCell::Ptr(p),
    {
        VCell::Ptr(p)
    }

    pub fn symbol(name: &str) -> (r: VCell)
        ensures
            r is Symbol && r->Symbol_0@ == name@,
    {
        VCell::Symbol(String::from_str(name))
    }

    /// The slot index carried by a `Ptr`.
    pub fn as_ptr(&self) -> (r: Option<usize>)
        ensures
            r == (match *self {
                VCell::Ptr(p) => Some(p),
                _ => None::<usize>,
            }),
    {
        match self {
            VCell::Ptr(p) => Some(*p),
            _ => None,
        }
    }

    /// A short name for the tag, used in error messages.
    pub fn type_text(&self) -> (s: &'static str)
        ensures
            s@ == type_text_of(*self),
    {
        match self {
            VCell::Undefined => "undefined",
            VCell::Void => "void",
            VCell::Nil => "()",
            VCell::Bool(_) => "bool",
            VCell::FixedNum(_) => "fixednum",
            VCell::Symbol(_) => "symbol",
            VCell::Ptr(_) => "ptr",
            VCell::Pair(_, _) => "pair",
            VCell::OpCode(_) => "opcode",
            VCell::Acc => "acc",
            VCell::EnvSlot(_) => "envslot",
            VCell::Lambda(_) => "lambda",
        }
    }

    /// A single-line text form, used by the disassembler.
    pub fn to_text(&self) -> (s: String)
        ensures
            s@ == vcell_text(*self),
    {
        match self {
            VCell::Undefined => String::from_str("#<undefined>"),
            VCell::Void => String::from_str("#<void>"),
            VCell::Nil => String::from_str("()"),
            VCell::Bool(b) => {
                if *b {
                    String::from_str("#t")
                } else {
                    String::from_str("#f")
                }
            },
            VCell::FixedNum(n) => i64_text(*n),
            VCell::Symbol(s) => s.clone(),
            VCell::Ptr(p) => {
                let mut s = String::from_str("$");
                s.append(usize_text(*p).as_str());
                s
            },
            VCell::Pair(a, d) => {
                let mut s = String::from_str("($");
                s.append(usize_text(*a).as_str());
                proof {
                    seq_assoc_3::<char>("($"@, dec_text(*a as nat), " . $"@);
                }
                s.append(" . $");
                s.append(usize_text(*d).as_str());
                proof {
                    seq_assoc_3::<char>("($"@ + dec_text(*a as nat) + " . $"@, dec_text(
                        *d as nat), ")"@);
                }
                s.append(")");
                s
            },
            VCell::OpCode(op) => {
                match op {
                    OpCode::Car => String::from_str("CAR"),
                    OpCode::Cdr => String::from_str("CDR"),
                    OpCode::Halt => String::from_str("HALT"),
                    OpCode::Quote => String::from_str("QUOTE"),
                }
            },
            VCell::Acc => String::from_str("%acc"),
            VCell::EnvSlot(n) => {
                let mut s = String::from_str("env[");
                s.append(usize_text(*n).as_str());
                proof {
                    seq_assoc_3::<char>("env["@, dec_text(*n as nat), "]"@);
                }
                s.append("]");
                s
            },
            VCell::Lambda(_) => String::from_str("#<lambda>"),
        }
    }
}

/// Appending sequences in either grouping gives the same sequence.
pub proof fn seq_assoc_3<T>(a: Seq<T>, b: Seq<T>, c: Seq<T>)
    ensures
        (a + b) + c == a + (b + c),
{
    assert((a + b) + c =~= a + (b + c));
}

pub open spec fn type_text_of(v: VCell) -> Seq<char> {
    match v {
        VCell::Undefined => "undefined"@,
        VCell::Void => "void"@,
        VCell::Nil => "()"@,
        VCell::Bool(_) => "bool"@,
        VCell::FixedNum(_) => "fixednum"@,
        VCell::Symbol(_) => "symbol"@,
        VCell::Ptr(_) => "ptr"@,
        VCell::Pair(_, _) => "pair"@,
        VCell::OpCode(_) => "opcode"@,
        VCell::Acc => "acc"@,
        VCell::EnvSlot(_) => "envslot"@,
        VCell::Lambda(_) => "lambda"@,
    }
}

pub open spec fn vcell_text(v: VCell) -> Seq<char> {
    match v {
        VCell::Undefined => "#<undefined>"@,
        VCell::Void => "#<void>"@,
        VCell::Nil => "()"@,
        VCell::Bool(b) => if b {
            "#t"@
        } else {
            "#f"@
        },
        VCell::FixedNum(n) => int_text(n as int),
        VCell::Symbol(s) => s@,
        VCell::Ptr(p) => "$"@ + dec_text(p as nat),
        VCell::Pair(a, d) => "($"@ + dec_text(a as nat) + " . $"@ + dec_text(d as nat) + ")"@,
        VCell::OpCode(op) => opcode_text(op),
        VCell::Acc => "%acc"@,
        VCell::EnvSlot(n) => "env["@ + dec_text(n as nat) + "]"@,
        VCell::Lambda(_) => "#<lambda>"@,
    }
}

pub open spec fn opcode_text(op: OpCode) -> Seq<char> {
    match op {
        OpCode::Car => "CAR"@,
        OpCode::Cdr => "CDR"@,
        OpCode::Halt => "HALT"@,
        OpCode::Quote => "QUOTE"@,
    }
}

/// The decimal text of a slot index.
pub fn usize_text(n: usize) -> (s: String)
    ensures
        s@ == dec_text(n as nat),
{
    u64_text(n as u64)
}

} // verus!
