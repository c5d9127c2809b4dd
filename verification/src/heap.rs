//! The value heap: a slab of tagged cells with explicit allocation, symbol
//! interning, and a precise mark-and-sweep collector driven from roots the
//! caller names.

use crate::cell::{Ast, Cell};
use crate::gc::{alloc_indices, edge, lemma_mark_child_pre, lemma_mark_compose, lemma_mark_finish,
    lemma_mark_one_wf, lemma_mark_root_progress, lemma_reach_self, lemma_sweep_free_step,
    lemma_unmarked_mono, lemma_unmarked_update};
use crate::vcell::{State, VCell};
use vstd::prelude::*;
use vstd::seq_lib::*;

verus! {

/// The mathematical state of a heap: slot contents, per-slot collector
/// states, the free list, and the intern table as a key/slot association in
/// insertion order.
pub ghost struct HeapModel {
    pub cells: Seq<VCell>,
    pub states: Seq<State>,
    pub free: Seq<usize>,
    pub syms: Seq<(Seq<char>, usize)>,
}

/// Does the association hold the key `s`?
pub open spec fn has_key(syms: Seq<(Seq<char>, usize)>, s: Seq<char>) -> bool {
    exists|k: int| 0 <= k < syms.len() && (#[trigger] syms[k]).0 == s
}

/// The position of the entry with key `s`.
pub open spec fn key_index(syms: Seq<(Seq<char>, usize)>, s: Seq<char>) -> int {
    choose|k: int| 0 <= k < syms.len() && (#[trigger] syms[k]).0 == s
}

/// The association without its entry for `s`, if it holds one.
pub open spec fn remove_key(syms: Seq<(Seq<char>, usize)>, s: Seq<char>) -> Seq<
    (Seq<char>, usize),
> {
    if has_key(syms, s) {
        syms.remove(key_index(syms, s))
    } else {
        syms
    }
}

impl HeapModel {
    pub open spec fn len(self) -> int {
        self.cells.len() as int
    }

    /// The canonical slot of an interned symbol.
    pub open spec fn sym_lookup(self, s: Seq<char>) -> Option<usize> {
        if has_key(self.syms, s) {
            Some(self.syms[key_index(self.syms, s)].1)
        } else {
            None
        }
    }

    pub open spec fn free_slot_ok(self, p: usize) -> bool {
        &&& p < self.cells.len()
        &&& self.states[p as int] is Free
        &&& self.cells[p as int] is Undefined
    }

    pub open spec fn sym_entry_ok(self, e: (Seq<char>, usize)) -> bool {
        &&& e.1 < self.cells.len()
        &&& !(self.states[e.1 as int] is Free)
        &&& self.cells[e.1 as int] is Symbol
        &&& self.cells[e.1 as int]->Symbol_0@ == e.0
    }

    /// Well-formedness: states parallel the slots; the free list holds
    /// distinct `Free` slots that hold `Undefined`, and every `Free` slot is
    /// on it; intern entries name live `Symbol` slots, one entry per name, and
    /// every live `Symbol` slot is interned under its own name.
    pub open spec fn wf(self) -> bool {
        &&& self.states.len() == self.cells.len()
        &&& forall|k: int|
            0 <= k < self.free.len() ==> self.free_slot_ok(#[trigger] self.free[k])
        &&& self.free.no_duplicates()
        &&& forall|i: int|
            0 <= i < self.states.len() && (#[trigger] self.states[i]) is Free
                ==> self.free.contains(i as usize)
        &&& forall|k: int| 0 <= k < self.syms.len() ==> self.sym_entry_ok(#[trigger] self.syms[k])
        &&& forall|k1: int, k2: int|
            0 <= k1 < self.syms.len() && 0 <= k2 < self.syms.len() && k1 != k2 ==> (
            #[trigger] self.syms[k1]).0 != (#[trigger] self.syms[k2]).0
        &&& forall|i: int|
            0 <= i < self.cells.len() && !((#[trigger] self.states[i]) is Free)
                && self.cells[i] is Symbol ==> has_key(self.syms, self.cells[i]->Symbol_0@)
                && self.syms[key_index(self.syms, self.cells[i]->Symbol_0@)].1 == i
    }
}

/// What `alloc` does: pop the end of the free list and mark the slot
/// `Allocated`.
pub open spec fn alloc_post(m0: HeapModel, m1: HeapModel, r: usize) -> bool {
    &&& m0.free.len() > 0
    &&& r == m0.free.last()
    &&& m1.free == m0.free.drop_last()
    &&& m1.cells == m0.cells
    &&& m1.states == m0.states.update(r as int, State::Allocated)
    &&& m1.syms == m0.syms
}

/// What `free` does: reset the state, drop an interned name, overwrite with
/// `Undefined`, and push the slot.
pub open spec fn free_post(m0: HeapModel, m1: HeapModel, p: usize) -> bool {
    &&& m1.states == m0.states.update(p as int, State::Free)
    &&& m1.cells == m0.cells.update(p as int, VCell::Undefined)
    &&& m1.free == m0.free.push(p)
    &&& m1.syms == (if m0.cells[p as int] is Symbol {
        remove_key(m0.syms, m0.cells[p as int]->Symbol_0@)
    } else {
        m0.syms
    })
}

/// What `put` does: hand back the canonical pointer of an interned symbol, or
/// allocate one slot, store the value, and intern a new symbol's name.
pub open spec fn put_post(m0: HeapModel, m1: HeapModel, v: VCell, r: VCell) -> bool {
    if v is Symbol && m0.sym_lookup(v->Symbol_0@) is Some {
        &&& m1 == m0
        &&& r == VCell::Ptr(m0.sym_lookup(v->Symbol_0@).unwrap())
    } else {
        &&& m0.free.len() > 0
        &&& r == VCell::Ptr(m0.free.last())
        &&& m1.cells == m0.cells.update(m0.free.last() as int, v)
        &&& m1.states == m0.states.update(m0.free.last() as int, State::Allocated)
        &&& m1.free == m0.free.drop_last()
        &&& m1.syms == (if v is Symbol {
            m0.syms.push((v->Symbol_0@, m0.free.last()))
        } else {
            m0.syms
        })
    }
}

/// A heap change that only fills previously free slots: live slots keep their
/// contents and states, no slot is freed, intern entries persist, and the free
/// list loses entries only from its end.
pub open spec fn heap_extends(m0: HeapModel, m1: HeapModel) -> bool {
    &&& m1.cells.len() == m0.cells.len()
    &&& m1.states.len() == m0.states.len()
    &&& forall|i: int|
        0 <= i < m0.cells.len() && !((#[trigger] m0.states[i]) is Free) ==> m1.cells[i]
            == m0.cells[i] && m1.states[i] == m0.states[i]
    &&& forall|i: int|
        0 <= i < m0.cells.len() && (#[trigger] m1.states[i]) is Free ==> m0.states[i] is Free
    &&& m0.syms.is_prefix_of(m1.syms)
    &&& m1.free.len() <= m0.free.len()
    &&& m1.free == m0.free.take(m1.free.len() as int)
}

/// How many slots a cell needs at most: one per node of the tree.
pub open spec fn node_count(a: Ast) -> nat
    decreases a,
{
    match a {
        Ast::Pair(x, y) => 1 + node_count(*x) + node_count(*y),
        _ => 1,
    }
}

/// `v` is the heap representation of the AST value `a`: atoms match in place,
/// a `Ptr` is followed once, and a pair's fields index the representations of
/// the children, every slot on the way live and free of nested `Ptr`s.
pub open spec fn value_rep(m: HeapModel, v: VCell, a: Ast) -> bool
    decreases a,
        (if v is Ptr {
            1int
        } else {
            0int
        }),
{
    match v {
        VCell::Ptr(p) => {
            &&& p < m.cells.len()
            &&& !(m.states[p as int] is Free)
            &&& !(m.cells[p as int] is Ptr)
            &&& value_rep(m, m.cells[p as int], a)
        },
        VCell::Undefined => a is Undefined,
        VCell::Void => a is Void,
        VCell::Nil => a is Nil,
        VCell::Bool(b) => a == Ast::Bool(b),
        VCell::FixedNum(n) => a == Ast::Number(n),
        VCell::Symbol(s) => a is Symbol && a->Symbol_0 == s@,
        VCell::Pair(x, y) => {
            &&& a is Pair
            &&& value_rep(m, VCell::Ptr(x), *a->Pair_0)
            &&& value_rep(m, VCell::Ptr(y), *a->Pair_1)
        },
        _ => false,
    }
}

/// The AST value a heap value represents, where one exists.
pub open spec fn rep_ast(m: HeapModel, v: VCell) -> Ast {
    choose|a: Ast| value_rep(m, v, a)
}

/// A heap value represents at most one AST value.
pub proof fn lemma_rep_unique(m: HeapModel, v: VCell, a1: Ast, a2: Ast)
    requires
        value_rep(m, v, a1),
        value_rep(m, v, a2),
    ensures
        a1 == a2,
    decreases a1,
        (if v is Ptr {
            1int
        } else {
            0int
        }),
{
    match v {
        VCell::Ptr(p) => {
            lemma_rep_unique(m, m.cells[p as int], a1, a2);
        },
        VCell::Pair(x, y) => {
            lemma_rep_unique(m, VCell::Ptr(x), *a1->Pair_0, *a2->Pair_0);
            lemma_rep_unique(m, VCell::Ptr(y), *a1->Pair_1, *a2->Pair_1);
        },
        _ => {},
    }
}

/// A representation survives a heap change that only fills free slots.
pub proof fn lemma_rep_frame(m0: HeapModel, m1: HeapModel, v: VCell, a: Ast)
    requires
        heap_extends(m0, m1),
        value_rep(m0, v, a),
    ensures
        value_rep(m1, v, a),
    decreases a,
        (if v is Ptr {
            1int
        } else {
            0int
        }),
{
    match v {
        VCell::Ptr(p) => {
            lemma_rep_frame(m0, m1, m0.cells[p as int], a);
        },
        VCell::Pair(x, y) => {
            lemma_rep_frame(m0, m1, VCell::Ptr(x), *a->Pair_0);
            lemma_rep_frame(m0, m1, VCell::Ptr(y), *a->Pair_1);
        },
        _ => {},
    }
}

/// A pointer to a live, unboxed slot represents what the slot represents.
pub proof fn lemma_rep_ptr(m: HeapModel, p: usize, a: Ast)
    requires
        p < m.cells.len(),
        !(m.states[p as int] is Free),
        !(m.cells[p as int] is Ptr),
        value_rep(m, m.cells[p as int], a),
    ensures
        value_rep(m, VCell::Ptr(p), a),
{
}

/// A pointer that represents a symbol names a live slot holding that symbol.
pub proof fn lemma_rep_symbol_slot(m: HeapModel, r: VCell, s: Seq<char>)
    requires
        r is Ptr,
        value_rep(m, r, Ast::Symbol(s)),
    ensures
        r->Ptr_0 < m.cells.len(),
        !(m.states[r->Ptr_0 as int] is Free),
        m.cells[r->Ptr_0 as int] is Symbol,
        m.cells[r->Ptr_0 as int]->Symbol_0@ == s,
{
    let p = r->Ptr_0;
    let inner = m.cells[p as int];
    assert(value_rep(m, inner, Ast::Symbol(s)));
    match inner {
        VCell::Symbol(_) => {},
        _ => {
            assert(false);
        },
    }
}

/// A pair slot whose fields represent the two children represents the pair.
pub proof fn lemma_rep_pair(m: HeapModel, x: usize, y: usize, a: Ast)
    requires
        a is Pair,
        value_rep(m, VCell::Ptr(x), *a->Pair_0),
        value_rep(m, VCell::Ptr(y), *a->Pair_1),
    ensures
        value_rep(m, VCell::Pair(x, y), a),
{
}

/// Extension is reflexive.
pub proof fn lemma_extends_refl(m: HeapModel)
    ensures
        heap_extends(m, m),
{
    assert(m.free =~= m.free.take(m.free.len() as int));
    assert(m.syms =~= m.syms.take(m.syms.len() as int));
}

/// Extension composes.
pub proof fn lemma_extends_trans(m0: HeapModel, m1: HeapModel, m2: HeapModel)
    requires
        heap_extends(m0, m1),
        heap_extends(m1, m2),
    ensures
        heap_extends(m0, m2),
{
    assert forall|i: int|
        0 <= i < m0.cells.len() && !((#[trigger] m0.states[i]) is Free) implies m2.cells[i]
        == m0.cells[i] && m2.states[i] == m0.states[i] by {
        assert(m1.cells[i] == m0.cells[i] && m1.states[i] == m0.states[i]);
    }
    assert forall|i: int| 0 <= i < m2.free.len() implies m2.free[i] == m0.free[i] by {
        assert(m2.free[i] == m1.free[i]);
        assert(m1.free[i] == m0.free[i]);
    }
    assert(m2.free =~= m0.free.take(m2.free.len() as int));
    assert(m0.syms.is_prefix_of(m2.syms)) by {
        assert(m0.syms =~= m1.syms.take(m0.syms.len() as int));
        assert(m1.syms =~= m2.syms.take(m1.syms.len() as int));
        assert(m0.syms =~= m2.syms.take(m0.syms.len() as int));
    }
}

/// A slab heap: slot contents, a parallel state map, a LIFO free list, and
/// the symbol intern table.
#[derive(Debug)]
pub struct Heap {
    chunk_size: usize,
    free_list: Vec<usize>,
    heap: Vec<VCell>,
    heap_map: Vec<State>,
    str_map: Vec<(String, usize)>,
}

impl View for Heap {
    type V = HeapModel;

    closed spec fn view(&self) -> HeapModel {
        HeapModel {
            cells: self.heap@,
            states: self.heap_map@,
            free: self.free_list@,
            syms: self.str_map@.map_values(|p: (String, usize)| (p.0@, p.1)),
        }
    }
}

impl Heap {
    /// Construct a heap of `chunk_size` slots, all free, the free list
    /// holding every slot with slot 0 on top.
    pub fn new(chunk_size: usize) -> (r: Heap)
        ensures
            r@.wf(),
            r@.cells.len() == chunk_size,
            forall|i: int| 0 <= i < chunk_size ==> (#[trigger] r@.cells[i]) is Undefined,
            forall|i: int| 0 <= i < chunk_size ==> (#[trigger] r@.states[i]) is Free,
            r@.free.len() == chunk_size,
            forall|k: int| 0 <= k < chunk_size ==> (#[trigger] r@.free[k]) as int == chunk_size - 1
                - k,
            r@.syms.len() == 0,
    {
        let mut heap: Vec<VCell> = Vec::new();
        let mut heap_map: Vec<State> = Vec::new();
        let mut free_list: Vec<usize> = Vec::new();
        let mut i: usize = 0;
        while i < chunk_size
            invariant
                i <= chunk_size,
                heap@.len() == i,
                heap_map@.len() == i,
                free_list@.len() == i,
                forall|j: int| 0 <= j < i ==> (#[trigger] heap@[j]) is Undefined,
                forall|j: int| 0 <= j < i ==> (#[trigger] heap_map@[j]) is Free,
                forall|k: int| 0 <= k < i ==> (#[trigger] free_list@[k]) as int == chunk_size - 1
                    - k,
            decreases chunk_size - i,
        {
            heap.push(VCell::Undefined);
            heap_map.push(State::Free);
            free_list.push(chunk_size - 1 - i);
            i = i + 1;
        }
        let r = Heap { chunk_size, free_list, heap, heap_map, str_map: Vec::new() };
        proof {
            assert forall|i2: int|
                0 <= i2 < r@.states.len() && (#[trigger] r@.states[i2]) is Free implies r@
                .free.contains(i2 as usize) by {
                assert(r@.free[chunk_size - 1 - i2] == i2 as usize);
            }
            assert forall|k1: int, k2: int|
                0 <= k1 < k2 < r@.free.len() implies r@.free[k1] != r@.free[k2] by {}
            assert(r@.free.no_duplicates());
        }
        r
    }

    /// The number of slots on the free list.
    pub fn free_list_len(&self) -> (r: usize)
        ensures
            r == self@.free.len(),
    {
        self.free_list.len()
    }

    /// The collector state of a slot, or `None` outside the heap.
    pub fn gc_state(&self, i: usize) -> (r: Option<State>)
        ensures
            r == (if i < self@.states.len() {
                Some(self@.states[i as int])
            } else {
                None::<State>
            }),
    {
        if i < self.heap_map.len() {
            Some(self.heap_map[i])
        } else {
            None
        }
    }

    /// The canonical slot of an interned symbol name.
    #[verifier::loop_isolation(false)]
    fn sym_find(&self, name: &String) -> (r: Option<usize>)
        requires
            self@.wf(),
        ensures
            r == self@.sym_lookup(name@),
    {
        let mut i: usize = 0;
        while i < self.str_map.len()
            invariant
                i <= self.str_map.len(),
                self@.syms.len() == self.str_map.len(),
                forall|k: int| 0 <= k < i ==> (#[trigger] self@.syms[k]).0 != name@,
            decreases self.str_map.len() - i,
        {
            proof {
                assert(self@.syms[i as int] == (self.str_map@[i as int].0@,
                self.str_map@[i as int].1));
            }
            if self.str_map[i].0 == *name {
                proof {
                    assert(self@.syms[i as int].0 == name@);
                    assert(has_key(self@.syms, name@));
                    let k = key_index(self@.syms, name@);
                    assert(self@.syms[k].0 == name@);
                    assert(k == i as int) by {
                        if k != i as int {
                            assert(self@.syms[k].0 != self@.syms[i as int].0);
                        }
                    }
                }
                return Some(self.str_map[i].1);
            }
            i = i + 1;
        }
        proof {
            assert(!has_key(self@.syms, name@));
        }
        None
    }

    /// Pop the next free slot and mark it allocated. The caller keeps the
    /// free list non-empty, collecting first where needed.
    pub fn allocate(&mut self) -> (r: usize)
        requires
            old(self)@.wf(),
            old(self)@.free.len() > 0,
        ensures
            final(self)@.wf(),
            alloc_post(old(self)@, final(self)@, r),
            heap_extends(old(self)@, final(self)@),
    {
        let ghost m0 = self@;
        proof {
            vstd::std_specs::vec::axiom_spec_len(&self.heap);
            assert(m0.cells.len() == self.heap@.len());
        }
        let r = self.free_list.pop().unwrap();
        self.heap_map[r] = State::Allocated;
        proof {
            lemma_alloc_wf(m0, self@, r);
            assert(self@.free =~= m0.free.take(self@.free.len() as int));
        }
        r
    }

    /// Reset a slot: state `Free`, an interned name forgotten, contents
    /// overwritten with `Undefined`, and the slot pushed on the free list.
    #[verifier::loop_isolation(false)]
    pub fn free(&mut self, ptr: usize)
        requires
            old(self)@.wf(),
            ptr < old(self)@.cells.len(),
            !(old(self)@.states[ptr as int] is Free),
        ensures
            final(self)@.wf(),
            free_post(old(self)@, final(self)@, ptr),
    {
        let ghost m0 = self@;
        self.heap_map[ptr] = State::Free;
        let mut key_opt: Option<String> = None;
        match &self.heap[ptr] {
            VCell::Symbol(s) => {
                key_opt = Some(s.clone());
            },
            _ => {},
        }
        if let Some(key) = key_opt {
            let mut i: usize = 0;
            let mut found: Option<usize> = None;
            while i < self.str_map.len() && found.is_none()
                invariant
                    i <= self.str_map.len(),
                    self@.syms.len() == self.str_map.len(),
                    match found {
                        None => forall|k: int| 0 <= k < i ==> (#[trigger] self@.syms[k]).0 != key@,
                        Some(idx) => idx < i && self@.syms[idx as int].0 == key@,
                    },
                decreases self.str_map.len() - i,
            {
                proof {
                    assert(self@.syms[i as int] == (self.str_map@[i as int].0@,
                    self.str_map@[i as int].1));
                }
                if self.str_map[i].0 == key {
                    found = Some(i);
                }
                i = i + 1;
            }
            let ghost syms0 = self@.syms;
            match found {
                Some(idx) => {
                    proof {
                        assert(syms0[idx as int].0 == key@);
                        let k = key_index(syms0, key@);
                        assert(syms0[k].0 == key@);
                        assert(k == idx as int) by {
                            if k != idx as int {
                                assert(syms0[k].0 != syms0[idx as int].0);
                            }
                        }
                    }
                    self.str_map.remove(idx);
                    proof {
                        assert(self@.syms =~= remove_key(syms0, key@));
                    }
                },
                None => {
                    proof {
                        assert(!has_key(syms0, key@));
                        assert(self@.syms =~= remove_key(syms0, key@));
                    }
                },
            }
        }
        self.heap[ptr] = VCell::Undefined;
        self.free_list.push(ptr);
        proof {
            lemma_free_wf(m0, self@, ptr);
        }
    }

    /// Store a value on the next free slot and return a pointer to it; an
    /// already interned symbol yields its canonical pointer instead, and a
    /// new symbol's name is interned. A `Ptr` is refused: storing it would
    /// double-box.
    pub fn put(&mut self, vcell: VCell) -> (r: VCell)
        requires
            old(self)@.wf(),
            !(vcell is Ptr),
            !(vcell is Symbol) || old(self)@.sym_lookup(vcell->Symbol_0@) is None ==> old(
                self,
            )@.free.len() > 0,
        ensures
            final(self)@.wf(),
            put_post(old(self)@, final(self)@, vcell, r),
            heap_extends(old(self)@, final(self)@),
    {
        let ghost m0 = self@;
        let mut sym_key: Option<String> = None;
        match &vcell {
            VCell::Symbol(s) => {
                sym_key = Some(s.clone());
            },
            _ => {},
        }
        if let Some(key) = &sym_key {
            match self.sym_find(key) {
                Some(p) => {
                    proof {
                        assert(self@.free =~= self@.free.take(self@.free.len() as int));
                        assert(self@.syms =~= self@.syms.take(self@.syms.len() as int));
                    }
                    return VCell::Ptr(p);
                },
                None => {},
            }
        }
        let p = self.allocate();
        let ghost m1 = self@;
        self.heap[p] = vcell;
        match sym_key {
            Some(key) => {
                self.str_map.push((key, p));
                proof {
                    assert(self@.syms =~= m0.syms.push((key@, p)));
                }
            },
            None => {},
        }
        proof {
            lemma_put_wf(m0, m1, self@, p);
            assert(self@.free =~= m0.free.take(self@.free.len() as int));
            assert(m0.syms =~= self@.syms.take(m0.syms.len() as int));
        }
        VCell::Ptr(p)
    }

    /// Materialize a cell on the heap, one slot per node, children of a pair
    /// stored first and referred to by slot index. Returns a pointer to the
    /// root of the structure.
    pub fn put_cell(&mut self, ast: &Cell) -> (r: VCell)
        requires
            old(self)@.wf(),
            old(self)@.free.len() >= node_count(ast@),
        ensures
            final(self)@.wf(),
            heap_extends(old(self)@, final(self)@),
            final(self)@.free.len() >= old(self)@.free.len() - node_count(ast@),
            r is Ptr,
            value_rep(final(self)@, r, ast@),
            ast@ is Symbol ==> final(self)@.sym_lookup(ast@->Symbol_0) == Some(r->Ptr_0),
        decreases *ast,
    {
        let ghost m0 = self@;
        match ast {
            Cell::Undefined => {
                let r = self.put(VCell::Undefined);
                proof {
                    assert(m0.free_slot_ok(m0.free[m0.free.len() - 1]));
                    let p = m0.free.last();
                    assert(value_rep(self@, self@.cells[p as int], ast@));
                    lemma_rep_ptr(self@, p, ast@);
                }
                r
            },
            Cell::Void => {
                let r = self.put(VCell::Void);
                proof {
                    assert(m0.free_slot_ok(m0.free[m0.free.len() - 1]));
                    let p = m0.free.last();
                    assert(value_rep(self@, self@.cells[p as int], ast@));
                    lemma_rep_ptr(self@, p, ast@);
                }
                r
            },
            Cell::Nil => {
                let r = self.put(VCell::Nil);
                proof {
                    assert(m0.free_slot_ok(m0.free[m0.free.len() - 1]));
                    let p = m0.free.last();
                    assert(value_rep(self@, self@.cells[p as int], ast@));
                    lemma_rep_ptr(self@, p, ast@);
                }
                r
            },
            Cell::Number(n) => {
                let r = self.put(VCell::FixedNum(*n));
                proof {
                    assert(m0.free_slot_ok(m0.free[m0.free.len() - 1]));
                    let p = m0.free.last();
                    assert(value_rep(self@, self@.cells[p as int], ast@));
                    lemma_rep_ptr(self@, p, ast@);
                }
                r
            },
            Cell::Bool(b) => {
                let r = self.put(VCell::Bool(*b));
                proof {
                    assert(m0.free_slot_ok(m0.free[m0.free.len() - 1]));
                    let p = m0.free.last();
                    assert(value_rep(self@, self@.cells[p as int], ast@));
                    lemma_rep_ptr(self@, p, ast@);
                }
                r
            },
            Cell::Symbol(s) => {
                let r = self.put(VCell::Symbol(s.clone()));
                proof {
                    if m0.sym_lookup(s@) is Some {
                        let k = key_index(m0.syms, s@);
                        assert(m0.sym_entry_ok(m0.syms[k]));
                        let p = m0.syms[k].1;
                        assert(value_rep(self@, self@.cells[p as int], ast@));
                        lemma_rep_ptr(self@, p, ast@);
                    } else {
                        assert(m0.free_slot_ok(m0.free[m0.free.len() - 1]));
                        let p = m0.free.last();
                        assert(value_rep(self@, self@.cells[p as int], ast@));
                        lemma_rep_ptr(self@, p, ast@);
                        let last = self@.syms.len() - 1;
                        assert(self@.syms[last] == (s@, r->Ptr_0));
                        assert(has_key(self@.syms, s@));
                        let kk = key_index(self@.syms, s@);
                        assert(self@.syms[kk].0 == s@);
                        if kk != last {
                            assert(self@.syms[kk].0 != self@.syms[last].0);
                        }
                    }
                }
                r
            },
            Cell::Pair(car, cdr) => {
                let va = self.put_cell(&**car);
                let ghost m1 = self@;
                let vd = self.put_cell(&**cdr);
                let ghost m2 = self@;
                proof {
                    lemma_rep_frame(m1, m2, va, car@);
                }
                match (va, vd) {
                    (VCell::Ptr(x), VCell::Ptr(y)) => {
                        proof {
                            assert(self@.free.len() > 0);
                            assert(self@.free_slot_ok(self@.free[self@.free.len() - 1]));
                        }
                        let r = self.put(VCell::Pair(x, y));
                        proof {
                            lemma_extends_trans(m0, m1, m2);
                            lemma_extends_trans(m0, m2, self@);
                            lemma_rep_frame(m2, self@, VCell::Ptr(x), car@);
                            lemma_rep_frame(m2, self@, VCell::Ptr(y), cdr@);
                            assert(ast@ == Ast::Pair(Box::new(car@), Box::new(cdr@)));
                            let p = m2.free.last();
                            lemma_rep_pair(self@, x, y, ast@);
                            assert(value_rep(self@, self@.cells[p as int], ast@));
                            lemma_rep_ptr(self@, p, ast@);
                        }
                        r
                    },
                    _ => {
                        proof {
                            assert(false);
                        }
                        VCell::Undefined
                    },
                }
            },
        }
    }

    /// The contents of the slot at `ptr`.
    pub fn get_at_index(&self, ptr: usize) -> (r: &VCell)
        requires
            ptr < self@.cells.len(),
        ensures
            *r == self@.cells[ptr as int],
    {
        &self.heap[ptr]
    }

    /// Overwrite the slot at `ptr`. The slot must be live, and neither the
    /// old nor the new contents may be an interned symbol: those are managed
    /// only through `put` and `free`.
    pub fn get_at_index_mut(&mut self, ptr: usize, vcell: VCell)
        requires
            old(self)@.wf(),
            ptr < old(self)@.cells.len(),
            !(old(self)@.states[ptr as int] is Free),
            !(old(self)@.cells[ptr as int] is Symbol),
            !(vcell is Symbol),
        ensures
            final(self)@.wf(),
            final(self)@.cells == old(self)@.cells.update(ptr as int, vcell),
            final(self)@.states == old(self)@.states,
            final(self)@.free == old(self)@.free,
            final(self)@.syms == old(self)@.syms,
    {
        let ghost m0 = self@;
        self.heap[ptr] = vcell;
        proof {
            assert forall|k: int|
                0 <= k < self@.free.len() implies self@.free_slot_ok(#[trigger] self@.free[k]) by {
                assert(m0.free_slot_ok(m0.free[k]));
            }
            assert forall|k: int|
                0 <= k < self@.syms.len() implies self@.sym_entry_ok(#[trigger] self@.syms[k]) by {
                assert(m0.sym_entry_ok(m0.syms[k]));
            }
        }
    }

    /// Dereference a pointer: the contents of the slot it names.
    pub fn get(&self, vcell: &VCell) -> (r: VCell)
        requires
            *vcell is Ptr,
            vcell->Ptr_0 < self@.cells.len(),
        ensures
            crate::vcell::vcell_eq(r, self@.cells[vcell->Ptr_0 as int]),
    {
        match vcell {
            VCell::Ptr(p) => deep_copy(&self.heap[*p]),
            _ => vstd::pervasive::unreached(),
        }
    }

    /// Reify a heap value as a cell, copying the structure out of the heap.
    /// Only values that represent a cell can be reified: the sentinels the
    /// virtual machine uses internally cannot.
    pub fn get_as_cell(&self, vcell: &VCell) -> (r: Cell)
        requires
            exists|a: Ast| value_rep(self@, *vcell, a),
        ensures
            value_rep(self@, *vcell, r@),
        decreases rep_ast(self@, *vcell),
            (if *vcell is Ptr {
                1int
            } else {
                0int
            }),
    {
        proof {
            let a = choose|a: Ast| value_rep(self@, *vcell, a);
            assert(value_rep(self@, *vcell, rep_ast(self@, *vcell))) by {
                lemma_rep_unique(self@, *vcell, a, rep_ast(self@, *vcell));
            }
        }
        let ghost the_ast = rep_ast(self@, *vcell);
        match vcell {
            VCell::Undefined => Cell::Undefined,
            VCell::Void => Cell::Void,
            VCell::Nil => Cell::Nil,
            VCell::Bool(b) => Cell::Bool(*b),
            VCell::FixedNum(n) => Cell::Number(*n),
            VCell::Symbol(s) => Cell::Symbol(s.clone()),
            VCell::Pair(x, y) => {
                proof {
                    assert(value_rep(self@, VCell::Ptr(*x), *the_ast->Pair_0));
                    assert(value_rep(self@, VCell::Ptr(*y), *the_ast->Pair_1));
                    assert(value_rep(self@, VCell::Ptr(*x), rep_ast(self@, VCell::Ptr(*x))));
                    assert(value_rep(self@, VCell::Ptr(*y), rep_ast(self@, VCell::Ptr(*y))));
                    lemma_rep_unique(
                        self@,
                        VCell::Ptr(*x),
                        rep_ast(self@, VCell::Ptr(*x)),
                        *the_ast->Pair_0,
                    );
                    lemma_rep_unique(
                        self@,
                        VCell::Ptr(*y),
                        rep_ast(self@, VCell::Ptr(*y)),
                        *the_ast->Pair_1,
                    );
                }
                let ca = self.get_as_cell(&VCell::Ptr(*x));
                let cd = self.get_as_cell(&VCell::Ptr(*y));
                Cell::Pair(Box::new(ca), Box::new(cd))
            },
            VCell::Ptr(p) => {
                proof {
                    assert(value_rep(self@, self@.cells[*p as int], the_ast));
                    assert(value_rep(
                        self@,
                        self@.cells[*p as int],
                        rep_ast(self@, self@.cells[*p as int]),
                    ));
                    lemma_rep_unique(
                        self@,
                        self@.cells[*p as int],
                        rep_ast(self@, self@.cells[*p as int]),
                        the_ast,
                    );
                }
                let r = self.get_as_cell(self.get_at_index(*p));
                r
            },
            _ => vstd::pervasive::unreached(),
        }
    }
}

impl Heap {
    /// Mark the slot graph reachable from `root` as `Used`, stopping at
    /// already marked slots so cyclic structures terminate the walk. The
    /// caller marks every root before a sweep, and only structures whose
    /// slots are live: marking a freed slot would resurrect it while it
    /// stays on the free list.
    pub fn mark(&mut self, root: usize)
        requires
            old(self)@.wf(),
            crate::gc::reach_not_free(old(self)@, root),
        ensures
            final(self)@.wf(),
            crate::gc::mark_post(old(self)@, final(self)@, root),
        decreases crate::gc::unmarked_count(old(self)@.states),
    {
        let ghost m0 = self@;
        if root >= self.heap.len() {
            return ;
        }
        if self.heap_map[root] == State::Used {
            proof {
                assert forall|a: int, b: int|
                    #![trigger edge(m0.cells, a, b), self@.states[b]]
                    0 <= a < m0.cells.len() && 0 <= b < m0.cells.len() && self@.states[a] is Used
                        && !(m0.states[a] is Used) && edge(m0.cells, a, b) implies self@.states[b] is Used by {}
            }
            return ;
        }
        proof {
            lemma_reach_self(m0.cells, root as int);
            assert(!(m0.states[root as int] is Free));
        }
        self.heap_map[root] = State::Used;
        let ghost m_a = self@;
        proof {
            lemma_unmarked_update(m0.states, root as int);
            lemma_mark_one_wf(m0, m_a, root);
            lemma_mark_root_progress(m0, m_a, root);
        }
        let mut pair_step: Option<(usize, usize)> = None;
        let mut ptr_step: Option<usize> = None;
        match &self.heap[root] {
            VCell::Pair(x, y) => {
                pair_step = Some((*x, *y));
            },
            VCell::Ptr(q) => {
                ptr_step = Some(*q);
            },
            _ => {},
        }
        if let Some((x, y)) = pair_step {
            proof {
                assert(edge(m0.cells, root as int, x as int));
                lemma_mark_child_pre(m0, m_a, root, x);
            }
            self.mark(x);
            let ghost m_b = self@;
            proof {
                lemma_unmarked_mono(m_a.states, m_b.states);
                lemma_mark_compose(m0, m_a, m_b, root, x);
                assert(edge(m0.cells, root as int, y as int));
                lemma_mark_child_pre(m0, m_b, root, y);
            }
            self.mark(y);
            proof {
                lemma_mark_compose(m0, m_b, self@, root, y);
                assert forall|b: int|
                    0 <= b < m0.cells.len() && edge(m0.cells, root as int, b) implies (
                #[trigger] self@.states[b]) is Used by {
                    if b == x as int {
                        assert(m_b.states[b] is Used);
                    } else {
                        assert(b == y as int);
                    }
                }
                lemma_mark_finish(m0, self@, root);
            }
        } else if let Some(q) = ptr_step {
            proof {
                assert(edge(m0.cells, root as int, q as int));
                lemma_mark_child_pre(m0, m_a, root, q);
            }
            self.mark(q);
            proof {
                lemma_mark_compose(m0, m_a, self@, root, q);
                assert forall|b: int|
                    0 <= b < m0.cells.len() && edge(m0.cells, root as int, b) implies (
                #[trigger] self@.states[b]) is Used by {
                    assert(b == q as int);
                }
                lemma_mark_finish(m0, self@, root);
            }
        } else {
            proof {
                assert forall|b: int|
                    0 <= b < m0.cells.len() && edge(m0.cells, root as int, b) implies (
                #[trigger] self@.states[b]) is Used by {
                    assert(!(m0.cells[root as int] is Pair) && !(m0.cells[root as int] is Ptr));
                }
                lemma_mark_finish(m0, self@, root);
            }
        }
    }

    /// One pass over every slot: free each `Allocated` slot, ready each
    /// `Used` slot for the next cycle by resetting it to `Allocated`, leave
    /// free slots alone.
    #[verifier::loop_isolation(false)]
    pub fn sweep(&mut self)
        requires
            old(self)@.wf(),
        ensures
            final(self)@.wf(),
            crate::gc::sweep_post(old(self)@, final(self)@),
    {
        let ghost m0 = self@;
        let n = self.heap.len();
        let mut it: usize = 0;
        proof {
            assert(self@.free =~= m0.free + alloc_indices(m0.states, 0));
        }
        while it < n
            invariant
                it <= n,
                n == m0.cells.len(),
                self@.wf(),
                self@.cells.len() == n,
                self@.states.len() == n,
                m0.states.len() == n,
                forall|i: int|
                    0 <= i < it ==> #[trigger] self@.states[i] == (match m0.states[i] {
                        State::Allocated => State::Free,
                        State::Used => State::Allocated,
                        State::Free => State::Free,
                    }),
                forall|i: int| it <= i < n ==> #[trigger] self@.states[i] == m0.states[i],
                forall|i: int|
                    0 <= i < it ==> #[trigger] self@.cells[i] == (if m0.states[i] is Allocated {
                        VCell::Undefined
                    } else {
                        m0.cells[i]
                    }),
                forall|i: int| it <= i < n ==> #[trigger] self@.cells[i] == m0.cells[i],
                self@.free == m0.free + alloc_indices(m0.states, it as int),
                forall|k: int|
                    0 <= k < self@.syms.len() ==> m0.syms.contains(#[trigger] self@.syms[k]) && !((
                    self@.syms[k]).1 < it && m0.states[(self@.syms[k]).1 as int] is Allocated),
                forall|k: int|
                    0 <= k < m0.syms.len() && ((#[trigger] m0.syms[k]).1 >= it || !(m0.states[(
                    m0.syms[k]).1 as int] is Allocated)) ==> self@.syms.contains(m0.syms[k]),
            decreases n - it,
        {
            let ghost pre = self@;
            let st = self.heap_map[it];
            if st == State::Allocated {
                self.free(it);
                proof {
                    lemma_sweep_free_step(m0, pre, self@, it);
                }
            } else if st == State::Used {
                self.heap_map[it] = State::Allocated;
                proof {
                    assert forall|k: int|
                        0 <= k < self@.free.len() implies self@.free_slot_ok(
                        #[trigger] self@.free[k],
                    ) by {
                        assert(pre.free_slot_ok(pre.free[k]));
                        assert(pre.free[k] != it);
                    }
                    assert forall|k: int|
                        0 <= k < self@.syms.len() implies self@.sym_entry_ok(
                        #[trigger] self@.syms[k],
                    ) by {
                        assert(pre.sym_entry_ok(pre.syms[k]));
                    }
                    assert(self@.free =~= m0.free + alloc_indices(m0.states, it + 1));
                }
            } else {
                proof {
                    assert(self@.free =~= m0.free + alloc_indices(m0.states, it + 1));
                }
            }
            it = it + 1;
        }
    }
}

/// A deep copy of a heap value, equal in value to what it copies.
#[verifier::loop_isolation(false)]
pub fn deep_copy(v: &VCell) -> (r: VCell)
    ensures
        crate::vcell::vcell_eq(r, *v),
    decreases *v,
{
    match v {
        VCell::Undefined => VCell::Undefined,
        VCell::Void => VCell::Void,
        VCell::Nil => VCell::Nil,
        VCell::Bool(b) => VCell::Bool(*b),
        VCell::FixedNum(n) => VCell::FixedNum(*n),
        VCell::Symbol(s) => VCell::Symbol(s.clone()),
        VCell::Ptr(p) => VCell::Ptr(*p),
        VCell::Pair(x, y) => VCell::Pair(*x, *y),
        VCell::OpCode(op) => VCell::OpCode(*op),
        VCell::Acc => VCell::Acc,
        VCell::EnvSlot(n) => VCell::EnvSlot(*n),
        VCell::Lambda(items) => {
            let mut out: Vec<VCell> = Vec::new();
            let mut i: usize = 0;
            while i < items.len()
                invariant
                    i <= items.len(),
                    out@.len() == i,
                    forall|j: int|
                        0 <= j < i ==> crate::vcell::vcell_eq(#[trigger] out@[j], items@[j]),
                decreases items@.len() - i,
            {
                proof {
                    vstd::std_specs::vec::axiom_vec_index_decreases::<VCell>(*items, i as int);
                }
                let e = deep_copy(&items[i]);
                out.push(e);
                i = i + 1;
            }
            VCell::Lambda(out)
        },
    }
}

/// `alloc` preserves well-formedness.
proof fn lemma_alloc_wf(m0: HeapModel, m1: HeapModel, r: usize)
    requires
        m0.wf(),
        m0.cells.len() <= usize::MAX,
        m0.free.len() > 0,
        alloc_post(m0, m1, r),
    ensures
        m1.wf(),
{
    assert(m0.free_slot_ok(m0.free[m0.free.len() - 1]));
    assert forall|k: int|
        0 <= k < m1.free.len() implies m1.free_slot_ok(#[trigger] m1.free[k]) by {
        assert(m0.free_slot_ok(m0.free[k]));
        assert(m0.free[k] != r);
    }
    assert forall|i: int|
        0 <= i < m1.states.len() && (#[trigger] m1.states[i]) is Free implies m1.free.contains(
        i as usize,
    ) by {
        assert(m1.states[r as int] is Allocated);
        assert(i != r as int);
        assert(m0.states[i] is Free);
        assert(m0.free.contains(i as usize));
        let k = choose|k: int| 0 <= k < m0.free.len() && m0.free[k] == i as usize;
        assert(m0.free[k] == i as usize);
        assert(m0.free[m0.free.len() - 1] == r);
        assert(k != m0.free.len() - 1);
        assert(m1.free[k] == i as usize);
    }
    assert forall|k: int|
        0 <= k < m1.syms.len() implies m1.sym_entry_ok(#[trigger] m1.syms[k]) by {
        assert(m0.sym_entry_ok(m0.syms[k]));
        assert(m0.syms[k].1 != r);
    }
}

/// `free` preserves well-formedness.
proof fn lemma_free_wf(m0: HeapModel, m1: HeapModel, p: usize)
    requires
        m0.wf(),
        p < m0.cells.len(),
        !(m0.states[p as int] is Free),
        free_post(m0, m1, p),
    ensures
        m1.wf(),
{
    // Entries other than the one removed survive at an index shifted by at
    // most one; each still satisfies its slot conditions since only slot `p`
    // changed and no surviving entry names it.
    assert forall|k: int|
        0 <= k < m1.syms.len() implies m1.sym_entry_ok(#[trigger] m1.syms[k]) && exists|j: int|
        0 <= j < m0.syms.len() && m0.syms[j] == m1.syms[k] by {
        if m0.cells[p as int] is Symbol && has_key(m0.syms, m0.cells[p as int]->Symbol_0@) {
            let idx = key_index(m0.syms, m0.cells[p as int]->Symbol_0@);
            let j = if k < idx {
                k
            } else {
                k + 1
            };
            assert(m0.syms[j] == m1.syms[k]);
            assert(m0.sym_entry_ok(m0.syms[j]));
            assert(m0.syms[j].1 != p) by {
                if m0.syms[j].1 == p {
                    assert(m0.syms[j].0 == m0.cells[p as int]->Symbol_0@);
                    assert(j != idx);
                    assert(m0.syms[j].0 != m0.syms[idx].0);
                }
            }
        } else {
            assert(m0.syms[k] == m1.syms[k]);
            assert(m0.sym_entry_ok(m0.syms[k]));
            assert(m0.syms[k].1 != p) by {
                if m0.syms[k].1 == p {
                    assert(m0.cells[p as int] is Symbol);
                }
            }
        }
    }
    assert forall|k1: int, k2: int|
        0 <= k1 < m1.syms.len() && 0 <= k2 < m1.syms.len() && k1 != k2 implies (
    #[trigger] m1.syms[k1]).0 != (#[trigger] m1.syms[k2]).0 by {
        if m0.cells[p as int] is Symbol && has_key(m0.syms, m0.cells[p as int]->Symbol_0@) {
            let idx = key_index(m0.syms, m0.cells[p as int]->Symbol_0@);
            let j1 = if k1 < idx {
                k1
            } else {
                k1 + 1
            };
            let j2 = if k2 < idx {
                k2
            } else {
                k2 + 1
            };
            assert(m0.syms[j1] == m1.syms[k1]);
            assert(m0.syms[j2] == m1.syms[k2]);
        }
    }
    assert forall|k: int|
        0 <= k < m1.free.len() implies m1.free_slot_ok(#[trigger] m1.free[k]) by {
        if k < m0.free.len() {
            assert(m0.free_slot_ok(m0.free[k]));
            assert(m0.free[k] != p);
        }
    }
    assert(m1.free.no_duplicates()) by {
        assert forall|k: int| 0 <= k < m0.free.len() implies m0.free[k] != p by {
            assert(m0.free_slot_ok(m0.free[k]));
        }
    }
    assert forall|i: int|
        0 <= i < m1.states.len() && (#[trigger] m1.states[i]) is Free implies m1.free.contains(
        i as usize,
    ) by {
        if i == p as int {
            assert(m1.free[m1.free.len() - 1] == p);
        } else {
            assert(m0.states[i] is Free);
            let k = choose|k: int| 0 <= k < m0.free.len() && m0.free[k] == i as usize;
            assert(m1.free[k] == i as usize);
        }
    }
    assert forall|i: int|
        0 <= i < m1.cells.len() && !((#[trigger] m1.states[i]) is Free) && m1.cells[i] is Symbol
        implies has_key(m1.syms, m1.cells[i]->Symbol_0@) && m1.syms[key_index(
        m1.syms,
        m1.cells[i]->Symbol_0@,
    )].1 == i by {
        assert(i != p as int);
        let s = m1.cells[i]->Symbol_0@;
        assert(m0.cells[i] == m1.cells[i]);
        assert(has_key(m0.syms, s));
        let k0 = key_index(m0.syms, s);
        assert(m0.syms[k0].0 == s && m0.syms[k0].1 == i);
        if m0.cells[p as int] is Symbol && has_key(m0.syms, m0.cells[p as int]->Symbol_0@) {
            let idx = key_index(m0.syms, m0.cells[p as int]->Symbol_0@);
            assert(k0 != idx) by {
                if k0 == idx {
                    assert(m0.syms[idx].1 == p) by {
                        assert(m0.cells[p as int]->Symbol_0@ == m0.syms[idx].0);
                        assert(!(m0.states[p as int] is Free));
                    }
                }
            }
            let k1 = if k0 < idx {
                k0
            } else {
                k0 - 1
            };
            assert(m1.syms[k1] == m0.syms[k0]);
            assert(has_key(m1.syms, s));
            let kk = key_index(m1.syms, s);
            assert(m1.syms[kk].0 == s);
            assert(kk == k1) by {
                if kk != k1 {
                    assert(m1.syms[kk].0 != m1.syms[k1].0);
                }
            }
        } else {
            assert(m1.syms == m0.syms);
            assert(has_key(m1.syms, s));
            let kk = key_index(m1.syms, s);
            assert(kk == k0) by {
                if kk != k0 {
                    assert(m1.syms[kk].0 != m1.syms[k0].0);
                }
            }
        }
    }
}

/// `put` preserves well-formedness; `m1` is the state after the allocation,
/// `m2` the state after the store and any interning.
proof fn lemma_put_wf(m0: HeapModel, m1: HeapModel, m2: HeapModel, p: usize)
    requires
        m0.wf(),
        m0.free.len() > 0,
        alloc_post(m0, m1, p),
        m1.wf(),
        m2.states == m1.states,
        m2.free == m1.free,
        m2.cells == m1.cells.update(p as int, m2.cells[p as int]),
        !(m2.cells[p as int] is Ptr),
        m2.cells[p as int] is Symbol ==> !has_key(m0.syms, m2.cells[p as int]->Symbol_0@)
            && m2.syms == m0.syms.push((m2.cells[p as int]->Symbol_0@, p)),
        !(m2.cells[p as int] is Symbol) ==> m2.syms == m0.syms,
    ensures
        m2.wf(),
{
    assert(m0.free_slot_ok(m0.free[m0.free.len() - 1]));
    assert forall|k: int|
        0 <= k < m2.free.len() implies m2.free_slot_ok(#[trigger] m2.free[k]) by {
        assert(m1.free_slot_ok(m1.free[k]));
        assert(m0.free_slot_ok(m0.free[k]));
        assert(m0.free[k] != p);
    }
    assert forall|k: int|
        0 <= k < m2.syms.len() implies m2.sym_entry_ok(#[trigger] m2.syms[k]) by {
        if k < m0.syms.len() {
            assert(m0.sym_entry_ok(m0.syms[k]));
            assert(m0.syms[k].1 != p);
        }
    }
    assert forall|k1: int, k2: int|
        0 <= k1 < m2.syms.len() && 0 <= k2 < m2.syms.len() && k1 != k2 implies (
    #[trigger] m2.syms[k1]).0 != (#[trigger] m2.syms[k2]).0 by {
        if k1 < m0.syms.len() && k2 == m0.syms.len() {
            assert(!has_key(m0.syms, m2.syms[k2].0));
        }
        if k2 < m0.syms.len() && k1 == m0.syms.len() {
            assert(!has_key(m0.syms, m2.syms[k1].0));
        }
    }
    assert forall|i: int|
        0 <= i < m2.cells.len() && !((#[trigger] m2.states[i]) is Free) && m2.cells[i] is Symbol
        implies has_key(m2.syms, m2.cells[i]->Symbol_0@) && m2.syms[key_index(
        m2.syms,
        m2.cells[i]->Symbol_0@,
    )].1 == i by {
        let s = m2.cells[i]->Symbol_0@;
        if i == p as int {
            let last = m2.syms.len() - 1;
            assert(m2.syms[last] == (s, p));
            assert(has_key(m2.syms, s));
            let kk = key_index(m2.syms, s);
            assert(m2.syms[kk].0 == s);
            assert(kk == last) by {
                if kk != last {
                    assert(m2.syms[kk].0 != m2.syms[last].0);
                }
            }
        } else {
            assert(m0.cells[i] == m2.cells[i]);
            assert(!(m0.states[i] is Free));
            assert(has_key(m0.syms, s));
            let k0 = key_index(m0.syms, s);
            assert(m0.syms[k0].0 == s && m0.syms[k0].1 == i);
            assert(m2.syms[k0] == m0.syms[k0]);
            assert(has_key(m2.syms, s));
            let kk = key_index(m2.syms, s);
            assert(m2.syms[kk].0 == s);
            assert(kk == k0) by {
                if kk != k0 {
                    assert(m2.syms[kk].0 != m2.syms[k0].0);
                }
            }
        }
    }
}

} // verus!
