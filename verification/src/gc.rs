//! The collector's model: reachability over the slot graph, what `mark` and
//! `sweep` do to a heap, and the laws that tie them together.

use crate::heap::HeapModel;
use crate::vcell::{State, VCell};
use vstd::prelude::*;

verus! {

/// One step of the walk: from a pair slot to either child, or through a
/// pointer to its target.
pub open spec fn edge(cells: Seq<VCell>, a: int, b: int) -> bool {
    &&& 0 <= a < cells.len()
    &&& match cells[a] {
        VCell::Pair(x, y) => b == x as int || b == y as int,
        VCell::Ptr(q) => b == q as int,
        _ => false,
    }
}

/// A walk through in-bounds slots, each step an edge.
pub open spec fn path_ok(cells: Seq<VCell>, p: Seq<int>) -> bool {
    &&& p.len() > 0
    &&& forall|k: int| 0 <= k < p.len() ==> 0 <= #[trigger] p[k] < cells.len()
    &&& forall|k: int| 0 <= k < p.len() - 1 ==> edge(cells, #[trigger] p[k], p[k + 1])
}

/// Slot `b` is reachable from slot `a`: some walk leads from one to the
/// other. A slot outside the heap reaches nothing and is reached by nothing.
pub open spec fn reaches(cells: Seq<VCell>, a: int, b: int) -> bool {
    exists|p: Seq<int>| path_ok(cells, p) && p[0] == a && p.last() == b
}

pub proof fn lemma_reach_self(cells: Seq<VCell>, a: int)
    requires
        0 <= a < cells.len(),
    ensures
        reaches(cells, a, a),
{
    let p = seq![a];
    assert(p.last() == a);
    assert(path_ok(cells, p));
}

pub proof fn lemma_reach_step(cells: Seq<VCell>, r: int, a: int, b: int)
    requires
        reaches(cells, r, a),
        edge(cells, a, b),
        0 <= b < cells.len(),
    ensures
        reaches(cells, r, b),
{
    let p = choose|p: Seq<int>| path_ok(cells, p) && p[0] == r && p.last() == a;
    let q = p.push(b);
    assert(q.last() == b);
    assert forall|k: int| 0 <= k < q.len() - 1 implies edge(cells, #[trigger] q[k], q[k + 1]) by {
        if k < p.len() - 1 {
            assert(edge(cells, p[k], p[k + 1]));
        } else {
            assert(q[k] == p.last());
        }
    }
    assert(path_ok(cells, q));
}

pub proof fn lemma_reach_trans(cells: Seq<VCell>, a: int, b: int, c: int)
    requires
        reaches(cells, a, b),
        reaches(cells, b, c),
    ensures
        reaches(cells, a, c),
{
    let p1 = choose|p: Seq<int>| path_ok(cells, p) && p[0] == a && p.last() == b;
    let p2 = choose|p: Seq<int>| path_ok(cells, p) && p[0] == b && p.last() == c;
    if p2.len() == 1 {
        assert(p1[0] == a && p1.last() == c);
    } else {
        let q = p1 + p2.subrange(1, p2.len() as int);
        assert(q.len() == p1.len() + p2.len() - 1);
        assert forall|k: int| 0 <= k < q.len() implies 0 <= #[trigger] q[k] < cells.len() by {
            if k < p1.len() {
                assert(q[k] == p1[k]);
            } else {
                assert(q[k] == p2[k - p1.len() + 1]);
            }
        }
        assert forall|k: int| 0 <= k < q.len() - 1 implies edge(cells, #[trigger] q[k], q[k + 1]) by {
            if k < p1.len() - 1 {
                assert(q[k] == p1[k] && q[k + 1] == p1[k + 1]);
                assert(edge(cells, p1[k], p1[k + 1]));
            } else if k == p1.len() - 1 {
                assert(q[k] == p1.last());
                assert(q[k + 1] == p2[1]);
                assert(edge(cells, p2[0], p2[1]));
            } else {
                assert(q[k] == p2[k - p1.len() + 1] && q[k + 1] == p2[k - p1.len() + 2]);
                assert(edge(cells, p2[k - p1.len() + 1], p2[k - p1.len() + 2]));
            }
        }
        assert(q[0] == a);
        assert(q.last() == p2[p2.len() - 1]);
        assert(path_ok(cells, q));
    }
}

/// The `Used` set is closed under edges: children of marked slots are marked.
pub open spec fn used_closed(m: HeapModel) -> bool {
    forall|a: int, b: int|
        #![trigger edge(m.cells, a, b)]
        0 <= a < m.cells.len() && 0 <= b < m.cells.len() && m.states[a] is Used && edge(
            m.cells,
            a,
            b,
        ) ==> m.states[b] is Used
}

proof fn lemma_path_used(m: HeapModel, p: Seq<int>, k: int)
    requires
        m.states.len() == m.cells.len(),
        path_ok(m.cells, p),
        used_closed(m),
        m.states[p[0]] is Used,
        0 <= k < p.len(),
    ensures
        m.states[p[k]] is Used,
    decreases k,
{
    if k > 0 {
        lemma_path_used(m, p, k - 1);
        assert(edge(m.cells, p[k - 1], p[k]));
    }
}

/// From a marked slot, every reachable slot is marked, as long as the marked
/// set is closed.
pub proof fn lemma_closed_reach(m: HeapModel, r: int, j: int)
    requires
        m.states.len() == m.cells.len(),
        used_closed(m),
        0 <= r < m.cells.len(),
        m.states[r] is Used,
        reaches(m.cells, r, j),
    ensures
        0 <= j < m.cells.len(),
        m.states[j] is Used,
{
    let p = choose|p: Seq<int>| path_ok(m.cells, p) && p[0] == r && p.last() == j;
    lemma_path_used(m, p, p.len() - 1);
}

/// Nothing reachable from `root` is a free slot. The caller owes this to
/// `mark`: marking a freed slot would resurrect it while it stays on the
/// free list.
pub open spec fn reach_not_free(m: HeapModel, root: usize) -> bool {
    forall|j: int| reaches(m.cells, root as int, j) ==> !((#[trigger] m.states[j]) is Free)
}

/// What `mark` does: slot contents, the free list and the intern table stay;
/// states only gain `Used` marks; the root is marked when in bounds; every
/// new mark is reachable from the root; and children of newly marked slots
/// are marked.
pub open spec fn mark_post(m0: HeapModel, m1: HeapModel, root: usize) -> bool {
    &&& m1.cells == m0.cells
    &&& m1.free == m0.free
    &&& m1.syms == m0.syms
    &&& m1.states.len() == m0.states.len()
    &&& forall|i: int|
        0 <= i < m0.states.len() && #[trigger] m1.states[i] != m0.states[i] ==> m1.states[i] is Used
    &&& forall|i: int|
        0 <= i < m0.states.len() && (#[trigger] m0.states[i]) is Used ==> m1.states[i] is Used
    &&& (root < m0.cells.len() ==> m1.states[root as int] is Used)
    &&& forall|i: int|
        0 <= i < m0.states.len() && (#[trigger] m1.states[i]) is Used && !(m0.states[i] is Used)
            ==> reaches(m0.cells, root as int, i)
    &&& forall|a: int, b: int|
        #![trigger edge(m0.cells, a, b), m1.states[b]]
        0 <= a < m0.cells.len() && 0 <= b < m0.cells.len() && m1.states[a] is Used && !(
        m0.states[a] is Used) && edge(m0.cells, a, b) ==> m1.states[b] is Used
}

/// The slots counted free of a `Used` mark.
pub open spec fn unmarked_count(states: Seq<State>) -> nat
    decreases states.len(),
{
    if states.len() == 0 {
        0
    } else {
        unmarked_count(states.drop_last()) + if states.last() is Used {
            0nat
        } else {
            1nat
        }
    }
}

pub proof fn lemma_unmarked_update(states: Seq<State>, i: int)
    requires
        0 <= i < states.len(),
        !(states[i] is Used),
    ensures
        unmarked_count(states.update(i, State::Used)) == unmarked_count(states) - 1,
    decreases states.len(),
{
    let s1 = states.update(i, State::Used);
    if i == states.len() - 1 {
        assert(s1.drop_last() =~= states.drop_last());
        assert(s1.last() is Used);
    } else {
        assert(s1.drop_last() =~= states.drop_last().update(i, State::Used));
        lemma_unmarked_update(states.drop_last(), i);
        assert(s1.last() == states.last());
    }
}

pub proof fn lemma_unmarked_mono(s0: Seq<State>, s1: Seq<State>)
    requires
        s0.len() == s1.len(),
        forall|i: int| 0 <= i < s0.len() && (#[trigger] s0[i]) is Used ==> s1[i] is Used,
    ensures
        unmarked_count(s1) <= unmarked_count(s0),
    decreases s0.len(),
{
    if s0.len() > 0 {
        assert forall|i: int|
            0 <= i < s0.drop_last().len() && (#[trigger] s0.drop_last()[i]) is Used implies s1
            .drop_last()[i] is Used by {
            assert(s0[i] is Used);
        }
        lemma_unmarked_mono(s0.drop_last(), s1.drop_last());
        assert(s0.last() == s0[s0.len() - 1]);
    }
}

/// The indices with state `Allocated` below `n`, in ascending order.
pub open spec fn alloc_indices(states: Seq<State>, n: int) -> Seq<usize>
    decreases n,
{
    if n <= 0 {
        Seq::empty()
    } else {
        alloc_indices(states, n - 1) + (if states[n - 1] is Allocated {
            seq![(n - 1) as usize]
        } else {
            Seq::empty()
        })
    }
}

/// What `sweep` does: every `Allocated` slot is freed (its contents erased,
/// its index appended to the free list in ascending order, its interned name
/// forgotten), every `Used` slot becomes `Allocated`, free slots stay free,
/// and intern entries survive exactly when their slot was not `Allocated`.
pub open spec fn sweep_post(m0: HeapModel, m1: HeapModel) -> bool {
    &&& m1.cells.len() == m0.cells.len()
    &&& m1.states.len() == m0.states.len()
    &&& forall|i: int|
        0 <= i < m0.states.len() ==> #[trigger] m1.states[i] == (match m0.states[i] {
            State::Allocated => State::Free,
            State::Used => State::Allocated,
            State::Free => State::Free,
        })
    &&& forall|i: int|
        0 <= i < m0.cells.len() ==> #[trigger] m1.cells[i] == (if m0.states[i] is Allocated {
            VCell::Undefined
        } else {
            m0.cells[i]
        })
    &&& m1.free == m0.free + alloc_indices(m0.states, m0.states.len() as int)
    &&& forall|k: int|
        0 <= k < m1.syms.len() ==> m0.syms.contains(#[trigger] m1.syms[k]) && !(m0.states[(
        m1.syms[k]).1 as int] is Allocated)
    &&& forall|k: int|
        0 <= k < m0.syms.len() && !(m0.states[(#[trigger] m0.syms[k]).1 as int] is Allocated)
            ==> m1.syms.contains(m0.syms[k])
}

/// A partially finished mark from `root`: only `Used` marks were added, the
/// root is marked, every new mark is reachable from the root, and every new
/// mark except the root already has its children marked.
pub open spec fn mark_progress(m0: HeapModel, m: HeapModel, root: usize) -> bool {
    &&& m.cells == m0.cells
    &&& m.free == m0.free
    &&& m.syms == m0.syms
    &&& m.states.len() == m0.states.len()
    &&& forall|i: int|
        0 <= i < m0.states.len() && #[trigger] m.states[i] != m0.states[i] ==> m.states[i] is Used
    &&& forall|i: int|
        0 <= i < m0.states.len() && (#[trigger] m0.states[i]) is Used ==> m.states[i] is Used
    &&& (root < m0.cells.len() ==> m.states[root as int] is Used)
    &&& forall|i: int|
        0 <= i < m0.states.len() && (#[trigger] m.states[i]) is Used && !(m0.states[i] is Used)
            ==> reaches(m0.cells, root as int, i)
    &&& forall|a: int, b: int|
        #![trigger edge(m0.cells, a, b), m.states[b]]
        0 <= a < m0.cells.len() && 0 <= b < m0.cells.len() && a != root as int
            && m.states[a] is Used && !(m0.states[a] is Used) && edge(m0.cells, a, b)
            ==> m.states[b] is Used
}

/// Marking one live slot preserves well-formedness: the free list and the
/// intern table see no state they depend on change.
pub proof fn lemma_mark_one_wf(m0: HeapModel, m1: HeapModel, root: usize)
    requires
        m0.wf(),
        root < m0.cells.len(),
        !(m0.states[root as int] is Free),
        m1.cells == m0.cells,
        m1.free == m0.free,
        m1.syms == m0.syms,
        m1.states == m0.states.update(root as int, State::Used),
    ensures
        m1.wf(),
{
    assert forall|k: int|
        0 <= k < m1.free.len() implies m1.free_slot_ok(#[trigger] m1.free[k]) by {
        assert(m0.free_slot_ok(m0.free[k]));
        assert(m0.free[k] != root);
    }
    assert forall|i: int|
        0 <= i < m1.states.len() && (#[trigger] m1.states[i]) is Free implies m1.free.contains(
        i as usize,
    ) by {
        assert(i != root as int);
        assert(m0.states[i] is Free);
    }
    assert forall|k: int|
        0 <= k < m1.syms.len() implies m1.sym_entry_ok(#[trigger] m1.syms[k]) by {
        assert(m0.sym_entry_ok(m0.syms[k]));
    }
}

/// Marking the root slot alone is a valid partial mark.
pub proof fn lemma_mark_root_progress(m0: HeapModel, m1: HeapModel, root: usize)
    requires
        root < m0.cells.len(),
        m0.states.len() == m0.cells.len(),
        m1.cells == m0.cells,
        m1.free == m0.free,
        m1.syms == m0.syms,
        m1.states == m0.states.update(root as int, State::Used),
    ensures
        mark_progress(m0, m1, root),
{
    lemma_reach_self(m0.cells, root as int);
}

/// A recursive mark of a child of the root extends a partial mark.
pub proof fn lemma_mark_compose(
    m0: HeapModel,
    m_pre: HeapModel,
    m_post: HeapModel,
    root: usize,
    c: usize,
)
    requires
        m0.states.len() == m0.cells.len(),
        root < m0.cells.len(),
        mark_progress(m0, m_pre, root),
        mark_post(m_pre, m_post, c),
        edge(m0.cells, root as int, c as int),
    ensures
        mark_progress(m0, m_post, root),
        c < m0.cells.len() ==> m_post.states[c as int] is Used,
{
    assert(mark_progress(m0, m_pre, root));
    assert(mark_post(m_pre, m_post, c));
    assert forall|i: int|
        0 <= i < m0.states.len() && #[trigger] m_post.states[i] != m0.states[i] implies (
    m_post.states[i]) is Used by {
        assert(mark_progress(m0, m_pre, root));
        assert(mark_post(m_pre, m_post, c));
        if m_pre.states[i] != m0.states[i] {
            assert(m_pre.states[i] is Used);
        } else {
            assert(m_post.states[i] != m_pre.states[i]);
        }
    }
    assert forall|i: int|
        0 <= i < m0.states.len() && (#[trigger] m0.states[i]) is Used implies (
    m_post.states[i]) is Used by {
        assert(mark_progress(m0, m_pre, root));
        assert(mark_post(m_pre, m_post, c));
        assert(m_pre.states[i] is Used);
    }
    assert(m_post.states[root as int] is Used) by {
        assert(m_pre.states[root as int] is Used);
    }
    assert forall|i: int|
        0 <= i < m0.states.len() && (#[trigger] m_post.states[i]) is Used && !(
        m0.states[i] is Used) implies reaches(m0.cells, root as int, i) by {
        if m_pre.states[i] is Used {
        } else {
            assert(reaches(m_pre.cells, c as int, i));
            let p = choose|p: Seq<int>|
                path_ok(m_pre.cells, p) && p[0] == c as int && p.last() == i;
            assert((c as int) < m0.cells.len());
            lemma_reach_self(m0.cells, root as int);
            lemma_reach_step(m0.cells, root as int, root as int, c as int);
            lemma_reach_trans(m0.cells, root as int, c as int, i);
        }
    }
    assert forall|a: int, b: int|
        #![trigger edge(m0.cells, a, b), m_post.states[b]]
        0 <= a < m0.cells.len() && 0 <= b < m0.cells.len() && a != root as int
            && m_post.states[a] is Used && !(m0.states[a] is Used) && edge(m0.cells, a, b) implies (
    m_post.states[b]) is Used by {
        assert(mark_progress(m0, m_pre, root));
        assert(mark_post(m_pre, m_post, c));
        if m_pre.states[a] is Used {
            assert(m_pre.states[b] is Used);
        } else {
            assert(edge(m_pre.cells, a, b));
        }
    }
}

/// A finished partial mark whose root's children are all marked satisfies
/// the mark contract.
pub proof fn lemma_mark_finish(m0: HeapModel, m1: HeapModel, root: usize)
    requires
        m0.states.len() == m0.cells.len(),
        root < m0.cells.len(),
        mark_progress(m0, m1, root),
        forall|b: int|
            0 <= b < m0.cells.len() && edge(m0.cells, root as int, b) ==> (
            #[trigger] m1.states[b]) is Used,
    ensures
        mark_post(m0, m1, root),
{
    assert forall|a: int, b: int|
        #![trigger edge(m0.cells, a, b), m1.states[b]]
        0 <= a < m0.cells.len() && 0 <= b < m0.cells.len() && m1.states[a] is Used && !(
        m0.states[a] is Used) && edge(m0.cells, a, b) implies m1.states[b] is Used by {
        if a != root as int {
            assert(mark_progress(m0, m1, root));
        }
    }
}

/// Marks only ever add `Used`, so what the child call must not touch stays
/// untouched: nothing reachable from the child is free.
pub proof fn lemma_mark_child_pre(m0: HeapModel, m: HeapModel, root: usize, c: usize)
    requires
        reach_not_free(m0, root),
        m0.states.len() == m0.cells.len(),
        root < m0.cells.len(),
        edge(m0.cells, root as int, c as int),
        m.cells == m0.cells,
        m.states.len() == m0.states.len(),
        forall|i: int|
            0 <= i < m0.states.len() && #[trigger] m.states[i] != m0.states[i]
                ==> m.states[i] is Used,
    ensures
        reach_not_free(m, c),
{
    assert forall|j: int| reaches(m.cells, c as int, j) implies !(
    (#[trigger] m.states[j]) is Free) by {
        let p = choose|p: Seq<int>| path_ok(m.cells, p) && p[0] == c as int && p.last() == j;
        assert((c as int) < m0.cells.len());
        lemma_reach_self(m0.cells, root as int);
        lemma_reach_step(m0.cells, root as int, root as int, c as int);
        lemma_reach_trans(m0.cells, root as int, c as int, j);
        assert(!(m0.states[j] is Free));
        if m.states[j] != m0.states[j] {
            assert(m.states[j] is Used);
        }
    }
}

/// Freeing one `Allocated` slot during the sweep keeps the sweep's books:
/// the freed index joins the list in order, and intern entries survive
/// exactly when their slot is not yet processed or was not `Allocated`.
pub proof fn lemma_sweep_free_step(m0: HeapModel, pre: HeapModel, post: HeapModel, it: usize)
    requires
        pre.wf(),
        it < pre.cells.len(),
        pre.states[it as int] is Allocated,
        m0.states[it as int] is Allocated,
        pre.cells[it as int] == m0.cells[it as int],
        it < m0.states.len(),
        crate::heap::free_post(pre, post, it),
        pre.free == m0.free + alloc_indices(m0.states, it as int),
        forall|k: int|
            0 <= k < pre.syms.len() ==> m0.syms.contains(#[trigger] pre.syms[k]) && !((
            pre.syms[k]).1 < it && m0.states[(pre.syms[k]).1 as int] is Allocated),
        forall|k: int|
            0 <= k < m0.syms.len() && ((#[trigger] m0.syms[k]).1 >= it || !(m0.states[(
            m0.syms[k]).1 as int] is Allocated)) ==> pre.syms.contains(m0.syms[k]),
    ensures
        post.free == m0.free + alloc_indices(m0.states, it + 1),
        forall|k: int|
            0 <= k < post.syms.len() ==> m0.syms.contains(#[trigger] post.syms[k]) && !((
            post.syms[k]).1 < it + 1 && m0.states[(post.syms[k]).1 as int] is Allocated),
        forall|k: int|
            0 <= k < m0.syms.len() && ((#[trigger] m0.syms[k]).1 >= it + 1 || !(m0.states[(
            m0.syms[k]).1 as int] is Allocated)) ==> post.syms.contains(m0.syms[k]),
{
    assert(post.free =~= m0.free + alloc_indices(m0.states, it + 1));
    if pre.cells[it as int] is Symbol {
        let s = pre.cells[it as int]->Symbol_0@;
        assert(crate::heap::has_key(pre.syms, s));
        let idx = crate::heap::key_index(pre.syms, s);
        assert(pre.syms[idx].0 == s);
        assert(pre.syms[idx].1 == it);
        assert(post.syms == pre.syms.remove(idx));
        assert forall|k: int|
            0 <= k < post.syms.len() implies m0.syms.contains(#[trigger] post.syms[k]) && !((
        post.syms[k]).1 < it + 1 && m0.states[(post.syms[k]).1 as int] is Allocated) by {
            let j = if k < idx {
                k
            } else {
                k + 1
            };
            assert(post.syms[k] == pre.syms[j]);
            assert(m0.syms.contains(pre.syms[j]));
            assert((pre.syms[j]).1 != it) by {
                if (pre.syms[j]).1 == it {
                    assert(pre.sym_entry_ok(pre.syms[j]));
                    assert((pre.syms[j]).0 == s);
                    assert(j != idx);
                    assert(pre.syms[j].0 != pre.syms[idx].0);
                }
            }
        }
        assert forall|k: int|
            0 <= k < m0.syms.len() && ((#[trigger] m0.syms[k]).1 >= it + 1 || !(m0.states[(
            m0.syms[k]).1 as int] is Allocated)) implies post.syms.contains(m0.syms[k]) by {
            assert(pre.syms.contains(m0.syms[k]));
            let j = choose|j: int| 0 <= j < pre.syms.len() && pre.syms[j] == m0.syms[k];
            assert(j != idx) by {
                if j == idx {
                    assert(m0.syms[k].1 == it);
                }
            }
            if j < idx {
                assert(post.syms[j] == pre.syms[j]);
            } else {
                assert(post.syms[j - 1] == pre.syms[j]);
            }
        }
    } else {
        assert(post.syms == pre.syms);
        assert forall|k: int|
            0 <= k < post.syms.len() implies m0.syms.contains(#[trigger] post.syms[k]) && !((
        post.syms[k]).1 < it + 1 && m0.states[(post.syms[k]).1 as int] is Allocated) by {
            assert((post.syms[k]).1 != it) by {
                if (post.syms[k]).1 == it {
                    assert(pre.sym_entry_ok(pre.syms[k]));
                }
            }
        }
        assert forall|k: int|
            0 <= k < m0.syms.len() && ((#[trigger] m0.syms[k]).1 >= it + 1 || !(m0.states[(
            m0.syms[k]).1 as int] is Allocated)) implies post.syms.contains(m0.syms[k]) by {
            if m0.syms[k].1 == it {
                assert(pre.syms.contains(m0.syms[k]));
                let j = choose|j: int| 0 <= j < pre.syms.len() && pre.syms[j] == m0.syms[k];
                assert(pre.sym_entry_ok(pre.syms[j]));
                assert(false);
            }
        }
    }
}

/// Allocating a slot and freeing it again restores the heap exactly: the
/// same contents, states, free list and intern table, so repeated cycles
/// cannot grow memory.
pub proof fn lemma_alloc_free_round_trip(m0: HeapModel, m1: HeapModel, m2: HeapModel, i: usize)
    requires
        m0.wf(),
        m0.free.len() > 0,
        crate::heap::alloc_post(m0, m1, i),
        crate::heap::free_post(m1, m2, i),
    ensures
        m2 == m0,
{
    assert(m0.free_slot_ok(m0.free[m0.free.len() - 1]));
    assert(m2.cells =~= m0.cells);
    assert(m2.states =~= m0.states);
    assert(m2.free =~= m0.free);
    assert(m2.syms =~= m0.syms);
}

/// Interning: materializing the same symbol twice yields the same pointer.
pub proof fn lemma_symbol_interning(
    m0: HeapModel,
    m1: HeapModel,
    m2: HeapModel,
    s: Seq<char>,
    r1: VCell,
    r2: VCell,
)
    requires
        m1.wf(),
        m2.wf(),
        crate::heap::heap_extends(m1, m2),
        crate::heap::value_rep(m1, r1, crate::cell::Ast::Symbol(s)),
        crate::heap::value_rep(m2, r2, crate::cell::Ast::Symbol(s)),
        r1 is Ptr,
        r2 is Ptr,
    ensures
        r1 == r2,
{
    let p1 = r1->Ptr_0;
    let p2 = r2->Ptr_0;
    crate::heap::lemma_rep_symbol_slot(m1, r1, s);
    assert(m2.cells[p1 as int] == m1.cells[p1 as int]);
    assert(m2.states[p1 as int] == m1.states[p1 as int]);
    crate::heap::lemma_rep_symbol_slot(m2, r2, s);
    let k1 = crate::heap::key_index(m2.syms, s);
    assert(m2.syms[k1].1 == p1 && m2.syms[k1].1 == p2);
}

/// Interning: distinct symbol names yield distinct pointers.
pub proof fn lemma_distinct_symbols(
    m1: HeapModel,
    m2: HeapModel,
    s1: Seq<char>,
    s2: Seq<char>,
    r1: VCell,
    r2: VCell,
)
    requires
        s1 != s2,
        crate::heap::heap_extends(m1, m2),
        crate::heap::value_rep(m1, r1, crate::cell::Ast::Symbol(s1)),
        crate::heap::value_rep(m2, r2, crate::cell::Ast::Symbol(s2)),
        r1 is Ptr,
        r2 is Ptr,
    ensures
        r1 != r2,
{
    let p1 = r1->Ptr_0;
    let p2 = r2->Ptr_0;
    crate::heap::lemma_rep_symbol_slot(m1, r1, s1);
    assert(m2.cells[p1 as int] == m1.cells[p1 as int]);
    crate::heap::lemma_rep_symbol_slot(m2, r2, s2);
}

/// Materializing a cell and reifying the result gives back an equal cell.
pub proof fn lemma_put_get_round_trip(m: HeapModel, r: VCell, a: crate::cell::Ast, c: crate::cell::Ast)
    requires
        crate::heap::value_rep(m, r, a),
        crate::heap::value_rep(m, r, c),
    ensures
        c == a,
{
    crate::heap::lemma_rep_unique(m, r, a, c);
}

/// Mark-sweep reachability: starting from a heap with no marks whose
/// reachable slots are all allocated, after `mark(root)` and one `sweep`
/// exactly the slots reachable from `root` are `Allocated`; after one more
/// `sweep` with no marking, every slot is free.
pub proof fn lemma_mark_sweep_reachability(
    m0: HeapModel,
    m1: HeapModel,
    m2: HeapModel,
    m3: HeapModel,
    root: usize,
)
    requires
        m0.states.len() == m0.cells.len(),
        forall|i: int| 0 <= i < m0.states.len() ==> !((#[trigger] m0.states[i]) is Used),
        forall|j: int|
            reaches(m0.cells, root as int, j) ==> (#[trigger] m0.states[j]) is Allocated,
        mark_post(m0, m1, root),
        sweep_post(m1, m2),
        sweep_post(m2, m3),
    ensures
        forall|i: int|
            0 <= i < m0.states.len() ==> ((#[trigger] m2.states[i]) is Allocated <==> reaches(
                m0.cells,
                root as int,
                i,
            )),
        forall|i: int| 0 <= i < m0.states.len() ==> (#[trigger] m3.states[i]) is Free,
{
    assert(used_closed(m1)) by {
        assert forall|a: int, b: int|
            0 <= a < m1.cells.len() && 0 <= b < m1.cells.len() && m1.states[a] is Used && #[trigger] edge(
                m1.cells,
                a,
                b,
            ) implies m1.states[b] is Used by {
            assert(!(m0.states[a] is Used));
            assert(edge(m0.cells, a, b));
        }
    }
    assert forall|i: int|
        0 <= i < m0.states.len() implies ((#[trigger] m2.states[i]) is Allocated <==> reaches(
        m0.cells,
        root as int,
        i,
    )) by {
        if m2.states[i] is Allocated {
            assert(m1.states[i] is Used);
            assert(reaches(m0.cells, root as int, i));
        }
        if reaches(m0.cells, root as int, i) {
            let p = choose|p: Seq<int>|
                path_ok(m0.cells, p) && p[0] == root as int && p.last() == i;
            assert(0 <= p[0] < m0.cells.len());
            assert(root < m0.cells.len());
            assert(m1.states[root as int] is Used);
            lemma_closed_reach(m1, root as int, i);
            assert(m2.states[i] is Allocated);
        }
    }
    assert forall|i: int| 0 <= i < m0.states.len() implies (#[trigger] m3.states[i]) is Free by {
        assert(!(m2.states[i] is Used));
    }
}

} // verus!
