use marwood::cell::Cell;
use marwood::heap::Heap;
use marwood::vcell::{State, VCell};

const CHUNK_SIZE: usize = 1024;

fn sym(s: &str) -> Cell {
    Cell::symbol(s)
}

fn num(n: i64) -> Cell {
    Cell::Number(n)
}

#[test]
fn alloc_allocs_and_sets_gc_state() {
    let mut heap = Heap::new(CHUNK_SIZE);
    assert_eq!(heap.gc_state(0), Some(State::Free));
    assert_eq!(heap.gc_state(1), Some(State::Free));
    assert_eq!(heap.allocate(), 0);
    assert_eq!(heap.gc_state(0), Some(State::Allocated));
    assert_eq!(heap.allocate(), 1);
    assert_eq!(heap.gc_state(1), Some(State::Allocated));
    heap.get_at_index_mut(0, VCell::FixedNum(42));
    heap.get_at_index_mut(1, VCell::FixedNum(43));
    assert_eq!(heap.get_at_index(0), &VCell::FixedNum(42));
    assert_eq!(heap.get_at_index(1), &VCell::FixedNum(43));
}

#[test]
fn symbols_are_interned() {
    let mut heap = Heap::new(CHUNK_SIZE);
    let first = heap.put_cell(&sym("foo"));
    let second = heap.put_cell(&sym("foo"));
    assert_eq!(first, second);
    let third = heap.put_cell(&sym("foo"));
    let other = heap.put_cell(&sym("bar"));
    assert_ne!(third, other);
}

#[test]
fn put_ast() {
    let mut heap = Heap::new(CHUNK_SIZE);
    // FixedNum
    {
        let vcell = heap.put_cell(&num(42));
        assert_eq!(heap.get_as_cell(&vcell), num(42));
    }
    // bool
    {
        let mut heap = Heap::new(CHUNK_SIZE);
        let true_vcell = heap.put_cell(&Cell::Bool(true));
        let false_vcell = heap.put_cell(&Cell::Bool(false));
        assert_eq!(heap.get_as_cell(&true_vcell), Cell::Bool(true));
        assert_eq!(heap.get_as_cell(&false_vcell), Cell::Bool(false));
    }
    // Nil
    {
        let mut heap = Heap::new(CHUNK_SIZE);
        let vcell = heap.put_cell(&Cell::Nil);
        assert_eq!(heap.get_as_cell(&vcell), Cell::Nil);
    }
    // Pair
    {
        let mut heap = Heap::new(CHUNK_SIZE);
        let vcell = heap.put_cell(&Cell::new_pair(num(10), num(20)));
        assert_eq!(heap.get_as_cell(&vcell), Cell::new_pair(num(10), num(20)));
    }
    // Symbol
    {
        let mut heap = Heap::new(CHUNK_SIZE);
        let vcell = heap.put_cell(&sym("foo"));
        assert_eq!(heap.get_as_cell(&vcell), sym("foo"));
    }
}

#[test]
fn single_vcell_mark() {
    let mut heap = Heap::new(CHUNK_SIZE);
    let root = heap.put_cell(&num(42));
    assert_eq!(heap.gc_state(0), Some(State::Allocated));
    heap.mark(root.as_ptr().unwrap());
    assert_eq!(heap.gc_state(0), Some(State::Used));
    heap.sweep();
    assert_eq!(heap.free_list_len(), CHUNK_SIZE - 1);
    heap.sweep();
    assert_eq!(heap.free_list_len(), CHUNK_SIZE);
}

#[test]
fn pair_mark_and_sweep() {
    let mut heap = Heap::new(CHUNK_SIZE);
    let root = heap.put_cell(&Cell::new_pair(num(100), num(200)));
    assert_eq!(heap.gc_state(0), Some(State::Allocated));
    assert_eq!(heap.gc_state(1), Some(State::Allocated));
    assert_eq!(heap.gc_state(2), Some(State::Allocated));
    heap.mark(root.as_ptr().unwrap());
    assert_eq!(heap.gc_state(0), Some(State::Used));
    assert_eq!(heap.gc_state(1), Some(State::Used));
    assert_eq!(heap.gc_state(2), Some(State::Used));
    heap.sweep();
    assert_eq!(heap.free_list_len(), CHUNK_SIZE - 3);
    heap.sweep();
    assert_eq!(heap.free_list_len(), CHUNK_SIZE);
}

#[test]
fn cyclic_mark_and_sweep() {
    let mut heap = Heap::new(CHUNK_SIZE);
    let car = heap.put_cell(&num(100));
    let pair = heap.put(VCell::Pair(car.as_ptr().unwrap(), 1));
    heap.mark(pair.as_ptr().unwrap());
    heap.sweep();
    assert_eq!(heap.free_list_len(), CHUNK_SIZE - 2);
}

#[test]
fn alloc_free_round_trip_restores_the_free_list() {
    let mut heap = Heap::new(CHUNK_SIZE);
    assert_eq!(heap.free_list_len(), CHUNK_SIZE);
    let slot = heap.allocate();
    assert_eq!(heap.free_list_len(), CHUNK_SIZE - 1);
    assert_eq!(heap.gc_state(slot), Some(State::Allocated));
    heap.free(slot);
    assert_eq!(heap.free_list_len(), CHUNK_SIZE);
    assert_eq!(heap.gc_state(slot), Some(State::Free));
    // repeated cycles do not grow memory
    for _ in 0..10 {
        let s = heap.allocate();
        heap.free(s);
    }
    assert_eq!(heap.free_list_len(), CHUNK_SIZE);
}

#[test]
fn freeing_a_symbol_forgets_its_interning() {
    let mut heap = Heap::new(CHUNK_SIZE);
    let first = heap.put_cell(&sym("foo"));
    let slot = first.as_ptr().unwrap();
    heap.free(slot);
    let second = heap.put_cell(&sym("foo"));
    // a fresh slot is allocated rather than the stale pointer returned
    assert_eq!(heap.gc_state(second.as_ptr().unwrap()), Some(State::Allocated));
    let third = heap.put_cell(&sym("foo"));
    assert_eq!(second, third);
}

#[test]
fn get_returns_the_target_slot() {
    let mut heap = Heap::new(CHUNK_SIZE);
    let p = heap.put(VCell::FixedNum(7));
    assert_eq!(heap.get(&p), VCell::FixedNum(7));
}

#[test]
fn deep_structure_round_trip() {
    let mut heap = Heap::new(CHUNK_SIZE);
    let c = Cell::new_list(vec![
        sym("a"),
        Cell::new_list(vec![Cell::Bool(true), num(-3)]),
        Cell::new_pair(sym("x"), sym("y")),
    ]);
    let v = heap.put_cell(&c);
    assert_eq!(heap.get_as_cell(&v), c);
}

#[test]
fn cycle_survives_one_collection() {
    let mut heap = Heap::new(CHUNK_SIZE);
    let car = heap.put_cell(&num(100));
    let pair = heap.put(VCell::Pair(car.as_ptr().unwrap(), 1));
    heap.mark(pair.as_ptr().unwrap());
    heap.sweep();
    assert_eq!(heap.gc_state(0), Some(State::Allocated));
    assert_eq!(heap.gc_state(1), Some(State::Allocated));
}

#[test]
fn sweep_frees_exactly_the_unreachable_slots() {
    let mut heap = Heap::new(CHUNK_SIZE);
    let junk = heap.put_cell(&num(1));
    let root = heap.put_cell(&num(2));
    assert_eq!(junk.as_ptr().unwrap(), 0);
    assert_eq!(root.as_ptr().unwrap(), 1);
    heap.mark(root.as_ptr().unwrap());
    heap.sweep();
    assert_eq!(heap.gc_state(0), Some(State::Free));
    assert_eq!(heap.gc_state(1), Some(State::Allocated));
    assert_eq!(heap.free_list_len(), CHUNK_SIZE - 1);
}
