//! A verified core for a Scheme-family interpreter: the surface AST, a slab
//! heap of tagged cells with symbol interning and a precise mark-and-sweep
//! collector, a bytecode compiler with its virtual machine, and a
//! `syntax-rules` transformer.

pub mod cell;
pub mod compile;
pub mod gc;
pub mod heap;
pub mod transform;
pub mod vcell;
pub mod vm;
