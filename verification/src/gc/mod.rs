pub mod block;
pub mod gc_ref;
pub mod header;
pub mod heap;
pub mod trace;

pub use gc_ref::{Ref, RefMut};
pub use heap::{AllocFailure, AllocResult, Handle, Heap, HeapConfig};
pub use trace::{Trace, Tracer};
