//! Rooting of values owned by an embedded, tracing garbage collector, and the scheduling of
//! the work that shares one execution context's side stack.
//!
//! Values are rooted in frames built on a page of slots ([`stack`]), whose discipline is
//! stated and proved in [`stack_laws`]. Tasks run one at a time on a page ([`task`]), and
//! persistent tasks serve calls from a mailbox ([`mailbox`]).

pub mod bitfield;
pub mod error;
pub mod field_index;
pub mod mailbox;
pub mod runtime;
pub mod stack;
pub mod stack_laws;
pub mod sys;
pub mod task;
pub mod value;

pub use bitfield::__BindgenBitfieldUnit;
