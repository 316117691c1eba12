//! Closures and captured variables for a register-based script interpreter.
//!
//! A compiled function body is a [`FunctionProto`]. A [`Closure`] pairs a
//! prototype with the cells that hold its captured variables. A cell
//! ([`UpValue`]) is shared by every closure that captured the same variable;
//! while the frame that declared the variable is live the cell is *open* and
//! forwards to the register, afterwards it is *closed* and owns the value.
//!
//! All objects live in a [`Heap`] and are named by copyable handles, so that
//! many owners can share one cell and identity is the handle itself.

pub mod closure;
pub mod heap;
pub mod laws;
pub mod proto;
pub mod upvalue;
pub mod value;

pub use closure::{Closure, ClosureError, ClosureState};
pub use heap::Heap;
pub use proto::{Constant, FunctionProto, OpCode, ProtoRef, RegisterIndex, UpValueDescriptor, UpValueIndex};
pub use upvalue::{UpValue, UpValueState};
pub use value::{Table, Thread, Value};
