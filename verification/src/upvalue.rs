//! Cells that hold captured variables.

use vstd::prelude::*;
use crate::heap::Heap;
use crate::value::{Thread, Value};

verus! {

/// Where a captured variable lives.
#[derive(Debug, Clone, Copy, PartialEq, Eq, Structural)]
pub enum UpValueState {
    /// The variable is the register at this absolute position of the
    /// thread's stack.
    Open(Thread, usize),
    /// The variable has left the stack; the cell owns its value.
    Closed(Value),
}

/// The handle of a cell. Every closure that captured the same variable holds
/// the same handle.
#[derive(Debug, Clone, Copy, PartialEq, Eq, Hash, Structural)]
pub struct UpValue(pub usize);

impl UpValue {
    /// How `post` differs from `pre` once `value` was written through
    /// `cell`: an open cell hands the value on to its register, a closed
    /// one keeps it.
    pub open spec fn written(pre: Heap, cell: UpValue, value: Value, post: Heap) -> bool {
        &&& post.protos() == pre.protos()
        &&& post.closures() == pre.closures()
        &&& match pre.cells()[cell.0 as int] {
            UpValueState::Open(thread, slot) => {
                &&& post.cells() == pre.cells()
                &&& post.stacks() == pre.stacks().update(
                    thread.0 as int,
                    pre.stacks()[thread.0 as int].update(slot as int, value),
                )
            },
            UpValueState::Closed(_) => {
                &&& post.cells() == pre.cells().update(cell.0 as int, UpValueState::Closed(value))
                &&& post.stacks() == pre.stacks()
            },
        }
    }

    /// Reads the variable.
    pub fn get(self, heap: &Heap) -> (value: Value)
        requires
            heap.wf(),
            heap.has_upvalue(self),
        ensures
            value == heap.value_of(self),
    {
        match heap.upvalue_state(self) {
            UpValueState::Open(thread, slot) => heap.register(thread, slot),
            UpValueState::Closed(value) => value,
        }
    }

    /// Writes the variable. Every closure that holds this cell reads the
    /// new value.
    pub fn set(self, heap: &mut Heap, value: Value)
        requires
            old(heap).wf(),
            old(heap).has_upvalue(self),
        ensures
            final(heap).wf(),
            old(heap).evolves_to(*final(heap)),
            Self::written(*old(heap), self, value, *final(heap)),
    {
        match heap.upvalue_state(self) {
            UpValueState::Open(thread, slot) => heap.set_register(thread, slot, value),
            UpValueState::Closed(_) => heap.set_closed(self, value),
        }
    }
}

} // verus!
