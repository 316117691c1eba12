//! Compiled function prototypes and their capture descriptors.

use vstd::prelude::*;

verus! {

/// A register of the executing frame, counted from the frame's base.
pub type RegisterIndex = u8;

/// A position in a closure's list of captured variables.
pub type UpValueIndex = u8;

/// How one captured variable of a prototype is bound when a closure is made.
#[derive(Debug, Clone, Copy, PartialEq, Eq, Structural)]
pub enum UpValueDescriptor {
    /// Bound to the global environment.
    Environment,
    /// Captures a register of the frame that creates the closure.
    ParentLocal(RegisterIndex),
    /// Forwards a captured variable of the closure that creates this one.
    Outer(UpValueIndex),
}

/// A constant of a compiled function.
#[derive(Debug, Clone, PartialEq, Eq)]
pub enum Constant {
    Nil,
    Boolean(bool),
    Integer(i64),
    /// The bit pattern of an IEEE 754 double.
    Number(u64),
    /// The bytes of a string.
    Str(Vec<u8>),
}

/// One encoded instruction. This crate stores instructions and never decodes
/// them.
#[derive(Debug, Clone, Copy, PartialEq, Eq, Structural)]
pub struct OpCode(pub u32);

/// The handle of a prototype that lives in a heap.
#[derive(Debug, Clone, Copy, PartialEq, Eq, Hash, Structural)]
pub struct ProtoRef(pub usize);

/// One compiled function body. It is never changed once it is in a heap.
#[derive(Debug, Clone)]
pub struct FunctionProto {
    pub fixed_params: u8,
    pub has_varargs: bool,
    pub stack_size: u16,
    pub constants: Vec<Constant>,
    pub opcodes: Vec<OpCode>,
    /// The captured variables; a variable is known by its position here.
    pub upvalues: Vec<UpValueDescriptor>,
    /// The function literals nested directly in this body.
    pub prototypes: Vec<ProtoRef>,
}

/// Whether `index` is the first position of `descriptors` that holds
/// [`UpValueDescriptor::Environment`].
pub open spec fn is_first_environment(descriptors: Seq<UpValueDescriptor>, index: int) -> bool {
    &&& 0 <= index < descriptors.len()
    &&& descriptors[index] == UpValueDescriptor::Environment
    &&& forall|i: int| 0 <= i < index ==> descriptors[i] != UpValueDescriptor::Environment
}

/// Whether no position of `descriptors` holds
/// [`UpValueDescriptor::Environment`].
pub open spec fn has_no_environment(descriptors: Seq<UpValueDescriptor>) -> bool {
    forall|i: int| 0 <= i < descriptors.len() ==> descriptors[i] != UpValueDescriptor::Environment
}

/// The first position of `descriptors` that holds
/// [`UpValueDescriptor::Environment`], where there is one.
pub open spec fn first_environment(descriptors: Seq<UpValueDescriptor>) -> int {
    choose|index: int| is_first_environment(descriptors, index)
}

/// At most one position is the first that holds the environment.
pub proof fn lemma_first_environment_unique(descriptors: Seq<UpValueDescriptor>, index: int)
    requires
        is_first_environment(descriptors, index),
    ensures
        first_environment(descriptors) == index,
        !has_no_environment(descriptors),
{
    let chosen = first_environment(descriptors);
    assert(is_first_environment(descriptors, chosen));
    if chosen < index {
        assert(descriptors[chosen] != UpValueDescriptor::Environment);
    }
    if index < chosen {
        assert(descriptors[index] != UpValueDescriptor::Environment);
    }
}

/// Finds the first environment descriptor.
pub fn environment_index(descriptors: &Vec<UpValueDescriptor>) -> (found: Option<usize>)
    ensures
        match found {
            Some(index) => is_first_environment(descriptors@, index as int) && index
                == first_environment(descriptors@),
            None => has_no_environment(descriptors@),
        },
{
    let mut i: usize = 0;
    while i < descriptors.len()
        invariant
            i <= descriptors.len(),
            forall|k: int| 0 <= k < i ==> descriptors@[k] != UpValueDescriptor::Environment,
        decreases descriptors.len() - i,
    {
        match descriptors[i] {
            UpValueDescriptor::Environment => {
                proof {
                    lemma_first_environment_unique(descriptors@, i as int);
                }
                return Some(i);
            },
            _ => {},
        }
        i += 1;
    }
    None
}

} // verus!
