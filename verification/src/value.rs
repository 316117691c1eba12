//! Values that registers and closed cells hold.

use vstd::prelude::*;
use crate::closure::Closure;

verus! {

/// The handle of a table. Tables are owned elsewhere; two handles name the
/// same table exactly when they are equal.
#[derive(Debug, Clone, Copy, PartialEq, Eq, Hash, Structural)]
pub struct Table(pub usize);

/// The handle of a thread of execution, which owns one register stack in a
/// heap.
#[derive(Debug, Clone, Copy, PartialEq, Eq, Hash, Structural)]
pub struct Thread(pub usize);

/// A value of the interpreted language.
#[derive(Debug, Clone, Copy, PartialEq, Eq, Structural)]
pub enum Value {
    Nil,
    Boolean(bool),
    Integer(i64),
    /// The bit pattern of an IEEE 754 double.
    Number(u64),
    Table(Table),
    Closure(Closure),
}

} // verus!
