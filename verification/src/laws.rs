//! What holds of closures and cells however the heap is used.

use vstd::prelude::*;
use crate::closure::{top_level_binding, Closure, ClosureError};
use crate::heap::Heap;
use crate::proto::{FunctionProto, ProtoRef, UpValueDescriptor};
use crate::upvalue::{UpValue, UpValueState};
use crate::value::{Table, Thread, Value};

verus! {

/// A prototype that captures nothing becomes a top-level closure with no
/// cells, whether or not an environment is given, and no cell is made.
pub proof fn law_no_upvalues_always_succeeds(
    pre: Heap,
    proto: FunctionProto,
    environment: Option<Table>,
    post: Heap,
    result: Result<Closure, ClosureError>,
)
    requires
        proto.upvalues@.len() == 0,
        Closure::created_top_level(pre, proto, environment, post, result),
    ensures
        result is Ok,
        post.closures()[result->Ok_0.0 as int].upvalues@ == Seq::<UpValue>::empty(),
        post.cells() == pre.cells(),
{
    assert(post.closures()[result->Ok_0.0 as int].upvalues@ =~= Seq::<UpValue>::empty());
}

/// A prototype whose one descriptor is the environment becomes a top-level
/// closure whose one cell is closed over the table that was given.
pub proof fn law_environment_is_bound(
    pre: Heap,
    proto: FunctionProto,
    table: Table,
    post: Heap,
    result: Result<Closure, ClosureError>,
)
    requires
        proto.upvalues@.len() == 1,
        proto.upvalues@[0] == UpValueDescriptor::Environment,
        Closure::created_top_level(pre, proto, Some(table), post, result),
    ensures
        result is Ok,
        post.closures()[result->Ok_0.0 as int].upvalues@.len() == 1,
        post.has_upvalue(post.closures()[result->Ok_0.0 as int].upvalues@[0]),
        post.cells()[post.closures()[result->Ok_0.0 as int].upvalues@[0].0 as int]
            == UpValueState::Closed(Value::Table(table)),
{
}

/// A prototype whose one descriptor is the environment cannot become a
/// top-level closure when no environment is given.
pub proof fn law_environment_is_required(
    pre: Heap,
    proto: FunctionProto,
    post: Heap,
    result: Result<Closure, ClosureError>,
)
    requires
        proto.upvalues@.len() == 1,
        proto.upvalues@[0] == UpValueDescriptor::Environment,
        Closure::created_top_level(pre, proto, None, post, result),
    ensures
        result == Err::<Closure, ClosureError>(ClosureError::RequiresEnv),
        post == pre,
{
}

/// A prototype with two descriptors or more never becomes a top-level
/// closure, whatever the descriptors are and whether or not an environment
/// is given.
pub proof fn law_several_upvalues_are_refused(
    pre: Heap,
    proto: FunctionProto,
    environment: Option<Table>,
    post: Heap,
    result: Result<Closure, ClosureError>,
)
    requires
        proto.upvalues@.len() >= 2,
        Closure::created_top_level(pre, proto, environment, post, result),
    ensures
        result == Err::<Closure, ClosureError>(ClosureError::HasUpValues),
        post == pre,
{
}

/// A prototype whose one descriptor captures a register or forwards a
/// variable never becomes a top-level closure.
pub proof fn law_captures_are_refused(
    pre: Heap,
    proto: FunctionProto,
    environment: Option<Table>,
    post: Heap,
    result: Result<Closure, ClosureError>,
)
    requires
        proto.upvalues@.len() == 1,
        proto.upvalues@[0] != UpValueDescriptor::Environment,
        Closure::created_top_level(pre, proto, environment, post, result),
    ensures
        result == Err::<Closure, ClosureError>(ClosureError::HasUpValues),
        post == pre,
{
}

/// A top-level closure is made exactly when the prototype captures nothing,
/// or captures the environment alone and the environment is given.
pub proof fn law_top_level_success(descriptors: Seq<UpValueDescriptor>, environment: Option<Table>)
    ensures
        top_level_binding(descriptors, environment) is Ok <==> descriptors.len() == 0 || (
        descriptors.len() == 1 && descriptors[0] == UpValueDescriptor::Environment
            && environment is Some),
{
}

/// Two closures made one after the other of the same prototype and the same
/// environment are different closures, though they hold the same: equal
/// prototypes, and cells in the same state.
pub proof fn law_closures_are_distinct(
    first: Heap,
    second: Heap,
    third: Heap,
    proto: FunctionProto,
    environment: Option<Table>,
    a: Closure,
    b: Closure,
)
    requires
        Closure::created_top_level(first, proto, environment, second, Ok(a)),
        Closure::created_top_level(second, proto, environment, third, Ok(b)),
    ensures
        a != b,
        third.has_closure(a),
        third.has_closure(b),
        third.protos()[third.closures()[a.0 as int].proto.0 as int] == third.protos()[third.closures()[b.0 as int].proto.0 as int],
        third.closures()[a.0 as int].upvalues@.len() == third.closures()[b.0 as int].upvalues@.len(),
        forall|i: int|
            0 <= i < third.closures()[a.0 as int].upvalues@.len() ==> third.cells()[third.closures()[a.0 as int].upvalues@[i].0 as int]
                == third.cells()[third.closures()[b.0 as int].upvalues@[i].0 as int],
{
}

/// A closure made later, whatever happened in between, is not equal to one
/// made earlier.
pub proof fn law_later_closure_is_new(
    first: Heap,
    second: Heap,
    third: Heap,
    fourth: Heap,
    earlier: FunctionProto,
    later: FunctionProto,
    earlier_environment: Option<Table>,
    later_environment: Option<Table>,
    a: Closure,
    b: Closure,
)
    requires
        Closure::created_top_level(first, earlier, earlier_environment, second, Ok(a)),
        second.evolves_to(third),
        Closure::created_top_level(third, later, later_environment, fourth, Ok(b)),
    ensures
        a != b,
        fourth.closures()[a.0 as int] == second.closures()[a.0 as int],
{
}

/// Two closures made in the same frame that both capture the same register
/// hold the same cell for it, and a value written through one is read
/// through the other.
pub proof fn law_siblings_share(
    first: Heap,
    second: Heap,
    third: Heap,
    fourth: Heap,
    enclosing: Closure,
    thread: Thread,
    base: usize,
    one: ProtoRef,
    other: ProtoRef,
    a: Closure,
    b: Closure,
    i: int,
    j: int,
    register: u8,
    value: Value,
)
    requires
        first.wf(),
        second.wf(),
        third.wf(),
        first.has_proto(one),
        first.has_proto(other),
        Closure::instantiated(first, one, enclosing, thread, base, second, a),
        Closure::instantiated(second, other, enclosing, thread, base, third, b),
        0 <= i < first.protos()[one.0 as int].upvalues@.len(),
        first.protos()[one.0 as int].upvalues@[i] == UpValueDescriptor::ParentLocal(register),
        0 <= j < first.protos()[other.0 as int].upvalues@.len(),
        first.protos()[other.0 as int].upvalues@[j] == UpValueDescriptor::ParentLocal(register),
        UpValue::written(third, third.closures()[a.0 as int].upvalues@[i], value, fourth),
    ensures
        third.closures()[a.0 as int].upvalues@[i] == third.closures()[b.0 as int].upvalues@[j],
        fourth.value_of(fourth.closures()[b.0 as int].upvalues@[j]) == value,
{
    let mine = third.closures()[a.0 as int].upvalues@[i];
    let theirs = third.closures()[b.0 as int].upvalues@[j];
    assert(third.closures()[a.0 as int] == second.closures()[a.0 as int]);
    assert(Closure::resolves(
        second,
        enclosing,
        thread,
        base,
        first.protos()[one.0 as int].upvalues@[i],
        second.closures()[a.0 as int].upvalues@[i],
    ));
    assert(Closure::resolves(
        third,
        enclosing,
        thread,
        base,
        second.protos()[other.0 as int].upvalues@[j],
        third.closures()[b.0 as int].upvalues@[j],
    ));
    assert(third.cells()[mine.0 as int] == second.cells()[mine.0 as int]);
    assert(third.cells()[mine.0 as int] == third.cells()[theirs.0 as int]);
    assert(mine == theirs);
    law_write_is_read(third, mine, value, fourth);
}

/// What is written through a cell is what the cell reads as.
pub proof fn law_write_is_read(pre: Heap, cell: UpValue, value: Value, post: Heap)
    requires
        pre.wf(),
        pre.has_upvalue(cell),
        UpValue::written(pre, cell, value, post),
    ensures
        post.value_of(cell) == value,
{
    assert(pre.admits_state(pre.cells()[cell.0 as int]));
}

/// A write through one cell is not seen through another: two cells are
/// never the same variable.
pub proof fn law_cells_do_not_alias(pre: Heap, cell: UpValue, other: UpValue, value: Value, post: Heap)
    requires
        pre.wf(),
        pre.has_upvalue(cell),
        pre.has_upvalue(other),
        cell != other,
        UpValue::written(pre, cell, value, post),
    ensures
        post.value_of(other) == pre.value_of(other),
{
    assert(pre.admits_state(pre.cells()[cell.0 as int]));
    assert(pre.admits_state(pre.cells()[other.0 as int]));
    if pre.cells()[cell.0 as int] is Open && pre.cells()[cell.0 as int] == pre.cells()[other.0 as int] {
        assert(cell.0 as int == other.0 as int);
    }
}

/// At most one cell is open at a register.
pub proof fn law_one_cell_per_register(heap: Heap, a: UpValue, b: UpValue, thread: Thread, slot: usize)
    requires
        heap.wf(),
        heap.has_upvalue(a),
        heap.has_upvalue(b),
        heap.cells()[a.0 as int] == UpValueState::Open(thread, slot),
        heap.cells()[b.0 as int] == UpValueState::Open(thread, slot),
    ensures
        a == b,
{
    assert(a.0 as int == b.0 as int);
}

/// Once a frame is closed over, a cell that was open at one of its
/// registers owns the value that the register had, and reads as that value
/// whatever is written to the register afterwards.
pub proof fn law_closed_cell_keeps_value(
    first: Heap,
    second: Heap,
    third: Heap,
    thread: Thread,
    base: usize,
    cell: UpValue,
    slot: usize,
    unrelated: Value,
)
    requires
        first.has_upvalue(cell),
        first.cells()[cell.0 as int] == UpValueState::Open(thread, slot),
        base <= slot,
        first.frame_closed(thread, base as int, second),
        second.register_written(thread, slot, unrelated, third),
    ensures
        second.cells()[cell.0 as int] == UpValueState::Closed(first.value_of(cell)),
        second.value_of(cell) == first.value_of(cell),
        third.value_of(cell) == first.value_of(cell),
{
}

/// Once a register is closed over, the cell that was open at it owns the
/// value that the register had, and reads as that value whatever is written
/// to the register afterwards. No other cell has changed.
pub proof fn law_closed_slot_keeps_value(
    first: Heap,
    second: Heap,
    third: Heap,
    thread: Thread,
    slot: usize,
    cell: UpValue,
    other: UpValue,
    unrelated: Value,
)
    requires
        first.wf(),
        first.has_upvalue(cell),
        first.has_upvalue(other),
        other != cell,
        first.cells()[cell.0 as int] == UpValueState::Open(thread, slot),
        first.slot_closed(thread, slot, second),
        second.register_written(thread, slot, unrelated, third),
    ensures
        second.cells()[cell.0 as int] == UpValueState::Closed(first.value_of(cell)),
        third.value_of(cell) == first.value_of(cell),
        second.cells()[other.0 as int] == first.cells()[other.0 as int],
{
    if first.cells()[other.0 as int] == UpValueState::Open(thread, slot) {
        assert(cell.0 as int == other.0 as int);
    }
}

/// A cell that is closed is closed in every later heap.
pub proof fn law_closed_stays_closed(earlier: Heap, later: Heap, cell: UpValue)
    requires
        earlier.evolves_to(later),
        earlier.has_upvalue(cell),
        earlier.cells()[cell.0 as int] is Closed,
    ensures
        later.has_upvalue(cell),
        later.cells()[cell.0 as int] is Closed,
{
}

/// A heap evolves to itself.
pub proof fn law_evolution_is_reflexive(heap: Heap)
    ensures
        heap.evolves_to(heap),
{
}

/// What a heap evolves to by way of another, it evolves to.
pub proof fn law_evolution_is_transitive(first: Heap, second: Heap, third: Heap)
    requires
        first.evolves_to(second),
        second.evolves_to(third),
    ensures
        first.evolves_to(third),
{
    assert forall|u: int| 0 <= u < first.cells().len() implies third.cells()[u] is Closed
        || third.cells()[u] == first.cells()[u] by {
        if !(second.cells()[u] is Closed) {
            assert(second.cells()[u] == first.cells()[u]);
        }
    }
}

/// A closure made with a forwarding descriptor holds the very cell that the
/// enclosing closure holds at the forwarded position.
pub proof fn law_outer_is_forwarded(
    pre: Heap,
    proto: ProtoRef,
    enclosing: Closure,
    thread: Thread,
    base: usize,
    post: Heap,
    closure: Closure,
    i: int,
    index: u8,
)
    requires
        pre.has_closure(enclosing),
        Closure::instantiated(pre, proto, enclosing, thread, base, post, closure),
        0 <= i < pre.protos()[proto.0 as int].upvalues@.len(),
        pre.protos()[proto.0 as int].upvalues@[i] == UpValueDescriptor::Outer(index),
    ensures
        post.closures()[closure.0 as int].upvalues@[i] == pre.closures()[enclosing.0 as int].upvalues@[index as int],
{
    assert(Closure::resolves(
        post,
        enclosing,
        thread,
        base,
        pre.protos()[proto.0 as int].upvalues@[i],
        post.closures()[closure.0 as int].upvalues@[i],
    ));
}

/// A closure none of whose descriptors captures a register is made without
/// a new cell.
pub proof fn law_forwarding_makes_no_cell(
    pre: Heap,
    proto: ProtoRef,
    enclosing: Closure,
    thread: Thread,
    base: usize,
    post: Heap,
    closure: Closure,
)
    requires
        Closure::instantiated(pre, proto, enclosing, thread, base, post, closure),
        forall|i: int|
            0 <= i < pre.protos()[proto.0 as int].upvalues@.len()
                ==> !(#[trigger] pre.protos()[proto.0 as int].upvalues@[i] is ParentLocal),
    ensures
        post.cells() == pre.cells(),
{
    if pre.cells().len() < post.cells().len() {
        let u = pre.cells().len() as int;
        assert(crate::closure::is_fresh_capture(
            pre.protos()[proto.0 as int].upvalues@,
            thread,
            base,
            post.cells()[u],
        ));
    }
    assert(post.cells() =~= pre.cells());
}

} // verus!
