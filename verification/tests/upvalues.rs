use closure_runtime::proto::environment_index;
use closure_runtime::{
    Closure, FunctionProto, Heap, ProtoRef, Table, Thread, UpValue, UpValueDescriptor,
    UpValueState, Value,
};

fn proto_with(upvalues: Vec<UpValueDescriptor>) -> FunctionProto {
    FunctionProto {
        fixed_params: 0,
        has_varargs: true,
        stack_size: 8,
        constants: Vec::new(),
        opcodes: Vec::new(),
        upvalues,
        prototypes: Vec::new(),
    }
}

/// A heap with one thread of `registers` registers holding 100, 101, ...,
/// and a top-level closure that has the environment `Table(1)`.
fn running(registers: usize) -> (Heap, Thread, Closure) {
    let mut heap = Heap::new();
    let thread = heap.new_thread();
    for i in 0..registers {
        heap.push_register(thread, Value::Integer(100 + i as i64));
    }
    let main = proto_with(vec![UpValueDescriptor::Environment]);
    let enclosing = Closure::new(&mut heap, main, Some(Table(1))).unwrap();
    (heap, thread, enclosing)
}

fn nested(heap: &mut Heap, upvalues: Vec<UpValueDescriptor>) -> ProtoRef {
    heap.alloc_proto(proto_with(upvalues))
}

fn instantiate(
    heap: &mut Heap,
    proto: ProtoRef,
    enclosing: Closure,
    thread: Thread,
    base: usize,
) -> Closure {
    assert!(Closure::check_instantiate(heap, proto, enclosing, thread, base));
    Closure::instantiate(heap, proto, enclosing, thread, base)
}

#[test]
fn siblings_share_the_cell_of_a_register() {
    let (mut heap, thread, enclosing) = running(4);
    let one = nested(&mut heap, vec![UpValueDescriptor::ParentLocal(2)]);
    let other = nested(
        &mut heap,
        vec![UpValueDescriptor::ParentLocal(0), UpValueDescriptor::ParentLocal(2)],
    );
    let a = instantiate(&mut heap, one, enclosing, thread, 0);
    let b = instantiate(&mut heap, other, enclosing, thread, 0);
    assert_ne!(a, b);
    let ua = heap.closure(a).upvalues[0];
    let ub = heap.closure(b).upvalues[1];
    assert_eq!(ua, ub);
    assert_ne!(heap.closure(b).upvalues[0], ub);
    assert_eq!(heap.upvalue_state(ua), UpValueState::Open(thread, 2));
    assert_eq!(heap.upvalue_state(heap.closure(b).upvalues[0]), UpValueState::Open(thread, 0));

    ua.set(&mut heap, Value::Boolean(true));
    assert_eq!(ub.get(&heap), Value::Boolean(true));
    assert_eq!(heap.register(thread, 2), Value::Boolean(true));
    ub.set(&mut heap, Value::Integer(7));
    assert_eq!(ua.get(&heap), Value::Integer(7));
}

#[test]
fn open_cell_reads_the_live_register() {
    let (mut heap, thread, enclosing) = running(3);
    let proto = nested(&mut heap, vec![UpValueDescriptor::ParentLocal(1)]);
    let closure = instantiate(&mut heap, proto, enclosing, thread, 0);
    let cell = heap.closure(closure).upvalues[0];
    assert_eq!(cell.get(&heap), Value::Integer(101));
    heap.set_register(thread, 1, Value::Number(0x4000_0000_0000_0000));
    assert_eq!(cell.get(&heap), Value::Number(0x4000_0000_0000_0000));
    assert_eq!(heap.register(thread, 0), Value::Integer(100));
    assert_eq!(heap.register(thread, 2), Value::Integer(102));
}

#[test]
fn registers_are_counted_from_the_frame_base() {
    let (mut heap, thread, enclosing) = running(6);
    let proto = nested(&mut heap, vec![UpValueDescriptor::ParentLocal(1)]);
    let low = instantiate(&mut heap, proto, enclosing, thread, 0);
    let high = instantiate(&mut heap, proto, enclosing, thread, 3);
    let (ul, uh) = (heap.closure(low).upvalues[0], heap.closure(high).upvalues[0]);
    assert_ne!(ul, uh);
    assert_eq!(heap.upvalue_state(ul), UpValueState::Open(thread, 1));
    assert_eq!(heap.upvalue_state(uh), UpValueState::Open(thread, 4));
    assert_eq!(uh.get(&heap), Value::Integer(104));
}

#[test]
fn close_then_read_keeps_the_value() {
    let (mut heap, thread, enclosing) = running(4);
    let proto = nested(&mut heap, vec![UpValueDescriptor::ParentLocal(3)]);
    let a = instantiate(&mut heap, proto, enclosing, thread, 0);
    let b = instantiate(&mut heap, proto, enclosing, thread, 0);
    let cell = heap.closure(a).upvalues[0];
    heap.set_register(thread, 3, Value::Integer(55));
    heap.close_frame(thread, 2);
    assert_eq!(heap.upvalue_state(cell), UpValueState::Closed(Value::Integer(55)));
    heap.set_register(thread, 3, Value::Nil);
    assert_eq!(cell.get(&heap), Value::Integer(55));
    assert_eq!(heap.closure(b).upvalues[0].get(&heap), Value::Integer(55));

    // a write to the closed cell stays in the cell and is shared
    heap.closure(b).upvalues[0].set(&mut heap, Value::Integer(56));
    assert_eq!(cell.get(&heap), Value::Integer(56));
    assert_eq!(heap.register(thread, 3), Value::Nil);
    // closing again changes nothing
    heap.close_frame(thread, 0);
    heap.close_slot(thread, 3);
    assert_eq!(heap.upvalue_state(cell), UpValueState::Closed(Value::Integer(56)));
}

#[test]
fn close_frame_closes_only_from_the_base_up() {
    let (mut heap, thread, enclosing) = running(5);
    let other_thread = heap.new_thread();
    for _ in 0..5 {
        heap.push_register(other_thread, Value::Nil);
    }
    let proto = nested(
        &mut heap,
        vec![
            UpValueDescriptor::ParentLocal(4),
            UpValueDescriptor::ParentLocal(0),
            UpValueDescriptor::ParentLocal(2),
            UpValueDescriptor::ParentLocal(1),
        ],
    );
    let closure = instantiate(&mut heap, proto, enclosing, thread, 0);
    let elsewhere = instantiate(&mut heap, proto, enclosing, other_thread, 0);
    let cells = heap.closure(closure).upvalues.clone();
    heap.close_frame(thread, 2);
    assert_eq!(heap.upvalue_state(cells[0]), UpValueState::Closed(Value::Integer(104)));
    assert_eq!(heap.upvalue_state(cells[1]), UpValueState::Open(thread, 0));
    assert_eq!(heap.upvalue_state(cells[2]), UpValueState::Closed(Value::Integer(102)));
    assert_eq!(heap.upvalue_state(cells[3]), UpValueState::Open(thread, 1));
    for (i, slot) in [4usize, 0, 2, 1].iter().enumerate() {
        let cell = heap.closure(elsewhere).upvalues[i];
        assert_eq!(heap.upvalue_state(cell), UpValueState::Open(other_thread, *slot));
    }
}

#[test]
fn close_slot_closes_exactly_one_register() {
    let (mut heap, thread, enclosing) = running(3);
    let proto = nested(
        &mut heap,
        vec![
            UpValueDescriptor::ParentLocal(0),
            UpValueDescriptor::ParentLocal(1),
            UpValueDescriptor::ParentLocal(2),
        ],
    );
    let closure = instantiate(&mut heap, proto, enclosing, thread, 0);
    let cells = heap.closure(closure).upvalues.clone();
    heap.close_slot(thread, 1);
    assert_eq!(heap.upvalue_state(cells[0]), UpValueState::Open(thread, 0));
    assert_eq!(heap.upvalue_state(cells[1]), UpValueState::Closed(Value::Integer(101)));
    assert_eq!(heap.upvalue_state(cells[2]), UpValueState::Open(thread, 2));
    // a register with no cell: nothing happens
    heap.close_slot(thread, 1);
    heap.close_slot(thread, 17);
    assert_eq!(heap.upvalue_state(cells[1]), UpValueState::Closed(Value::Integer(101)));
}

#[test]
fn capture_after_close_makes_a_new_cell() {
    let (mut heap, thread, enclosing) = running(2);
    let proto = nested(&mut heap, vec![UpValueDescriptor::ParentLocal(1)]);
    let before = instantiate(&mut heap, proto, enclosing, thread, 0);
    heap.close_frame(thread, 1);
    heap.set_register(thread, 1, Value::Integer(9));
    let after = instantiate(&mut heap, proto, enclosing, thread, 0);
    let (old, new) = (heap.closure(before).upvalues[0], heap.closure(after).upvalues[0]);
    assert_ne!(old, new);
    assert_eq!(old.get(&heap), Value::Integer(101));
    assert_eq!(new.get(&heap), Value::Integer(9));
    assert_eq!(heap.upvalue_state(new), UpValueState::Open(thread, 1));
}

#[test]
fn shrink_stack_closes_before_it_gives_up_registers() {
    let (mut heap, thread, enclosing) = running(4);
    let proto = nested(
        &mut heap,
        vec![UpValueDescriptor::ParentLocal(1), UpValueDescriptor::ParentLocal(3)],
    );
    let closure = instantiate(&mut heap, proto, enclosing, thread, 0);
    let cells = heap.closure(closure).upvalues.clone();
    heap.shrink_stack(thread, 2);
    assert_eq!(heap.stack_len(thread), 2);
    assert_eq!(heap.upvalue_state(cells[0]), UpValueState::Open(thread, 1));
    assert_eq!(heap.upvalue_state(cells[1]), UpValueState::Closed(Value::Integer(103)));
    heap.push_register(thread, Value::Nil);
    heap.push_register(thread, Value::Boolean(false));
    assert_eq!(cells[1].get(&heap), Value::Integer(103));
    assert_eq!(cells[0].get(&heap), Value::Integer(101));
    assert_eq!(heap.register(thread, 3), Value::Boolean(false));
}

#[test]
fn outer_forwards_the_enclosing_cell() {
    let (mut heap, thread, top) = running(3);
    let middle_proto = nested(
        &mut heap,
        vec![UpValueDescriptor::ParentLocal(2), UpValueDescriptor::Environment],
    );
    let middle = instantiate(&mut heap, middle_proto, top, thread, 0);
    let inner_proto = nested(
        &mut heap,
        vec![
            UpValueDescriptor::Outer(1),
            UpValueDescriptor::Outer(0),
            UpValueDescriptor::Outer(0),
        ],
    );
    let cells_before = (0..).take_while(|i| heap.contains_upvalue(UpValue(*i))).count();
    let inner = instantiate(&mut heap, inner_proto, middle, thread, 0);
    let cells_after = (0..).take_while(|i| heap.contains_upvalue(UpValue(*i))).count();
    assert_eq!(cells_before, cells_after);
    let held = heap.closure(middle).upvalues.clone();
    let got = heap.closure(inner).upvalues.clone();
    assert_eq!(got, vec![held[1], held[0], held[0]]);
    assert_eq!(held[1], heap.closure(top).upvalues[0]);
    assert_eq!(got[0].get(&heap), Value::Table(Table(1)));

    // the forwarded cell is shared across the levels, open or closed
    got[1].set(&mut heap, Value::Integer(8));
    assert_eq!(held[0].get(&heap), Value::Integer(8));
    heap.close_frame(thread, 0);
    held[0].set(&mut heap, Value::Integer(9));
    assert_eq!(got[2].get(&heap), Value::Integer(9));
}

#[test]
fn environment_is_forwarded_from_the_enclosing_closure() {
    let (mut heap, thread, top) = running(1);
    let proto = nested(&mut heap, vec![UpValueDescriptor::Environment]);
    let a = instantiate(&mut heap, proto, top, thread, 0);
    let b = instantiate(&mut heap, proto, a, thread, 0);
    let env = heap.closure(top).upvalues[0];
    assert_eq!(heap.closure(a).upvalues, vec![env]);
    assert_eq!(heap.closure(b).upvalues, vec![env]);
    assert_eq!(heap.closure(a).proto, proto);
}

#[test]
fn malformed_prototypes_are_detected() {
    let (mut heap, thread, top) = running(2);
    let bare = Closure::new(&mut heap, proto_with(Vec::new()), None).unwrap();
    let wants_env = nested(&mut heap, vec![UpValueDescriptor::Environment]);
    let wants_outer = nested(&mut heap, vec![UpValueDescriptor::Outer(1)]);
    let wants_local = nested(&mut heap, vec![UpValueDescriptor::ParentLocal(2)]);
    let fine = nested(&mut heap, vec![UpValueDescriptor::ParentLocal(1), UpValueDescriptor::Outer(0)]);
    assert!(Closure::check_instantiate(&heap, wants_env, top, thread, 0));
    assert!(!Closure::check_instantiate(&heap, wants_env, bare, thread, 0));
    assert!(!Closure::check_instantiate(&heap, wants_outer, top, thread, 0));
    assert!(!Closure::check_instantiate(&heap, wants_local, top, thread, 0));
    assert!(Closure::check_instantiate(&heap, fine, top, thread, 0));
    assert!(!Closure::check_instantiate(&heap, fine, top, thread, 1));
    assert!(!Closure::check_instantiate(&heap, fine, top, thread, usize::MAX));
    assert!(!Closure::check_instantiate(&heap, fine, bare, thread, 0));
    assert!(!Closure::check_instantiate(&heap, ProtoRef(99), top, thread, 0));
    assert!(!Closure::check_instantiate(&heap, fine, Closure(99), thread, 0));
    assert!(!Closure::check_instantiate(&heap, fine, top, Thread(99), 0));
}

#[test]
fn first_environment_descriptor_is_found() {
    assert_eq!(environment_index(&Vec::new()), None);
    assert_eq!(environment_index(&vec![UpValueDescriptor::Outer(0)]), None);
    let descriptors = vec![
        UpValueDescriptor::ParentLocal(0),
        UpValueDescriptor::Environment,
        UpValueDescriptor::Outer(0),
        UpValueDescriptor::Environment,
    ];
    assert_eq!(environment_index(&descriptors), Some(1));
}

#[test]
fn handles_are_tested_against_the_heap() {
    let (mut heap, thread, top) = running(2);
    assert!(heap.contains_thread(thread));
    assert!(!heap.contains_thread(Thread(1)));
    assert!(heap.contains_closure(top));
    assert!(!heap.contains_closure(Closure(1)));
    assert!(heap.contains_upvalue(UpValue(0)));
    assert!(!heap.contains_upvalue(UpValue(1)));
    assert!(heap.contains_proto(ProtoRef(0)));
    assert!(!heap.contains_proto(ProtoRef(1)));
    let second = heap.new_thread();
    assert_eq!(second, Thread(1));
    assert_eq!(heap.stack_len(second), 0);
    assert_eq!(heap.stack_len(thread), 2);
}
