use std::collections::HashSet;

use closure_runtime::closure::bind_top_level;
use closure_runtime::{
    Closure, ClosureError, Constant, FunctionProto, Heap, OpCode, Table, UpValueDescriptor,
    UpValueState, Value,
};

fn proto_with(upvalues: Vec<UpValueDescriptor>) -> FunctionProto {
    FunctionProto {
        fixed_params: 1,
        has_varargs: false,
        stack_size: 4,
        constants: vec![Constant::Integer(3), Constant::Str(b"print".to_vec())],
        opcodes: vec![OpCode(0x11), OpCode(0x2a)],
        upvalues,
        prototypes: Vec::new(),
    }
}

#[test]
fn no_upvalues_succeeds_without_environment() {
    let mut heap = Heap::new();
    let closure = Closure::new(&mut heap, proto_with(Vec::new()), None).unwrap();
    assert!(heap.contains_closure(closure));
    assert!(heap.closure(closure).upvalues.is_empty());
    assert!(!heap.contains_upvalue(closure_runtime::UpValue(0)));
}

#[test]
fn no_upvalues_succeeds_with_environment() {
    let mut heap = Heap::new();
    let closure = Closure::new(&mut heap, proto_with(Vec::new()), Some(Table(9))).unwrap();
    assert!(heap.closure(closure).upvalues.is_empty());
    assert!(!heap.contains_upvalue(closure_runtime::UpValue(0)));
}

#[test]
fn environment_is_bound_to_a_closed_cell() {
    let mut heap = Heap::new();
    let proto = proto_with(vec![UpValueDescriptor::Environment]);
    let closure = Closure::new(&mut heap, proto, Some(Table(42))).unwrap();
    let state = heap.closure(closure);
    assert_eq!(state.upvalues.len(), 1);
    let cell = state.upvalues[0];
    assert_eq!(heap.upvalue_state(cell), UpValueState::Closed(Value::Table(Table(42))));
    assert_eq!(cell.get(&heap), Value::Table(Table(42)));
}

#[test]
fn environment_missing_is_an_error() {
    let mut heap = Heap::new();
    let proto = proto_with(vec![UpValueDescriptor::Environment]);
    assert_eq!(Closure::new(&mut heap, proto, None), Err(ClosureError::RequiresEnv));
    assert!(!heap.contains_closure(Closure(0)));
    assert!(!heap.contains_proto(closure_runtime::ProtoRef(0)));
}

#[test]
fn two_descriptors_are_refused() {
    let mut heap = Heap::new();
    let both = vec![UpValueDescriptor::Environment, UpValueDescriptor::Environment];
    assert_eq!(
        Closure::new(&mut heap, proto_with(both.clone()), Some(Table(1))),
        Err(ClosureError::HasUpValues)
    );
    assert_eq!(Closure::new(&mut heap, proto_with(both), None), Err(ClosureError::HasUpValues));
    let mixed = vec![UpValueDescriptor::Environment, UpValueDescriptor::ParentLocal(0)];
    assert_eq!(
        Closure::new(&mut heap, proto_with(mixed), Some(Table(1))),
        Err(ClosureError::HasUpValues)
    );
    let three = vec![
        UpValueDescriptor::Outer(0),
        UpValueDescriptor::Environment,
        UpValueDescriptor::ParentLocal(2),
    ];
    assert_eq!(
        Closure::new(&mut heap, proto_with(three), Some(Table(1))),
        Err(ClosureError::HasUpValues)
    );
    assert!(!heap.contains_closure(Closure(0)));
}

#[test]
fn single_capture_is_refused() {
    let mut heap = Heap::new();
    let local = proto_with(vec![UpValueDescriptor::ParentLocal(0)]);
    assert_eq!(Closure::new(&mut heap, local, Some(Table(1))), Err(ClosureError::HasUpValues));
    let outer = proto_with(vec![UpValueDescriptor::Outer(0)]);
    assert_eq!(Closure::new(&mut heap, outer, Some(Table(1))), Err(ClosureError::HasUpValues));
    let outer = proto_with(vec![UpValueDescriptor::Outer(3)]);
    assert_eq!(Closure::new(&mut heap, outer, None), Err(ClosureError::HasUpValues));
}

#[test]
fn same_prototype_and_environment_give_distinct_closures() {
    let mut heap = Heap::new();
    let proto = proto_with(vec![UpValueDescriptor::Environment]);
    let a = Closure::new(&mut heap, proto.clone(), Some(Table(5))).unwrap();
    let b = Closure::new(&mut heap, proto, Some(Table(5))).unwrap();
    assert_ne!(a, b);
    assert_eq!(a, a);
    let (sa, sb) = (heap.closure(a), heap.closure(b));
    assert_eq!(heap.proto(sa.proto).upvalues, heap.proto(sb.proto).upvalues);
    assert_eq!(heap.proto(sa.proto).constants, heap.proto(sb.proto).constants);
    assert_eq!(heap.upvalue_state(sa.upvalues[0]), heap.upvalue_state(sb.upvalues[0]));
    assert_ne!(sa.upvalues[0], sb.upvalues[0]);
}

#[test]
fn closures_hash_by_identity() {
    let mut heap = Heap::new();
    let a = Closure::new(&mut heap, proto_with(Vec::new()), None).unwrap();
    let b = Closure::new(&mut heap, proto_with(Vec::new()), None).unwrap();
    let mut seen = HashSet::new();
    assert!(seen.insert(a));
    assert!(seen.insert(b));
    assert!(!seen.insert(a));
    assert_eq!(seen.len(), 2);
}

#[test]
fn writes_to_distinct_environment_cells_do_not_alias() {
    let mut heap = Heap::new();
    let proto = proto_with(vec![UpValueDescriptor::Environment]);
    let a = Closure::new(&mut heap, proto.clone(), Some(Table(5))).unwrap();
    let b = Closure::new(&mut heap, proto, Some(Table(5))).unwrap();
    let ua = heap.closure(a).upvalues[0];
    let ub = heap.closure(b).upvalues[0];
    ua.set(&mut heap, Value::Integer(-1));
    assert_eq!(ua.get(&heap), Value::Integer(-1));
    assert_eq!(ub.get(&heap), Value::Table(Table(5)));
}

#[test]
fn binding_decision_covers_every_case() {
    let none: Vec<UpValueDescriptor> = Vec::new();
    assert_eq!(bind_top_level(&none, Some(7u32)), Ok(None));
    assert_eq!(bind_top_level(&none, None::<u32>), Ok(None));
    let env = vec![UpValueDescriptor::Environment];
    assert_eq!(bind_top_level(&env, Some(7u32)), Ok(Some(7)));
    assert_eq!(bind_top_level(&env, None::<u32>), Err(ClosureError::RequiresEnv));
    let local = vec![UpValueDescriptor::ParentLocal(0)];
    assert_eq!(bind_top_level(&local, Some(7u32)), Err(ClosureError::HasUpValues));
    let two = vec![UpValueDescriptor::Environment, UpValueDescriptor::Environment];
    assert_eq!(bind_top_level(&two, None::<u32>), Err(ClosureError::HasUpValues));
}

#[test]
fn error_messages() {
    assert_eq!(
        ClosureError::HasUpValues.message(),
        "cannot use prototype with upvalues other than _ENV to create top-level closure"
    );
    assert_eq!(
        ClosureError::RequiresEnv.message(),
        "closure requires _ENV upvalue but no environment was provided"
    );
}

#[test]
fn nested_prototypes_must_be_in_the_heap() {
    let mut heap = Heap::new();
    let mut parent = proto_with(Vec::new());
    parent.prototypes.push(closure_runtime::ProtoRef(0));
    assert!(!heap.check_proto(&parent));
    let child = heap.alloc_proto(proto_with(vec![UpValueDescriptor::ParentLocal(0)]));
    assert_eq!(child, closure_runtime::ProtoRef(0));
    assert!(heap.check_proto(&parent));
    let closure = Closure::new(&mut heap, parent, None).unwrap();
    let made = heap.closure(closure).proto;
    assert_eq!(heap.proto(made).prototypes, vec![child]);
    assert_eq!(heap.proto(child).upvalues, vec![UpValueDescriptor::ParentLocal(0)]);
}
