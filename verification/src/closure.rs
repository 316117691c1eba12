//! Closures: prototypes bound to cells.

use vstd::prelude::*;
use crate::heap::Heap;
use crate::proto::{
    environment_index, first_environment, has_no_environment, FunctionProto, ProtoRef,
    UpValueDescriptor,
};
use crate::upvalue::{UpValue, UpValueState};
use crate::value::{Table, Thread, Value};

verus! {

/// What a closure is made of.
#[derive(Debug, Clone)]
pub struct ClosureState {
    pub proto: ProtoRef,
    /// One cell for each descriptor of the prototype, in the same order.
    pub upvalues: Vec<UpValue>,
}

/// The handle of a closure. Two closures are equal exactly when they are the
/// same allocation, whatever they hold.
#[derive(Debug, Clone, Copy, PartialEq, Eq, Hash, Structural)]
pub struct Closure(pub usize);

/// Why a prototype cannot become a top-level closure.
#[derive(Debug, Clone, Copy, PartialEq, Eq, Structural)]
pub enum ClosureError {
    /// The prototype captures something other than the environment.
    HasUpValues,
    /// The prototype needs the environment and none was given.
    RequiresEnv,
}

impl ClosureError {
    /// The error in words.
    pub fn message(&self) -> (text: &'static str)
        ensures
            text@ == match *self {
                ClosureError::HasUpValues => "cannot use prototype with upvalues other than _ENV to create top-level closure"@,
                ClosureError::RequiresEnv => "closure requires _ENV upvalue but no environment was provided"@,
            },
    {
        match self {
            ClosureError::HasUpValues => "cannot use prototype with upvalues other than _ENV to create top-level closure",
            ClosureError::RequiresEnv => "closure requires _ENV upvalue but no environment was provided",
        }
    }
}

/// What a closure with no enclosing function gets for its captured
/// variables: nothing where the prototype captures nothing, the environment
/// where that is the one thing it captures and it was given. A prototype
/// that captures anything else cannot stand alone.
pub open spec fn top_level_binding<T>(
    descriptors: Seq<UpValueDescriptor>,
    environment: Option<T>,
) -> Result<Option<T>, ClosureError> {
    if descriptors.len() == 0 {
        Ok(None)
    } else if descriptors.len() > 1 || descriptors[0] != UpValueDescriptor::Environment {
        Err(ClosureError::HasUpValues)
    } else if environment is Some {
        Ok(environment)
    } else {
        Err(ClosureError::RequiresEnv)
    }
}

/// Decides what a top-level closure of a prototype with these descriptors
/// captures.
pub fn bind_top_level<T>(descriptors: &Vec<UpValueDescriptor>, environment: Option<T>) -> (binding:
    Result<Option<T>, ClosureError>)
    ensures
        binding == top_level_binding(descriptors@, environment),
{
    if descriptors.len() == 0 {
        return Ok(None);
    }
    if descriptors.len() > 1 {
        return Err(ClosureError::HasUpValues);
    }
    match descriptors[0] {
        UpValueDescriptor::Environment => match environment {
            Some(table) => Ok(Some(table)),
            None => Err(ClosureError::RequiresEnv),
        },
        _ => Err(ClosureError::HasUpValues),
    }
}

/// Whether a new cell in `state` is one that some descriptor asked for: a
/// capture of a register of the frame at `base` of `thread`.
pub open spec fn is_fresh_capture(
    descriptors: Seq<UpValueDescriptor>,
    thread: Thread,
    base: usize,
    state: UpValueState,
) -> bool {
    exists|i: int|
        0 <= i < descriptors.len() && (#[trigger] descriptors[i] matches UpValueDescriptor::ParentLocal(
            register,
        ) && state == UpValueState::Open(thread, (base + register) as usize))
}

/// The cells once each descriptor in turn has had its register captured: a
/// register that no cell is open at gets a new cell at the end, any other
/// descriptor adds nothing.
pub open spec fn capture_all(
    cells: Seq<UpValueState>,
    descriptors: Seq<UpValueDescriptor>,
    thread: Thread,
    base: usize,
) -> Seq<UpValueState>
    decreases descriptors.len(),
{
    if descriptors.len() == 0 {
        cells
    } else {
        let earlier = capture_all(cells, descriptors.drop_last(), thread, base);
        match descriptors.last() {
            UpValueDescriptor::ParentLocal(register) => {
                let wanted = UpValueState::Open(thread, (base + register) as usize);
                if earlier.contains(wanted) {
                    earlier
                } else {
                    earlier.push(wanted)
                }
            },
            _ => earlier,
        }
    }
}

impl Closure {
    /// How `post` and `result` come from `pre` when a top-level closure of
    /// `proto` is asked for. Where it cannot be made the heap is as it was.
    /// Otherwise the prototype and the closure are new in the heap, and the
    /// closure's one cell, if it has one, is new and closed over the
    /// environment.
    pub open spec fn created_top_level(
        pre: Heap,
        proto: FunctionProto,
        environment: Option<Table>,
        post: Heap,
        result: Result<Closure, ClosureError>,
    ) -> bool {
        match top_level_binding(proto.upvalues@, environment) {
            Err(error) => result == Err::<Closure, ClosureError>(error) && post == pre,
            Ok(binding) => {
                &&& result matches Ok(closure)
                &&& closure.0 == pre.closures().len()
                &&& post.closures() == pre.closures().push(post.closures()[closure.0 as int])
                &&& post.closures()[closure.0 as int].proto.0 == pre.protos().len()
                &&& post.protos() == pre.protos().push(proto)
                &&& post.stacks() == pre.stacks()
                &&& match binding {
                    None => {
                        &&& post.cells() == pre.cells()
                        &&& post.closures()[closure.0 as int].upvalues@.len() == 0
                    },
                    Some(table) => {
                        &&& post.cells() == pre.cells().push(
                            UpValueState::Closed(Value::Table(table)),
                        )
                        &&& post.closures()[closure.0 as int].upvalues@.len() == 1
                        &&& post.closures()[closure.0 as int].upvalues@[0].0 == pre.cells().len()
                    },
                }
            },
        }
    }

    /// Makes the closure of a compiled unit's outermost function. Such a
    /// function has no frame around it to capture from, so it may capture
    /// the environment and nothing else.
    pub fn new(heap: &mut Heap, proto: FunctionProto, environment: Option<Table>) -> (result:
        Result<Closure, ClosureError>)
        requires
            old(heap).wf(),
            old(heap).admits_proto(proto),
        ensures
            final(heap).wf(),
            old(heap).evolves_to(*final(heap)),
            Self::created_top_level(*old(heap), proto, environment, *final(heap), result),
    {
        match bind_top_level(&proto.upvalues, environment) {
            Err(error) => Err(error),
            Ok(binding) => {
                let proto = heap.alloc_proto(proto);
                let mut upvalues: Vec<UpValue> = Vec::new();
                match binding {
                    Some(table) => {
                        let cell = heap.alloc_upvalue(Value::Table(table));
                        upvalues.push(cell);
                    },
                    None => {},
                }
                Ok(heap.alloc_closure(ClosureState { proto, upvalues }))
            },
        }
    }

    /// What the compiler owes to a prototype that is made a closure in the
    /// frame at `base` of `thread`, which runs `enclosing`: every register
    /// it captures is in the stack, every variable it forwards is one that
    /// `enclosing` has, and if it wants the environment, `enclosing` has it.
    pub open spec fn can_instantiate(
        heap: Heap,
        proto: ProtoRef,
        enclosing: Closure,
        thread: Thread,
        base: usize,
    ) -> bool {
        &&& heap.has_proto(proto)
        &&& heap.has_closure(enclosing)
        &&& heap.has_thread(thread)
        &&& forall|i: int|
            0 <= i < heap.protos()[proto.0 as int].upvalues@.len() ==> Self::can_resolve(
                heap,
                enclosing,
                thread,
                base,
                #[trigger] heap.protos()[proto.0 as int].upvalues@[i],
            )
    }

    /// Whether the frame and `enclosing` have what `descriptor` asks for.
    pub open spec fn can_resolve(
        heap: Heap,
        enclosing: Closure,
        thread: Thread,
        base: usize,
        descriptor: UpValueDescriptor,
    ) -> bool {
        let outer = heap.closures()[enclosing.0 as int];
        match descriptor {
            UpValueDescriptor::Environment => !has_no_environment(
                heap.protos()[outer.proto.0 as int].upvalues@,
            ),
            UpValueDescriptor::ParentLocal(register) => base + register
                < heap.stacks()[thread.0 as int].len(),
            UpValueDescriptor::Outer(index) => index < outer.upvalues@.len(),
        }
    }

    /// Whether `cell` is what `descriptor` asks for in the frame at `base`
    /// of `thread`, which runs `enclosing`: the cell that `enclosing` holds
    /// for the environment or at the given position, or the cell that is
    /// open at the register.
    pub open spec fn resolves(
        heap: Heap,
        enclosing: Closure,
        thread: Thread,
        base: usize,
        descriptor: UpValueDescriptor,
        cell: UpValue,
    ) -> bool {
        let outer = heap.closures()[enclosing.0 as int];
        match descriptor {
            UpValueDescriptor::Environment => cell == outer.upvalues@[first_environment(
                heap.protos()[outer.proto.0 as int].upvalues@,
            )],
            UpValueDescriptor::ParentLocal(register) => heap.has_upvalue(cell)
                && heap.cells()[cell.0 as int] == UpValueState::Open(
                thread,
                (base + register) as usize,
            ),
            UpValueDescriptor::Outer(index) => cell == outer.upvalues@[index as int],
        }
    }

    /// How `post` and `closure` come from `pre` when `proto` is made a
    /// closure in the frame at `base` of `thread`, which runs `enclosing`.
    /// The closure is new and holds, for each descriptor, the cell that the
    /// descriptor asks for. No cell that was there has changed, and a cell
    /// is new only where a register had none; the new cells stand in the
    /// order of the descriptors that asked for them.
    pub open spec fn instantiated(
        pre: Heap,
        proto: ProtoRef,
        enclosing: Closure,
        thread: Thread,
        base: usize,
        post: Heap,
        closure: Closure,
    ) -> bool {
        let descriptors = pre.protos()[proto.0 as int].upvalues@;
        let made = post.closures()[closure.0 as int];
        &&& closure.0 == pre.closures().len()
        &&& post.closures() == pre.closures().push(made)
        &&& post.protos() == pre.protos()
        &&& post.stacks() == pre.stacks()
        &&& made.proto == proto
        &&& made.upvalues@.len() == descriptors.len()
        &&& forall|i: int|
            0 <= i < descriptors.len() ==> Self::resolves(
                post,
                enclosing,
                thread,
                base,
                descriptors[i],
                #[trigger] made.upvalues@[i],
            )
        &&& post.cells() == capture_all(pre.cells(), descriptors, thread, base)
        &&& pre.cells().len() <= post.cells().len()
        &&& forall|u: int| 0 <= u < pre.cells().len() ==> post.cells()[u] == pre.cells()[u]
        &&& forall|u: int|
            pre.cells().len() <= u < post.cells().len() ==> is_fresh_capture(
                descriptors,
                thread,
                base,
                #[trigger] post.cells()[u],
            )
    }

    /// Tests what [`Closure::instantiate`] requires.
    pub fn check_instantiate(
        heap: &Heap,
        proto: ProtoRef,
        enclosing: Closure,
        thread: Thread,
        base: usize,
    ) -> (admitted: bool)
        requires
            heap.wf(),
        ensures
            admitted == Self::can_instantiate(*heap, proto, enclosing, thread, base),
    {
        if !heap.contains_proto(proto) || !heap.contains_closure(enclosing)
            || !heap.contains_thread(thread) {
            return false;
        }
        let descriptors = &heap.proto(proto).upvalues;
        let outer = heap.closure(enclosing);
        let has_environment = environment_index(&heap.proto(outer.proto).upvalues).is_some();
        let len: usize = heap.stack_len(thread);
        let mut i: usize = 0;
        while i < descriptors.len()
            invariant
                i <= descriptors.len(),
                descriptors@ == heap.protos()[proto.0 as int].upvalues@,
                *outer == heap.closures()[enclosing.0 as int],
                has_environment == !has_no_environment(
                    heap.protos()[outer.proto.0 as int].upvalues@,
                ),
                len == heap.stacks()[thread.0 as int].len(),
                forall|k: int|
                    0 <= k < i ==> Self::can_resolve(
                        *heap,
                        enclosing,
                        thread,
                        base,
                        #[trigger] descriptors@[k],
                    ),
            decreases descriptors.len() - i,
        {
            let admitted = match descriptors[i] {
                UpValueDescriptor::Environment => has_environment,
                UpValueDescriptor::ParentLocal(register) => (register as usize) < len && base < len
                    - register as usize,
                UpValueDescriptor::Outer(index) => (index as usize) < outer.upvalues.len(),
            };
            if !admitted {
                assert(!Self::can_resolve(*heap, enclosing, thread, base, descriptors@[i as int]));
                return false;
            }
            i += 1;
        }
        true
    }

    /// Makes a closure of `proto` in the frame at `base` of `thread`, which
    /// runs `enclosing`. A register that an earlier closure captured is not
    /// captured anew: the two closures share its cell.
    pub fn instantiate(
        heap: &mut Heap,
        proto: ProtoRef,
        enclosing: Closure,
        thread: Thread,
        base: usize,
    ) -> (closure: Closure)
        requires
            old(heap).wf(),
            Self::can_instantiate(*old(heap), proto, enclosing, thread, base),
        ensures
            final(heap).wf(),
            old(heap).evolves_to(*final(heap)),
            Self::instantiated(*old(heap), proto, enclosing, thread, base, *final(heap), closure),
    {
        let ghost pre = *heap;
        let ghost descriptors = pre.protos()[proto.0 as int].upvalues@;
        let n: usize = heap.proto(proto).upvalues.len();
        let mut upvalues: Vec<UpValue> = Vec::new();
        let mut i: usize = 0;
        while i < n
            invariant
                heap.wf(),
                pre.wf(),
                Self::can_instantiate(pre, proto, enclosing, thread, base),
                pre.evolves_to(*heap),
                heap.protos() == pre.protos(),
                heap.closures() == pre.closures(),
                heap.stacks() == pre.stacks(),
                descriptors == pre.protos()[proto.0 as int].upvalues@,
                n == descriptors.len(),
                i <= n,
                upvalues@.len() == i,
                heap.cells() == capture_all(pre.cells(), descriptors.take(i as int), thread, base),
                pre.cells().len() <= heap.cells().len(),
                forall|u: int| 0 <= u < pre.cells().len() ==> heap.cells()[u] == pre.cells()[u],
                forall|u: int|
                    pre.cells().len() <= u < heap.cells().len() ==> is_fresh_capture(
                        descriptors,
                        thread,
                        base,
                        #[trigger] heap.cells()[u],
                    ),
                forall|j: int| 0 <= j < i ==> heap.has_upvalue(#[trigger] upvalues@[j]),
                forall|j: int|
                    0 <= j < i ==> Self::resolves(
                        *heap,
                        enclosing,
                        thread,
                        base,
                        descriptors[j],
                        #[trigger] upvalues@[j],
                    ),
            decreases n - i,
        {
            let ghost before = *heap;
            let ghost held = upvalues@;
            let descriptor = heap.proto(proto).upvalues[i];
            assert(descriptor == descriptors[i as int]);
            assert(Self::can_resolve(pre, enclosing, thread, base, descriptors[i as int]));
            let cell = match descriptor {
                UpValueDescriptor::Environment => {
                    let outer = heap.closure(enclosing);
                    let index = environment_index(&heap.proto(outer.proto).upvalues);
                    outer.upvalues[index.unwrap()]
                },
                UpValueDescriptor::ParentLocal(register) => {
                    proof {
                        pre.lemma_stack_fits(thread);
                    }
                    let cell = heap.capture(thread, base + register as usize);
                    assert(is_fresh_capture(
                        descriptors,
                        thread,
                        base,
                        UpValueState::Open(thread, (base + register) as usize),
                    )) by {
                        assert(descriptors[i as int] == UpValueDescriptor::ParentLocal(register));
                    }
                    cell
                },
                UpValueDescriptor::Outer(index) => heap.closure(enclosing).upvalues[index as usize],
            };
            upvalues.push(cell);
            proof {
                assert(descriptors.take(i + 1).drop_last() =~= descriptors.take(i as int));
                assert(descriptors.take(i + 1).last() == descriptor);
                assert forall|j: int| 0 <= j < i + 1 implies heap.has_upvalue(
                    #[trigger] upvalues@[j],
                ) && Self::resolves(*heap, enclosing, thread, base, descriptors[j], upvalues@[j]) by {
                    if j < i {
                        assert(upvalues@[j] == held[j]);
                        assert(Self::resolves(
                            before,
                            enclosing,
                            thread,
                            base,
                            descriptors[j],
                            held[j],
                        ));
                    }
                }
            }
            i += 1;
        }
        assert(descriptors.take(n as int) =~= descriptors);
        heap.alloc_closure(ClosureState { proto, upvalues })
    }
}

} // verus!
