//! The heap that owns prototypes, cells, closures and register stacks.

use vstd::prelude::*;
use crate::closure::{Closure, ClosureState};
use crate::proto::{FunctionProto, ProtoRef};
use crate::upvalue::{UpValue, UpValueState};
use crate::value::{Thread, Value};

verus! {

/// An entry of a thread's list of open cells.
struct OpenSlot {
    slot: usize,
    cell: UpValue,
}

/// A thread of execution: its registers, and the cells that are open at them.
struct ThreadState {
    stack: Vec<Value>,
    /// The cells that are open into `stack`, by rising slot.
    open: Vec<OpenSlot>,
}

/// Owns every prototype, cell, closure and register stack, and hands out
/// handles to them. Nothing is ever removed, so a handle stays good.
///
/// Whoever holds `&mut Heap` may allocate and write; there is no other way
/// to change a shared cell.
pub struct Heap {
    protos: Vec<FunctionProto>,
    cells: Vec<UpValueState>,
    closures: Vec<ClosureState>,
    threads: Vec<ThreadState>,
}

impl Heap {
    /// The prototypes, by handle.
    pub closed spec fn protos(self) -> Seq<FunctionProto> {
        self.protos@
    }

    /// The state of every cell, by handle.
    pub closed spec fn cells(self) -> Seq<UpValueState> {
        self.cells@
    }

    /// The closures, by handle.
    pub closed spec fn closures(self) -> Seq<ClosureState> {
        self.closures@
    }

    /// The register stack of every thread, by handle.
    pub closed spec fn stacks(self) -> Seq<Seq<Value>> {
        Seq::new(self.threads@.len(), |t: int| self.threads@[t].stack@)
    }

    /// Whether `proto` names a prototype of this heap.
    pub open spec fn has_proto(self, proto: ProtoRef) -> bool {
        proto.0 < self.protos().len()
    }

    /// Whether `cell` names a cell of this heap.
    pub open spec fn has_upvalue(self, cell: UpValue) -> bool {
        cell.0 < self.cells().len()
    }

    /// Whether `closure` names a closure of this heap.
    pub open spec fn has_closure(self, closure: Closure) -> bool {
        closure.0 < self.closures().len()
    }

    /// Whether `thread` names a thread of this heap.
    pub open spec fn has_thread(self, thread: Thread) -> bool {
        thread.0 < self.stacks().len()
    }

    /// Whether `slot` is a register of `thread`.
    pub open spec fn has_register(self, thread: Thread, slot: usize) -> bool {
        self.has_thread(thread) && slot < self.stacks()[thread.0 as int].len()
    }

    /// Whether every nested prototype of `proto` is in this heap.
    pub open spec fn admits_proto(self, proto: FunctionProto) -> bool {
        forall|i: int|
            0 <= i < proto.prototypes@.len() ==> self.has_proto(#[trigger] proto.prototypes@[i])
    }

    /// Whether `state` names a prototype and cells of this heap, one cell
    /// for each descriptor of the prototype.
    pub open spec fn admits_closure(self, state: ClosureState) -> bool {
        &&& self.has_proto(state.proto)
        &&& state.upvalues@.len() == self.protos()[state.proto.0 as int].upvalues@.len()
        &&& forall|i: int|
            0 <= i < state.upvalues@.len() ==> self.has_upvalue(#[trigger] state.upvalues@[i])
    }

    /// Whether an open `state` points at a register of this heap.
    pub open spec fn admits_state(self, state: UpValueState) -> bool {
        match state {
            UpValueState::Open(thread, slot) => self.has_register(thread, slot),
            UpValueState::Closed(_) => true,
        }
    }

    /// What holds of the objects of a well-formed heap.
    pub open spec fn valid(self) -> bool {
        // a prototype is allocated after the prototypes nested in it
        &&& forall|p: int, i: int|
            0 <= p < self.protos().len() && 0 <= i < self.protos()[p].prototypes@.len() ==> (
            #[trigger] self.protos()[p].prototypes@[i]).0 < p
        &&& forall|c: int|
            0 <= c < self.closures().len() ==> self.admits_closure(#[trigger] self.closures()[c])
        &&& forall|u: int|
            0 <= u < self.cells().len() ==> self.admits_state(#[trigger] self.cells()[u])
        // no two cells are open at the same register
        &&& forall|a: int, b: int|
            0 <= a < self.cells().len() && 0 <= b < self.cells().len()
                && #[trigger] self.cells()[a] is Open && self.cells()[a] == #[trigger] self.cells()[b]
                ==> a == b
    }

    /// Whether `entry`, in the open list of thread `t`, names a cell that is
    /// open at the entry's slot of that thread.
    spec fn listed(self, t: int, entry: OpenSlot) -> bool {
        &&& entry.cell.0 < self.cells@.len()
        &&& self.cells@[entry.cell.0 as int] matches UpValueState::Open(thread, slot)
        &&& thread.0 == t
        &&& slot == entry.slot
    }

    /// The lists of open cells agree with the cells: every entry names a
    /// cell that is open at the entry's slot, slots rise strictly, and every
    /// open cell has its entry.
    pub closed spec fn indexed(self) -> bool {
        &&& forall|t: int, k: int|
            0 <= t < self.threads@.len() && 0 <= k < self.threads@[t].open@.len() ==> self.listed(
                t,
                #[trigger] self.threads@[t].open@[k],
            )
        &&& forall|t: int, j: int, k: int|
            0 <= t < self.threads@.len() && 0 <= j < k < self.threads@[t].open@.len() ==> (
            #[trigger] self.threads@[t].open@[j]).slot < (#[trigger] self.threads@[t].open@[k]).slot
        &&& forall|u: int|
            0 <= u < self.cells@.len() ==> (#[trigger] self.cells@[u] matches UpValueState::Open(
                thread,
                slot,
            ) ==> thread.0 < self.threads@.len() && self.threads@[thread.0 as int].open@.contains(
                OpenSlot { slot, cell: UpValue(u as usize) },
            ))
    }

    /// The invariant of a heap. Every function that makes or changes a heap
    /// keeps it.
    pub open spec fn wf(self) -> bool {
        self.valid() && self.indexed()
    }

    /// What never changes as a heap is used: objects stay where they are,
    /// prototypes and closures stay what they are, and a cell that is closed
    /// stays closed, while an open one stays at its register until it is
    /// closed.
    pub open spec fn evolves_to(self, later: Heap) -> bool {
        &&& self.protos().len() <= later.protos().len()
        &&& forall|p: int| 0 <= p < self.protos().len() ==> later.protos()[p] == self.protos()[p]
        &&& self.closures().len() <= later.closures().len()
        &&& forall|c: int|
            0 <= c < self.closures().len() ==> later.closures()[c] == self.closures()[c]
        &&& self.stacks().len() <= later.stacks().len()
        &&& self.cells().len() <= later.cells().len()
        &&& forall|u: int|
            0 <= u < self.cells().len() ==> later.cells()[u] is Closed || later.cells()[u]
                == self.cells()[u]
        &&& forall|u: int|
            0 <= u < self.cells().len() && self.cells()[u] is Closed ==> later.cells()[u] is Closed
    }

    /// What a cell reads as: the register it is open at, or the value it
    /// owns.
    pub open spec fn value_of(self, cell: UpValue) -> Value {
        match self.cells()[cell.0 as int] {
            UpValueState::Open(thread, slot) => self.stacks()[thread.0 as int][slot as int],
            UpValueState::Closed(value) => value,
        }
    }

    /// Whether some cell is open at `slot` of `thread`.
    pub open spec fn is_captured(self, thread: Thread, slot: usize) -> bool {
        self.cells().contains(UpValueState::Open(thread, slot))
    }

    /// Names the views of `self`, so that what is known of them can be used.
    proof fn views(self)
        ensures
            self.protos() == self.protos@,
            self.cells() == self.cells@,
            self.closures() == self.closures@,
            self.stacks().len() == self.threads@.len(),
            forall|t: int|
                0 <= t < self.threads@.len() ==> #[trigger] self.stacks()[t]
                    == self.threads@[t].stack@,
    {
    }

    /// A register stack is no longer than the machine can count.
    pub proof fn lemma_stack_fits(self, thread: Thread)
        requires
            self.has_thread(thread),
        ensures
            self.stacks()[thread.0 as int].len() <= usize::MAX,
    {
        self.views();
        assert(self.threads@[thread.0 as int].stack.len()
            == self.threads@[thread.0 as int].stack@.len());
    }

    /// An empty heap.
    pub fn new() -> (heap: Heap)
        ensures
            heap.wf(),
            heap.protos().len() == 0,
            heap.cells().len() == 0,
            heap.closures().len() == 0,
            heap.stacks().len() == 0,
    {
        Heap { protos: Vec::new(), cells: Vec::new(), closures: Vec::new(), threads: Vec::new() }
    }

    /// Tests whether `proto` names a prototype of this heap.
    pub fn contains_proto(&self, proto: ProtoRef) -> (found: bool)
        ensures
            found == self.has_proto(proto),
    {
        proto.0 < self.protos.len()
    }

    /// Tests whether `cell` names a cell of this heap.
    pub fn contains_upvalue(&self, cell: UpValue) -> (found: bool)
        ensures
            found == self.has_upvalue(cell),
    {
        cell.0 < self.cells.len()
    }

    /// Tests whether `closure` names a closure of this heap.
    pub fn contains_closure(&self, closure: Closure) -> (found: bool)
        ensures
            found == self.has_closure(closure),
    {
        closure.0 < self.closures.len()
    }

    /// Tests whether `thread` names a thread of this heap.
    pub fn contains_thread(&self, thread: Thread) -> (found: bool)
        ensures
            found == self.has_thread(thread),
    {
        thread.0 < self.threads.len()
    }

    /// Tests whether every nested prototype of `proto` is in this heap.
    pub fn check_proto(&self, proto: &FunctionProto) -> (admitted: bool)
        ensures
            admitted == self.admits_proto(*proto),
    {
        let mut i: usize = 0;
        while i < proto.prototypes.len()
            invariant
                i <= proto.prototypes.len(),
                forall|k: int| 0 <= k < i ==> self.has_proto(#[trigger] proto.prototypes@[k]),
            decreases proto.prototypes.len() - i,
        {
            if proto.prototypes[i].0 >= self.protos.len() {
                proof {
                    self.views();
                }
                assert(!self.has_proto(proto.prototypes@[i as int]));
                return false;
            }
            proof {
                self.views();
            }
            i += 1;
        }
        true
    }

    /// The prototype behind a handle.
    pub fn proto(&self, proto: ProtoRef) -> (found: &FunctionProto)
        requires
            self.has_proto(proto),
        ensures
            *found == self.protos()[proto.0 as int],
    {
        &self.protos[proto.0]
    }

    /// What a closure is made of.
    pub fn closure(&self, closure: Closure) -> (found: &ClosureState)
        requires
            self.has_closure(closure),
        ensures
            *found == self.closures()[closure.0 as int],
    {
        &self.closures[closure.0]
    }

    /// The state of a cell.
    pub fn upvalue_state(&self, cell: UpValue) -> (state: UpValueState)
        requires
            self.has_upvalue(cell),
        ensures
            state == self.cells()[cell.0 as int],
    {
        self.cells[cell.0]
    }

    /// The number of registers of a thread.
    pub fn stack_len(&self, thread: Thread) -> (len: usize)
        requires
            self.has_thread(thread),
        ensures
            len == self.stacks()[thread.0 as int].len(),
    {
        self.threads[thread.0].stack.len()
    }

    /// Reads a register.
    pub fn register(&self, thread: Thread, slot: usize) -> (value: Value)
        requires
            self.has_register(thread, slot),
        ensures
            value == self.stacks()[thread.0 as int][slot as int],
    {
        self.threads[thread.0].stack[slot]
    }

    /// Puts a prototype into the heap. The prototypes nested in it are there
    /// already.
    pub fn alloc_proto(&mut self, proto: FunctionProto) -> (handle: ProtoRef)
        requires
            old(self).wf(),
            old(self).admits_proto(proto),
        ensures
            final(self).wf(),
            old(self).evolves_to(*final(self)),
            handle.0 == old(self).protos().len(),
            final(self).protos() == old(self).protos().push(proto),
            final(self).cells() == old(self).cells(),
            final(self).closures() == old(self).closures(),
            final(self).stacks() == old(self).stacks(),
    {
        proof {
            self.views();
        }
        let handle = ProtoRef(self.protos.len());
        self.protos.push(proto);
        proof {
            self.views();
        }
        handle
    }

    /// Makes a new cell that is closed over `value`.
    pub(crate) fn alloc_upvalue(&mut self, value: Value) -> (cell: UpValue)
        requires
            old(self).wf(),
        ensures
            final(self).wf(),
            old(self).evolves_to(*final(self)),
            cell.0 == old(self).cells().len(),
            final(self).cells() == old(self).cells().push(UpValueState::Closed(value)),
            final(self).protos() == old(self).protos(),
            final(self).closures() == old(self).closures(),
            final(self).stacks() == old(self).stacks(),
    {
        proof {
            self.views();
        }
        let cell = UpValue(self.cells.len());
        self.cells.push(UpValueState::Closed(value));
        proof {
            self.views();
        }
        cell
    }

    /// Puts a closure into the heap.
    pub(crate) fn alloc_closure(&mut self, state: ClosureState) -> (closure: Closure)
        requires
            old(self).wf(),
            old(self).admits_closure(state),
        ensures
            final(self).wf(),
            old(self).evolves_to(*final(self)),
            closure.0 == old(self).closures().len(),
            final(self).closures() == old(self).closures().push(state),
            final(self).protos() == old(self).protos(),
            final(self).cells() == old(self).cells(),
            final(self).stacks() == old(self).stacks(),
    {
        proof {
            self.views();
        }
        let closure = Closure(self.closures.len());
        self.closures.push(state);
        proof {
            self.views();
        }
        closure
    }

    /// Starts a thread with no registers.
    pub fn new_thread(&mut self) -> (thread: Thread)
        requires
            old(self).wf(),
        ensures
            final(self).wf(),
            old(self).evolves_to(*final(self)),
            thread.0 == old(self).stacks().len(),
            final(self).stacks() == old(self).stacks().push(Seq::empty()),
            final(self).protos() == old(self).protos(),
            final(self).cells() == old(self).cells(),
            final(self).closures() == old(self).closures(),
    {
        proof {
            self.views();
        }
        let thread = Thread(self.threads.len());
        self.threads.push(ThreadState { stack: Vec::new(), open: Vec::new() });
        proof {
            self.views();
        }
        thread
    }

    /// Adds a register on top of a thread's stack.
    pub fn push_register(&mut self, thread: Thread, value: Value)
        requires
            old(self).wf(),
            old(self).has_thread(thread),
        ensures
            final(self).wf(),
            old(self).evolves_to(*final(self)),
            final(self).stacks() == old(self).stacks().update(
                thread.0 as int,
                old(self).stacks()[thread.0 as int].push(value),
            ),
            final(self).protos() == old(self).protos(),
            final(self).cells() == old(self).cells(),
            final(self).closures() == old(self).closures(),
    {
        proof {
            self.views();
        }
        self.threads[thread.0].stack.push(value);
        proof {
            self.views();
        }
    }

    /// Writes a register. A cell that is open at the register reads the new
    /// value from now on.
    pub fn set_register(&mut self, thread: Thread, slot: usize, value: Value)
        requires
            old(self).wf(),
            old(self).has_register(thread, slot),
        ensures
            final(self).wf(),
            old(self).evolves_to(*final(self)),
            old(self).register_written(thread, slot, value, *final(self)),
    {
        proof {
            self.views();
        }
        self.threads[thread.0].stack[slot] = value;
        proof {
            self.views();
            assert(self.stacks() =~= old(self).stacks().update(
                thread.0 as int,
                old(self).stacks()[thread.0 as int].update(slot as int, value),
            ));
        }
    }

    /// Replaces the value that a closed cell owns.
    pub(crate) fn set_closed(&mut self, cell: UpValue, value: Value)
        requires
            old(self).wf(),
            old(self).has_upvalue(cell),
            old(self).cells()[cell.0 as int] is Closed,
        ensures
            final(self).wf(),
            old(self).evolves_to(*final(self)),
            final(self).cells() == old(self).cells().update(
                cell.0 as int,
                UpValueState::Closed(value),
            ),
            final(self).protos() == old(self).protos(),
            final(self).closures() == old(self).closures(),
            final(self).stacks() == old(self).stacks(),
    {
        proof {
            self.views();
        }
        self.cells[cell.0] = UpValueState::Closed(value);
        proof {
            self.views();
        }
    }

    /// The first position of `thread`'s open list whose slot is not below
    /// `slot`, or the length of the list.
    fn find_open(&self, thread: Thread, slot: usize) -> (k: usize)
        requires
            self.wf(),
            thread.0 < self.threads@.len(),
        ensures
            k <= self.threads@[thread.0 as int].open@.len(),
            forall|j: int| 0 <= j < k ==> self.threads@[thread.0 as int].open@[j].slot < slot,
            forall|j: int|
                k <= j < self.threads@[thread.0 as int].open@.len()
                    ==> self.threads@[thread.0 as int].open@[j].slot >= slot,
    {
        let t: usize = thread.0;
        let n: usize = self.threads[t].open.len();
        let mut k: usize = 0;
        while k < n && self.threads[t].open[k].slot < slot
            invariant
                t < self.threads@.len(),
                n == self.threads@[t as int].open@.len(),
                k <= n,
                forall|j: int| 0 <= j < k ==> self.threads@[t as int].open@[j].slot < slot,
            decreases n - k,
        {
            k += 1;
        }
        assert forall|j: int| k <= j < n implies self.threads@[t as int].open@[j].slot >= slot by {
            if k < j {
                assert(self.threads@[t as int].open@[k as int].slot
                    < self.threads@[t as int].open@[j].slot);
            }
        }
        k
    }

    /// No cell is open at `slot` of `thread` when the open list has no entry
    /// for the slot at `k`, the place where the entry would stand.
    proof fn lemma_no_entry_no_cell(self, thread: Thread, slot: usize, k: int)
        requires
            self.wf(),
            thread.0 < self.threads@.len(),
            0 <= k <= self.threads@[thread.0 as int].open@.len(),
            forall|j: int| 0 <= j < k ==> self.threads@[thread.0 as int].open@[j].slot < slot,
            forall|j: int|
                k <= j < self.threads@[thread.0 as int].open@.len()
                    ==> self.threads@[thread.0 as int].open@[j].slot >= slot,
            k < self.threads@[thread.0 as int].open@.len()
                ==> self.threads@[thread.0 as int].open@[k].slot != slot,
        ensures
            !self.is_captured(thread, slot),
    {
        self.views();
        let list = self.threads@[thread.0 as int].open@;
        assert forall|u: int| 0 <= u < self.cells@.len() implies #[trigger] self.cells@[u]
            != UpValueState::Open(thread, slot) by {
            if self.cells@[u] == UpValueState::Open(thread, slot) {
                let wanted = OpenSlot { slot, cell: UpValue(u as usize) };
                assert(list.contains(wanted));
                let i = choose|i: int| 0 <= i < list.len() && list[i] == wanted;
                if k < i {
                    assert(list[k].slot < list[i].slot);
                }
            }
        }
    }

    /// Closes the cell of the `k`-th open entry of `thread` over the value
    /// of its register, and drops the entry.
    fn close_entry(&mut self, thread: Thread, k: usize)
        requires
            old(self).wf(),
            thread.0 < old(self).threads@.len(),
            k < old(self).threads@[thread.0 as int].open@.len(),
        ensures
            final(self).wf(),
            final(self).protos@ == old(self).protos@,
            final(self).closures@ == old(self).closures@,
            final(self).stacks() == old(self).stacks(),
            final(self).threads@.len() == old(self).threads@.len(),
            forall|t: int|
                0 <= t < old(self).threads@.len() && t != thread.0 ==> final(self).threads@[t]
                    == old(self).threads@[t],
            final(self).threads@[thread.0 as int].open@ == old(self).threads@[thread.0 as int].open@.remove(
                k as int,
            ),
            ({
                let entry = old(self).threads@[thread.0 as int].open@[k as int];
                &&& entry.cell.0 < old(self).cells@.len()
                &&& entry.slot < old(self).threads@[thread.0 as int].stack@.len()
                &&& old(self).cells@[entry.cell.0 as int] == UpValueState::Open(thread, entry.slot)
                &&& final(self).cells@ == old(self).cells@.update(
                    entry.cell.0 as int,
                    UpValueState::Closed(
                        old(self).threads@[thread.0 as int].stack@[entry.slot as int],
                    ),
                )
            }),
    {
        let t: usize = thread.0;
        let ghost pre = *self;
        let ghost list = pre.threads@[t as int].open@;
        proof {
            pre.views();
            assert(pre.listed(t as int, list[k as int]));
            assert(pre.admits_state(pre.cells()[list[k as int].cell.0 as int]));
        }
        let entry = self.threads[t].open.remove(k);
        let value = self.threads[t].stack[entry.slot];
        self.cells[entry.cell.0] = UpValueState::Closed(value);
        proof {
            self.views();
            let rest = self.threads@[t as int].open@;
            assert(rest == list.remove(k as int));
            assert(self.stacks() =~= pre.stacks());
            // no other entry names the closed cell
            assert forall|t2: int, j: int|
                0 <= t2 < pre.threads@.len() && 0 <= j < pre.threads@[t2].open@.len() && !(t2 == t
                    && j == k) implies (#[trigger] pre.threads@[t2].open@[j]).cell != entry.cell by {
                let other = pre.threads@[t2].open@[j];
                assert(pre.listed(t2, other));
                assert(pre.listed(t as int, list[k as int]));
                assert(entry == list[k as int]);
                if t2 == t {
                    if j < k {
                        assert(list[j].slot < list[k as int].slot);
                    } else {
                        assert(list[k as int].slot < list[j].slot);
                    }
                }
            }
            assert forall|t2: int, j: int|
                0 <= t2 < self.threads@.len() && 0 <= j < self.threads@[t2].open@.len() implies self.listed(
                t2,
                #[trigger] self.threads@[t2].open@[j],
            ) by {
                if t2 == t {
                    let i = if j < k { j } else { j + 1 };
                    assert(rest[j] == list[i]);
                    assert(pre.listed(t2, pre.threads@[t2].open@[i]));
                } else {
                    assert(pre.listed(t2, pre.threads@[t2].open@[j]));
                }
            }
            assert forall|t2: int, i: int, j: int|
                0 <= t2 < self.threads@.len() && 0 <= i < j < self.threads@[t2].open@.len() implies (
            #[trigger] self.threads@[t2].open@[i]).slot < (
            #[trigger] self.threads@[t2].open@[j]).slot by {
                if t2 == t {
                    let i0 = if i < k { i } else { i + 1 };
                    let j0 = if j < k { j } else { j + 1 };
                    assert(rest[i] == list[i0]);
                    assert(rest[j] == list[j0]);
                    assert(list[i0].slot < list[j0].slot);
                } else {
                    assert(pre.threads@[t2].open@[i].slot < pre.threads@[t2].open@[j].slot);
                }
            }
            assert forall|u: int| 0 <= u < self.cells@.len() implies (
            #[trigger] self.cells@[u] matches UpValueState::Open(th, slot) ==> th.0
                < self.threads@.len() && self.threads@[th.0 as int].open@.contains(
                OpenSlot { slot, cell: UpValue(u as usize) },
            )) by {
                if let UpValueState::Open(th, slot) = self.cells@[u] {
                    assert(u != entry.cell.0);
                    assert(pre.cells@[u] == self.cells@[u]);
                    let wanted = OpenSlot { slot, cell: UpValue(u as usize) };
                    let old_list = pre.threads@[th.0 as int].open@;
                    assert(old_list.contains(wanted));
                    let i = choose|i: int| 0 <= i < old_list.len() && old_list[i] == wanted;
                    if th.0 == t {
                        assert(i != k);
                        let j = if i < k { i } else { i - 1 };
                        assert(rest[j] == wanted);
                    } else {
                        assert(self.threads@[th.0 as int].open@[i] == wanted);
                    }
                }
            }
        }
    }

    /// Whether the topmost open entry of `thread` is at or above `base`.
    fn open_above(&self, thread: Thread, base: usize) -> (found: bool)
        requires
            thread.0 < self.threads@.len(),
        ensures
            found == (self.threads@[thread.0 as int].open@.len() > 0
                && self.threads@[thread.0 as int].open@.last().slot >= base),
    {
        let n: usize = self.threads[thread.0].open.len();
        n > 0 && self.threads[thread.0].open[n - 1].slot >= base
    }

    /// What `state` becomes when the registers of `thread` from `base` up
    /// are given up: a cell that is open there is closed over the value of
    /// its register, any other is left as it is.
    pub open spec fn closed_above(self, state: UpValueState, thread: Thread, base: int) -> UpValueState {
        match state {
            UpValueState::Open(at, slot) => if at == thread && slot >= base {
                UpValueState::Closed(self.stacks()[at.0 as int][slot as int])
            } else {
                state
            },
            UpValueState::Closed(_) => state,
        }
    }

    /// How `post` differs from `self` once the registers of `thread` from
    /// `base` up were closed over: each cell is what
    /// [`Heap::closed_above`] makes of it, and nothing else has changed.
    pub open spec fn frame_closed(self, thread: Thread, base: int, post: Heap) -> bool {
        &&& post.cells().len() == self.cells().len()
        &&& forall|u: int|
            0 <= u < self.cells().len() ==> #[trigger] post.cells()[u] == self.closed_above(
                self.cells()[u],
                thread,
                base,
            )
        &&& post.protos() == self.protos()
        &&& post.closures() == self.closures()
        &&& post.stacks() == self.stacks()
    }

    /// How `post` differs from `self` once the register `slot` of `thread`
    /// was closed over: a cell that was open there owns the value that the
    /// register has, and nothing else has changed.
    pub open spec fn slot_closed(self, thread: Thread, slot: usize, post: Heap) -> bool {
        &&& post.cells().len() == self.cells().len()
        &&& forall|u: int|
            0 <= u < self.cells().len() ==> #[trigger] post.cells()[u] == (if self.cells()[u]
                == UpValueState::Open(thread, slot) {
                UpValueState::Closed(self.stacks()[thread.0 as int][slot as int])
            } else {
                self.cells()[u]
            })
        &&& post.protos() == self.protos()
        &&& post.closures() == self.closures()
        &&& post.stacks() == self.stacks()
    }

    /// How `post` differs from `self` once `value` was written to the
    /// register `slot` of `thread`: only that register has changed.
    pub open spec fn register_written(self, thread: Thread, slot: usize, value: Value, post: Heap) -> bool {
        &&& post.stacks() == self.stacks().update(
            thread.0 as int,
            self.stacks()[thread.0 as int].update(slot as int, value),
        )
        &&& post.protos() == self.protos()
        &&& post.cells() == self.cells()
        &&& post.closures() == self.closures()
    }

    /// The cell that is open at a register: the one that is there already,
    /// or else a new one. Two captures of one register give the same cell.
    pub(crate) fn capture(&mut self, thread: Thread, slot: usize) -> (cell: UpValue)
        requires
            old(self).wf(),
            old(self).has_register(thread, slot),
        ensures
            final(self).wf(),
            old(self).evolves_to(*final(self)),
            final(self).has_upvalue(cell),
            final(self).cells()[cell.0 as int] == UpValueState::Open(thread, slot),
            old(self).is_captured(thread, slot) ==> final(self).cells() == old(self).cells(),
            !old(self).is_captured(thread, slot) ==> final(self).cells() == old(self).cells().push(
                UpValueState::Open(thread, slot),
            ),
            final(self).protos() == old(self).protos(),
            final(self).closures() == old(self).closures(),
            final(self).stacks() == old(self).stacks(),
    {
        let t: usize = thread.0;
        let ghost pre = *self;
        let ghost list = pre.threads@[t as int].open@;
        proof {
            pre.views();
        }
        let k: usize = self.find_open(thread, slot);
        if k < self.threads[t].open.len() && self.threads[t].open[k].slot == slot {
            let cell = self.threads[t].open[k].cell;
            proof {
                assert(pre.listed(t as int, list[k as int]));
            }
            cell
        } else {
            let cell = UpValue(self.cells.len());
            proof {
                pre.lemma_no_entry_no_cell(thread, slot, k as int);
            }
            self.cells.push(UpValueState::Open(thread, slot));
            self.threads[t].open.insert(k, OpenSlot { slot, cell });
            proof {
                self.views();
                let entry = OpenSlot { slot, cell };
                let grown = self.threads@[t as int].open@;
                assert(grown == list.insert(k as int, entry));
                assert(self.stacks() =~= pre.stacks());
                assert forall|t2: int, j: int|
                    0 <= t2 < self.threads@.len() && 0 <= j < self.threads@[t2].open@.len() implies self.listed(
                    t2,
                    #[trigger] self.threads@[t2].open@[j],
                ) by {
                    if t2 == t {
                        if j < k {
                            assert(grown[j] == list[j]);
                            assert(pre.listed(t2, pre.threads@[t2].open@[j]));
                        } else if j > k {
                            assert(grown[j] == list[j - 1]);
                            assert(pre.listed(t2, pre.threads@[t2].open@[j - 1]));
                        } else {
                            assert(grown[j] == entry);
                        }
                    } else {
                        assert(pre.listed(t2, pre.threads@[t2].open@[j]));
                    }
                }
                assert forall|t2: int, i: int, j: int|
                    0 <= t2 < self.threads@.len() && 0 <= i < j < self.threads@[t2].open@.len() implies (
                #[trigger] self.threads@[t2].open@[i]).slot < (
                #[trigger] self.threads@[t2].open@[j]).slot by {
                    if t2 == t {
                        let i0 = if i < k { i } else { i - 1 };
                        let j0 = if j < k { j } else { j - 1 };
                        if i != k {
                            assert(grown[i] == list[i0]);
                        }
                        if j != k {
                            assert(grown[j] == list[j0]);
                        }
                        if i != k && j != k {
                            assert(list[i0].slot < list[j0].slot);
                        }
                    } else {
                        assert(pre.threads@[t2].open@[i].slot < pre.threads@[t2].open@[j].slot);
                    }
                }
                assert forall|u: int| 0 <= u < self.cells@.len() implies (
                #[trigger] self.cells@[u] matches UpValueState::Open(th, at) ==> th.0
                    < self.threads@.len() && self.threads@[th.0 as int].open@.contains(
                    OpenSlot { slot: at, cell: UpValue(u as usize) },
                )) by {
                    if let UpValueState::Open(th, at) = self.cells@[u] {
                        let wanted = OpenSlot { slot: at, cell: UpValue(u as usize) };
                        if u == cell.0 {
                            assert(grown[k as int] == wanted);
                        } else {
                            assert(pre.cells@[u] == self.cells@[u]);
                            let old_list = pre.threads@[th.0 as int].open@;
                            assert(old_list.contains(wanted));
                            let i = choose|i: int| 0 <= i < old_list.len() && old_list[i] == wanted;
                            if th.0 == t {
                                let j = if i < k { i } else { i + 1 };
                                assert(grown[j] == wanted);
                            } else {
                                assert(self.threads@[th.0 as int].open@[i] == wanted);
                            }
                        }
                    }
                }
            }
            cell
        }
    }

    /// Closes the cell that is open at one register, if there is one, over
    /// the value of the register.
    pub fn close_slot(&mut self, thread: Thread, slot: usize)
        requires
            old(self).wf(),
            old(self).has_thread(thread),
        ensures
            final(self).wf(),
            old(self).evolves_to(*final(self)),
            old(self).slot_closed(thread, slot, *final(self)),
    {
        let t: usize = thread.0;
        let ghost pre = *self;
        let ghost list = pre.threads@[t as int].open@;
        proof {
            pre.views();
        }
        let k: usize = self.find_open(thread, slot);
        if k < self.threads[t].open.len() && self.threads[t].open[k].slot == slot {
            self.close_entry(thread, k);
            proof {
                self.views();
            }
        } else {
            proof {
                pre.lemma_no_entry_no_cell(thread, slot, k as int);
            }
        }
    }

    /// Closes every cell that is open at `base` or above in `thread`, each
    /// over the value of its register, from the top of the stack downwards.
    /// The interpreter calls this before it gives up those registers.
    pub fn close_frame(&mut self, thread: Thread, base: usize)
        requires
            old(self).wf(),
            old(self).has_thread(thread),
        ensures
            final(self).wf(),
            old(self).evolves_to(*final(self)),
            old(self).frame_closed(thread, base as int, *final(self)),
    {
        let t: usize = thread.0;
        let ghost pre = *self;
        let ghost mut bound: int = usize::MAX + 1;
        proof {
            pre.views();
        }
        let mut more = self.open_above(thread, base);
        while more
            invariant
                self.wf(),
                pre.wf(),
                t == thread.0,
                t < self.threads@.len(),
                more == (self.threads@[t as int].open@.len() > 0
                    && self.threads@[t as int].open@.last().slot >= base),
                self.protos@ == pre.protos@,
                self.closures@ == pre.closures@,
                self.stacks() == pre.stacks(),
                self.cells@.len() == pre.cells@.len(),
                base <= bound,
                forall|j: int|
                    0 <= j < self.threads@[t as int].open@.len()
                        ==> self.threads@[t as int].open@[j].slot < bound,
                forall|u: int|
                    0 <= u < pre.cells@.len() ==> #[trigger] self.cells@[u] == pre.closed_above(
                        pre.cells@[u],
                        thread,
                        bound,
                    ),
            decreases self.threads@[t as int].open@.len(),
        {
            let ghost before = *self;
            let ghost list = before.threads@[t as int].open@;
            let ghost top = list.last();
            let n: usize = self.threads[t].open.len();
            self.close_entry(thread, n - 1);
            proof {
                before.views();
                self.views();
                pre.views();
                assert forall|u: int| 0 <= u < pre.cells@.len() implies #[trigger] self.cells@[u]
                    == pre.closed_above(pre.cells@[u], thread, top.slot as int) by {
                    if u != top.cell.0 {
                        if let UpValueState::Open(at, slot) = before.cells@[u] {
                            if at == thread && slot >= top.slot {
                                let wanted = OpenSlot { slot, cell: UpValue(u as usize) };
                                assert(list.contains(wanted));
                                let i = choose|i: int| 0 <= i < list.len() && list[i] == wanted;
                                if i < list.len() - 1 {
                                    assert(list[i].slot < list[list.len() - 1].slot);
                                }
                            }
                        }
                    }
                }
                assert forall|j: int|
                    0 <= j < self.threads@[t as int].open@.len() implies self.threads@[t as int].open@[j].slot
                    < top.slot by {
                    assert(self.threads@[t as int].open@[j] == list[j]);
                    assert(list[j].slot < list[list.len() - 1].slot);
                }
                bound = top.slot as int;
            }
            more = self.open_above(thread, base);
        }
        proof {
            self.views();
            let list = self.threads@[t as int].open@;
            assert forall|u: int| 0 <= u < pre.cells@.len() implies #[trigger] self.cells@[u]
                == pre.closed_above(pre.cells@[u], thread, base as int) by {
                if let UpValueState::Open(at, slot) = pre.cells@[u] {
                    if at == thread && base <= slot < bound {
                        assert(self.cells@[u] == pre.cells@[u]);
                        let wanted = OpenSlot { slot, cell: UpValue(u as usize) };
                        assert(list.contains(wanted));
                        let i = choose|i: int| 0 <= i < list.len() && list[i] == wanted;
                        if i < list.len() - 1 {
                            assert(list[i].slot < list[list.len() - 1].slot);
                        }
                    }
                }
            }
        }
    }

    /// Gives up the registers of `thread` from `len` up, after closing every
    /// cell that is open at one of them.
    pub fn shrink_stack(&mut self, thread: Thread, len: usize)
        requires
            old(self).wf(),
            old(self).has_thread(thread),
            len <= old(self).stacks()[thread.0 as int].len(),
        ensures
            final(self).wf(),
            old(self).evolves_to(*final(self)),
            final(self).cells().len() == old(self).cells().len(),
            forall|u: int|
                0 <= u < old(self).cells().len() ==> #[trigger] final(self).cells()[u] == old(
                    self,
                ).closed_above(old(self).cells()[u], thread, len as int),
            final(self).stacks() == old(self).stacks().update(
                thread.0 as int,
                old(self).stacks()[thread.0 as int].subrange(0, len as int),
            ),
            final(self).protos() == old(self).protos(),
            final(self).closures() == old(self).closures(),
    {
        let ghost pre = *self;
        self.close_frame(thread, len);
        let ghost closed = *self;
        proof {
            closed.views();
        }
        self.threads[thread.0].stack.truncate(len);
        proof {
            self.views();
            assert(self.stacks() =~= pre.stacks().update(
                thread.0 as int,
                pre.stacks()[thread.0 as int].subrange(0, len as int),
            ));
            assert forall|u: int| 0 <= u < self.cells().len() implies self.admits_state(
                #[trigger] self.cells()[u],
            ) by {
                assert(closed.admits_state(closed.cells()[u]));
                assert(closed.cells()[u] == pre.closed_above(pre.cells()[u], thread, len as int));
            }
        }
    }
}

} // verus!
