//! The task-state segment model: the alternate stacks the hardware can
//! switch to when it delivers a fault, selected by an index stored in the
//! vector table entry. Only the double-fault stack is used here; keeping
//! it disjoint from the normal kernel stack is what makes double-fault
//! delivery survive stack exhaustion.

use vstd::prelude::*;

verus! {

/// Index of the pre-allocated double-fault stack in the interrupt stack
/// table.
pub const DOUBLE_FAULT_IST_INDEX: u16 = 0;

/// Number of alternate-stack slots the task-state segment offers.
pub const IST_SLOTS: usize = 7;

/// A stack region: the half-open range `[bottom, top)` it occupies.
#[derive(Clone, Copy, PartialEq, Eq, Structural, Debug)]
pub struct StackRegion {
    pub bottom: u64,
    pub top: u64,
}

/// Whether two stack regions share no byte.
pub open spec fn stacks_disjoint(a: StackRegion, b: StackRegion) -> bool {
    a.top <= b.bottom || b.top <= a.bottom
}

/// A stack region is non-inverted and non-empty.
pub open spec fn stack_wf(s: StackRegion) -> bool {
    s.bottom < s.top
}

/// The task-state segment: seven alternate-stack slots, each either empty
/// or holding a pre-allocated stack region.
pub struct TaskStateSegment {
    pub interrupt_stack_table: Vec<Option<StackRegion>>,
}

impl TaskStateSegment {
    /// The alternate-stack slots, in order.
    pub open spec fn spec_ist(self) -> Seq<Option<StackRegion>> {
        self.interrupt_stack_table@
    }

    /// The segment has exactly its seven slots.
    pub open spec fn wf(self) -> bool {
        self.interrupt_stack_table@.len() == IST_SLOTS
    }
}

/// Build the task-state segment once at startup: the given pre-allocated
/// stack is committed to the double-fault slot, every other slot stays
/// empty.
pub fn init(double_fault_stack: StackRegion) -> (r: TaskStateSegment)
    requires
        stack_wf(double_fault_stack),
    ensures
        r.wf(),
        r.spec_ist()[DOUBLE_FAULT_IST_INDEX as int] == Some(double_fault_stack),
        forall|k: int|
            0 <= k < IST_SLOTS && k != DOUBLE_FAULT_IST_INDEX ==> #[trigger] r.spec_ist()[k] is None,
{
    let mut interrupt_stack_table: Vec<Option<StackRegion>> = Vec::new();
    interrupt_stack_table.push(Some(double_fault_stack));
    let mut k: usize = 1;
    while k < IST_SLOTS
        invariant
            1 <= k <= IST_SLOTS,
            interrupt_stack_table@.len() == k,
            interrupt_stack_table@[0] == Some(double_fault_stack),
            forall|j: int| 1 <= j < k ==> #[trigger] interrupt_stack_table@[j] is None,
        decreases IST_SLOTS - k,
    {
        interrupt_stack_table.push(None);
        k = k + 1;
    }
    TaskStateSegment { interrupt_stack_table }
}

} // verus!
