//! Logical CPUs of the QEMU `virt` AArch64 platform: a fixed table of four
//! cores, the boot core first, started through PSCI.
use vstd::prelude::*;
use crate::psci::{PsciCall, cpu_on_call};

verus! {

/// Bits of `MPIDR_EL1` that make up a core's hardware id (Aff3, Aff2, Aff1,
/// Aff0).
pub const CPU_ID_MASK: u64 = 0xff00ffffff;

/// Number of cores the platform supports.
pub const MAX_CORES: usize = 4;

/// The hardware id of a core, taken from the value of its `MPIDR_EL1`.
pub fn cpu_id(mpidr: u64) -> (r: u64)
    ensures
        r == mpidr & CPU_ID_MASK,
{
    mpidr & CPU_ID_MASK
}

/// Life cycle of a platform core.
#[allow(non_camel_case_types)]
#[derive(PartialEq, Eq, Structural, Clone, Copy, Debug)]
pub enum LCPUState {
    OFFLINE,
    INIT,
    IDLE,
    BUSY,
}

/// One platform core: hardware id, position in the table and state.
#[derive(PartialEq, Eq, Structural, Clone, Copy, Debug)]
pub struct LCPU {
    pub id: u64,
    pub idx: usize,
    pub state: LCPUState,
}

/// What `start` does to a core: an `OFFLINE` core is powered on at `entry`
/// through `CPU_ON` and becomes `INIT`; any other core is left alone.
pub open spec fn start_post(pre: LCPU, entry: usize, post: LCPU, call: Option<PsciCall>) -> bool {
    if pre.state == LCPUState::OFFLINE {
        &&& call == Some(cpu_on_call(pre.id as usize, entry, 0))
        &&& post == LCPU { state: LCPUState::INIT, ..pre }
    } else {
        &&& call is None
        &&& post == pre
    }
}

impl LCPU {
    /// The core `id` at table position `idx` in state `state`.
    pub fn new(id: u64, idx: usize, state: LCPUState) -> (r: Self)
        ensures
            r == (LCPU { id, idx, state }),
    {
        Self { id, idx, state }
    }

    /// Powers the core on if it is `OFFLINE`: returns the `CPU_ON` call that
    /// starts it at `entry` (which must then succeed), and records `INIT`.
    pub fn start(&mut self, entry: usize) -> (r: Option<PsciCall>)
        ensures
            start_post(*old(self), entry, *final(self), r),
    {
        match self.state {
            LCPUState::OFFLINE => {
                let call = crate::psci::start(self.id as usize, entry);
                self.state = LCPUState::INIT;
                Some(call)
            },
            _ => None,
        }
    }
}

/// The table of platform cores.
pub struct LCPUManager {
    count: usize,
    lcpus: Vec<LCPU>,
}

/// The slot a core not registered yet holds.
pub open spec fn empty_slot(i: usize) -> LCPU {
    LCPU { id: CPU_ID_MASK, idx: i, state: LCPUState::OFFLINE }
}

impl LCPUManager {
    /// Number of registered cores, the boot core included.
    pub closed spec fn count(&self) -> nat {
        self.count as nat
    }

    /// All `MAX_CORES` slots of the table.
    pub closed spec fn slots(&self) -> Seq<LCPU> {
        self.lcpus@
    }

    /// The table has one slot per supported core, each slot knows its
    /// position, between one and `MAX_CORES` cores are registered, the boot
    /// core sits in slot 0 and is never `OFFLINE`, and unregistered slots
    /// are empty.
    pub open spec fn wf(&self) -> bool {
        &&& self.slots().len() == MAX_CORES
        &&& 1 <= self.count() <= MAX_CORES
        &&& forall|i: int| 0 <= i < MAX_CORES ==> #[trigger] self.slots()[i].idx == i
        &&& self.slots()[0].state != LCPUState::OFFLINE
        &&& forall|i: int| self.count() <= i < MAX_CORES ==> #[trigger] self.slots()[i] == empty_slot(i as usize)
    }

    /// Number of registered cores.
    pub fn count_exec(&self) -> (r: usize)
        requires
            self.wf(),
        ensures
            r == self.count(),
    {
        self.count
    }

    /// A table holding the boot core `boot_id` (already running, `INIT`) and
    /// three empty slots.
    pub fn new(boot_id: u64) -> (r: Self)
        ensures
            r.wf(),
            r.count() == 1,
            r.slots()[0] == (LCPU { id: boot_id, idx: 0, state: LCPUState::INIT }),
    {
        let mut lcpus: Vec<LCPU> = Vec::new();
        lcpus.push(LCPU::new(boot_id, 0, LCPUState::INIT));
        lcpus.push(LCPU::new(CPU_ID_MASK, 1, LCPUState::OFFLINE));
        lcpus.push(LCPU::new(CPU_ID_MASK, 2, LCPUState::OFFLINE));
        lcpus.push(LCPU::new(CPU_ID_MASK, 3, LCPUState::OFFLINE));
        let r = Self { count: 1, lcpus };
        assert forall|i: int| 1 <= i < MAX_CORES implies #[trigger] r.slots()[i] == empty_slot(i as usize) by {
            assert(i == 1 || i == 2 || i == 3);
        }
        r
    }

    /// Registers core `id` in the next free slot. The table must not be full.
    pub fn add(&mut self, id: u64)
        requires
            old(self).wf(),
            old(self).count() < MAX_CORES,
        ensures
            final(self).wf(),
            final(self).count() == old(self).count() + 1,
            final(self).slots() == old(self).slots().update(
                old(self).count() as int,
                LCPU { id, idx: old(self).count() as usize, state: LCPUState::OFFLINE },
            ),
    {
        let c = LCPU::new(id, self.count, LCPUState::OFFLINE);
        self.lcpus[self.count] = c;
        self.count = self.count + 1;
        assert(self.slots()[0] == old(self).slots()[0]);
    }

    /// Powers on the registered core in slot `idx` if it is still off;
    /// returns the `CPU_ON` call to issue. Slots past the registered cores
    /// are ignored.
    pub fn start(&mut self, idx: usize, entry: usize) -> (r: Option<PsciCall>)
        requires
            old(self).wf(),
        ensures
            final(self).wf(),
            final(self).count() == old(self).count(),
            idx < old(self).count() ==> {
                &&& start_post(old(self).slots()[idx as int], entry, final(self).slots()[idx as int], r)
                &&& final(self).slots() == old(self).slots().update(idx as int, final(self).slots()[idx as int])
            },
            idx >= old(self).count() ==> r is None && final(self).slots() == old(self).slots(),
    {
        if idx < self.count {
            let mut c = self.lcpus[idx];
            let r = c.start(entry);
            self.lcpus[idx] = c;
            assert(self.slots() =~= old(self).slots().update(idx as int, c));
            r
        } else {
            None
        }
    }
}

/// A table for the platform with the boot core `boot_id` registered.
pub fn lcpu_init(boot_id: u64) -> (r: LCPUManager)
    ensures
        r.wf(),
        r.count() == 1,
        r.slots()[0] == (LCPU { id: boot_id, idx: 0, state: LCPUState::INIT }),
{
    LCPUManager::new(boot_id)
}

/// Registers the core found in the device tree with hardware id `id`.
pub fn add_lcpu(m: &mut LCPUManager, id: u64)
    requires
        old(m).wf(),
        old(m).count() < MAX_CORES,
    ensures
        final(m).wf(),
        final(m).count() == old(m).count() + 1,
        final(m).slots() == old(m).slots().update(
            old(m).count() as int,
            LCPU { id, idx: old(m).count() as usize, state: LCPUState::OFFLINE },
        ),
{
    m.add(id);
}

/// Powers on the core in slot `idx`, if registered and still off; returns
/// the `CPU_ON` call to issue.
pub fn start(m: &mut LCPUManager, idx: usize, entry: usize) -> (r: Option<PsciCall>)
    requires
        old(m).wf(),
    ensures
        final(m).wf(),
        final(m).count() == old(m).count(),
        idx < old(m).count() ==> {
            &&& start_post(old(m).slots()[idx as int], entry, final(m).slots()[idx as int], r)
            &&& final(m).slots() == old(m).slots().update(idx as int, final(m).slots()[idx as int])
        },
        idx >= old(m).count() ==> r is None && final(m).slots() == old(m).slots(),
{
    m.start(idx, entry)
}

/// The boot core is never powered on again: in a well-formed table, starting
/// slot 0 issues no call.
pub proof fn law_boot_core_not_restarted(m: LCPUManager, entry: usize, post: LCPU, call: Option<PsciCall>)
    requires
        m.wf(),
        start_post(m.slots()[0], entry, post, call),
    ensures
        call is None,
{
}

/// Each core is powered on at most once: after `start` issued a call for a
/// core, starting it again issues nothing.
pub proof fn law_start_at_most_once(
    a: LCPU,
    b: LCPU,
    c: LCPU,
    entry1: usize,
    entry2: usize,
    call1: Option<PsciCall>,
    call2: Option<PsciCall>,
)
    requires
        start_post(a, entry1, b, call1),
        call1 is Some,
        start_post(b, entry2, c, call2),
    ensures
        call2 is None,
        c == b,
{
}

} // verus!
