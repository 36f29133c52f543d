//! Logical CPUs: the per-core state counter, the single-slot task mailbox and
//! the table of registered cores.
//!
//! The state counter reads `OFFLINE`, `INIT`, `IDLE`, and from `BUSY` on it
//! counts one more for each task handed to the core. All updates are modelled
//! as sequential read-modify-write steps; the counter wraps like an atomic
//! `fetch_add` / `fetch_sub`.
use vstd::prelude::*;
use crate::psci::{PsciCall, cpu_on_call, start_secondary_cpu};

verus! {

/// The core is known but not started.
pub const OFFLINE: usize = 0;

/// The core has been asked to start.
pub const INIT: usize = 1;

/// The core runs and waits for work.
pub const IDLE: usize = 2;

/// The core runs at least one task.
pub const BUSY: usize = 3;

/// Software-generated interrupt that makes a core run its pending task.
pub const RUN_IRQ: usize = 5;

/// Software-generated interrupt that only wakes a core up.
pub const WAKE_IRQ: usize = 6;

/// A software-generated interrupt `irq` to be sent to the core whose
/// hardware id is `cpu`.
#[derive(PartialEq, Eq, Structural, Clone, Copy, Debug)]
pub struct Sgi {
    pub irq: usize,
    pub cpu: usize,
}

/// The state counter of one logical CPU.
#[derive(Clone, Copy, Debug)]
pub struct LCPUState(usize);

impl View for LCPUState {
    type V = usize;

    closed spec fn view(&self) -> usize {
        self.0
    }
}

impl LCPUState {
    /// A counter holding `state`.
    pub fn new(state: usize) -> (r: Self)
        ensures
            r@ == state,
    {
        LCPUState(state)
    }

    /// Replaces the value by `new` if it equals `expected`; returns the value
    /// found, as `Ok` when the exchange happened and as `Err` otherwise.
    pub fn compare_exchange(&mut self, expected: usize, new: usize) -> (r: Result<usize, usize>)
        ensures
            old(self)@ == expected ==> r == Ok::<usize, usize>(expected) && final(self)@ == new,
            old(self)@ != expected ==> r == Err::<usize, usize>(old(self)@) && final(self)@ == old(
                self,
            )@,
    {
        if self.0 == expected {
            self.0 = new;
            Ok(expected)
        } else {
            Err(self.0)
        }
    }

    /// Whether the core has come up (`IDLE` or above).
    pub fn is_online(&self) -> (r: bool)
        ensures
            r == (self@ >= IDLE),
    {
        self.0 >= IDLE
    }

    /// Whether the core has work (`BUSY` or above).
    pub fn is_busy(&self) -> (r: bool)
        ensures
            r == (self@ >= BUSY),
    {
        self.0 >= BUSY
    }

    /// Adds `inc` (wrapping) and returns the previous value.
    pub fn add(&mut self, inc: usize) -> (r: usize)
        ensures
            r == old(self)@,
            final(self)@ == old(self)@.wrapping_add(inc),
    {
        let prev = self.0;
        self.0 = self.0.wrapping_add(inc);
        prev
    }

    /// Subtracts `dec` (wrapping) and returns the previous value.
    pub fn sub(&mut self, dec: usize) -> (r: usize)
        ensures
            r == old(self)@,
            final(self)@ == old(self)@.wrapping_sub(dec),
    {
        let prev = self.0;
        self.0 = self.0.wrapping_sub(dec);
        prev
    }

    /// Overwrites the value with `state`.
    pub fn store(&mut self, state: usize)
        ensures
            final(self)@ == state,
    {
        self.0 = state;
    }
}

/// One logical CPU: its hardware id, its state counter and a mailbox holding
/// at most one pending task (a non-zero task handle; zero means empty).
#[derive(Clone, Copy, Debug)]
pub struct LCPU {
    pub id: usize,
    state: LCPUState,
    task: usize,
}

/// What `set_task` does to a logical CPU: the task is placed exactly when the
/// core is online and its mailbox is empty; placing it counts the core one
/// task busier; otherwise nothing changes.
pub open spec fn set_task_post(pre: LCPU, task: usize, post: LCPU, placed: bool) -> bool {
    &&& placed == (pre.cur_state() >= IDLE && pre.pending_task() == 0)
    &&& placed ==> {
        &&& post.hw_id() == pre.hw_id()
        &&& post.cur_state() == pre.cur_state().wrapping_add(1)
        &&& post.pending_task() == task
    }
    &&& !placed ==> post == pre
}

/// What `get_task` does: it empties the mailbox and hands out what it held.
pub open spec fn get_task_post(pre: LCPU, post: LCPU, got: Option<usize>) -> bool {
    &&& got == (if pre.pending_task() == 0 {
        None::<usize>
    } else {
        Some(pre.pending_task())
    })
    &&& post.hw_id() == pre.hw_id()
    &&& post.cur_state() == pre.cur_state()
    &&& post.pending_task() == 0
}

/// What `start` does: an `OFFLINE` core moves to `INIT` and the `CPU_ON`
/// call for it is issued; a core in any other state is left alone.
pub open spec fn start_post(pre: LCPU, entry: usize, args: usize, post: LCPU, call: Option<PsciCall>) -> bool {
    if pre.cur_state() == OFFLINE {
        &&& call == Some(cpu_on_call(pre.hw_id(), entry, args))
        &&& post.hw_id() == pre.hw_id()
        &&& post.cur_state() == INIT
        &&& post.pending_task() == pre.pending_task()
    } else {
        &&& call is None
        &&& post == pre
    }
}

/// What `finish_task` does: the state counter goes down by one (wrapping).
pub open spec fn finish_task_post(pre: LCPU, post: LCPU) -> bool {
    &&& post.hw_id() == pre.hw_id()
    &&& post.cur_state() == pre.cur_state().wrapping_sub(1)
    &&& post.pending_task() == pre.pending_task()
}

impl LCPU {
    /// The hardware id of the core.
    pub closed spec fn hw_id(&self) -> usize {
        self.id
    }

    /// The value of the state counter.
    pub closed spec fn cur_state(&self) -> usize {
        self.state@
    }

    /// The task handle in the mailbox (zero when empty).
    pub closed spec fn pending_task(&self) -> usize {
        self.task
    }

    /// A core with hardware id `id`, state `state` and an empty mailbox.
    pub fn new(id: usize, state: usize) -> (r: Self)
        ensures
            r.hw_id() == id,
            r.cur_state() == state,
            r.pending_task() == 0,
    {
        LCPU { id, state: LCPUState::new(state), task: 0 }
    }

    /// Moves an `OFFLINE` core to `INIT` and returns the call that boots it
    /// at `entry` with `args`; returns `None` for a core already started.
    pub fn start(&mut self, entry: usize, args: usize) -> (r: Option<PsciCall>)
        ensures
            start_post(*old(self), entry, args, *final(self), r),
    {
        if self.state.compare_exchange(OFFLINE, INIT).is_ok() {
            Some(start_secondary_cpu(self.id, entry, args))
        } else {
            None
        }
    }

    /// One attempt to hand `task` to the core. Returns `false` when the core
    /// is not online yet or still holds an earlier task; the caller then
    /// waits for an interrupt and tries again.
    pub fn set_task(&mut self, task: usize) -> (placed: bool)
        requires
            task != 0,
        ensures
            set_task_post(*old(self), task, *final(self), placed),
    {
        if !self.state.is_online() {
            return false;
        }
        let ghost before = self.state@;
        self.state.add(1);
        if self.task == 0 {
            self.task = task;
            true
        } else {
            self.state.sub(1);
            proof {
                lemma_wrapping_add_sub_one(before);
            }
            false
        }
    }

    /// Takes the pending task out of the mailbox, if there is one.
    pub fn get_task(&mut self) -> (r: Option<usize>)
        ensures
            get_task_post(*old(self), *final(self), r),
    {
        let f = self.task;
        self.task = 0;
        if f == 0 {
            None
        } else {
            Some(f)
        }
    }

    /// Whether the core has work.
    pub fn is_busy(&self) -> (r: bool)
        ensures
            r == (self.cur_state() >= BUSY),
    {
        self.state.is_busy()
    }

    /// Counts one task as done.
    pub fn finish_task(&mut self)
        ensures
            finish_task_post(*old(self), *final(self)),
    {
        self.state.sub(1);
    }

    /// Overwrites the state counter.
    pub fn set_state(&mut self, state: usize)
        ensures
            final(self).hw_id() == old(self).hw_id(),
            final(self).cur_state() == state,
            final(self).pending_task() == old(self).pending_task(),
    {
        self.state.store(state);
    }
}

/// Adding one and then taking one away, both wrapping, gives the start value.
pub proof fn lemma_wrapping_add_sub_one(x: usize)
    ensures
        x.wrapping_add(1).wrapping_sub(1) == x,
{
}

/// `i` is the first position of `s` that holds the core with hardware id `id`.
pub open spec fn is_first_with_id(s: Seq<LCPU>, id: usize, i: int) -> bool {
    &&& 0 <= i < s.len()
    &&& s[i].hw_id() == id
    &&& forall|j: int| 0 <= j < i ==> s[j].hw_id() != id
}

/// Some registered core has hardware id `id`.
pub open spec fn has_id(s: Seq<LCPU>, id: usize) -> bool {
    exists|i: int| 0 <= i < s.len() && s[i].hw_id() == id
}

/// The table of logical CPUs, filled in registration order up to the
/// configured number of cores.
pub struct LCPUManager {
    lcpus: Vec<LCPU>,
    capacity: usize,
}

impl View for LCPUManager {
    type V = Seq<LCPU>;

    closed spec fn view(&self) -> Seq<LCPU> {
        self.lcpus@
    }
}

impl LCPUManager {
    /// The number of cores the table can hold.
    pub closed spec fn capacity(&self) -> usize {
        self.capacity
    }

    /// An empty table for `smp` cores.
    pub fn new(smp: usize) -> (r: Self)
        ensures
            r@ == Seq::<LCPU>::empty(),
            r.capacity() == smp,
    {
        LCPUManager { lcpus: Vec::new(), capacity: smp }
    }

    /// Number of registered cores.
    pub fn count(&self) -> (r: usize)
        ensures
            r == self@.len(),
    {
        self.lcpus.len()
    }

    /// Whether no more cores can be registered.
    pub fn is_full(&self) -> (r: bool)
        ensures
            r == (self@.len() >= self.capacity()),
    {
        self.lcpus.len() >= self.capacity
    }

    /// Whether a core with hardware id `id` is registered.
    pub fn has_cpu(&self, id: usize) -> (r: bool)
        ensures
            r == has_id(self@, id),
    {
        let mut i: usize = 0;
        while i < self.lcpus.len()
            invariant
                i <= self@.len(),
                forall|j: int| 0 <= j < i ==> self@[j].hw_id() != id,
            decreases self@.len() - i,
        {
            if self.lcpus[i].id == id {
                return true;
            }
            i = i + 1;
        }
        false
    }

    /// Registers the boot core `cpu_id`, which is running already.
    pub fn init(&mut self, cpu_id: usize)
        requires
            old(self)@.len() < old(self).capacity(),
        ensures
            final(self).capacity() == old(self).capacity(),
            final(self)@.len() == old(self)@.len() + 1,
            final(self)@.drop_last() == old(self)@,
            final(self)@.last().hw_id() == cpu_id,
            final(self)@.last().cur_state() == BUSY,
            final(self)@.last().pending_task() == 0,
    {
        self.add(cpu_id, BUSY);
    }

    /// Registers core `id` in state `state` at the next free position.
    /// The table must not be full.
    pub fn add(&mut self, id: usize, state: usize)
        requires
            old(self)@.len() < old(self).capacity(),
        ensures
            final(self).capacity() == old(self).capacity(),
            final(self)@.len() == old(self)@.len() + 1,
            final(self)@.drop_last() == old(self)@,
            final(self)@.last().hw_id() == id,
            final(self)@.last().cur_state() == state,
            final(self)@.last().pending_task() == 0,
    {
        let c = LCPU::new(id, state);
        self.lcpus.push(c);
        assert(self.lcpus@.drop_last() =~= old(self).lcpus@);
    }

    /// The position of the first registered core with hardware id `id`.
    /// The core must be registered.
    pub fn get_idx(&self, id: usize) -> (r: usize)
        requires
            has_id(self@, id),
        ensures
            is_first_with_id(self@, id, r as int),
    {
        let count = self.lcpus.len();
        let mut idx: usize = 0;
        while idx < count
            invariant
                count == self@.len(),
                idx <= count,
                has_id(self@, id),
                forall|j: int| 0 <= j < idx ==> self@[j].hw_id() != id,
            decreases count - idx,
        {
            if self.lcpus[idx].id == id {
                return idx;
            }
            idx = idx + 1;
        }
        proof {
            let k = choose|k: int| 0 <= k < self@.len() && self@[k].hw_id() == id;
            assert(self@[k].hw_id() != id);
        }
        idx
    }

    /// The core at position `idx`, which must be registered.
    pub fn get_lcpu(&self, idx: usize) -> (r: &LCPU)
        requires
            idx < self@.len(),
        ensures
            *r == self@[idx as int],
    {
        &self.lcpus[idx]
    }

    /// The core with hardware id `cpu_id` (the first one registered under it).
    pub fn current_lcpu(&self, cpu_id: usize) -> (r: &LCPU)
        requires
            has_id(self@, cpu_id),
        ensures
            exists|i: int| is_first_with_id(self@, cpu_id, i) && *r == self@[i],
    {
        let idx = self.get_idx(cpu_id);
        self.get_lcpu(idx)
    }

    /// Replaces the core at position `idx`.
    fn put(&mut self, idx: usize, c: LCPU)
        requires
            idx < old(self)@.len(),
        ensures
            final(self)@ == old(self)@.update(idx as int, c),
            final(self).capacity() == old(self).capacity(),
    {
        self.lcpus[idx] = c;
    }
}

/// Registers the boot core, already running.
pub fn lcpu_init(m: &mut LCPUManager, cpu_id: usize)
    requires
        old(m)@.len() < old(m).capacity(),
    ensures
        final(m).capacity() == old(m).capacity(),
        final(m)@.len() == old(m)@.len() + 1,
        final(m)@.drop_last() == old(m)@,
        final(m)@.last().hw_id() == cpu_id,
        final(m)@.last().cur_state() == BUSY,
        final(m)@.last().pending_task() == 0,
{
    m.init(cpu_id);
}

/// Registers a secondary core that is still off.
pub fn lcpu_add(m: &mut LCPUManager, id: usize)
    requires
        old(m)@.len() < old(m).capacity(),
    ensures
        final(m).capacity() == old(m).capacity(),
        final(m)@.len() == old(m)@.len() + 1,
        final(m)@.drop_last() == old(m)@,
        final(m)@.last().hw_id() == id,
        final(m)@.last().cur_state() == OFFLINE,
        final(m)@.last().pending_task() == 0,
{
    m.add(id, OFFLINE);
}

/// Starts the core at position `idx` if it is still off: returns the
/// `CPU_ON` call to issue, or `None` when the core was started before.
pub fn lcpu_start(m: &mut LCPUManager, idx: usize, entry: usize, args: usize) -> (r: Option<PsciCall>)
    requires
        idx < old(m)@.len(),
    ensures
        final(m).capacity() == old(m).capacity(),
        final(m)@.len() == old(m)@.len(),
        forall|j: int| 0 <= j < old(m)@.len() && j != idx ==> final(m)@[j] == old(m)@[j],
        start_post(old(m)@[idx as int], entry, args, final(m)@[idx as int], r),
{
    let mut c = *m.get_lcpu(idx);
    let r = c.start(entry, args);
    m.put(idx, c);
    r
}

/// Marks the calling core `cpu_id` as up and idle.
pub fn lcpu_started(m: &mut LCPUManager, cpu_id: usize)
    requires
        has_id(old(m)@, cpu_id),
    ensures
        final(m).capacity() == old(m).capacity(),
        exists|i: int|
            {
                &&& is_first_with_id(old(m)@, cpu_id, i)
                &&& final(m)@.len() == old(m)@.len()
                &&& forall|j: int| 0 <= j < old(m)@.len() && j != i ==> final(m)@[j] == old(m)@[j]
                &&& final(m)@[i].hw_id() == cpu_id
                &&& final(m)@[i].cur_state() == IDLE
                &&& final(m)@[i].pending_task() == old(m)@[i].pending_task()
            },
{
    let idx = m.get_idx(cpu_id);
    let mut c = *m.get_lcpu(idx);
    c.set_state(IDLE);
    m.put(idx, c);
}

/// One attempt to hand `task` to the core at position `idx`. On success
/// returns the run interrupt to send to that core; `None` means the core is
/// not ready and the caller waits for an interrupt and tries again.
pub fn lcpu_run(m: &mut LCPUManager, idx: usize, task: usize) -> (r: Option<Sgi>)
    requires
        idx < old(m)@.len(),
        task != 0,
    ensures
        final(m).capacity() == old(m).capacity(),
        final(m)@.len() == old(m)@.len(),
        forall|j: int| 0 <= j < old(m)@.len() && j != idx ==> final(m)@[j] == old(m)@[j],
        set_task_post(old(m)@[idx as int], task, final(m)@[idx as int], r is Some),
        r is Some ==> r == Some(Sgi { irq: RUN_IRQ, cpu: old(m)@[idx as int].hw_id() }),
{
    let mut c = *m.get_lcpu(idx);
    let placed = c.set_task(task);
    m.put(idx, c);
    if placed {
        Some(Sgi { irq: RUN_IRQ, cpu: c.id })
    } else {
        None
    }
}

/// The wake-up interrupt for the core at position `idx`.
pub fn lcpu_wakeup(m: &LCPUManager, idx: usize) -> (r: Sgi)
    requires
        idx < m@.len(),
    ensures
        r == (Sgi { irq: WAKE_IRQ, cpu: m@[idx as int].hw_id() }),
{
    Sgi { irq: WAKE_IRQ, cpu: m.get_lcpu(idx).id }
}

/// Whether the caller must keep waiting for the core at position `idx`
/// (it is still busy).
pub fn lcpu_wait(m: &LCPUManager, idx: usize) -> (r: bool)
    requires
        idx < m@.len(),
    ensures
        r == (m@[idx as int].cur_state() >= BUSY),
{
    m.get_lcpu(idx).is_busy()
}

/// First half of the run-interrupt handler on core `cpu_id`: the core must
/// be busy; takes its pending task (to be run by the caller).
pub fn run_irq_take_task(m: &mut LCPUManager, cpu_id: usize) -> (r: Option<usize>)
    requires
        has_id(old(m)@, cpu_id),
        forall|i: int| is_first_with_id(old(m)@, cpu_id, i) ==> old(m)@[i].cur_state() >= BUSY,
    ensures
        final(m).capacity() == old(m).capacity(),
        exists|i: int|
            {
                &&& is_first_with_id(old(m)@, cpu_id, i)
                &&& final(m)@.len() == old(m)@.len()
                &&& forall|j: int| 0 <= j < old(m)@.len() && j != i ==> final(m)@[j] == old(m)@[j]
                &&& get_task_post(old(m)@[i], final(m)@[i], r)
            },
{
    let idx = m.get_idx(cpu_id);
    let mut c = *m.get_lcpu(idx);
    let t = c.get_task();
    m.put(idx, c);
    t
}

/// Second half of the run-interrupt handler on core `cpu_id`: the task has
/// run, so the core counts one task less.
pub fn run_irq_finish(m: &mut LCPUManager, cpu_id: usize)
    requires
        has_id(old(m)@, cpu_id),
    ensures
        final(m).capacity() == old(m).capacity(),
        exists|i: int|
            {
                &&& is_first_with_id(old(m)@, cpu_id, i)
                &&& final(m)@.len() == old(m)@.len()
                &&& forall|j: int| 0 <= j < old(m)@.len() && j != i ==> final(m)@[j] == old(m)@[j]
                &&& finish_task_post(old(m)@[i], final(m)@[i])
            },
{
    let idx = m.get_idx(cpu_id);
    let mut c = *m.get_lcpu(idx);
    c.finish_task();
    m.put(idx, c);
}

/// A task placed by a successful `set_task` is exactly what the next
/// `get_task` on that core hands out.
pub proof fn law_task_handoff(a: LCPU, b: LCPU, c: LCPU, task: usize, got: Option<usize>)
    requires
        task != 0,
        set_task_post(a, task, b, true),
        get_task_post(b, c, got),
    ensures
        got == Some(task),
        c.pending_task() == 0,
{
}

/// Finishing a task gives back the state the core had before the task was
/// placed: placing a task and finishing it leave the busy count balanced.
pub proof fn law_finish_undoes_set_task(a: LCPU, b: LCPU, c: LCPU, task: usize)
    requires
        set_task_post(a, task, b, true),
        finish_task_post(b, c),
    ensures
        c.cur_state() == a.cur_state(),
        c.hw_id() == a.hw_id(),
{
    lemma_wrapping_add_sub_one(a.cur_state());
}

/// A core is started at most once: after `start` issued its `CPU_ON` call,
/// a second `start` issues nothing.
pub proof fn law_start_at_most_once(
    a: LCPU,
    b: LCPU,
    c: LCPU,
    entry1: usize,
    args1: usize,
    entry2: usize,
    args2: usize,
    call1: Option<PsciCall>,
    call2: Option<PsciCall>,
)
    requires
        start_post(a, entry1, args1, b, call1),
        call1 is Some,
        start_post(b, entry2, args2, c, call2),
    ensures
        call2 is None,
        c == b,
{
}

/// A busy core is online.
pub proof fn law_busy_implies_online(c: LCPU)
    requires
        c.cur_state() >= BUSY,
    ensures
        c.cur_state() >= IDLE,
{
}

/// A core registered under an id no other core has is found at the position
/// it was registered at.
pub proof fn law_added_core_is_found(before: Seq<LCPU>, after: Seq<LCPU>, id: usize)
    requires
        !has_id(before, id),
        after.len() == before.len() + 1,
        after.drop_last() == before,
        after.last().hw_id() == id,
    ensures
        is_first_with_id(after, id, before.len() as int),
        has_id(after, id),
{
    assert forall|j: int| 0 <= j < before.len() implies after[j].hw_id() != id by {
        assert(after[j] == after.drop_last()[j]);
    }
    assert(after[before.len() as int] == after.last());
}

/// At most one position is the first with a given hardware id.
pub proof fn lemma_first_with_id_unique(s: Seq<LCPU>, id: usize, i: int, j: int)
    requires
        is_first_with_id(s, id, i),
        is_first_with_id(s, id, j),
    ensures
        i == j,
{
}

/// The task `lcpu_run` hands to the core at position `idx` is the one the
/// run interrupt handler on that core (found by its hardware id) takes.
pub proof fn law_run_reaches_target(
    m0: Seq<LCPU>,
    m1: Seq<LCPU>,
    m2: Seq<LCPU>,
    idx: int,
    task: usize,
    got: Option<usize>,
)
    requires
        task != 0,
        0 <= idx < m0.len(),
        m1.len() == m0.len(),
        forall|j: int| 0 <= j < m0.len() && j != idx ==> m1[j] == m0[j],
        set_task_post(m0[idx], task, m1[idx], true),
        is_first_with_id(m0, m0[idx].hw_id(), idx),
        exists|i: int|
            {
                &&& is_first_with_id(m1, m0[idx].hw_id(), i)
                &&& get_task_post(m1[i], m2[i], got)
            },
    ensures
        got == Some(task),
{
    let h = m0[idx].hw_id();
    let i = choose|i: int| is_first_with_id(m1, h, i) && get_task_post(m1[i], m2[i], got);
    assert(is_first_with_id(m1, h, idx));
    lemma_first_with_id_unique(m1, h, i, idx);
}

/// Any online core with an empty mailbox accepts a task, busy or not: the
/// task is placed and the core counts one task more.
pub proof fn law_online_core_with_empty_mailbox_accepts(pre: LCPU, task: usize, post: LCPU, placed: bool)
    requires
        task != 0,
        pre.cur_state() >= IDLE,
        pre.pending_task() == 0,
        set_task_post(pre, task, post, placed),
    ensures
        placed,
        post.pending_task() == task,
        post.hw_id() == pre.hw_id(),
        pre.cur_state() < usize::MAX ==> post.cur_state() == pre.cur_state() + 1,
{
}

/// In particular a core already running a task (state `BUSY` or above)
/// accepts another one once its mailbox is empty: the boot core, registered
/// `BUSY`, takes the demo task.
pub proof fn law_busy_core_accepts(pre: LCPU, task: usize, post: LCPU, placed: bool)
    requires
        task != 0,
        pre.cur_state() >= BUSY,
        pre.pending_task() == 0,
        set_task_post(pre, task, post, placed),
    ensures
        placed,
        post.pending_task() == task,
        pre.cur_state() < usize::MAX ==> post.cur_state() == pre.cur_state() + 1,
{
    law_online_core_with_empty_mailbox_accepts(pre, task, post, placed);
}

/// A task is refused only by a core that is not online yet or whose
/// mailbox still holds a task, and a refusal changes nothing.
pub proof fn law_refusal_only_when_offline_or_occupied(pre: LCPU, task: usize, post: LCPU, placed: bool)
    requires
        task != 0,
        set_task_post(pre, task, post, placed),
        !placed,
    ensures
        pre.cur_state() < IDLE || pre.pending_task() != 0,
        post == pre,
{
}

} // verus!
