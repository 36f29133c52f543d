//! Bringing up the secondary cores: the order in which cores are powered
//! on, handed the demo task and waited for, the boot stack of each, and the
//! demo task itself.
use vstd::prelude::*;

verus! {

/// One step of bringing up the cores.
#[derive(PartialEq, Eq, Structural, Clone, Copy, Debug)]
pub enum BringupStep {
    /// Power on core `cpu` with its stack pointer at `stack_top`.
    Start { cpu: usize, stack_top: usize },
    /// Hand the demo task to core `cpu` (retrying until the core takes it)
    /// and send it the run interrupt.
    Run { cpu: usize },
    /// Wait until core `cpu` is no longer busy.
    Wait { cpu: usize },
}

/// The boot stack a secondary core uses: the cores other than the primary
/// one take the stacks in index order.
pub open spec fn secondary_slot(primary: nat, cpu: nat) -> nat {
    if cpu < primary {
        cpu
    } else {
        (cpu - 1) as nat
    }
}

/// Boot stacks are consecutive blocks of `stack_size` bytes from
/// `stack_base`; a core starts with its stack pointer at its block's end.
pub open spec fn boot_stack_top(stack_base: nat, stack_size: nat, slot: nat) -> nat {
    stack_base + (slot + 1) * stack_size
}

/// The steps for core `i`: a secondary core is started on its boot stack,
/// then every core is handed the task.
pub open spec fn core_steps(primary: nat, stack_base: nat, stack_size: nat, i: nat) -> Seq<BringupStep> {
    if i == primary {
        seq![BringupStep::Run { cpu: i as usize }]
    } else {
        seq![
            BringupStep::Start {
                cpu: i as usize,
                stack_top: boot_stack_top(stack_base, stack_size, secondary_slot(primary, i)) as usize,
            },
            BringupStep::Run { cpu: i as usize },
        ]
    }
}

/// The steps for cores `0..n`, in index order.
pub open spec fn run_steps(primary: nat, stack_base: nat, stack_size: nat, n: nat) -> Seq<BringupStep>
    decreases n,
{
    if n == 0 {
        Seq::empty()
    } else {
        run_steps(primary, stack_base, stack_size, (n - 1) as nat) + core_steps(primary, stack_base, stack_size, (n - 1) as nat)
    }
}

/// The whole bring-up of `smp` cores: start and run every core in index
/// order, then wait for every core in index order.
pub open spec fn spec_bringup(primary: nat, smp: nat, stack_base: nat, stack_size: nat) -> Seq<BringupStep> {
    run_steps(primary, stack_base, stack_size, smp) + Seq::new(smp, |i: int| BringupStep::Wait { cpu: i as usize })
}

/// The bring-up steps, in order: for each core index, a secondary core is
/// powered on with its boot stack and then every core is handed the demo
/// task; afterwards every core is waited for. The primary core
/// `primary_cpu_id` is not powered on.
pub fn start_secondary_cpus(primary_cpu_id: usize, smp: usize, stack_base: usize, stack_size: usize) -> (r: Vec<BringupStep>)
    requires
        primary_cpu_id < smp,
        stack_base + (smp - 1) * stack_size <= usize::MAX,
    ensures
        r@ == spec_bringup(primary_cpu_id as nat, smp as nat, stack_base as nat, stack_size as nat),
{
    let ghost p = primary_cpu_id as nat;
    let ghost b = stack_base as nat;
    let ghost z = stack_size as nat;
    let mut r: Vec<BringupStep> = Vec::new();
    let mut logic_cpu_id: usize = 0;
    let mut i: usize = 0;
    while i < smp
        invariant
            primary_cpu_id < smp,
            stack_base + (smp - 1) * stack_size <= usize::MAX,
            i <= smp,
            p == primary_cpu_id,
            b == stack_base,
            z == stack_size,
            i > primary_cpu_id ==> logic_cpu_id == i - 1,
            i <= primary_cpu_id ==> logic_cpu_id == i,
            r@ == run_steps(p, b, z, i as nat),
        decreases smp - i,
    {
        let ghost before = r@;
        if i != primary_cpu_id {
            assert((logic_cpu_id + 1) * stack_size <= (smp - 1) * stack_size) by (nonlinear_arith)
                requires
                    logic_cpu_id + 1 <= smp - 1,
            ;
            let stack_top = stack_base + (logic_cpu_id + 1) * stack_size;
            assert(stack_top as nat == boot_stack_top(b, z, secondary_slot(p, i as nat)));
            r.push(BringupStep::Start { cpu: i, stack_top });
            logic_cpu_id = logic_cpu_id + 1;
        }
        r.push(BringupStep::Run { cpu: i });
        assert(r@ =~= before + core_steps(p, b, z, i as nat));
        i = i + 1;
    }
    let mut j: usize = 0;
    while j < smp
        invariant
            j <= smp,
            r@ == run_steps(p, b, z, smp as nat) + Seq::new(j as nat, |k: int| BringupStep::Wait { cpu: k as usize }),
        decreases smp - j,
    {
        r.push(BringupStep::Wait { cpu: j });
        assert(r@ =~= run_steps(p, b, z, smp as nat) + Seq::new((j + 1) as nat, |k: int| BringupStep::Wait { cpu: k as usize }));
        j = j + 1;
    }
    r
}

/// Number of steps for cores `0..n`.
pub open spec fn run_len(primary: nat, n: nat) -> nat {
    if n <= primary {
        2 * n
    } else {
        (2 * n - 1) as nat
    }
}

proof fn lemma_run_steps_len(primary: nat, stack_base: nat, stack_size: nat, n: nat)
    ensures
        run_steps(primary, stack_base, stack_size, n).len() == run_len(primary, n),
    decreases n,
{
    if n > 0 {
        lemma_run_steps_len(primary, stack_base, stack_size, (n - 1) as nat);
    }
}

proof fn lemma_run_steps_prefix(primary: nat, stack_base: nat, stack_size: nat, n: nat, m: nat, j: int)
    requires
        n <= m,
        0 <= j < run_steps(primary, stack_base, stack_size, n).len(),
    ensures
        run_steps(primary, stack_base, stack_size, m)[j] == run_steps(primary, stack_base, stack_size, n)[j],
    decreases m - n,
{
    if n < m {
        lemma_run_steps_prefix(primary, stack_base, stack_size, n, (m - 1) as nat, j);
        lemma_run_steps_len(primary, stack_base, stack_size, (m - 1) as nat);
        lemma_run_steps_len(primary, stack_base, stack_size, n);
    }
}

/// The shape of the bring-up: the steps of core `c` begin at position
/// `run_len(primary, c)`, where a secondary core is powered on on its boot
/// stack and then handed the task (the primary core is only handed the
/// task); no wait comes before the last hand-off, and every core is waited
/// for, in index order, after it.
pub proof fn law_bringup_runs_then_waits_every_core(primary: nat, smp: nat, stack_base: nat, stack_size: nat, c: nat)
    requires
        primary < smp,
        c < smp,
    ensures
        ({
            let steps = spec_bringup(primary, smp, stack_base, stack_size);
            let start = run_len(primary, c);
            &&& steps.len() == run_len(primary, smp) + smp
            &&& c == primary ==> steps[start as int] == BringupStep::Run { cpu: c as usize }
            &&& c != primary ==> {
                &&& steps[start as int] == BringupStep::Start {
                    cpu: c as usize,
                    stack_top: boot_stack_top(stack_base, stack_size, secondary_slot(primary, c)) as usize,
                }
                &&& steps[start as int + 1] == BringupStep::Run { cpu: c as usize }
            }
            &&& steps[(run_len(primary, smp) + c) as int] == BringupStep::Wait { cpu: c as usize }
            &&& forall|j: int| 0 <= j < run_len(primary, smp) ==> !(#[trigger] steps[j] is Wait)
        }),
{
    let steps = spec_bringup(primary, smp, stack_base, stack_size);
    let runs = run_steps(primary, stack_base, stack_size, smp);
    lemma_run_steps_len(primary, stack_base, stack_size, smp);
    lemma_run_steps_len(primary, stack_base, stack_size, c);
    lemma_run_steps_len(primary, stack_base, stack_size, c + 1);
    let upto = run_steps(primary, stack_base, stack_size, c + 1);
    assert(upto == run_steps(primary, stack_base, stack_size, c) + core_steps(primary, stack_base, stack_size, c));
    let start = run_len(primary, c);
    lemma_run_steps_prefix(primary, stack_base, stack_size, c + 1, smp, start as int);
    if c != primary {
        lemma_run_steps_prefix(primary, stack_base, stack_size, c + 1, smp, start as int + 1);
    }
    assert(steps[start as int] == runs[start as int]);
    if c != primary {
        assert(steps[start as int + 1] == runs[start as int + 1]);
    }
    assert forall|j: int| 0 <= j < run_len(primary, smp) implies !(#[trigger] steps[j] is Wait) by {
        assert(steps[j] == runs[j]);
        lemma_no_wait_in_run_steps(primary, stack_base, stack_size, smp, j);
    }
}

proof fn lemma_no_wait_in_run_steps(primary: nat, stack_base: nat, stack_size: nat, n: nat, j: int)
    requires
        0 <= j < run_steps(primary, stack_base, stack_size, n).len(),
    ensures
        !(run_steps(primary, stack_base, stack_size, n)[j] is Wait),
    decreases n,
{
    if n > 0 {
        let prev = run_steps(primary, stack_base, stack_size, (n - 1) as nat);
        if j < prev.len() {
            lemma_no_wait_in_run_steps(primary, stack_base, stack_size, (n - 1) as nat, j);
        }
    }
}

/// No two secondary cores share a boot stack, and every boot stack lies in
/// the `smp - 1` blocks reserved for them.
pub proof fn law_boot_stacks_distinct(primary: nat, smp: nat, stack_base: nat, stack_size: nat, a: nat, b: nat)
    requires
        primary < smp,
        stack_size > 0,
        a < smp,
        b < smp,
        a != primary,
        b != primary,
        a != b,
    ensures
        boot_stack_top(stack_base, stack_size, secondary_slot(primary, a)) != boot_stack_top(
            stack_base,
            stack_size,
            secondary_slot(primary, b),
        ),
        boot_stack_top(stack_base, stack_size, secondary_slot(primary, a)) <= stack_base + (smp - 1) * stack_size,
{
    let sa = secondary_slot(primary, a);
    let sb = secondary_slot(primary, b);
    assert(sa != sb);
    assert(sa + 1 <= smp - 1);
    if sa < sb {
        assert((sa + 1) * stack_size < (sb + 1) * stack_size) by (nonlinear_arith)
            requires
                sa < sb,
                stack_size > 0,
        ;
    } else {
        assert((sb + 1) * stack_size < (sa + 1) * stack_size) by (nonlinear_arith)
            requires
                sb < sa,
                stack_size > 0,
        ;
    }
    assert((sa + 1) * stack_size <= (smp - 1) * stack_size) by (nonlinear_arith)
        requires
            sa + 1 <= smp - 1,
    ;
}

/// The demo task run on every core: a secondary core wakes core 0 (returns
/// the index to wake); core 0 only reports.
pub fn test_irq(cpu_id: usize) -> (r: Option<usize>)
    ensures
        cpu_id != 0 ==> r == Some(0usize),
        cpu_id == 0 ==> r is None,
{
    if cpu_id != 0 {
        Some(0)
    } else {
        None
    }
}

} // verus!
