use arceos::lcpu::{
    lcpu_add, lcpu_init, lcpu_run, lcpu_start, lcpu_started, lcpu_wait, lcpu_wakeup, run_irq_finish,
    run_irq_take_task, LCPUManager, LCPUState, Sgi, LCPU, BUSY, IDLE, INIT, OFFLINE, RUN_IRQ, WAKE_IRQ,
};
use arceos::psci::{PsciCall, PSCI_CPU_ON};

#[test]
fn state_compare_exchange() {
    let mut s = LCPUState::new(OFFLINE);
    assert_eq!(s.compare_exchange(OFFLINE, INIT), Ok(OFFLINE));
    assert_eq!(s.compare_exchange(OFFLINE, INIT), Err(INIT));
    assert!(!s.is_online());
    s.store(IDLE);
    assert!(s.is_online());
    assert!(!s.is_busy());
    assert_eq!(s.add(1), IDLE);
    assert!(s.is_busy());
    assert_eq!(s.sub(1), BUSY);
    assert!(!s.is_busy());
}

#[test]
fn state_counter_wraps() {
    let mut s = LCPUState::new(usize::MAX);
    assert_eq!(s.add(1), usize::MAX);
    assert_eq!(s.sub(1), 0);
    assert_eq!(s.add(0), usize::MAX);
}

#[test]
fn task_handoff() {
    let mut c = LCPU::new(7, IDLE);
    assert!(c.set_task(42));
    assert!(c.is_busy());
    // a second task must wait until the first is taken
    assert!(!c.set_task(43));
    assert_eq!(c.get_task(), Some(42));
    assert_eq!(c.get_task(), None);
    c.finish_task();
    assert!(!c.is_busy());
    assert!(c.set_task(43));
}

#[test]
fn offline_core_takes_no_task() {
    let mut c = LCPU::new(1, OFFLINE);
    assert!(!c.set_task(5));
    assert_eq!(c.get_task(), None);
}

#[test]
fn core_starts_once() {
    let mut c = LCPU::new(3, OFFLINE);
    assert_eq!(
        c.start(0x4000_0000, 0x8000),
        Some(PsciCall { func: PSCI_CPU_ON, arg0: 3, arg1: 0x4000_0000, arg2: 0x8000 })
    );
    assert_eq!(c.start(0x4000_0000, 0x8000), None);
    c.set_state(IDLE);
    assert_eq!(c.start(0x4000_0000, 0x8000), None);
}

#[test]
fn manager_registers_and_finds_cores() {
    let mut m = LCPUManager::new(4);
    lcpu_init(&mut m, 0x100);
    lcpu_add(&mut m, 0x101);
    lcpu_add(&mut m, 0x102);
    assert_eq!(m.get_idx(0x100), 0);
    assert_eq!(m.get_idx(0x102), 2);
    assert_eq!(m.get_lcpu(1).id, 0x101);
    assert!(m.get_lcpu(0).is_busy());
    assert_eq!(m.current_lcpu(0x101).id, 0x101);
    assert_eq!(lcpu_wakeup(&m, 2), Sgi { irq: WAKE_IRQ, cpu: 0x102 });
}

#[test]
fn manager_runs_a_task_on_a_secondary() {
    let mut m = LCPUManager::new(2);
    lcpu_init(&mut m, 0);
    lcpu_add(&mut m, 1);
    assert_eq!(
        lcpu_start(&mut m, 1, 0x4000_0000, 0x9000),
        Some(PsciCall { func: PSCI_CPU_ON, arg0: 1, arg1: 0x4000_0000, arg2: 0x9000 })
    );
    assert_eq!(lcpu_start(&mut m, 1, 0x4000_0000, 0x9000), None);
    // not online yet: must wait
    assert_eq!(lcpu_run(&mut m, 1, 77), None);
    lcpu_started(&mut m, 1);
    assert!(!lcpu_wait(&m, 1));
    assert_eq!(lcpu_run(&mut m, 1, 77), Some(Sgi { irq: RUN_IRQ, cpu: 1 }));
    assert!(lcpu_wait(&m, 1));
    assert_eq!(run_irq_take_task(&mut m, 1), Some(77));
    run_irq_finish(&mut m, 1);
    assert!(!lcpu_wait(&m, 1));
}
