use arceos::mp::{start_secondary_cpus, test_irq};
use arceos::mp::BringupStep::{Run, Start, Wait};

#[test]
fn bringup_skips_primary_and_waits_for_all() {
    let steps = start_secondary_cpus(1, 3, 0x1000, 0x100);
    assert_eq!(
        steps,
        vec![
            Start { cpu: 0, stack_top: 0x1100 },
            Run { cpu: 0 },
            Run { cpu: 1 },
            Start { cpu: 2, stack_top: 0x1200 },
            Run { cpu: 2 },
            Wait { cpu: 0 },
            Wait { cpu: 1 },
            Wait { cpu: 2 },
        ]
    );
}

#[test]
fn bringup_single_core() {
    assert_eq!(start_secondary_cpus(0, 1, 0x1000, 0x100), vec![Run { cpu: 0 }, Wait { cpu: 0 }]);
}

#[test]
fn bringup_primary_last() {
    let steps = start_secondary_cpus(2, 3, 0, 0x40000);
    assert_eq!(
        steps,
        vec![
            Start { cpu: 0, stack_top: 0x40000 },
            Run { cpu: 0 },
            Start { cpu: 1, stack_top: 0x80000 },
            Run { cpu: 1 },
            Run { cpu: 2 },
            Wait { cpu: 0 },
            Wait { cpu: 1 },
            Wait { cpu: 2 },
        ]
    );
}

#[test]
fn demo_task_wakes_core_zero() {
    assert_eq!(test_irq(0), None);
    assert_eq!(test_irq(1), Some(0));
    assert_eq!(test_irq(3), Some(0));
}
