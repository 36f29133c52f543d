use arceos::psci::{PsciCall, PSCI_CPU_ON};
use arceos::qemu_lcpu::{add_lcpu, cpu_id, lcpu_init, start, LCPUState, LCPU, CPU_ID_MASK};

#[test]
fn cpu_id_masks_mpidr() {
    assert_eq!(cpu_id(0x8000_0001), 1);
    assert_eq!(cpu_id(0xffff_ffff_ffff_ffff), CPU_ID_MASK);
    assert_eq!(cpu_id(0x0000_0001_0000_0203), 0x0000_0001_0000_0203);
    assert_eq!(cpu_id(0x0000_0000_4100_0000), 0);
}

#[test]
fn platform_core_starts_once() {
    let mut c = LCPU::new(2, 1, LCPUState::OFFLINE);
    assert_eq!(c.start(0x4008_0000), Some(PsciCall { func: PSCI_CPU_ON, arg0: 2, arg1: 0x4008_0000, arg2: 0 }));
    assert_eq!(c.state, LCPUState::INIT);
    assert_eq!(c.start(0x4008_0000), None);
}

#[test]
fn platform_table_starts_registered_cores_only() {
    let mut m = lcpu_init(0);
    // the boot core is never restarted
    assert_eq!(start(&mut m, 0, 0x4008_0000), None);
    // slot 1 is not registered yet
    assert_eq!(start(&mut m, 1, 0x4008_0000), None);
    add_lcpu(&mut m, 1);
    assert_eq!(start(&mut m, 1, 0x4008_0000), Some(PsciCall { func: PSCI_CPU_ON, arg0: 1, arg1: 0x4008_0000, arg2: 0 }));
    assert_eq!(start(&mut m, 1, 0x4008_0000), None);
    assert_eq!(start(&mut m, 7, 0x4008_0000), None);
}
