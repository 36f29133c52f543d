use arceos::psci::{init, is_psci_method, start, start_secondary_cpu, terminate, PsciCall, PsciMethod, PSCI_CPU_ON, PSCI_SYSTEM_OFF};

#[test]
fn psci_method_names() {
    assert_eq!(init(b"hvc"), PsciMethod::Hvc);
    assert_eq!(init(b"smc"), PsciMethod::Smc);
    assert!(is_psci_method(b"hvc"));
    assert!(is_psci_method(b"smc"));
    assert!(!is_psci_method(b"svc"));
    assert!(!is_psci_method(b"hvcc"));
    assert!(!is_psci_method(b"hv"));
    assert!(!is_psci_method(b""));
}

#[test]
fn psci_calls() {
    assert_eq!(terminate(), PsciCall { func: 0x8400_0008, arg0: 0, arg1: 0, arg2: 0 });
    assert_eq!(start(2, 0x4008_0000), PsciCall { func: PSCI_CPU_ON, arg0: 2, arg1: 0x4008_0000, arg2: 0 });
    assert_eq!(
        start_secondary_cpu(3, 0x4000_1000, 0x4100_0000),
        PsciCall { func: 0x8400_0003, arg0: 3, arg1: 0x4000_1000, arg2: 0x4100_0000 }
    );
    assert_eq!(PSCI_SYSTEM_OFF, 0x8400_0008);
}
