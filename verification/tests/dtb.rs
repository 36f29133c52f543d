use arceos::dtb::{
    compatible_node, get_node, get_prop, prop_str, prop_str_defined, prop_u64, prop_u64_defined, read_str,
    read_u32, read_u64, smp_description_ok, smp_init, str_list_contains, DevTree, DtNode, DtProp, DtbError,
};
use arceos::lcpu::{BUSY, OFFLINE};
use arceos::platform::{init_lcpus, platform_description_ok, platform_init, PlatformParams};
use arceos::psci::PsciMethod;

fn prop(name: &str, value: &[u8]) -> DtProp {
    DtProp { name: name.as_bytes().to_vec(), value: value.to_vec() }
}

fn node(name: &str, props: Vec<DtProp>) -> DtNode {
    DtNode { name: name.as_bytes().to_vec(), props }
}

fn cpu(name: &str, reg: &[u8], method: &[u8]) -> DtNode {
    node(name, vec![prop("device_type", b"cpu\0"), prop("reg", reg), prop("enable-method", method)])
}

fn virt_tree() -> DevTree {
    DevTree {
        nodes: vec![
            node("", vec![prop("compatible", b"linux,dummy-virt\0"), prop("#address-cells", &[0, 0, 0, 2])]),
            node("psci", vec![prop("compatible", b"arm,psci-1.0\0arm,psci-0.2\0arm,psci\0"), prop("method", b"hvc\0")]),
            node("pl011@9000000", vec![prop("compatible", b"arm,pl011\0arm,primecell\0"), prop("reg", &[0, 0, 0, 0, 0x09, 0, 0, 0, 0, 0, 0, 0, 0, 0, 0x10, 0])]),
            node("cpus", vec![prop("#size-cells", &[0, 0, 0, 0]), prop("#address-cells", &[0, 0, 0, 1])]),
            cpu("cpu@0", &[0, 0, 0, 0], b"psci\0"),
            cpu("cpu@1", &[0, 0, 0, 1], b"psci\0"),
            cpu("cpu@2", &[0, 0, 0, 2], b"psci\0"),
        ],
    }
}

#[test]
fn decode_cells() {
    assert_eq!(read_u32(&[0x12, 0x34, 0x56, 0x78, 9], 0), Some(0x1234_5678));
    assert_eq!(read_u32(&[1, 2, 3, 4, 5, 6, 7, 8], 1), Some(0x0506_0708));
    assert_eq!(read_u32(&[1, 2, 3], 0), None);
    assert_eq!(read_u64(&[0, 0, 0, 0, 0x09, 0, 0, 0], 0), Some(0x0900_0000));
    assert_eq!(read_u64(&[1, 2, 3, 4, 5, 6, 7], 0), None);
}

#[test]
fn decode_strings() {
    assert_eq!(read_str(b"hvc\0"), Some(b"hvc".to_vec()));
    assert_eq!(read_str(b"a\0b\0"), Some(b"a".to_vec()));
    assert_eq!(read_str(b"\0"), Some(Vec::new()));
    assert_eq!(read_str("caf\u{e9}\0".as_bytes()), Some("caf\u{e9}".as_bytes().to_vec()));
    assert_eq!(read_str(b"abc"), None);
    assert_eq!(read_str(b""), None);
    // not valid UTF-8
    assert_eq!(read_str(b"\xff\xfe\0"), None);
    assert_eq!(read_str(b"\xc3\0"), None);
}

#[test]
fn string_lists() {
    assert_eq!(str_list_contains(b"arm,psci-1.0\0arm,psci-0.2\0", b"arm,psci-0.2"), Ok(true));
    assert_eq!(str_list_contains(b"arm,psci-1.0\0arm,psci-0.2\0", b"arm,psci-1.0"), Ok(true));
    assert_eq!(str_list_contains(b"arm,psci-1.0\0arm,psci-0.2\0", b"psci-0.2"), Ok(false));
    assert_eq!(str_list_contains(b"", b"x"), Ok(false));
    // an unterminated entry met before a match is an error
    assert_eq!(str_list_contains(b"arm,psci-1.0\0arm,psci-0.2", b"arm,psci-0.2"), Err(DtbError::BadValue));
    assert_eq!(str_list_contains(b"a\0bad", b"zz"), Err(DtbError::BadValue));
    // entries after the match are not read
    assert_eq!(str_list_contains(b"a\0\xff\0", b"a"), Ok(true));
    assert_eq!(str_list_contains(b"\xff\0a\0", b"a"), Err(DtbError::BadValue));
}

#[test]
fn lookups() {
    let t = virt_tree();
    assert_eq!(get_node(&t, b"cpus").unwrap().props.len(), 2);
    assert!(get_node(&t, b"memory").is_none());
    let cpus = get_node(&t, b"cpus").unwrap();
    assert_eq!(get_prop(cpus, b"#address-cells").unwrap().value, vec![0, 0, 0, 1]);
    assert!(get_prop(cpus, b"ranges").is_none());
    assert_eq!(compatible_node(&t, b"arm,psci-0.2").unwrap().name, b"psci".to_vec());
    assert!(compatible_node(&t, b"arm,gic-v3").is_none());
}

#[test]
fn property_lookups() {
    let t = virt_tree();
    assert_eq!(prop_u64(&t, b"arm,pl011", b"reg"), Some(0x0900_0000));
    assert_eq!(prop_u64(&t, b"arm,gic-v3", b"reg"), None);
    assert!(prop_u64_defined(&t, b"arm,gic-v3", b"reg"));
    assert!(!prop_u64_defined(&t, b"arm,pl011", b"interrupts"));
    assert!(!prop_u64_defined(&t, b"arm,psci", b"method"));
    assert_eq!(prop_str(&t, b"arm,psci-1.0", b"method"), Some(b"hvc".to_vec()));
    // the UART's reg starts with a zero byte: an empty string
    assert_eq!(prop_str(&t, b"arm,pl011", b"reg"), Some(Vec::new()));
    let unterminated = DevTree { nodes: vec![node("x", vec![prop("compatible", b"x\0"), prop("label", b"abc")])] };
    assert!(!prop_str_defined(&unterminated, b"x", b"label"));
    assert!(!prop_str_defined(&unterminated, b"x", b"name"));
    assert!(prop_str_defined(&unterminated, b"y", b"label"));
    let bad_list = DevTree {
        nodes: vec![
            node("a", vec![prop("compatible", b"broken")]),
            node("b", vec![prop("compatible", b"x\0"), prop("label", b"ok\0")]),
        ],
    };
    assert!(!prop_str_defined(&bad_list, b"x", b"label"));
}

#[test]
fn secondary_cpus_are_discovered() {
    let t = virt_tree();
    assert!(smp_description_ok(&t, 0));
    assert_eq!(smp_init(&t, 0), vec![1, 2]);
    assert_eq!(smp_init(&t, 2), vec![0, 1]);
}

#[test]
fn address_cells_default_to_two() {
    let t = DevTree {
        nodes: vec![
            cpu("cpu@0", &[0, 0, 0, 0, 0, 0, 0, 0], b"psci\0"),
            cpu("cpu@100", &[0, 0, 0, 0, 0, 0, 1, 0], b"psci\0"),
        ],
    };
    assert_eq!(smp_init(&t, 0), vec![0x100]);
}

#[test]
fn incomplete_cpu_descriptions() {
    let bad_cells = DevTree { nodes: vec![node("cpus", vec![prop("#address-cells", &[0, 0, 0, 3])])] };
    assert!(!smp_description_ok(&bad_cells, 0));
    let no_cells = DevTree { nodes: vec![node("cpus", vec![])] };
    assert!(!smp_description_ok(&no_cells, 0));
    let spin_table = DevTree {
        nodes: vec![
            node("cpus", vec![prop("#address-cells", &[0, 0, 0, 1])]),
            cpu("cpu@0", &[0, 0, 0, 0], b"psci\0"),
            cpu("cpu@1", &[0, 0, 0, 1], b"spin-table\0"),
        ],
    };
    assert!(!smp_description_ok(&spin_table, 0));
    // the boot CPU's own enable-method is not checked
    assert!(smp_description_ok(&spin_table, 1));
    assert_eq!(smp_init(&spin_table, 1), vec![0]);
    let short_reg = DevTree {
        nodes: vec![node("cpus", vec![prop("#address-cells", &[0, 0, 0, 2])]), cpu("cpu@1", &[0, 0, 0, 1], b"psci\0")],
    };
    assert!(!smp_description_ok(&short_reg, 0));
    let no_reg = DevTree { nodes: vec![node("cpu@1", vec![prop("device_type", b"cpu\0")])] };
    assert!(!smp_description_ok(&no_reg, 0));
    let bad_type = DevTree { nodes: vec![node("cpu@1", vec![prop("device_type", b"cpu")])] };
    assert!(!smp_description_ok(&bad_type, 0));
}

#[test]
fn platform_configuration() {
    let t = virt_tree();
    assert!(platform_description_ok(&t));
    assert_eq!(platform_init(&t), PlatformParams { uart_base: 0x0900_0000, psci: PsciMethod::Hvc });
}

#[test]
fn platform_needs_psci_0_2_node() {
    let t = DevTree {
        nodes: vec![
            node("psci", vec![prop("compatible", b"arm,psci-1.0\0"), prop("method", b"smc\0")]),
            node("uart", vec![prop("compatible", b"arm,pl011\0"), prop("reg", &[0, 0, 0, 0, 0x09, 0, 0, 0])]),
        ],
    };
    assert!(!platform_description_ok(&t));
}

#[test]
fn platform_prefers_psci_1_0_method() {
    let t = DevTree {
        nodes: vec![
            node("psci1", vec![prop("compatible", b"arm,psci-1.0\0"), prop("method", b"smc\0")]),
            node("psci0", vec![prop("compatible", b"arm,psci-0.2\0"), prop("method", b"hvc\0")]),
            node("uart", vec![prop("compatible", b"arm,pl011\0"), prop("reg", &[0, 0, 0, 0, 0x09, 0, 0, 0])]),
        ],
    };
    assert_eq!(platform_init(&t), PlatformParams { uart_base: 0x0900_0000, psci: PsciMethod::Smc });
}

#[test]
fn incomplete_platform_descriptions() {
    let no_uart = DevTree { nodes: vec![node("psci", vec![prop("compatible", b"arm,psci-0.2\0"), prop("method", b"hvc\0")])] };
    assert!(!platform_description_ok(&no_uart));
    let bad_method = DevTree {
        nodes: vec![
            node("psci", vec![prop("compatible", b"arm,psci-0.2\0"), prop("method", b"svc\0")]),
            node("uart", vec![prop("compatible", b"arm,pl011\0"), prop("reg", &[0, 0, 0, 0, 0x09, 0, 0, 0])]),
        ],
    };
    assert!(!platform_description_ok(&bad_method));
    let short_uart = DevTree { nodes: vec![node("uart", vec![prop("compatible", b"arm,pl011\0"), prop("reg", &[0, 0, 0, 9])])] };
    assert!(!platform_description_ok(&short_uart));
}

#[test]
fn logical_cpu_table_of_the_tree() {
    let t = virt_tree();
    let m = init_lcpus(&t, 1, 4);
    assert_eq!(m.count(), 3);
    assert_eq!(m.get_lcpu(0).id, 1);
    assert!(m.get_lcpu(0).is_busy());
    assert_eq!(m.get_lcpu(1).id, 0);
    assert_eq!(m.get_lcpu(2).id, 2);
    assert!(!m.get_lcpu(2).is_busy());
    assert_eq!(BUSY, 3);
    assert_eq!(OFFLINE, 0);
}
