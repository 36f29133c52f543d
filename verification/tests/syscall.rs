use arceos::loader::{code_page, user_mappings, MapFlags, Mapping, USER_STACK_BOTTOM, USER_STACK_TOP};
use arceos::syscall::{
    error_retval, generic_numbers, handle_syscall, read_user_buffer, retval_of, sys_write, sys_write_result,
    x86_64_numbers, Chunk, Syscall,
};
use arceos::build_cfg::use_linker_script;

#[test]
fn decodes_syscalls() {
    let g = generic_numbers();
    assert_eq!(handle_syscall(g, 64, 1, 0x1020, 14), Syscall::Write { fd: 1, buf: 0x1020, count: 14 });
    assert_eq!(handle_syscall(g, 93, 0, 0, 0), Syscall::Exit { code: 0 });
    assert_eq!(handle_syscall(g, 93, 0xffff_ffff, 0, 0), Syscall::Exit { code: -1 });
    assert_eq!(handle_syscall(g, 1, 1, 2, 3), Syscall::Unknown { sysno: 1 });
    let x = x86_64_numbers();
    assert_eq!(handle_syscall(x, 1, 2, 3, 4), Syscall::Write { fd: 2, buf: 3, count: 4 });
    assert_eq!(handle_syscall(x, 60, 7, 0, 0), Syscall::Exit { code: 7 });
    assert_eq!(error_retval(), (-1isize) as usize);
}

#[test]
fn write_checks() {
    assert_eq!(sys_write(0, 10), Some(-1));
    assert_eq!(sys_write(3, 10), Some(-1));
    assert_eq!(sys_write(1, 0), Some(0));
    assert_eq!(sys_write(2, 5), None);
    assert_eq!(sys_write_result(14, true), 14);
    assert_eq!(sys_write_result(14, false), -1);
    assert_eq!(retval_of(-1), usize::MAX);
    assert_eq!(retval_of(14), 14);
}

#[test]
fn buffer_split_at_pages() {
    assert_eq!(read_user_buffer(0x1020, 14), vec![Chunk { vaddr: 0x1020, len: 14 }]);
    assert_eq!(
        read_user_buffer(0x1ff0, 0x30),
        vec![Chunk { vaddr: 0x1ff0, len: 0x10 }, Chunk { vaddr: 0x2000, len: 0x20 }]
    );
    assert_eq!(
        read_user_buffer(0x3000, 0x2001),
        vec![Chunk { vaddr: 0x3000, len: 0x1000 }, Chunk { vaddr: 0x4000, len: 0x1000 }, Chunk { vaddr: 0x5000, len: 1 }]
    );
    assert!(read_user_buffer(0x1234, 0).is_empty());
}

#[test]
fn user_address_space_layout() {
    assert_eq!(code_page(0x1234), 0x1000);
    assert_eq!(code_page(0x1000), 0x1000);
    assert_eq!(USER_STACK_BOTTOM + 0x4000, USER_STACK_TOP);
    let m = user_mappings(0x8020_0000, 0x8030_0000);
    let rx = MapFlags { read: true, write: false, execute: true, user: true };
    let rw = MapFlags { read: true, write: true, execute: false, user: true };
    assert_eq!(
        m,
        vec![
            Mapping { vaddr: 0x1000, paddr: 0x8020_0000, flags: rx },
            Mapping { vaddr: 0x7_ffff_c000, paddr: 0x8030_0000, flags: rw },
            Mapping { vaddr: 0x7_ffff_d000, paddr: 0x8030_1000, flags: rw },
            Mapping { vaddr: 0x7_ffff_e000, paddr: 0x8030_2000, flags: rw },
            Mapping { vaddr: 0x7_ffff_f000, paddr: 0x8030_3000, flags: rw },
        ]
    );
}

#[test]
fn linker_script_decision() {
    assert!(use_linker_script(b"riscv64gc-unknown-none-elf", b"/w/examples/helloworld/axconfig.toml"));
    assert!(!use_linker_script(b"riscv64gc-unknown-none-elf", b"/w/arceos/.axconfig.toml"));
    assert!(use_linker_script(b"riscv64gc-unknown-none-elf", b"/w/examples/helloworld/.axconfig.toml"));
    assert!(!use_linker_script(b"x86_64-unknown-linux-gnu", b""));
    assert!(use_linker_script(b"aarch64-unknown-none-softfloat", b""));
}
