# arceos

Verified core logic of a small modular kernel, written in Verus.

- `src/` is the verified library: integer square root and the work split of
  the parallel summation demo (`nosched`), logical-CPU state and task
  handoff (`lcpu`, `qemu_lcpu`), PSCI calls (`psci`), device-tree lookups
  and CPU discovery (`dtb`, `names`, `platform`), secondary-core bring-up
  planning (`mp`), the file-system registry (`fs`, `vfs`), the
  `tuple_for_each` expansion plan, system calls and the user address-space
  layout of the minimal kernel (`syscall`, `loader`), and the linker-script
  decision of the example build script (`build_cfg`).
- `app/` holds what runs around it: token handling for the attribute macro,
  reading the flattened device tree, the PSCI conduit instructions, the
  global per-core tables with their interrupt loops, and the demo driver.
- `tests/` exercises the library on concrete values.
