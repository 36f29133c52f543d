//! Boot-time configuration of the QEMU `virt` AArch64 platform read from
//! the device tree: where the PL011 UART sits, how PSCI is reached, and the
//! logical-CPU table of the cores the tree describes.
use vstd::prelude::*;
use crate::dtb::{DevTree, DtbError, NodeV, spec_prop_u64, spec_prop_str, spec_smp_init, smp_init, try_prop_u64, try_prop_str};
use crate::lcpu::{LCPUManager, BUSY, OFFLINE, lcpu_init, lcpu_add};
use crate::names::{
    name_pl011, bytes_pl011, name_reg, bytes_reg, name_psci_1_0, bytes_psci_1_0, name_psci_0_2,
    bytes_psci_0_2, name_method, bytes_method,
};
use crate::psci::{PsciMethod, spec_psci_method, is_psci_method, init};

verus! {

/// What the primary core needs from the device tree to bring up the
/// console and the PSCI conduit.
#[derive(PartialEq, Eq, Structural, Clone, Copy, Debug)]
pub struct PlatformParams {
    /// Physical base address of the PL011 UART.
    pub uart_base: usize,
    /// The PSCI conduit.
    pub psci: PsciMethod,
}

/// Why the platform configuration cannot be read from a tree.
#[derive(PartialEq, Eq, Structural, Clone, Copy, Debug)]
pub enum PlatformError {
    /// A property looked up is missing or malformed.
    Dtb(DtbError),
    /// No node is compatible with `arm,pl011`.
    NoUart,
    /// No node is compatible with `arm,psci-0.2`.
    NoPsci,
    /// The PSCI `method` is neither `hvc` nor `smc`.
    BadPsciMethod,
}

/// The platform configuration a tree gives. The UART base is the first
/// cell of the `reg` of the node compatible with `arm,pl011`. The PSCI
/// method is the one of the `arm,psci-1.0` node when there is one, else
/// that of the `arm,psci-0.2` node; both lookups are made, in that order,
/// and the `arm,psci-0.2` node must exist in either case. An error marks a
/// tree the configuration cannot be read from.
pub open spec fn spec_platform_init(tree: Seq<NodeV>) -> Result<PlatformParams, PlatformError> {
    match spec_prop_u64(tree, name_pl011(), name_reg()) {
        Err(e) => Err(PlatformError::Dtb(e)),
        Ok(None) => Err(PlatformError::NoUart),
        Ok(Some(addr)) => match spec_prop_str(tree, name_psci_1_0(), name_method()) {
            Err(e) => Err(PlatformError::Dtb(e)),
            Ok(m1) => match spec_prop_str(tree, name_psci_0_2(), name_method()) {
                Err(e) => Err(PlatformError::Dtb(e)),
                Ok(None) => Err(PlatformError::NoPsci),
                Ok(Some(m2)) => {
                    let m = match m1 {
                        Some(m) => m,
                        None => m2,
                    };
                    match spec_psci_method(m) {
                        None => Err(PlatformError::BadPsciMethod),
                        Some(p) => Ok(PlatformParams { uart_base: addr as usize, psci: p }),
                    }
                },
            },
        },
    }
}

fn try_platform_init(tree: &DevTree) -> (r: Result<PlatformParams, PlatformError>)
    ensures
        r == spec_platform_init(tree@),
{
    let pl011 = bytes_pl011();
    let reg = bytes_reg();
    let addr = match try_prop_u64(tree, pl011.as_slice(), reg.as_slice()) {
        Err(e) => return Err(PlatformError::Dtb(e)),
        Ok(None) => return Err(PlatformError::NoUart),
        Ok(Some(a)) => a,
    };
    let method = bytes_method();
    let c10 = bytes_psci_1_0();
    let c02 = bytes_psci_0_2();
    let m1 = match try_prop_str(tree, c10.as_slice(), method.as_slice()) {
        Err(e) => return Err(PlatformError::Dtb(e)),
        Ok(m) => m,
    };
    let m2 = match try_prop_str(tree, c02.as_slice(), method.as_slice()) {
        Err(e) => return Err(PlatformError::Dtb(e)),
        Ok(None) => return Err(PlatformError::NoPsci),
        Ok(Some(m)) => m,
    };
    let m = match m1 {
        Some(m) => m,
        None => m2,
    };
    if !is_psci_method(m.as_slice()) {
        return Err(PlatformError::BadPsciMethod);
    }
    let p = init(m.as_slice());
    Ok(PlatformParams { uart_base: addr as usize, psci: p })
}

/// Whether the tree describes the UART and the PSCI conduit completely.
pub fn platform_description_ok(tree: &DevTree) -> (r: bool)
    ensures
        r == spec_platform_init(tree@) is Ok,
{
    try_platform_init(tree).is_ok()
}

/// Reads the UART base and the PSCI conduit from the device tree (the
/// primary core then initialises the UART and PSCI with them). The tree
/// must describe both completely (see `platform_description_ok`).
pub fn platform_init(tree: &DevTree) -> (r: PlatformParams)
    requires
        spec_platform_init(tree@) is Ok,
    ensures
        spec_platform_init(tree@) == Ok::<PlatformParams, PlatformError>(r),
{
    match try_platform_init(tree) {
        Ok(p) => p,
        Err(_) => PlatformParams { uart_base: 0, psci: PsciMethod::Hvc },
    }
}

/// The logical-CPU table of a multi-core boot: the boot core `boot_id`
/// first, running (`BUSY`), then every secondary core of the tree in
/// document order, still off. The CPU description must be complete and
/// all cores must fit in the `smp` slots.
pub fn init_lcpus(tree: &DevTree, boot_id: usize, smp: usize) -> (m: LCPUManager)
    requires
        spec_smp_init(tree@, boot_id) is Ok,
        1 + spec_smp_init(tree@, boot_id)->Ok_0.len() <= smp,
    ensures
        m.capacity() == smp,
        m@.len() == 1 + spec_smp_init(tree@, boot_id)->Ok_0.len(),
        m@[0].hw_id() == boot_id,
        m@[0].cur_state() == BUSY,
        m@[0].pending_task() == 0,
        forall|i: int|
            1 <= i < m@.len() ==> {
                &&& (#[trigger] m@[i]).hw_id() == spec_smp_init(tree@, boot_id)->Ok_0[i - 1]
                &&& m@[i].cur_state() == OFFLINE
                &&& m@[i].pending_task() == 0
            },
{
    let ids = smp_init(tree, boot_id);
    let mut m = LCPUManager::new(smp);
    lcpu_init(&mut m, boot_id);
    let mut k: usize = 0;
    while k < ids.len()
        invariant
            1 + ids@.len() <= smp,
            m.capacity() == smp,
            k <= ids@.len(),
            m@.len() == 1 + k,
            m@[0].hw_id() == boot_id,
            m@[0].cur_state() == BUSY,
            m@[0].pending_task() == 0,
            forall|i: int|
                1 <= i < m@.len() ==> {
                    &&& (#[trigger] m@[i]).hw_id() == ids@[i - 1]
                    &&& m@[i].cur_state() == OFFLINE
                    &&& m@[i].pending_task() == 0
                },
        decreases ids@.len() - k,
    {
        let ghost before = m@;
        lcpu_add(&mut m, ids[k]);
        assert forall|i: int| 0 <= i < before.len() implies m@[i] == before[i] by {
            assert(m@[i] == m@.drop_last()[i]);
        }
        assert(m@[1 + k as int] == m@.last());
        assert forall|i: int| 1 <= i < m@.len() implies {
            &&& (#[trigger] m@[i]).hw_id() == ids@[i - 1]
            &&& m@[i].cur_state() == OFFLINE
            &&& m@[i].pending_task() == 0
        } by {
            if i < before.len() {
                assert(m@[i] == before[i]);
            }
        }
        k = k + 1;
    }
    m
}

} // verus!
