//! ARM Power State Coordination Interface: choosing the conduit and building
//! the calls that power CPUs on and the system off.
use vstd::prelude::*;

verus! {

/// PSCI function id of `CPU_ON`.
pub const PSCI_CPU_ON: usize = 0x8400_0003;

/// PSCI function id of `SYSTEM_OFF`.
pub const PSCI_SYSTEM_OFF: usize = 0x8400_0008;

/// The instruction through which PSCI calls reach the firmware.
#[derive(PartialEq, Eq, Structural, Clone, Copy, Debug)]
pub enum PsciMethod {
    /// Hypervisor call (`hvc #0`).
    Hvc,
    /// Secure monitor call (`smc #0`).
    Smc,
}

/// A PSCI call: the function id and its three arguments, as they are placed
/// in `x0`..`x3` before the conduit instruction.
#[derive(PartialEq, Eq, Structural, Clone, Copy, Debug)]
pub struct PsciCall {
    pub func: usize,
    pub arg0: usize,
    pub arg1: usize,
    pub arg2: usize,
}

/// The bytes of the method name `hvc`.
pub open spec fn hvc_name() -> Seq<u8> {
    seq![0x68u8, 0x76u8, 0x63u8]
}

/// The bytes of the method name `smc`.
pub open spec fn smc_name() -> Seq<u8> {
    seq![0x73u8, 0x6du8, 0x63u8]
}

/// The conduit a method name selects: `hvc` or `smc`.
pub open spec fn spec_psci_method(m: Seq<u8>) -> Option<PsciMethod> {
    if m == hvc_name() {
        Some(PsciMethod::Hvc)
    } else if m == smc_name() {
        Some(PsciMethod::Smc)
    } else {
        None
    }
}

fn method_of(method: &[u8]) -> (r: Option<PsciMethod>)
    ensures
        r == spec_psci_method(method@),
{
    if method.len() != 3 || method[2] != 0x63u8 {
        assert(method@ != hvc_name() && method@ != smc_name()) by {
            if method@.len() == 3 {
                assert(hvc_name()[2] == 0x63u8 && smc_name()[2] == 0x63u8);
            }
        }
        return None;
    }
    if method[0] == 0x68u8 && method[1] == 0x76u8 {
        assert(method@ =~= hvc_name());
        Some(PsciMethod::Hvc)
    } else if method[0] == 0x73u8 && method[1] == 0x6du8 {
        assert(method@ =~= smc_name());
        Some(PsciMethod::Smc)
    } else {
        assert(method@ != hvc_name() && method@ != smc_name()) by {
            assert(hvc_name()[0] == 0x68u8 && hvc_name()[1] == 0x76u8);
            assert(smc_name()[0] == 0x73u8 && smc_name()[1] == 0x6du8);
        }
        None
    }
}

/// Whether `method` names a PSCI conduit (`hvc` or `smc`).
pub fn is_psci_method(method: &[u8]) -> (r: bool)
    ensures
        r == spec_psci_method(method@) is Some,
{
    method_of(method).is_some()
}

/// Picks the conduit named by the device tree's `method` property, which
/// must be `hvc` or `smc`.
pub fn init(method: &[u8]) -> (r: PsciMethod)
    requires
        spec_psci_method(method@) is Some,
    ensures
        spec_psci_method(method@) == Some(r),
{
    match method_of(method) {
        Some(m) => m,
        None => PsciMethod::Hvc,
    }
}

/// The `CPU_ON` call that starts core `target` at `entry` with `context`.
pub open spec fn cpu_on_call(target: usize, entry: usize, context: usize) -> PsciCall {
    PsciCall { func: PSCI_CPU_ON, arg0: target, arg1: entry, arg2: context }
}

/// The call that powers the system off.
pub fn terminate() -> (r: PsciCall)
    ensures
        r == (PsciCall { func: PSCI_SYSTEM_OFF, arg0: 0, arg1: 0, arg2: 0 }),
{
    PsciCall { func: PSCI_SYSTEM_OFF, arg0: 0, arg1: 0, arg2: 0 }
}

/// The call that starts core `id` at `entry` (with a zero context id).
/// The firmware reports success with a zero return value.
pub fn start(id: usize, entry: usize) -> (r: PsciCall)
    ensures
        r == cpu_on_call(id, entry, 0),
{
    PsciCall { func: PSCI_CPU_ON, arg0: id, arg1: entry, arg2: 0 }
}

/// The call that starts secondary core `cpu_id` at the physical address
/// `entry`, handing it `args` as its context id.
pub fn start_secondary_cpu(cpu_id: usize, entry: usize, args: usize) -> (r: PsciCall)
    ensures
        r == cpu_on_call(cpu_id, entry, args),
{
    PsciCall { func: PSCI_CPU_ON, arg0: cpu_id, arg1: entry, arg2: args }
}

} // verus!
