//! Node, property and value names the kernel looks up in the device tree.
use vstd::prelude::*;

verus! {

/// The bytes of `cpus`.
pub open spec fn name_cpus() -> Seq<u8> {
    seq![0x63u8, 0x70u8, 0x75u8, 0x73u8]
}

/// `cpus` as a byte vector.
pub fn bytes_cpus() -> (r: Vec<u8>)
    ensures
        r@ == name_cpus(),
{
    let r = vec![0x63u8, 0x70u8, 0x75u8, 0x73u8];
    assert(r@ =~= name_cpus());
    r
}

/// The bytes of `#address-cells`.
pub open spec fn name_address_cells() -> Seq<u8> {
    seq![0x23u8, 0x61u8, 0x64u8, 0x64u8, 0x72u8, 0x65u8, 0x73u8, 0x73u8, 0x2du8, 0x63u8, 0x65u8, 0x6cu8, 0x6cu8, 0x73u8]
}

/// `#address-cells` as a byte vector.
pub fn bytes_address_cells() -> (r: Vec<u8>)
    ensures
        r@ == name_address_cells(),
{
    let r = vec![0x23u8, 0x61u8, 0x64u8, 0x64u8, 0x72u8, 0x65u8, 0x73u8, 0x73u8, 0x2du8, 0x63u8, 0x65u8, 0x6cu8, 0x6cu8, 0x73u8];
    assert(r@ =~= name_address_cells());
    r
}

/// The bytes of `reg`.
pub open spec fn name_reg() -> Seq<u8> {
    seq![0x72u8, 0x65u8, 0x67u8]
}

/// `reg` as a byte vector.
pub fn bytes_reg() -> (r: Vec<u8>)
    ensures
        r@ == name_reg(),
{
    let r = vec![0x72u8, 0x65u8, 0x67u8];
    assert(r@ =~= name_reg());
    r
}

/// The bytes of `device_type`.
pub open spec fn name_device_type() -> Seq<u8> {
    seq![0x64u8, 0x65u8, 0x76u8, 0x69u8, 0x63u8, 0x65u8, 0x5fu8, 0x74u8, 0x79u8, 0x70u8, 0x65u8]
}

/// `device_type` as a byte vector.
pub fn bytes_device_type() -> (r: Vec<u8>)
    ensures
        r@ == name_device_type(),
{
    let r = vec![0x64u8, 0x65u8, 0x76u8, 0x69u8, 0x63u8, 0x65u8, 0x5fu8, 0x74u8, 0x79u8, 0x70u8, 0x65u8];
    assert(r@ =~= name_device_type());
    r
}

/// The bytes of `cpu`.
pub open spec fn name_cpu() -> Seq<u8> {
    seq![0x63u8, 0x70u8, 0x75u8]
}

/// `cpu` as a byte vector.
pub fn bytes_cpu() -> (r: Vec<u8>)
    ensures
        r@ == name_cpu(),
{
    let r = vec![0x63u8, 0x70u8, 0x75u8];
    assert(r@ =~= name_cpu());
    r
}

/// The bytes of `enable-method`.
pub open spec fn name_enable_method() -> Seq<u8> {
    seq![0x65u8, 0x6eu8, 0x61u8, 0x62u8, 0x6cu8, 0x65u8, 0x2du8, 0x6du8, 0x65u8, 0x74u8, 0x68u8, 0x6fu8, 0x64u8]
}

/// `enable-method` as a byte vector.
pub fn bytes_enable_method() -> (r: Vec<u8>)
    ensures
        r@ == name_enable_method(),
{
    let r = vec![0x65u8, 0x6eu8, 0x61u8, 0x62u8, 0x6cu8, 0x65u8, 0x2du8, 0x6du8, 0x65u8, 0x74u8, 0x68u8, 0x6fu8, 0x64u8];
    assert(r@ =~= name_enable_method());
    r
}

/// The bytes of `psci`.
pub open spec fn name_psci() -> Seq<u8> {
    seq![0x70u8, 0x73u8, 0x63u8, 0x69u8]
}

/// `psci` as a byte vector.
pub fn bytes_psci() -> (r: Vec<u8>)
    ensures
        r@ == name_psci(),
{
    let r = vec![0x70u8, 0x73u8, 0x63u8, 0x69u8];
    assert(r@ =~= name_psci());
    r
}

/// The bytes of `compatible`.
pub open spec fn name_compatible() -> Seq<u8> {
    seq![0x63u8, 0x6fu8, 0x6du8, 0x70u8, 0x61u8, 0x74u8, 0x69u8, 0x62u8, 0x6cu8, 0x65u8]
}

/// `compatible` as a byte vector.
pub fn bytes_compatible() -> (r: Vec<u8>)
    ensures
        r@ == name_compatible(),
{
    let r = vec![0x63u8, 0x6fu8, 0x6du8, 0x70u8, 0x61u8, 0x74u8, 0x69u8, 0x62u8, 0x6cu8, 0x65u8];
    assert(r@ =~= name_compatible());
    r
}

/// The bytes of `method`.
pub open spec fn name_method() -> Seq<u8> {
    seq![0x6du8, 0x65u8, 0x74u8, 0x68u8, 0x6fu8, 0x64u8]
}

/// `method` as a byte vector.
pub fn bytes_method() -> (r: Vec<u8>)
    ensures
        r@ == name_method(),
{
    let r = vec![0x6du8, 0x65u8, 0x74u8, 0x68u8, 0x6fu8, 0x64u8];
    assert(r@ =~= name_method());
    r
}

/// The bytes of `arm,pl011`.
pub open spec fn name_pl011() -> Seq<u8> {
    seq![0x61u8, 0x72u8, 0x6du8, 0x2cu8, 0x70u8, 0x6cu8, 0x30u8, 0x31u8, 0x31u8]
}

/// `arm,pl011` as a byte vector.
pub fn bytes_pl011() -> (r: Vec<u8>)
    ensures
        r@ == name_pl011(),
{
    let r = vec![0x61u8, 0x72u8, 0x6du8, 0x2cu8, 0x70u8, 0x6cu8, 0x30u8, 0x31u8, 0x31u8];
    assert(r@ =~= name_pl011());
    r
}

/// The bytes of `arm,psci-1.0`.
pub open spec fn name_psci_1_0() -> Seq<u8> {
    seq![0x61u8, 0x72u8, 0x6du8, 0x2cu8, 0x70u8, 0x73u8, 0x63u8, 0x69u8, 0x2du8, 0x31u8, 0x2eu8, 0x30u8]
}

/// `arm,psci-1.0` as a byte vector.
pub fn bytes_psci_1_0() -> (r: Vec<u8>)
    ensures
        r@ == name_psci_1_0(),
{
    let r = vec![0x61u8, 0x72u8, 0x6du8, 0x2cu8, 0x70u8, 0x73u8, 0x63u8, 0x69u8, 0x2du8, 0x31u8, 0x2eu8, 0x30u8];
    assert(r@ =~= name_psci_1_0());
    r
}

/// The bytes of `arm,psci-0.2`.
pub open spec fn name_psci_0_2() -> Seq<u8> {
    seq![0x61u8, 0x72u8, 0x6du8, 0x2cu8, 0x70u8, 0x73u8, 0x63u8, 0x69u8, 0x2du8, 0x30u8, 0x2eu8, 0x32u8]
}

/// `arm,psci-0.2` as a byte vector.
pub fn bytes_psci_0_2() -> (r: Vec<u8>)
    ensures
        r@ == name_psci_0_2(),
{
    let r = vec![0x61u8, 0x72u8, 0x6du8, 0x2cu8, 0x70u8, 0x73u8, 0x63u8, 0x69u8, 0x2du8, 0x30u8, 0x2eu8, 0x32u8];
    assert(r@ =~= name_psci_0_2());
    r
}

} // verus!
