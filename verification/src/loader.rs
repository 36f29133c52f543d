//! Layout of the user address space of the minimal monolithic kernel: the
//! program page, the user stack, and the page mappings that back them.
use vstd::prelude::*;

verus! {

/// Entry point of the user program.
pub const USER_ENTRY: usize = 0x1000;

/// Top of the user stack.
pub const USER_STACK_TOP: u64 = 0x8_0000_0000;

/// Size of the user stack (16 KiB).
pub const USER_STACK_SIZE: u64 = 0x4000;

/// Lowest address of the user stack.
pub const USER_STACK_BOTTOM: u64 = 0x7_FFFF_C000;

/// Access rights of a user mapping.
#[derive(PartialEq, Eq, Structural, Clone, Copy, Debug)]
pub struct MapFlags {
    pub read: bool,
    pub write: bool,
    pub execute: bool,
    pub user: bool,
}

/// One 4K page mapping of the user address space.
#[derive(PartialEq, Eq, Structural, Clone, Copy, Debug)]
pub struct Mapping {
    pub vaddr: u64,
    pub paddr: u64,
    pub flags: MapFlags,
}

/// The 4K page holding `vaddr`.
#[verifier::external_body]
fn page_base(vaddr: usize) -> (r: usize)
    ensures
        r == vaddr - vaddr % 4096,
{
    memory_addr::align_down_4k(vaddr)
}

/// The virtual address of the page that holds the entry point `entry`.
pub fn code_page(entry: usize) -> (r: usize)
    ensures
        r == entry - entry % 4096,
{
    page_base(entry)
}

/// The mappings of a fresh user address space whose program page was
/// allocated at physical `code_paddr` and whose stack pages start at
/// physical `stack_paddr`: the page of the entry point, readable and
/// executable, then every stack page from the bottom up, readable and
/// writable, all accessible from user mode.
pub open spec fn spec_user_mappings(code_paddr: nat, stack_paddr: nat) -> Seq<Mapping> {
    seq![Mapping {
        vaddr: 0x1000,
        paddr: code_paddr as u64,
        flags: MapFlags { read: true, write: false, execute: true, user: true },
    }] + Seq::new(
        4,
        |i: int|
            Mapping {
                vaddr: (USER_STACK_BOTTOM + i * 4096) as u64,
                paddr: (stack_paddr + i * 4096) as u64,
                flags: MapFlags { read: true, write: true, execute: false, user: true },
            },
    )
}

/// The mappings `UserAddrSpace::new` installs, in order.
pub fn user_mappings(code_paddr: u64, stack_paddr: u64) -> (r: Vec<Mapping>)
    requires
        stack_paddr + USER_STACK_SIZE <= u64::MAX,
    ensures
        r@ == spec_user_mappings(code_paddr as nat, stack_paddr as nat),
{
    assert(USER_STACK_BOTTOM == USER_STACK_TOP - USER_STACK_SIZE);
    let mut r: Vec<Mapping> = Vec::new();
    let code_vaddr = code_page(USER_ENTRY);
    r.push(Mapping { vaddr: code_vaddr as u64, paddr: code_paddr, flags: MapFlags { read: true, write: false, execute: true, user: true } });
    let stack_pages = USER_STACK_SIZE / 4096;
    let stack_flags = MapFlags { read: true, write: true, execute: false, user: true };
    let mut i: u64 = 0;
    while i < stack_pages
        invariant
            stack_pages == 4,
            i <= 4,
            stack_paddr + USER_STACK_SIZE <= u64::MAX,
            r@.len() == i + 1,
            stack_flags == (MapFlags { read: true, write: true, execute: false, user: true }),
            forall|k: int| 0 <= k <= i ==> #[trigger] r@[k] == spec_user_mappings(code_paddr as nat, stack_paddr as nat)[k],
        decreases 4 - i,
    {
        let vaddr = USER_STACK_BOTTOM + i * 4096;
        let paddr = stack_paddr + i * 4096;
        r.push(Mapping { vaddr, paddr, flags: stack_flags });
        i = i + 1;
    }
    assert(r@ =~= spec_user_mappings(code_paddr as nat, stack_paddr as nat));
    r
}

/// The stack pages cover the user stack exactly: they are consecutive
/// pages from `USER_STACK_BOTTOM` up to `USER_STACK_TOP`, backed by
/// consecutive physical pages.
pub proof fn law_stack_mappings_cover_stack(code_paddr: nat, stack_paddr: nat)
    requires
        stack_paddr + USER_STACK_SIZE <= u64::MAX,
    ensures
        spec_user_mappings(code_paddr, stack_paddr)[1].vaddr == USER_STACK_BOTTOM,
        spec_user_mappings(code_paddr, stack_paddr)[4].vaddr + 4096 == USER_STACK_TOP,
        forall|i: int|
            1 <= i < 4 ==> #[trigger] spec_user_mappings(code_paddr, stack_paddr)[i + 1].vaddr
                == spec_user_mappings(code_paddr, stack_paddr)[i].vaddr + 4096
                && spec_user_mappings(code_paddr, stack_paddr)[i + 1].paddr
                == spec_user_mappings(code_paddr, stack_paddr)[i].paddr + 4096,
{
}

} // verus!
