//! System calls of the minimal monolithic kernel: decoding a trap into a
//! system call, the checks of `write`, and how a user buffer is split into
//! page-sized pieces for copying.
use vstd::prelude::*;

verus! {

/// Size of a base page.
pub const PAGE_SIZE_4K: usize = 4096;

/// Standard output.
pub const STDOUT: usize = 1;

/// Standard error.
pub const STDERR: usize = 2;

/// The system-call numbers of one architecture's Linux ABI.
#[derive(PartialEq, Eq, Structural, Clone, Copy, Debug)]
pub struct SyscallNumbers {
    pub write: usize,
    pub exit: usize,
}

/// Numbers on x86_64.
pub fn x86_64_numbers() -> (r: SyscallNumbers)
    ensures
        r == (SyscallNumbers { write: 1, exit: 60 }),
{
    SyscallNumbers { write: 1, exit: 60 }
}

/// Numbers on AArch64, RISC-V 64 and LoongArch64 (the generic table).
pub fn generic_numbers() -> (r: SyscallNumbers)
    ensures
        r == (SyscallNumbers { write: 64, exit: 93 }),
{
    SyscallNumbers { write: 64, exit: 93 }
}

/// A decoded system call.
#[derive(PartialEq, Eq, Structural, Clone, Copy, Debug)]
pub enum Syscall {
    /// `write(fd, buf, count)`.
    Write { fd: usize, buf: usize, count: usize },
    /// `exit(code)`: the program ends and the system powers off.
    Exit { code: i32 },
    /// Any other number: the call fails with return value -1.
    Unknown { sysno: usize },
}

/// Decodes the system call number `sysno` and its arguments. A `write` is
/// carried out and its result placed in the return register; `exit` ends
/// the program; any other call gets -1 (all bits set) as its result.
pub fn handle_syscall(nums: SyscallNumbers, sysno: usize, arg0: usize, arg1: usize, arg2: usize) -> (r: Syscall)
    ensures
        sysno == nums.write ==> r == (Syscall::Write { fd: arg0, buf: arg1, count: arg2 }),
        sysno != nums.write && sysno == nums.exit ==> r == (Syscall::Exit { code: arg0 as i32 }),
        sysno != nums.write && sysno != nums.exit ==> r == (Syscall::Unknown { sysno }),
{
    if sysno == nums.write {
        Syscall::Write { fd: arg0, buf: arg1, count: arg2 }
    } else if sysno == nums.exit {
        Syscall::Exit { code: arg0 as i32 }
    } else {
        Syscall::Unknown { sysno }
    }
}

/// The return register value of a failed call (-1).
pub fn error_retval() -> (r: usize)
    ensures
        r == usize::MAX,
{
    usize::MAX
}

/// The checks `write` makes before touching user memory: only standard
/// output and standard error can be written (-1 otherwise), and writing
/// nothing returns 0 at once. `None` means the buffer is to be copied.
pub fn sys_write(fd: usize, count: usize) -> (r: Option<isize>)
    ensures
        fd != STDOUT && fd != STDERR ==> r == Some(-1isize),
        (fd == STDOUT || fd == STDERR) && count == 0 ==> r == Some(0isize),
        (fd == STDOUT || fd == STDERR) && count != 0 ==> r is None,
{
    if fd != STDOUT && fd != STDERR {
        return Some(-1);
    }
    if count == 0 {
        return Some(0);
    }
    None
}

/// The result of a `write` of `count` bytes once the copy was attempted:
/// the byte count when the whole buffer was read, -1 when part of it is not
/// mapped.
pub fn sys_write_result(count: usize, copied: bool) -> (r: isize)
    ensures
        copied ==> r == count as isize,
        !copied ==> r == -1isize,
{
    if copied {
        count as isize
    } else {
        -1
    }
}

/// The value a signed result takes in the return register.
pub fn retval_of(ret: isize) -> (r: usize)
    ensures
        r == ret as usize,
{
    ret as usize
}

/// The offset of `vaddr` inside its 4K page.
#[verifier::external_body]
fn page_offset(vaddr: usize) -> (r: usize)
    ensures
        r == vaddr % 4096,
{
    memory_addr::align_offset_4k(vaddr)
}

/// A piece of a user buffer that lies inside one page.
#[derive(PartialEq, Eq, Structural, Clone, Copy, Debug)]
pub struct Chunk {
    pub vaddr: usize,
    pub len: usize,
}

/// How many bytes from `vaddr` can be copied before the page ends, at most
/// `remaining`.
pub open spec fn chunk_len(vaddr: nat, remaining: nat) -> nat {
    let room = (4096 - vaddr % 4096) as nat;
    if room <= remaining {
        room
    } else {
        remaining
    }
}

/// The pieces, in order, that copying `len` bytes from `vaddr` reads: each
/// runs to the end of its page or to the end of the buffer.
pub open spec fn spec_chunks(vaddr: nat, len: nat) -> Seq<Chunk>
    decreases len,
{
    if len == 0 {
        Seq::empty()
    } else {
        let n = chunk_len(vaddr, len);
        seq![Chunk { vaddr: vaddr as usize, len: n as usize }] + spec_chunks(vaddr + n, (len - n) as nat)
    }
}

/// Total number of bytes the pieces cover.
pub open spec fn total_len(s: Seq<Chunk>) -> nat
    decreases s.len(),
{
    if s.len() == 0 {
        0
    } else {
        s[0].len as nat + total_len(s.drop_first())
    }
}

/// The pieces of a user buffer to read in turn: `len` bytes from `vaddr`
/// split at page boundaries. Each piece is then translated through the
/// user page table and copied; a piece whose page is not mapped fails the
/// whole read.
pub fn read_user_buffer(vaddr: usize, len: usize) -> (r: Vec<Chunk>)
    requires
        vaddr + len <= usize::MAX,
    ensures
        r@ == spec_chunks(vaddr as nat, len as nat),
{
    let mut result: Vec<Chunk> = Vec::new();
    let mut remaining = len;
    let mut current_vaddr = vaddr;
    while remaining > 0
        invariant
            current_vaddr + remaining == vaddr + len,
            vaddr + len <= usize::MAX,
            spec_chunks(vaddr as nat, len as nat) == result@ + spec_chunks(current_vaddr as nat, remaining as nat),
        decreases remaining,
    {
        let page_offset = page_offset(current_vaddr);
        let room = PAGE_SIZE_4K - page_offset;
        let bytes_in_page = if room <= remaining { room } else { remaining };
        let ghost old_result = result@;
        result.push(Chunk { vaddr: current_vaddr, len: bytes_in_page });
        assert(spec_chunks(current_vaddr as nat, remaining as nat) == seq![Chunk { vaddr: current_vaddr, len: bytes_in_page }]
            + spec_chunks((current_vaddr + bytes_in_page) as nat, (remaining - bytes_in_page) as nat));
        assert(result@ =~= old_result + seq![Chunk { vaddr: current_vaddr, len: bytes_in_page }]);
        current_vaddr = current_vaddr + bytes_in_page;
        remaining = remaining - bytes_in_page;
    }
    assert(spec_chunks(current_vaddr as nat, 0) =~= Seq::<Chunk>::empty());
    assert(result@ + Seq::<Chunk>::empty() =~= result@);
    result
}

/// The pieces tile the buffer: the first starts at `vaddr`, each starts
/// where the previous one ended, none is empty or crosses a page boundary,
/// and together they cover exactly `len` bytes.
pub proof fn law_chunks_tile_buffer(vaddr: nat, len: nat)
    requires
        vaddr + len <= usize::MAX,
    ensures
        total_len(spec_chunks(vaddr, len)) == len,
        spec_chunks(vaddr, len).len() > 0 ==> spec_chunks(vaddr, len)[0].vaddr == vaddr,
        forall|i: int|
            0 <= i < spec_chunks(vaddr, len).len() ==> {
                &&& (#[trigger] spec_chunks(vaddr, len)[i]).len > 0
                &&& spec_chunks(vaddr, len)[i].vaddr % 4096 + spec_chunks(vaddr, len)[i].len <= 4096
            },
        forall|i: int|
            0 < i < spec_chunks(vaddr, len).len() ==> #[trigger] spec_chunks(vaddr, len)[i].vaddr
                == spec_chunks(vaddr, len)[i - 1].vaddr + spec_chunks(vaddr, len)[i - 1].len,
    decreases len,
{
    if len > 0 {
        let n = chunk_len(vaddr, len);
        let c0 = Chunk { vaddr: vaddr as usize, len: n as usize };
        let rest = spec_chunks(vaddr + n, (len - n) as nat);
        let all = spec_chunks(vaddr, len);
        law_chunks_tile_buffer(vaddr + n, (len - n) as nat);
        assert(all == seq![c0] + rest);
        assert(all.drop_first() =~= rest);
        assert forall|i: int| 0 < i < all.len() implies #[trigger] all[i].vaddr == all[i - 1].vaddr + all[i - 1].len by {
            assert(all[i] == rest[i - 1]);
            if i > 1 {
                assert(all[i - 1] == rest[i - 2]);
            }
        }
        assert forall|i: int| 0 <= i < all.len() implies {
            &&& (#[trigger] all[i]).len > 0
            &&& all[i].vaddr % 4096 + all[i].len <= 4096
        } by {
            if i > 0 {
                assert(all[i] == rest[i - 1]);
            }
        }
    }
}

} // verus!
