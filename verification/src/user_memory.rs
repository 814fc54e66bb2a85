//! The memory a user program may hand to a system call.
use vstd::prelude::*;

verus! {

/// Load address of user programs.
pub const USER_CODE_BASE: u64 = 0x40_0000;

/// Top of the user stack.
pub const USER_STACK_TOP: u64 = 0x800_0000;

/// Size of the user stack in bytes.
pub const USER_STACK_SIZE: usize = 128 * 1024;

/// Span of the user code region: the program and room for its data.
pub const USER_CODE_SPAN: u64 = (4 + 64) * 1024 * 1024;

/// Size of the kernel heap.
pub const KERNEL_HEAP_SIZE: u64 = 512 * 1024 * 1024;

/// Size of the shared system information page.
pub const SHARED_PAGE_SIZE: u64 = 4096;

/// `[ptr, end)` lies within `[lo, hi)`.
pub open spec fn within(ptr: int, end: int, lo: int, hi: int) -> bool {
    lo <= ptr && end <= hi
}

/// Whether the buffer of `len` bytes at `ptr` lies, as a whole, in memory a
/// user program may name: the user code region, the user stack, the kernel
/// heap at `heap_start`, the frame buffer (`framebuffer`, when present, as
/// start and length) or the shared page at `shared_start`. A null pointer
/// and a buffer running past the address space never do.
pub open spec fn user_range(
    ptr: u64,
    len: usize,
    heap_start: u64,
    framebuffer: Option<(u64, usize)>,
    shared_start: u64,
) -> bool {
    let end = ptr + len;
    &&& ptr != 0
    &&& end <= u64::MAX
    &&& {
        ||| within(ptr as int, end, USER_CODE_BASE as int, USER_CODE_BASE + USER_CODE_SPAN)
        ||| within(ptr as int, end, USER_STACK_TOP - USER_STACK_SIZE, USER_STACK_TOP as int)
        ||| within(ptr as int, end, heap_start as int, heap_start + KERNEL_HEAP_SIZE)
        ||| (framebuffer matches Some((fs, fl)) && within(ptr as int, end, fs as int, fs + fl))
        ||| within(ptr as int, end, shared_start as int, shared_start + SHARED_PAGE_SIZE)
    }
}

/// The region ends that the check computes before reaching an answer
/// stay within `u64`: the heap's once the buffer is outside the code and
/// stack regions, the frame buffer's once it is also outside the heap, the
/// shared page's once it is outside the frame buffer too.
pub open spec fn region_ends_fit(
    ptr: u64,
    len: usize,
    heap_start: u64,
    framebuffer: Option<(u64, usize)>,
    shared_start: u64,
) -> bool {
    let end = ptr + len;
    let past_fixed = ptr != 0 && end <= u64::MAX && !within(ptr as int, end, USER_CODE_BASE as int, USER_CODE_BASE
        + USER_CODE_SPAN) && !within(ptr as int, end, USER_STACK_TOP - USER_STACK_SIZE, USER_STACK_TOP as int);
    let past_heap = past_fixed && !within(ptr as int, end, heap_start as int, heap_start + KERNEL_HEAP_SIZE);
    let past_fb = past_heap && !(framebuffer matches Some((fs, fl)) && within(ptr as int, end, fs as int, fs + fl));
    &&& past_fixed ==> heap_start + KERNEL_HEAP_SIZE <= u64::MAX
    &&& past_heap ==> (framebuffer matches Some((fs, fl)) ==> fs + fl <= u64::MAX)
    &&& past_fb ==> shared_start + SHARED_PAGE_SIZE <= u64::MAX
}

/// Checks that a buffer handed to a system call is user-accessible memory.
pub fn is_user_ptr(
    ptr: u64,
    len: usize,
    heap_start: u64,
    framebuffer: Option<(u64, usize)>,
    shared_start: u64,
) -> (ok: bool)
    requires
        region_ends_fit(ptr, len, heap_start, framebuffer, shared_start),
    ensures
        ok == user_range(ptr, len, heap_start, framebuffer, shared_start),
{
    if ptr == 0 {
        return false;
    }
    let end = match ptr.checked_add(len as u64) {
        Some(e) => e,
        None => {
            return false;
        },
    };
    let user_code_start = USER_CODE_BASE;
    let user_code_end = user_code_start + USER_CODE_SPAN;
    if ptr >= user_code_start && end <= user_code_end {
        return true;
    }
    let user_stack_base = USER_STACK_TOP - USER_STACK_SIZE as u64;
    let user_stack_top = USER_STACK_TOP;
    if ptr >= user_stack_base && end <= user_stack_top {
        return true;
    }
    let heap_end = heap_start + KERNEL_HEAP_SIZE;
    if ptr >= heap_start && end <= heap_end {
        return true;
    }
    if let Some((fb_start, fb_len)) = framebuffer {
        let fb_end = fb_start + fb_len as u64;
        if ptr >= fb_start && end <= fb_end {
            return true;
        }
    }
    let shared_end = shared_start + SHARED_PAGE_SIZE;
    if ptr >= shared_start && end <= shared_end {
        return true;
    }
    false
}

} // verus!
