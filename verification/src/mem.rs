//! Address-range checks, page planning and instruction encoding for code
//! patching. The memory itself is read and written by the caller.
use vstd::prelude::*;
use crate::error::Error;

verus! {

/// The highest user-space address of a 32-bit Windows process.
pub open spec fn win32_user_limit() -> int {
    0x7FFE_FFFF
}

/// Whether `[addr, addr + len)` lies in the user space of a 32-bit Windows
/// process, above the null-page region.
pub open spec fn win32_range_ok(addr: usize, len: usize) -> bool {
    len == 0 || (0x10000 <= addr <= win32_user_limit() && addr + len - 1 <= win32_user_limit())
}

/// Quick check that `[addr, addr + len)` is a plausible 32-bit user-space range.
pub fn quick_memory_check_win32(addr: usize, len: usize) -> (r: bool)
    ensures
        r == win32_range_ok(addr, len),
{
    if len == 0 {
        return true;
    }
    if !(0x10000 <= addr && addr <= 0x7FFE_FFFF) {
        return false;
    }
    if len - 1 > 0x7FFE_FFFF - addr {
        return false;
    }
    true
}

/// The highest user-space address for the pointer width of the target.
pub open spec fn user_space_limit() -> int {
    if usize::BITS == 32 {
        0x7FFE_FFFF
    } else {
        0x7FFF_FFFF_FFFF
    }
}

fn user_space_limit_exec() -> (r: u64)
    ensures
        r == user_space_limit(),
{
    if usize::BITS == 32 {
        0x7FFE_FFFF
    } else {
        0x7FFF_FFFF_FFFF
    }
}

/// Whether `[addr, addr + len)` is a plausible user-space range.
pub open spec fn range_ok(addr: usize, len: usize) -> bool {
    len == 0 || (0x10000 <= addr && addr + len <= user_space_limit())
}

/// Quick check that `[addr, addr + len)` avoids the null-page region and
/// ends within user space.
pub fn quick_memory_check(addr: usize, len: usize) -> (r: Result<(), Error>)
    ensures
        r is Ok <==> range_ok(addr, len),
{
    if len == 0 {
        return Ok(());
    }
    if addr < 0x10000 {
        return Err(Error);
    }
    let limit = user_space_limit_exec();
    if addr as u64 > limit {
        return Err(Error);
    }
    match addr.checked_add(len) {
        None => Err(Error),
        Some(end) => {
            if end as u64 > limit {
                Err(Error)
            } else {
                Ok(())
            }
        },
    }
}

/// Byte `i` (little-endian) of `x`.
pub open spec fn usize_byte(x: usize, i: nat) -> u8 {
    ((x >> ((8 * i) as usize)) & 0xff) as u8
}

/// The little-endian bytes of a pointer-sized integer.
pub open spec fn usize_le_bytes(x: usize) -> Seq<u8> {
    Seq::new((usize::BITS / 8) as nat, |i: int| usize_byte(x, i as nat))
}

fn push_usize_le(out: &mut Vec<u8>, x: usize)
    ensures
        final(out)@ == old(out)@ + usize_le_bytes(x),
{
    let n: u32 = usize::BITS / 8;
    let mut i: u32 = 0;
    while i < n
        invariant
            n == usize::BITS / 8,
            i <= n,
            out@ == old(out)@ + usize_le_bytes(x).take(i as int),
        decreases n - i,
    {
        let b = ((x >> ((8 * i) as usize)) & 0xff) as u8;
        assert(b == usize_byte(x, i as nat));
        out.push(b);
        assert(usize_le_bytes(x).take(i + 1) == usize_le_bytes(x).take(i as int).push(b));
        i = i + 1;
    }
    assert(usize_le_bytes(x).take(n as int) == usize_le_bytes(x));
}

fn push_bytes(out: &mut Vec<u8>, data: &[u8])
    ensures
        final(out)@ == old(out)@ + data@,
{
    let mut i: usize = 0;
    while i < data.len()
        invariant
            i <= data@.len(),
            out@ == old(out)@ + data@.take(i as int),
        decreases data@.len() - i,
    {
        out.push(data[i]);
        assert(data@.take(i + 1) == data@.take(i as int).push(data@[i as int]));
        i = i + 1;
    }
    assert(data@.take(i as int) == data@);
}

/// The trampoline: save all registers and flags, run `pre_asm`, call the
/// target through `ebx`, restore flags and registers, run `post_asm`.
pub open spec fn trampoline_spec(target: usize, pre_asm: Seq<u8>, post_asm: Seq<u8>) -> Seq<u8> {
    seq![0x60u8, 0x9Cu8] + pre_asm + seq![0xBBu8] + usize_le_bytes(target) + seq![
        0xFFu8,
        0xD3u8,
        0x9Du8,
        0x61u8,
    ] + post_asm
}

/// Builds a 32-bit trampoline stub that calls `target_fn_addr` between
/// `pre_asm` and `post_asm`, preserving registers and flags around the call.
pub fn generate_trampoline_stub_32(target_fn_addr: usize, pre_asm: &[u8], post_asm: &[u8]) -> (r: Vec<u8>)
    ensures
        r@ == trampoline_spec(target_fn_addr, pre_asm@, post_asm@),
{
    let mut code: Vec<u8> = Vec::new();
    code.push(0x60);
    code.push(0x9C);
    push_bytes(&mut code, pre_asm);
    code.push(0xBB);
    push_usize_le(&mut code, target_fn_addr);
    code.push(0xFF);
    code.push(0xD3);
    code.push(0x9D);
    code.push(0x61);
    push_bytes(&mut code, post_asm);
    assert(code@ == trampoline_spec(target_fn_addr, pre_asm@, post_asm@));
    code
}

/// The page bases from `page` on that start before `end`.
pub open spec fn pages_from(page: int, end: int, page_size: int) -> Seq<int>
    decreases (if page < end {
        end - page
    } else {
        0
    }),
{
    if page_size <= 0 || page >= end {
        seq![]
    } else {
        seq![page] + pages_from(page + page_size, end, page_size)
    }
}

/// The pages a protection change over `[address, address + size)` touches:
/// from the page holding `address` up to the one holding its last byte.
pub open spec fn pages_spec(address: usize, size: usize, page_size: usize) -> Seq<int> {
    pages_from((address / page_size) * page_size, address + size, page_size as int)
}

/// Plans the pages to re-protect for a region; refuses an empty or
/// implausible region and a zero page size.
pub fn plan_pages(address: usize, size: usize, page_size: usize) -> (r: Result<Vec<usize>, Error>)
    ensures
        match r {
            Ok(v) => size > 0 && range_ok(address, size) && page_size > 0 && v@.map_values(
                |p: usize| p as int,
            ) == pages_spec(address, size, page_size),
            Err(_) => size == 0 || !range_ok(address, size) || page_size == 0,
        },
{
    if size == 0 {
        return Err(Error);
    }
    if quick_memory_check(address, size).is_err() {
        return Err(Error);
    }
    if page_size == 0 {
        return Err(Error);
    }
    let end = match address.checked_add(size) {
        Some(e) => e,
        None => return Err(Error),
    };
    let rem = address % page_size;
    assert(rem <= address) by (nonlinear_arith)
        requires
            page_size > 0,
            rem == address % page_size,
    ;
    let start = address - rem;
    assert(start == (address / page_size) * page_size) by (nonlinear_arith)
        requires
            page_size > 0,
            start == address - address % page_size,
    ;
    assert(start <= address);
    let mut pages: Vec<usize> = Vec::new();
    let mut page = start;
    assert(pages@.map_values(|p: usize| p as int) == Seq::<int>::empty());
    loop
        invariant_except_break
            page < end,
            pages@.map_values(|p: usize| p as int) + pages_from(page as int, end as int, page_size as int)
                == pages_spec(address, size, page_size),
        invariant
            page_size > 0,
            end == address + size,
        ensures
            pages@.map_values(|p: usize| p as int) == pages_spec(address, size, page_size),
        decreases end - page,
    {
        let ghost before = pages@.map_values(|p: usize| p as int);
        pages.push(page);
        assert(pages@.map_values(|p: usize| p as int) == before.push(page as int));
        assert(before + pages_from(page as int, end as int, page_size as int) == before.push(page as int)
            + pages_from(page + page_size, end as int, page_size as int));
        if page_size > usize::MAX - page {
            assert(pages_from(page + page_size, end as int, page_size as int) == Seq::<int>::empty());
            assert(before.push(page as int) + Seq::<int>::empty() == before.push(page as int));
            break;
        }
        let next = page + page_size;
        if next >= end {
            assert(pages_from(next as int, end as int, page_size as int) == Seq::<int>::empty());
            assert(before.push(page as int) + Seq::<int>::empty() == before.push(page as int));
            break;
        }
        page = next;
    }
    Ok(pages)
}

/// One page whose protection was changed, with the protection it had.
#[derive(Clone, Copy, Debug)]
pub struct PageProtect {
    pub base: usize,
    pub size: usize,
    pub protect: u32,
}

/// A region whose page protection was changed and is to be restored.
pub struct ProtectGuard {
    address: usize,
    size: usize,
    pages: Vec<PageProtect>,
}

impl ProtectGuard {
    /// A guard over `[address, address + size)` and the pages changed for it.
    pub fn from_parts(address: usize, size: usize, pages: Vec<PageProtect>) -> (g: Self)
        ensures
            g.address_spec() == address,
            g.size_spec() == size,
            g.pages_spec() == pages@,
    {
        ProtectGuard { address, size, pages }
    }

    pub closed spec fn address_spec(&self) -> usize {
        self.address
    }

    pub closed spec fn size_spec(&self) -> usize {
        self.size
    }

    pub closed spec fn pages_spec(&self) -> Seq<PageProtect> {
        self.pages@
    }

    /// The start of the guarded region.
    pub fn address(&self) -> (r: usize)
        ensures
            r == self.address_spec(),
    {
        self.address
    }

    /// The size of the guarded region in bytes.
    pub fn size(&self) -> (r: usize)
        ensures
            r == self.size_spec(),
    {
        self.size
    }

    /// The pages to restore, with their former protection.
    pub fn pages(&self) -> (r: &[PageProtect])
        ensures
            r@ == self.pages_spec(),
    {
        self.pages.as_slice()
    }

    /// Whether `len` bytes at `offset` lie within the guarded region.
    pub fn is_in_bound(&self, offset: usize, len: usize) -> (r: bool)
        ensures
            r == (len == 0 || offset + len <= self.size_spec()),
    {
        if len == 0 {
            return true;
        }
        match offset.checked_add(len) {
            None => false,
            Some(end) => end <= self.size,
        }
    }
}

/// A hook that swaps an import-table entry between two addresses.
pub struct IatHook<T> {
    orig: usize,
    hook: usize,
    enabled: bool,
    marker: core::marker::PhantomData<T>,
}

impl<T> IatHook<T> {
    pub closed spec fn orig_spec(&self) -> usize {
        self.orig
    }

    pub closed spec fn hook_spec(&self) -> usize {
        self.hook
    }

    pub closed spec fn enabled_spec(&self) -> bool {
        self.enabled
    }

    /// A disabled hook from `orig` to `hook`.
    pub fn new(orig: usize, hook: usize) -> (h: Self)
        ensures
            h.orig_spec() == orig,
            h.hook_spec() == hook,
            !h.enabled_spec(),
    {
        IatHook { orig, hook, enabled: false, marker: core::marker::PhantomData }
    }

    /// Whether the hook is installed.
    pub fn is_enabled(&self) -> (r: bool)
        ensures
            r == self.enabled_spec(),
    {
        self.enabled
    }

    /// The address the entry holds while the hook is off.
    pub fn orig_addr(&self) -> (r: usize)
        ensures
            r == self.orig_spec(),
    {
        self.orig
    }

    /// The address the entry holds while the hook is on.
    pub fn hook_addr(&self) -> (r: usize)
        ensures
            r == self.hook_spec(),
    {
        self.hook
    }

    /// Records that the entry was switched on or off.
    pub fn set_enabled(&mut self, on: bool)
        ensures
            final(self).enabled_spec() == on,
            final(self).orig_spec() == old(self).orig_spec(),
            final(self).hook_spec() == old(self).hook_spec(),
    {
        self.enabled = on;
    }

    /// The entry swap that switching the hook to `on` needs: `(from, to)`,
    /// or `None` when the hook is already in that state.
    pub fn swap_for(&self, on: bool) -> (r: Option<(usize, usize)>)
        ensures
            on == self.enabled_spec() ==> r is None,
            on && !self.enabled_spec() ==> r == Some((self.orig_spec(), self.hook_spec())),
            !on && self.enabled_spec() ==> r == Some((self.hook_spec(), self.orig_spec())),
    {
        if on == self.enabled {
            None
        } else if on {
            Some((self.orig, self.hook))
        } else {
            Some((self.hook, self.orig))
        }
    }
}

/// The signed distance from the end of a 5-byte instruction at `patch` to
/// `target`, wrapped to the pointer width as the hardware computes it.
pub open spec fn rel32_distance(patch: usize, target: usize) -> isize {
    vstd::wrapping::isize_specs::wrapping_sub(
        target as isize,
        vstd::wrapping::usize_specs::wrapping_add(patch, 5) as isize,
    )
}

/// Byte `i` (little-endian) of a 32-bit value.
pub open spec fn u32_byte(x: u32, i: nat) -> u8 {
    ((x >> ((8 * i) as u32)) & 0xff) as u8
}

/// Encodes `<opcode> rel32` at `patch_address` reaching `target`; fails
/// when the distance does not fit in 32 signed bits.
pub fn rel32_instruction(opcode: u8, patch_address: usize, target: usize) -> (r: Result<Vec<u8>, Error>)
    ensures
        match r {
            Ok(v) => i32::MIN <= rel32_distance(patch_address, target) <= i32::MAX && v@ == seq![
                opcode,
                u32_byte(rel32_distance(patch_address, target) as i32 as u32, 0),
                u32_byte(rel32_distance(patch_address, target) as i32 as u32, 1),
                u32_byte(rel32_distance(patch_address, target) as i32 as u32, 2),
                u32_byte(rel32_distance(patch_address, target) as i32 as u32, 3),
            ],
            Err(_) => !(i32::MIN <= rel32_distance(patch_address, target) <= i32::MAX),
        },
{
    let next = patch_address.wrapping_add(5);
    let offset = (target as isize).wrapping_sub(next as isize);
    if offset < i32::MIN as isize || offset > i32::MAX as isize {
        return Err(Error);
    }
    let rel = offset as i32;
    let u = rel as u32;
    let mut v: Vec<u8> = Vec::new();
    v.push(opcode);
    v.push((u & 0xff) as u8);
    v.push(((u >> 8u32) & 0xff) as u8);
    v.push(((u >> 16u32) & 0xff) as u8);
    v.push(((u >> 24u32) & 0xff) as u8);
    assert(u32_byte(u, 0) == ((u >> 0u32) & 0xff) as u8);
    assert((u >> 0u32) == u) by (bit_vector);
    Ok(v)
}

/// Where a two-byte short jump (`EB rel8`) at `addr` lands.
pub open spec fn short_jump_target(addr: usize, rel: i8) -> usize {
    vstd::wrapping::usize_specs::wrapping_add_signed(
        vstd::wrapping::usize_specs::wrapping_add(addr, 2),
        rel as isize,
    )
}

/// One step of following short jumps: the next address when the byte at
/// `addr` is `EB` (with displacement `rel`), or `None` when `addr` is not a
/// short jump and can be patched.
pub fn follow_short_jump(addr: usize, opcode: u8, rel: i8) -> (r: Option<usize>)
    ensures
        opcode == 0xEB ==> r == Some(short_jump_target(addr, rel)),
        opcode != 0xEB ==> r is None,
{
    if opcode == 0xEB {
        Some(addr.wrapping_add(2).wrapping_add_signed(rel as isize))
    } else {
        None
    }
}

/// The first page whose protection change failed.
pub open spec fn first_failure(olds: Seq<Option<u32>>, from: int) -> Option<int>
    decreases olds.len() - from,
{
    if from < 0 || from >= olds.len() {
        None
    } else if olds[from] is None {
        Some(from)
    } else {
        first_failure(olds, from + 1)
    }
}

/// The first `k` planned pages, each with the protection it had.
pub open spec fn changed_pages(pages: Seq<usize>, olds: Seq<Option<u32>>, page_size: usize, k: int) -> Seq<
    PageProtect,
> {
    Seq::new(k as nat, |i: int| PageProtect { base: pages[i], size: page_size, protect: olds[i]->0 })
}

/// The outcome of changing the protection of the planned pages in order.
pub enum ProtectOutcome {
    /// Every page was changed: the guard restores them all.
    Guarded(ProtectGuard),
    /// The change of `page` failed: the pages changed before it, and only
    /// those, are to get their former protection back, in order.
    Failed { page: usize, restore: Vec<PageProtect> },
}

/// Decides the outcome of protecting `pages` (each `page_size` long) for the
/// region `[address, address + size)`; `olds[k]` is the former protection that
/// the change of page `k` returned, `None` where it failed or was not tried
/// after a failure.
pub fn protect_outcome(address: usize, size: usize, page_size: usize, pages: &[usize], olds: &[Option<u32>]) -> (r:
    ProtectOutcome)
    requires
        olds@.len() == pages@.len(),
    ensures
        match first_failure(olds@, 0) {
            Some(k) => r matches ProtectOutcome::Failed { page, restore } && page == pages@[k] && restore@
                == changed_pages(pages@, olds@, page_size, k),
            None => r matches ProtectOutcome::Guarded(g) && g.address_spec() == address && g.size_spec() == size
                && g.pages_spec() == changed_pages(pages@, olds@, page_size, pages@.len() as int),
        },
{
    let mut done: Vec<PageProtect> = Vec::new();
    let mut i: usize = 0;
    while i < pages.len()
        invariant
            olds@.len() == pages@.len(),
            i <= pages@.len(),
            first_failure(olds@, 0) == first_failure(olds@, i as int),
            done@ == changed_pages(pages@, olds@, page_size, i as int),
        decreases pages@.len() - i,
    {
        match olds[i] {
            None => {
                return ProtectOutcome::Failed { page: pages[i], restore: done };
            },
            Some(old) => {
                done.push(PageProtect { base: pages[i], size: page_size, protect: old });
                assert(done@ == changed_pages(pages@, olds@, page_size, i + 1));
            },
        }
        i = i + 1;
    }
    ProtectOutcome::Guarded(ProtectGuard::from_parts(address, size, done))
}

/// Whether `align` is a power of two.
pub open spec fn power_of_two(align: usize) -> bool {
    exists|k: nat| k < 64 && align == vstd::arithmetic::power2::pow2(k)
}

/// A size and an alignment that make a memory layout: the alignment is a
/// power of two, and the size rounded up to a multiple of it does not exceed
/// `isize::MAX`.
pub open spec fn layout_ok(size: usize, align: usize) -> bool {
    &&& power_of_two(align)
    &&& (size + align - 1) / (align as int) * align <= isize::MAX
}

/// `std::alloc::Layout::from_size_align`: the claim is what its documentation
/// says, that it succeeds exactly when the alignment is a power of two and the
/// size, rounded up to a multiple of the alignment, does not exceed
/// `isize::MAX`.
#[verifier::external_body]
fn layout_accepts(size: usize, align: usize) -> (r: bool)
    ensures
        r == layout_ok(size, align),
{
    std::alloc::Layout::from_size_align(size, align).is_ok()
}

/// Why an aligned buffer cannot be made.
#[derive(Clone, Copy, Debug, PartialEq, Eq, Structural)]
pub enum BufferError {
    /// A buffer of no bytes (such as one for a zero-sized type).
    ZeroSize,
    /// The size and alignment make no memory layout.
    BadLayout,
}

/// Whether an aligned buffer of `size` bytes at alignment `align` can be
/// asked of the allocator.
pub fn check_buffer(size: usize, align: usize) -> (r: Result<(), BufferError>)
    ensures
        r == if size == 0 {
            Err(BufferError::ZeroSize)
        } else if !layout_ok(size, align) {
            Err(BufferError::BadLayout)
        } else {
            Ok::<(), BufferError>(())
        },
{
    if size == 0 {
        Err(BufferError::ZeroSize)
    } else if !layout_accepts(size, align) {
        Err(BufferError::BadLayout)
    } else {
        Ok(())
    }
}

} // verus!
