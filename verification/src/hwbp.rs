//! Hardware breakpoints: the DR7 control bits of the four debug registers.
use vstd::prelude::*;
use crate::error::Error;

verus! {

/// The debug address registers DR0-DR3.
#[derive(Debug, Clone, Copy, PartialEq, Eq, Structural)]
pub enum HwReg {
    Dr0,
    Dr1,
    Dr2,
    Dr3,
}

/// The breakpoint kind (the RW bits of DR7).
#[derive(Debug, Clone, Copy, PartialEq, Eq, Structural)]
pub enum HwBreakpointType {
    /// Break on execution (RW=00).
    Execute,
    /// Break on write (RW=01).
    Write,
    /// Break on read or write (RW=11).
    Access,
}

/// The breakpoint length (the LEN bits of DR7).
#[derive(Debug, Clone, Copy, PartialEq, Eq, Structural)]
pub enum HwBreakpointLen {
    Byte1,
    Byte2,
    Byte4,
    /// Eight bytes, on 64-bit targets.
    Byte8,
}

pub open spec fn reg_index(reg: HwReg) -> usize {
    match reg {
        HwReg::Dr0 => 0,
        HwReg::Dr1 => 1,
        HwReg::Dr2 => 2,
        HwReg::Dr3 => 3,
    }
}

pub open spec fn rw_bits_spec(kind: HwBreakpointType) -> usize {
    match kind {
        HwBreakpointType::Execute => 0,
        HwBreakpointType::Write => 1,
        HwBreakpointType::Access => 3,
    }
}

pub open spec fn len_bits_spec(len: HwBreakpointLen) -> usize {
    match len {
        HwBreakpointLen::Byte1 => 0,
        HwBreakpointLen::Byte2 => 1,
        HwBreakpointLen::Byte4 => 3,
        HwBreakpointLen::Byte8 => 2,
    }
}

pub open spec fn len_bytes_spec(len: HwBreakpointLen) -> usize {
    match len {
        HwBreakpointLen::Byte1 => 1,
        HwBreakpointLen::Byte2 => 2,
        HwBreakpointLen::Byte4 => 4,
        HwBreakpointLen::Byte8 => 8,
    }
}

impl HwReg {
    /// The register's number, 0 to 3.
    pub fn index(self) -> (r: usize)
        ensures
            r == reg_index(self),
    {
        match self {
            HwReg::Dr0 => 0,
            HwReg::Dr1 => 1,
            HwReg::Dr2 => 2,
            HwReg::Dr3 => 3,
        }
    }
}

impl HwBreakpointType {
    /// The two RW bits of this kind.
    pub fn rw_bits(self) -> (r: usize)
        ensures
            r == rw_bits_spec(self),
    {
        match self {
            HwBreakpointType::Execute => 0b00,
            HwBreakpointType::Write => 0b01,
            HwBreakpointType::Access => 0b11,
        }
    }
}

impl HwBreakpointLen {
    /// The number of bytes watched.
    pub fn bytes(self) -> (r: usize)
        ensures
            r == len_bytes_spec(self),
    {
        match self {
            HwBreakpointLen::Byte1 => 1,
            HwBreakpointLen::Byte2 => 2,
            HwBreakpointLen::Byte4 => 4,
            HwBreakpointLen::Byte8 => 8,
        }
    }

    /// The two LEN bits of this length.
    pub fn len_bits(self) -> (r: usize)
        ensures
            r == len_bits_spec(self),
    {
        match self {
            HwBreakpointLen::Byte1 => 0b00,
            HwBreakpointLen::Byte2 => 0b01,
            HwBreakpointLen::Byte4 => 0b11,
            HwBreakpointLen::Byte8 => 0b10,
        }
    }
}

/// The DR7 bits that belong to register `idx`: its L/G enable pair at
/// bit `2 * idx` and its RW/LEN nibble at bit `16 + 4 * idx`.
pub open spec fn slot_mask(idx: usize) -> usize {
    ((3usize << (idx * 2)) | (15usize << (16 + idx * 4))) as usize
}

/// The bits that enable register `idx` locally with the given kind and length.
pub open spec fn slot_bits(idx: usize, kind: HwBreakpointType, len: HwBreakpointLen) -> usize {
    ((1usize << (idx * 2)) | (((len_bits_spec(len) << 2usize) | rw_bits_spec(kind)) << (16 + idx
        * 4))) as usize
}

/// DR7 with the slot of register `idx` cleared.
pub open spec fn cleared(dr7: usize, idx: usize) -> usize {
    dr7 & !slot_mask(idx)
}

/// Clears the enable, RW and LEN bits of one register in DR7.
pub fn clear_dr7_slot(dr7: &mut usize, reg: HwReg)
    ensures
        *final(dr7) == cleared(*old(dr7), reg_index(reg)),
{
    let idx = reg.index();
    let v = *dr7;
    let a = v & !(0b11usize << (idx * 2));
    let ctrl_shift = 16 + idx * 4;
    let b = a & !(0b1111usize << ctrl_shift);
    assert(b == v & !((3usize << (idx * 2)) | (15usize << (16 + idx * 4)))) by (bit_vector)
        requires
            idx <= 3,
            a == v & !(3usize << (idx * 2)),
            ctrl_shift == 16 + idx * 4,
            b == a & !(15usize << ctrl_shift),
    ;
    *dr7 = b;
}

/// Sets one register's slot in DR7: locally enabled, with the given kind
/// and length; the other registers' bits are kept.
pub fn set_dr7_slot(dr7: &mut usize, reg: HwReg, kind: HwBreakpointType, len: HwBreakpointLen)
    ensures
        *final(dr7) == cleared(*old(dr7), reg_index(reg)) | slot_bits(
            reg_index(reg),
            kind,
            len,
        ),
{
    let idx = reg.index();
    clear_dr7_slot(dr7, reg);
    let c = *dr7;
    let e = c | (1usize << (idx * 2));
    let lb = len.len_bits();
    let rb = kind.rw_bits();
    let ctrl_bits = (lb << 2) | rb;
    let ctrl_shift = 16 + idx * 4;
    let f = e | (ctrl_bits << ctrl_shift);
    assert(f == c | ((1usize << (idx * 2)) | (((lb << 2usize) | rb) << (16 + idx * 4)))) by (bit_vector)
        requires
            idx <= 3,
            e == c | (1usize << (idx * 2)),
            ctrl_bits == (lb << 2) | rb,
            ctrl_shift == 16 + idx * 4,
            f == e | (ctrl_bits << ctrl_shift),
    ;
    *dr7 = f;
}

/// Setting a slot touches only that slot: every bit outside it is kept.
pub proof fn law_set_slot_keeps_other_bits(
    dr7: usize,
    idx: usize,
    kind: HwBreakpointType,
    len: HwBreakpointLen,
)
    requires
        idx <= 3,
    ensures
        (cleared(dr7, idx) | slot_bits(idx, kind, len)) & !slot_mask(idx) == dr7 & !slot_mask(idx),
        (cleared(dr7, idx) | slot_bits(idx, kind, len)) & slot_mask(idx) == slot_bits(idx, kind, len),
{
    let lb = len_bits_spec(len);
    let rb = rw_bits_spec(kind);
    assert(lb <= 3 && rb <= 3);
    assert((((dr7 & !((3usize << (idx * 2)) | (15usize << (16 + idx * 4)))) | ((1usize << (idx * 2))
        | (((lb << 2usize) | rb) << (16 + idx * 4)))) & !((3usize << (idx * 2)) | (15usize << (16
        + idx * 4)))) == dr7 & !((3usize << (idx * 2)) | (15usize << (16 + idx * 4)))) by (bit_vector)
        requires
            idx <= 3,
            lb <= 3,
            rb <= 3,
    ;
    assert((((dr7 & !((3usize << (idx * 2)) | (15usize << (16 + idx * 4)))) | ((1usize << (idx * 2))
        | (((lb << 2usize) | rb) << (16 + idx * 4)))) & ((3usize << (idx * 2)) | (15usize << (16
        + idx * 4)))) == ((1usize << (idx * 2)) | (((lb << 2usize) | rb) << (16 + idx * 4))))
        by (bit_vector)
        requires
            idx <= 3,
            lb <= 3,
            rb <= 3,
    ;
}

/// Two different lengths never get the same LEN bits.
pub proof fn law_len_bits_distinct(a: HwBreakpointLen, b: HwBreakpointLen)
    ensures
        len_bits_spec(a) == len_bits_spec(b) ==> a == b,
{
}

/// Setting register `idx` for a kind and a length enables it locally and
/// writes the x86 encodings into its DR7 fields: RW is 00 for execution, 01
/// for writes and 11 for reads and writes; LEN is the watched byte count less
/// one for 1, 2 and 4 bytes (00, 01, 11) and 10 for 8 bytes.
pub proof fn law_set_slot_fields(dr7: usize, idx: usize, kind: HwBreakpointType, len: HwBreakpointLen)
    requires
        idx <= 3,
    ensures
        ({
            let d = cleared(dr7, idx) | slot_bits(idx, kind, len);
            &&& (d >> (2 * idx) as usize) & 1 == 1
            &&& (d >> (16 + 4 * idx) as usize) & 3 == (match kind {
                HwBreakpointType::Execute => 0usize,
                HwBreakpointType::Write => 1usize,
                HwBreakpointType::Access => 3usize,
            })
            &&& len_bytes_spec(len) < 8 ==> (d >> (18 + 4 * idx) as usize) & 3 == len_bytes_spec(len) - 1
            &&& len_bytes_spec(len) == 8 ==> (d >> (18 + 4 * idx) as usize) & 3 == 2
        }),
{
    let lb = len_bits_spec(len);
    let rb = rw_bits_spec(kind);
    assert(lb <= 3 && rb <= 3);
    let d = cleared(dr7, idx) | slot_bits(idx, kind, len);
    assert(d == (dr7 & !((3usize << (idx * 2)) | (15usize << (16 + idx * 4)))) | ((1usize << (idx * 2))
        | (((lb << 2usize) | rb) << (16 + idx * 4))));
    assert((d >> (2 * idx) as usize) & 1 == 1 && (d >> (16 + 4 * idx) as usize) & 3 == rb && (d >> (18
        + 4 * idx) as usize) & 3 == lb) by (bit_vector)
        requires
            idx <= 3,
            lb <= 3,
            rb <= 3,
            d == (dr7 & !((3usize << (idx * 2)) | (15usize << (16 + idx * 4)))) | ((1usize << (idx * 2))
                | (((lb << 2usize) | rb) << (16 + idx * 4))),
    ;
}

/// Clearing after setting gives what clearing alone gives.
pub proof fn law_clear_undoes_set(dr7: usize, idx: usize, kind: HwBreakpointType, len: HwBreakpointLen)
    requires
        idx <= 3,
    ensures
        cleared(cleared(dr7, idx) | slot_bits(idx, kind, len), idx) == cleared(dr7, idx),
{
    law_set_slot_keeps_other_bits(dr7, idx, kind, len);
    let m = slot_mask(idx);
    let c = cleared(dr7, idx);
    assert(dr7 & !m & !m == dr7 & !m) by (bit_vector);
}


/// The debug-register part of a thread context.
#[derive(Debug, Clone, Copy, PartialEq, Eq, Structural)]
pub struct DebugContext {
    pub context_flags: u32,
    pub dr0: usize,
    pub dr1: usize,
    pub dr2: usize,
    pub dr3: usize,
    pub dr7: usize,
}

/// The context flag that asks for the debug registers: the x86 value on
/// 32-bit targets, the x86-64 value otherwise.
pub open spec fn context_debug_spec() -> u32 {
    if usize::BITS == 32 {
        0x0001_0010
    } else {
        0x0010_0010
    }
}

pub fn context_debug_flag() -> (r: u32)
    ensures
        r == context_debug_spec(),
{
    if usize::BITS == 32 {
        0x0001_0010
    } else {
        0x0010_0010
    }
}

/// `ctx` with the address register `reg` set to `value`.
pub open spec fn with_address(ctx: DebugContext, reg: HwReg, value: usize) -> DebugContext {
    match reg {
        HwReg::Dr0 => DebugContext { dr0: value, ..ctx },
        HwReg::Dr1 => DebugContext { dr1: value, ..ctx },
        HwReg::Dr2 => DebugContext { dr2: value, ..ctx },
        HwReg::Dr3 => DebugContext { dr3: value, ..ctx },
    }
}

/// A breakpoint request is refused for a null address, for an execute
/// breakpoint longer than one byte, and for an address not aligned to
/// the length.
pub open spec fn breakpoint_refused(addr: usize, kind: HwBreakpointType, len: HwBreakpointLen) -> bool {
    ||| addr == 0
    ||| (kind == HwBreakpointType::Execute && len != HwBreakpointLen::Byte1)
    ||| (len_bytes_spec(len) > 1 && addr & ((len_bytes_spec(len) - 1) as usize) != 0)
}

/// The context after arming register `reg` for `addr`.
pub open spec fn armed(
    ctx: DebugContext,
    addr: usize,
    kind: HwBreakpointType,
    len: HwBreakpointLen,
    reg: HwReg,
) -> DebugContext {
    DebugContext {
        context_flags: ctx.context_flags | context_debug_spec(),
        dr7: cleared(ctx.dr7, reg_index(reg)) | slot_bits(reg_index(reg), kind, len),
        ..with_address(ctx, reg, addr)
    }
}

/// The context after disarming register `reg`.
pub open spec fn disarmed(ctx: DebugContext, reg: HwReg) -> DebugContext {
    DebugContext {
        context_flags: ctx.context_flags | context_debug_spec(),
        dr7: cleared(ctx.dr7, reg_index(reg)),
        ..with_address(ctx, reg, 0)
    }
}

/// Sets a hardware breakpoint in a thread context.
pub fn set_hw_break_in_context(
    ctx: &mut DebugContext,
    addr: usize,
    kind: HwBreakpointType,
    len: HwBreakpointLen,
    reg: HwReg,
) -> (r: Result<(), Error>)
    ensures
        (r is Err) == breakpoint_refused(addr, kind, len),
        *final(ctx) == (if breakpoint_refused(addr, kind, len) {
            *old(ctx)
        } else {
            armed(*old(ctx), addr, kind, len, reg)
        }),
{
    if addr == 0 {
        return Err(Error);
    }
    if kind == HwBreakpointType::Execute && len != HwBreakpointLen::Byte1 {
        return Err(Error);
    }
    let size = len.bytes();
    if size > 1 && (addr & (size - 1)) != 0 {
        return Err(Error);
    }
    ctx.context_flags = ctx.context_flags | context_debug_flag();
    match reg {
        HwReg::Dr0 => ctx.dr0 = addr,
        HwReg::Dr1 => ctx.dr1 = addr,
        HwReg::Dr2 => ctx.dr2 = addr,
        HwReg::Dr3 => ctx.dr3 = addr,
    }
    let mut dr7 = ctx.dr7;
    set_dr7_slot(&mut dr7, reg, kind, len);
    ctx.dr7 = dr7;
    Ok(())
}

/// Clears a hardware breakpoint in a thread context.
pub fn clear_hw_break_in_context(ctx: &mut DebugContext, reg: HwReg)
    ensures
        *final(ctx) == disarmed(*old(ctx), reg),
{
    ctx.context_flags = ctx.context_flags | context_debug_flag();
    match reg {
        HwReg::Dr0 => ctx.dr0 = 0,
        HwReg::Dr1 => ctx.dr1 = 0,
        HwReg::Dr2 => ctx.dr2 = 0,
        HwReg::Dr3 => ctx.dr3 = 0,
    }
    let mut dr7 = ctx.dr7;
    clear_dr7_slot(&mut dr7, reg);
    ctx.dr7 = dr7;
}

/// The address held by debug register `i` (0 to 3) of `ctx`.
pub open spec fn address_of(ctx: DebugContext, i: int) -> usize {
    if i == 0 {
        ctx.dr0
    } else if i == 1 {
        ctx.dr1
    } else if i == 2 {
        ctx.dr2
    } else {
        ctx.dr3
    }
}

/// A breakpoint is refused exactly for a null address, for an execution
/// breakpoint of more than one byte, and for an address that is not a
/// multiple of the watched length.
pub proof fn law_refused_requests(addr: usize, kind: HwBreakpointType, len: HwBreakpointLen)
    ensures
        breakpoint_refused(addr, kind, len) == (addr == 0 || (kind == HwBreakpointType::Execute
            && len_bytes_spec(len) != 1) || addr % len_bytes_spec(len) != 0),
{
    assert(addr & 1usize == addr % 2) by (bit_vector);
    assert(addr & 3usize == addr % 4) by (bit_vector);
    assert(addr & 7usize == addr % 8) by (bit_vector);
}

/// Arming register `reg` puts the address in that register and no other,
/// keeps the other registers' DR7 bits, enables `reg` with the x86 RW and LEN
/// encodings (see `law_set_slot_fields`), and asks for the debug registers
/// on top of the flags already set (`CONTEXT_DEBUG_REGISTERS`: 0x10010 on
/// x86, 0x100010 on x86-64).
pub proof fn law_arm_context(
    ctx: DebugContext,
    addr: usize,
    kind: HwBreakpointType,
    len: HwBreakpointLen,
    reg: HwReg,
)
    ensures
        ({
            let a = armed(ctx, addr, kind, len, reg);
            let i = reg_index(reg);
            &&& address_of(a, i as int) == addr
            &&& forall|j: int| 0 <= j < 4 && j != i ==> #[trigger] address_of(a, j) == address_of(ctx, j)
            &&& a.context_flags & ctx.context_flags == ctx.context_flags
            &&& usize::BITS == 32 ==> a.context_flags & 0x0001_0010u32 == 0x0001_0010u32
            &&& usize::BITS == 64 ==> a.context_flags & 0x0010_0010u32 == 0x0010_0010u32
            &&& a.dr7 & !slot_mask(i) == ctx.dr7 & !slot_mask(i)
            &&& (a.dr7 >> (2 * i) as usize) & 1 == 1
            &&& len_bytes_spec(len) < 8 ==> (a.dr7 >> (18 + 4 * i) as usize) & 3 == len_bytes_spec(len) - 1
            &&& len_bytes_spec(len) == 8 ==> (a.dr7 >> (18 + 4 * i) as usize) & 3 == 2
        }),
{
    let i = reg_index(reg);
    law_set_slot_fields(ctx.dr7, i, kind, len);
    law_set_slot_keeps_other_bits(ctx.dr7, i, kind, len);
    let f = ctx.context_flags;
    assert((f | 0x0001_0010u32) & f == f && (f | 0x0001_0010u32) & 0x0001_0010u32 == 0x0001_0010u32)
        by (bit_vector);
    assert((f | 0x0010_0010u32) & f == f && (f | 0x0010_0010u32) & 0x0010_0010u32 == 0x0010_0010u32)
        by (bit_vector);
}

/// The two enable bits (L and G) of register `j` in DR7.
pub open spec fn enable_field(dr7: usize, j: usize) -> usize {
    (dr7 >> (2 * j) as usize) & 3
}

/// The RW and LEN bits of register `j` in DR7.
pub open spec fn control_field(dr7: usize, j: usize) -> usize {
    (dr7 >> (16 + 4 * j) as usize) & 15
}

/// Disarming register `reg` zeroes that address register and no other, turns
/// off its enable bits and clears its RW and LEN bits; the DR7 bits of every
/// other register `j` are kept.
pub proof fn law_disarm_context(ctx: DebugContext, reg: HwReg, j: usize)
    requires
        j <= 3,
        j != reg_index(reg),
    ensures
        address_of(disarmed(ctx, reg), reg_index(reg) as int) == 0,
        address_of(disarmed(ctx, reg), j as int) == address_of(ctx, j as int),
        disarmed(ctx, reg).context_flags & ctx.context_flags == ctx.context_flags,
        enable_field(disarmed(ctx, reg).dr7, reg_index(reg)) == 0,
        control_field(disarmed(ctx, reg).dr7, reg_index(reg)) == 0,
        enable_field(disarmed(ctx, reg).dr7, j) == enable_field(ctx.dr7, j),
        control_field(disarmed(ctx, reg).dr7, j) == control_field(ctx.dr7, j),
{
    let i = reg_index(reg);
    let d = ctx.dr7;
    let f = ctx.context_flags;
    assert((f | 0x0001_0010u32) & f == f && (f | 0x0010_0010u32) & f == f) by (bit_vector);
    let c = d & !((3usize << (i * 2)) | (15usize << (16 + i * 4)));
    assert(cleared(d, i) == c);
    let s1 = (2 * i) as usize;
    let s2 = (16 + 4 * i) as usize;
    let t1 = (2 * j) as usize;
    let t2 = (16 + 4 * j) as usize;
    assert((c >> s1) & 3 == 0 && (c >> s2) & 15 == 0 && (c >> t1) & 3 == (d >> t1) & 3 && (c >> t2) & 15 == (d
        >> t2) & 15) by (bit_vector)
        requires
            i <= 3,
            j <= 3,
            j != i,
            s1 == 2 * i,
            s2 == 16 + 4 * i,
            t1 == 2 * j,
            t2 == 16 + 4 * j,
            c == d & !((3usize << (i * 2)) | (15usize << (16 + i * 4))),
    ;
}

} // verus!
