//! Decisions of the exception handler that serves hardware breakpoints: the
//! request to arm a breakpoint on the current thread, and the handling of a hit.
use vstd::prelude::*;
use crate::hwbp::{HwBreakpointLen, HwBreakpointType, HwReg, reg_index};

verus! {

/// The exception code of a request to arm a hardware breakpoint on the
/// raising thread.
pub const EXCEPTION_SET_HW_BREAK: u32 = 0xEABC_0001;

/// The number of a breakpoint kind in a request.
pub open spec fn kind_code(kind: HwBreakpointType) -> usize {
    match kind {
        HwBreakpointType::Execute => 0,
        HwBreakpointType::Write => 1,
        HwBreakpointType::Access => 2,
    }
}

/// The number of a breakpoint length in a request.
pub open spec fn len_code(len: HwBreakpointLen) -> usize {
    match len {
        HwBreakpointLen::Byte1 => 0,
        HwBreakpointLen::Byte2 => 1,
        HwBreakpointLen::Byte4 => 2,
        HwBreakpointLen::Byte8 => 3,
    }
}

/// A request to arm a breakpoint.
#[derive(Clone, Copy, Debug, PartialEq, Eq, Structural)]
pub struct HwRequest {
    pub addr: usize,
    pub kind: HwBreakpointType,
    pub len: HwBreakpointLen,
    pub reg: HwReg,
}

/// The parameters that carry a request: address, kind, length, register.
pub fn encode_request(req: HwRequest) -> (r: [usize; 4])
    ensures
        r@ == seq![req.addr, kind_code(req.kind), len_code(req.len), reg_index(req.reg)],
{
    let k: usize = match req.kind {
        HwBreakpointType::Execute => 0,
        HwBreakpointType::Write => 1,
        HwBreakpointType::Access => 2,
    };
    let l: usize = match req.len {
        HwBreakpointLen::Byte1 => 0,
        HwBreakpointLen::Byte2 => 1,
        HwBreakpointLen::Byte4 => 2,
        HwBreakpointLen::Byte8 => 3,
    };
    let r = [req.addr, k, l, req.reg.index()];
    assert(r@ == seq![req.addr, kind_code(req.kind), len_code(req.len), reg_index(req.reg)]);
    r
}

/// Reads a request from the four parameters of the exception; `None` where a
/// number is unknown.  Eight-byte breakpoints exist only where `wide` holds
/// (64-bit x86).
pub fn decode_request(params: [usize; 4], wide: bool) -> (r: Option<HwRequest>)
    ensures
        match r {
            Some(q) => q.addr == params[0] && kind_code(q.kind) == params[1] && len_code(q.len)
                == params[2] && reg_index(q.reg) == params[3] && (q.len == HwBreakpointLen::Byte8
                ==> wide),
            None => params[1] > 2 || params[2] > 3 || (params[2] == 3 && !wide) || params[3] > 3,
        },
{
    let kind = match params[1] {
        0 => HwBreakpointType::Execute,
        1 => HwBreakpointType::Write,
        2 => HwBreakpointType::Access,
        _ => return None,
    };
    let len = if params[2] == 0 {
        HwBreakpointLen::Byte1
    } else if params[2] == 1 {
        HwBreakpointLen::Byte2
    } else if params[2] == 2 {
        HwBreakpointLen::Byte4
    } else if params[2] == 3 && wide {
        HwBreakpointLen::Byte8
    } else {
        return None;
    };
    let reg = match params[3] {
        0 => HwReg::Dr0,
        1 => HwReg::Dr1,
        2 => HwReg::Dr2,
        3 => HwReg::Dr3,
        _ => return None,
    };
    Some(HwRequest { addr: params[0], kind, len, reg })
}

/// Reading a request gives back the request that was raised: its parameters
/// are never refused, and the only request they describe is the one raised.
pub proof fn law_request_round_trip(req: HwRequest, wide: bool)
    requires
        req.len == HwBreakpointLen::Byte8 ==> wide,
    ensures
        ({
            let p = seq![req.addr, kind_code(req.kind), len_code(req.len), reg_index(req.reg)];
            &&& !(p[1] > 2 || p[2] > 3 || (p[2] == 3 && !wide) || p[3] > 3)
            &&& forall|q: HwRequest|
                q.addr == p[0] && kind_code(q.kind) == p[1] && len_code(q.len) == p[2]
                    && reg_index(q.reg) == p[3] ==> q == req
        }),
{
}

/// Whether DR6 reports a hit of register `i`.
pub open spec fn hit(dr6: usize, i: usize) -> bool {
    dr6 & (1usize << i) != 0
}

/// The register whose hit DR6 reports first (the lowest one).
pub fn first_hit(dr6: usize) -> (r: Option<HwReg>)
    ensures
        match r {
            Some(reg) => hit(dr6, reg_index(reg)) && forall|j: usize| j < reg_index(reg) ==> !hit(dr6, j),
            None => forall|j: usize| j < 4 ==> !hit(dr6, j),
        },
{
    if dr6 & 1 != 0 {
        assert(1usize << 0usize == 1usize) by (bit_vector);
        Some(HwReg::Dr0)
    } else if dr6 & 2 != 0 {
        assert(1usize << 0usize == 1usize && 1usize << 1usize == 2usize) by (bit_vector);
        Some(HwReg::Dr1)
    } else if dr6 & 4 != 0 {
        assert(1usize << 0usize == 1usize && 1usize << 1usize == 2usize && 1usize << 2usize == 4usize) by (bit_vector);
        Some(HwReg::Dr2)
    } else if dr6 & 8 != 0 {
        assert(1usize << 0usize == 1usize && 1usize << 1usize == 2usize && 1usize << 2usize == 4usize && 1usize << 3usize == 8usize) by (bit_vector);
        Some(HwReg::Dr3)
    } else {
        assert(1usize << 0usize == 1usize && 1usize << 1usize == 2usize && 1usize << 2usize == 4usize && 1usize << 3usize == 8usize) by (bit_vector);
        None
    }
}

/// DR6 with its four hit flags cleared.
pub fn clear_hits(dr6: usize) -> (r: usize)
    ensures
        r == dr6 & !0b1111usize,
{
    dr6 & !0b1111usize
}

/// Whether resuming after a hit of register `reg` must set the resume flag:
/// where DR7 (as it stands after the hit was handled) makes it an execute
/// breakpoint, so that the instruction does not trap again.
pub fn needs_resume_flag(dr7: usize, reg: HwReg) -> (r: bool)
    ensures
        r == ((dr7 >> (16 + 4 * reg_index(reg)) as usize) & 3 == 0),
{
    let i = reg.index();
    (dr7 >> (16 + 4 * i)) & 3 == 0
}

/// The flags register with the resume flag (bit 16) set.
pub fn with_resume_flag(eflags: u32) -> (r: u32)
    ensures
        r == eflags | 0x1_0000,
{
    eflags | 0x1_0000
}

/// The exception code of a single-step trap, which a hardware breakpoint hit
/// raises.
pub const EXCEPTION_SINGLE_STEP: u32 = 0x8000_0004;

/// What the handler does with an exception.
#[derive(Clone, Copy, Debug, PartialEq, Eq, Structural)]
pub enum VehEvent {
    /// A request to arm a breakpoint on the raising thread: arm it, then
    /// continue execution.
    Arm(HwRequest),
    /// A request with the wrong number of parameters: continue execution.
    Resume,
    /// A hit of this register: hand it to the hook, then resume.
    Hit(HwReg),
    /// Not ours, or a request that cannot be read: continue the search.
    Pass,
}

/// A request's parameters name no kind, length or register.
pub open spec fn refused(params: [usize; 4], wide: bool) -> bool {
    params[1] > 2 || params[2] > 3 || (params[2] == 3 && !wide) || params[3] > 3
}

/// Decides what to do with an exception of `code` carrying `nparams`
/// parameters, with DR6 as given.
pub fn classify_exception(code: u32, nparams: u32, params: [usize; 4], dr6: usize, wide: bool) -> (r: VehEvent)
    ensures
        code == EXCEPTION_SET_HW_BREAK && nparams == 4 ==> if refused(params, wide) {
            r == VehEvent::Pass
        } else {
            r matches VehEvent::Arm(q) && q.addr == params[0] && kind_code(q.kind) == params[1]
                && len_code(q.len) == params[2] && reg_index(q.reg) == params[3]
        },
        code == EXCEPTION_SET_HW_BREAK && nparams != 4 ==> r == VehEvent::Resume,
        code == EXCEPTION_SINGLE_STEP ==> match r {
            VehEvent::Hit(reg) => hit(dr6, reg_index(reg)) && forall|j: usize| j < reg_index(reg) ==> !hit(dr6, j),
            VehEvent::Pass => forall|j: usize| j < 4 ==> !hit(dr6, j),
            _ => false,
        },
        code != EXCEPTION_SET_HW_BREAK && code != EXCEPTION_SINGLE_STEP ==> r == VehEvent::Pass,
{
    if code == EXCEPTION_SET_HW_BREAK {
        if nparams != 4 {
            return VehEvent::Resume;
        }
        match decode_request(params, wide) {
            Some(q) => VehEvent::Arm(q),
            None => VehEvent::Pass,
        }
    } else if code == EXCEPTION_SINGLE_STEP {
        match first_hit(dr6) {
            Some(reg) => VehEvent::Hit(reg),
            None => VehEvent::Pass,
        }
    } else {
        VehEvent::Pass
    }
}

/// DR6 and the flags register after a hit of `reg` was handled: the hit flags
/// cleared, and the resume flag set where DR7 makes `reg` an execute
/// breakpoint.
pub fn after_hit(dr6: usize, dr7: usize, eflags: u32, reg: HwReg) -> (r: (usize, u32))
    ensures
        r.0 == dr6 & !0b1111usize,
        r.1 == if (dr7 >> (16 + 4 * reg_index(reg)) as usize) & 3 == 0 {
            eflags | 0x1_0000
        } else {
            eflags
        },
{
    let d = clear_hits(dr6);
    let f = if needs_resume_flag(dr7, reg) {
        with_resume_flag(eflags)
    } else {
        eflags
    };
    (d, f)
}

} // verus!
