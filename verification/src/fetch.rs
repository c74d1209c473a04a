//! Fetching strings from system calls that write into a caller's buffer: the
//! decisions between calls (success, a larger buffer, failure) and the final
//! trimming of the result.
use vstd::prelude::*;
use vstd::laws_eq::obeys_concrete_eq;
use vstd::std_specs::cmp::PartialEqSpec;

verus! {

/// What one call of a string-returning system function reported.
#[derive(Clone, Copy, Debug, PartialEq, Eq, Structural)]
pub enum FetchResult {
    /// It wrote this many units, the terminating null not counted.
    Success(usize),
    /// The buffer was too small; the call named the capacity it needs.
    Required(usize),
    /// The buffer was too small, by no stated amount: try twice the size.
    Retry,
    /// It failed with this error code.
    Error(u32),
}

/// Why a fetch stopped without a string.
#[derive(Clone, Copy, Debug, PartialEq, Eq, Structural)]
pub enum FetchError {
    /// Doubling the buffer would overflow `usize`.
    Overflow,
    /// The call failed with this error code.
    Failed(u32),
}

/// What to do after a call made with a buffer of `cap` units.
#[derive(Clone, Copy, Debug, PartialEq, Eq, Structural)]
pub enum FetchStep {
    /// Take the first `len` units of the buffer.
    Done(usize),
    /// Call again with a buffer of this many units.
    Grow(usize),
    /// Give up.
    Fail(FetchError),
}

/// The capacity of the first call.
pub fn initial_capacity() -> (r: usize)
    ensures
        r == 512,
{
    512
}

/// The step that follows a call made with `cap` units that reported `result`.
pub fn fetch_step(cap: usize, result: FetchResult) -> (r: FetchStep)
    ensures
        r == match result {
            FetchResult::Success(len) => FetchStep::Done(len),
            FetchResult::Required(c) => FetchStep::Grow(c),
            FetchResult::Retry => if 2 * cap <= usize::MAX {
                FetchStep::Grow((2 * cap) as usize)
            } else {
                FetchStep::Fail(FetchError::Overflow)
            },
            FetchResult::Error(e) => FetchStep::Fail(FetchError::Failed(e)),
        },
{
    match result {
        FetchResult::Success(len) => FetchStep::Done(len),
        FetchResult::Required(c) => FetchStep::Grow(c),
        FetchResult::Retry => match cap.checked_mul(2) {
            Some(c) => FetchStep::Grow(c),
            None => FetchStep::Fail(FetchError::Overflow),
        },
        FetchResult::Error(e) => FetchStep::Fail(FetchError::Failed(e)),
    }
}

/// The report of a call that returns the length written, or the capacity it
/// needs when that exceeds the buffer (`k` is the return value, `err` the last
/// error code).
pub fn report_with_required(k: usize, cap: usize, err: u32) -> (r: FetchResult)
    ensures
        r == if k == 0 {
            FetchResult::Error(err)
        } else if k > cap {
            FetchResult::Required(k)
        } else {
            FetchResult::Success(k)
        },
{
    if k == 0 {
        FetchResult::Error(err)
    } else if k > cap {
        FetchResult::Required(k)
    } else {
        FetchResult::Success(k)
    }
}

/// The report of a call that truncates silently and fills the whole buffer
/// when it is too small.
pub fn report_truncating(k: usize, cap: usize, err: u32) -> (r: FetchResult)
    ensures
        r == if k == 0 {
            FetchResult::Error(err)
        } else if k >= cap {
            FetchResult::Retry
        } else {
            FetchResult::Success(k)
        },
{
    if k == 0 {
        FetchResult::Error(err)
    } else if k >= cap {
        FetchResult::Retry
    } else {
        FetchResult::Success(k)
    }
}

/// The report of a window-text call: a zero length with no error is an empty
/// text, and a text that fills the buffer up to its null may be truncated.
pub fn report_window_text(k: usize, cap: usize, err: u32) -> (r: FetchResult)
    ensures
        r == if k == 0 {
            if err == 0 {
                FetchResult::Success(0)
            } else {
                FetchResult::Error(err)
            }
        } else if k + 1 == cap {
            FetchResult::Retry
        } else {
            FetchResult::Success(k)
        },
{
    if k == 0 {
        if err == 0 {
            FetchResult::Success(0)
        } else {
            FetchResult::Error(err)
        }
    } else if cap > 0 && k == cap - 1 {
        FetchResult::Retry
    } else {
        FetchResult::Success(k)
    }
}

/// The report of a class-name call: any zero length is an error.
pub fn report_class_name(k: usize, cap: usize, err: u32) -> (r: FetchResult)
    ensures
        r == if k == 0 {
            FetchResult::Error(err)
        } else if k + 1 == cap {
            FetchResult::Retry
        } else {
            FetchResult::Success(k)
        },
{
    if k == 0 {
        FetchResult::Error(err)
    } else if cap > 0 && k == cap - 1 {
        FetchResult::Retry
    } else {
        FetchResult::Success(k)
    }
}

/// `s` without its trailing `nul` units.
pub open spec fn trim_nuls<T>(s: Seq<T>, nul: T) -> Seq<T>
    decreases s.len(),
{
    if s.len() > 0 && s.last() == nul {
        trim_nuls(s.drop_last(), nul)
    } else {
        s
    }
}

/// The string that a successful fetch gives from the first `len` units of the
/// buffer: with one terminating `nul` added unless it ends with one already,
/// or with every trailing `nul` removed.
pub open spec fn fetched<T>(buf: Seq<T>, len: int, add_null: bool, nul: T) -> Seq<T> {
    let s = buf.take(len);
    if add_null {
        if s.len() > 0 && s.last() == nul {
            s
        } else {
            s.push(nul)
        }
    } else {
        trim_nuls(s, nul)
    }
}

/// The string that a successful fetch gives; `nul` is the terminating unit.
pub fn finish_fetch<T: Copy + PartialEq>(buf: &[T], len: usize, add_null: bool, nul: T) -> (r: Vec<T>)
    requires
        len <= buf@.len(),
    ensures
        obeys_concrete_eq::<T>() ==> r@ == fetched(buf@, len as int, add_null, nul),
{
    let mut v: Vec<T> = Vec::new();
    let mut i: usize = 0;
    while i < len
        invariant
            i <= len <= buf@.len(),
            v@ == buf@.take(i as int),
        decreases len - i,
    {
        v.push(buf[i]);
        i = i + 1;
        assert(v@ == buf@.take(i as int));
    }
    proof {
        reveal(obeys_concrete_eq);
    }
    if add_null {
        if v.len() > 0 {
            let same = v[v.len() - 1] == nul;
            proof {
                if obeys_concrete_eq::<T>() {
                    assert(same == v@.last().eq_spec(&nul));
                }
            }
            if same {
                return v;
            }
        }
        v.push(nul);
        v
    } else {
        let ghost s = v@;
        let mut done = false;
        while !done && v.len() > 0
            invariant
                obeys_concrete_eq::<T>() ==> trim_nuls(s, nul) == trim_nuls(v@, nul),
                obeys_concrete_eq::<T>() && done ==> v@.len() > 0 && v@.last() != nul,
            decreases v@.len() + if done { 0int } else { 1int },
        {
            let same = v[v.len() - 1] == nul;
            proof {
                reveal(obeys_concrete_eq);
                if obeys_concrete_eq::<T>() {
                    assert(same == v@.last().eq_spec(&nul));
                }
            }
            if same {
                v.pop();
            } else {
                done = true;
            }
        }
        v
    }
}

/// The combo-box and list-box messages that carry text.
pub const CB_ADDSTRING: u32 = 0x0143;
pub const CB_GETLBTEXT: u32 = 0x0148;
pub const CB_INSERTSTRING: u32 = 0x014A;
pub const CB_FINDSTRING: u32 = 0x014C;
pub const CB_SELECTSTRING: u32 = 0x014D;
pub const CB_FINDSTRINGEXACT: u32 = 0x0158;
pub const LB_ADDSTRING: u32 = 0x0180;
pub const LB_INSERTSTRING: u32 = 0x0181;
pub const LB_GETTEXT: u32 = 0x0189;
pub const LB_SELECTSTRING: u32 = 0x018C;
pub const LB_FINDSTRING: u32 = 0x018F;
pub const LB_FINDSTRINGEXACT: u32 = 0x01A2;

/// Whether a window message carries text that must be converted or mapped.
pub fn needs_text_conversion(msg: u32) -> (r: bool)
    ensures
        r == (msg == CB_ADDSTRING || msg == CB_INSERTSTRING || msg == CB_FINDSTRING || msg
            == CB_FINDSTRINGEXACT || msg == CB_SELECTSTRING || msg == CB_GETLBTEXT || msg
            == LB_ADDSTRING || msg == LB_INSERTSTRING || msg == LB_FINDSTRING || msg
            == LB_FINDSTRINGEXACT || msg == LB_SELECTSTRING || msg == LB_GETTEXT),
{
    msg == CB_ADDSTRING || msg == CB_INSERTSTRING || msg == CB_FINDSTRING || msg
        == CB_FINDSTRINGEXACT || msg == CB_SELECTSTRING || msg == CB_GETLBTEXT || msg
        == LB_ADDSTRING || msg == LB_INSERTSTRING || msg == LB_FINDSTRING || msg
        == LB_FINDSTRINGEXACT || msg == LB_SELECTSTRING || msg == LB_GETTEXT
}

/// A logical font, as the wide-character font functions describe it.
#[derive(Clone, Debug, PartialEq, Eq, Hash)]
pub struct LogFont {
    pub height: i32,
    pub width: i32,
    pub escapement: i32,
    pub orientation: i32,
    pub weight: i32,
    pub italic: u8,
    pub underline: u8,
    pub strike_out: u8,
    pub char_set: u8,
    pub out_precision: u8,
    pub clip_precision: u8,
    pub quality: u8,
    pub pitch_and_family: u8,
    pub face_name: [u16; 32],
}

} // verus!
