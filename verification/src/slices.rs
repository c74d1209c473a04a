//! Slice helpers: sub-slice search, null termination and UTF-16 encoding.
use vstd::prelude::*;
use crate::error::Error;
use vstd::laws_eq::obeys_concrete_eq;
use vstd::std_specs::cmp::PartialEqSpec;
use crate::text::chars_of;

verus! {

/// `needle` occurs as a contiguous run in `haystack` (the empty run always does).
pub open spec fn has_subslice<T>(haystack: Seq<T>, needle: Seq<T>) -> bool {
    needle.len() == 0 || exists|i: int|
        0 <= i && i + needle.len() <= haystack.len() && #[trigger] haystack.subrange(
            i,
            i + needle.len(),
        ) == needle
}

fn window_eq<T: PartialEq>(haystack: &[T], start: usize, needle: &[T]) -> (r: bool)
    requires
        start + needle.len() <= haystack.len(),
    ensures
        obeys_concrete_eq::<T>() ==> r == (haystack@.subrange(
            start as int,
            start + needle@.len(),
        ) == needle@),
{
    proof {
        reveal(obeys_concrete_eq);
    }
    let mut j: usize = 0;
    while j < needle.len()
        invariant
            j <= needle@.len(),
            start + needle.len() <= haystack.len(),
            obeys_concrete_eq::<T>() ==> forall|k: int|
                0 <= k < j ==> haystack@[start + k] == needle@[k],
        decreases needle@.len() - j,
    {
        let same = haystack[start + j] == needle[j];
        proof {
            reveal(obeys_concrete_eq);
            if obeys_concrete_eq::<T>() {
                assert(same == haystack@[start + j].eq_spec(&needle@[j as int]));
                assert(same == (haystack@[start + j] == needle@[j as int]));
            }
        }
        if !same {
            proof {
                if obeys_concrete_eq::<T>() {
                    assert(haystack@.subrange(start as int, start + needle@.len())[j as int]
                        != needle@[j as int]);
                }
            }
            return false;
        }
        j = j + 1;
    }
    proof {
        if obeys_concrete_eq::<T>() {
            assert(haystack@.subrange(start as int, start + needle@.len()) == needle@);
        }
    }
    true
}

/// Whether `haystack` contains `needle` as a contiguous run.
pub fn contains_slice<T: PartialEq>(haystack: &[T], needle: &[T]) -> (r: bool)
    ensures
        obeys_concrete_eq::<T>() ==> r == has_subslice(haystack@, needle@),
{
    if needle.len() == 0 {
        return true;
    }
    if needle.len() > haystack.len() {
        return false;
    }
    let last = haystack.len() - needle.len();
    let mut i: usize = 0;
    while i <= last
        invariant
            last + needle@.len() == haystack@.len(),
            needle@.len() > 0,
            obeys_concrete_eq::<T>() ==> forall|k: int|
                0 <= k < i ==> #[trigger] haystack@.subrange(k, k + needle@.len()) != needle@,
        decreases last + 1 - i,
    {
        if window_eq(haystack, i, needle) {
            return true;
        }
        if i == last {
            return false;
        }
        i = i + 1;
    }
    false
}

/// A copy of `s` with a `0` appended.
pub fn u16_with_null(s: &[u16]) -> (r: Vec<u16>)
    ensures
        r@ == s@.push(0),
{
    let mut v: Vec<u16> = Vec::new();
    let mut i: usize = 0;
    while i < s.len()
        invariant
            i <= s@.len(),
            v@ == s@.take(i as int),
        decreases s@.len() - i,
    {
        v.push(s[i]);
        assert(s@.take(i + 1) == s@.take(i as int).push(s@[i as int]));
        i = i + 1;
    }
    assert(s@.take(i as int) == s@);
    v.push(0);
    v
}

/// The replacement character U+FFFD, which a lossy conversion into UTF-16
/// leaves where its input was not valid.
pub const REPLACEMENT_CHAR: u16 = 0xFFFD;

/// Checks wide text for the replacement character: the text itself where it
/// holds none, an error where it holds one.
pub fn valid(s: &[u16]) -> (r: Result<&[u16], Error>)
    ensures
        match r {
            Ok(t) => !s@.contains(REPLACEMENT_CHAR) && t@ == s@,
            Err(_) => s@.contains(REPLACEMENT_CHAR),
        },
{
    let mut i: usize = 0;
    while i < s.len()
        invariant
            i <= s@.len(),
            forall|j: int| 0 <= j < i ==> s@[j] != REPLACEMENT_CHAR,
        decreases s@.len() - i,
    {
        if s[i] == REPLACEMENT_CHAR {
            return Err(Error);
        }
        i = i + 1;
    }
    Ok(s)
}

/// The UTF-16 code units of one character.
pub open spec fn utf16_units(c: char) -> Seq<u16> {
    let v = c as u32;
    if v < 0x10000 {
        seq![v as u16]
    } else {
        let w = (v - 0x10000) as u32;
        seq![(0xD800 + w / 1024) as u16, (0xDC00 + w % 1024) as u16]
    }
}

/// The UTF-16 encoding of a character sequence.
pub open spec fn utf16_encode(s: Seq<char>) -> Seq<u16>
    decreases s.len(),
{
    if s.len() == 0 {
        seq![]
    } else {
        utf16_encode(s.drop_last()) + utf16_units(s.last())
    }
}

fn push_utf16(out: &mut Vec<u16>, c: char)
    ensures
        final(out)@ == old(out)@ + utf16_units(c),
{
    let v = c as u32;
    if v < 0x10000 {
        out.push(v as u16);
    } else {
        assert(v <= 0x10FFFF);
        let w = v - 0x10000;
        let hi = (0xD800 + w / 1024) as u16;
        let lo = (0xDC00 + w % 1024) as u16;
        out.push(hi);
        out.push(lo);
        assert(out@ == old(out)@ + seq![hi, lo]);
    }
}

/// Encoding of paths for the wide-character system interfaces.
pub trait PathExt {
    /// The characters of the path.
    spec fn path_chars(&self) -> Seq<char>;

    /// The UTF-16 encoding of the path.
    fn to_wide(&self) -> (r: Vec<u16>)
        ensures
            r@ == utf16_encode(self.path_chars()),
    ;

    /// The UTF-16 encoding of the path, with a terminating `0`.
    fn to_wide_null(&self) -> (r: Vec<u16>)
        ensures
            r@ == utf16_encode(self.path_chars()).push(0),
    ;
}

impl PathExt for str {
    open spec fn path_chars(&self) -> Seq<char> {
        self@
    }

    fn to_wide(&self) -> (r: Vec<u16>) {
        let chars = chars_of(self);
        let mut out: Vec<u16> = Vec::new();
        let mut i: usize = 0;
        while i < chars.len()
            invariant
                i <= chars@.len(),
                chars@ == self@,
                out@ == utf16_encode(chars@.take(i as int)),
            decreases chars@.len() - i,
        {
            push_utf16(&mut out, chars[i]);
            assert(chars@.take(i + 1).drop_last() == chars@.take(i as int));
            i = i + 1;
        }
        assert(chars@.take(i as int) == chars@);
        out
    }

    fn to_wide_null(&self) -> (r: Vec<u16>) {
        let mut out = self.to_wide();
        out.push(0);
        out
    }
}

} // verus!
