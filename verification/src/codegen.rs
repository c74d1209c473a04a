//! Build-time data checks: byte-string literals, character mapping tables and
//! text translation tables.
use vstd::prelude::*;
use crate::text::{chars_of, string_from_chars, is_hex, hex_value, all_hex, hex_val};
use crate::vfs_rules::chars_eq;

verus! {

/// Why a byte-string literal such as `"0C 00 FF"` was refused.  Bytes are
/// counted from 0.
#[derive(Clone, Copy, Debug, PartialEq, Eq, Structural)]
pub enum ByteSliceError {
    Empty,
    /// It starts or ends with a space.
    EdgeSpace,
    /// Two spaces follow each other.
    DoubleSpace,
    /// A byte is not two characters long.
    BadLength { index: usize },
    /// A byte holds a character that is not a hexadecimal digit.
    NotHex { index: usize },
}

/// The pieces of `s` between occurrences of `sep`, empty pieces included.
pub open spec fn split_on(s: Seq<char>, sep: char) -> Seq<Seq<char>>
    decreases s.len(),
{
    if s.len() == 0 {
        seq![seq![]]
    } else {
        let p = split_on(s.drop_last(), sep);
        if s.last() == sep {
            p.push(seq![])
        } else {
            p.update(p.len() - 1, p.last().push(s.last()))
        }
    }
}

/// The length of a character in UTF-8.
pub open spec fn utf8_len(c: char) -> nat {
    let v = c as u32;
    if v < 0x80 {
        1
    } else if v < 0x800 {
        2
    } else if v < 0x10000 {
        3
    } else {
        4
    }
}

/// The length of a character sequence in UTF-8.
pub open spec fn byte_len(s: Seq<char>) -> nat
    decreases s.len(),
{
    if s.len() == 0 {
        0
    } else {
        byte_len(s.drop_last()) + utf8_len(s.last())
    }
}

/// `s` holds two spaces in a row.
pub open spec fn has_double_space(s: Seq<char>) -> bool {
    exists|i: int| 0 <= i && i + 1 < s.len() && #[trigger] s[i] == ' ' && s[i + 1] == ' '
}

/// The bytes of the first `n` pieces, or the first piece that is not a byte.
pub open spec fn parse_pieces(parts: Seq<Seq<char>>, n: nat) -> Result<Seq<u8>, ByteSliceError>
    decreases n,
{
    if n == 0 {
        Ok(seq![])
    } else {
        match parse_pieces(parts, (n - 1) as nat) {
            Err(e) => Err(e),
            Ok(b) => {
                let p = parts[n - 1];
                if byte_len(p) != 2 {
                    Err(ByteSliceError::BadLength { index: (n - 1) as usize })
                } else if !all_hex(p) {
                    Err(ByteSliceError::NotHex { index: (n - 1) as usize })
                } else {
                    Ok(b.push(hex_value(p) as u8))
                }
            },
        }
    }
}

/// The bytes that a literal such as `"0C 00 FF"` denotes: two hexadecimal
/// digits per byte, bytes separated by exactly one space.
pub open spec fn byte_slice_spec(s: Seq<char>) -> Result<Seq<u8>, ByteSliceError> {
    if s.len() == 0 {
        Err(ByteSliceError::Empty)
    } else if s[0] == ' ' || s.last() == ' ' {
        Err(ByteSliceError::EdgeSpace)
    } else if has_double_space(s) {
        Err(ByteSliceError::DoubleSpace)
    } else {
        let parts = split_on(s, ' ');
        parse_pieces(parts, parts.len())
    }
}

fn utf8_len_exec(c: char) -> (r: usize)
    ensures
        r == utf8_len(c),
{
    let v = c as u32;
    if v < 0x80 {
        1
    } else if v < 0x800 {
        2
    } else if v < 0x10000 {
        3
    } else {
        4
    }
}

proof fn lemma_byte_len_bound(s: Seq<char>)
    ensures
        byte_len(s) <= 4 * s.len(),
        byte_len(s) >= s.len(),
    decreases s.len(),
{
    if s.len() > 0 {
        lemma_byte_len_bound(s.drop_last());
    }
}

fn check_piece(p: &[char], index: usize) -> (r: Result<u8, ByteSliceError>)
    ensures
        match r {
            Ok(b) => byte_len(p@) == 2 && all_hex(p@) && b == hex_value(p@),
            Err(e) => (byte_len(p@) != 2 && e == ByteSliceError::BadLength { index })
                || (byte_len(p@) == 2 && !all_hex(p@) && e == ByteSliceError::NotHex { index }),
        },
{
    let mut n: usize = 0;
    let mut i: usize = 0;
    proof {
        lemma_byte_len_bound(p@);
    }
    assert(p@.take(0) == Seq::<char>::empty());
    while i < p.len()
        invariant
            i <= p@.len(),
            n == byte_len(p@.take(i as int)),
            n <= 4 * i,
        decreases p@.len() - i,
    {
        assert(p@.take(i + 1).drop_last() == p@.take(i as int));
        if n > 2 {
            proof {
                lemma_byte_len_prefix(p@, i + 1);
            }
            return Err(ByteSliceError::BadLength { index });
        }
        n = n + utf8_len_exec(p[i]);
        i = i + 1;
    }
    assert(p@.take(i as int) == p@);
    if n != 2 {
        return Err(ByteSliceError::BadLength { index });
    }
    proof {
        lemma_byte_len_bound(p@);
    }
    let mut k: usize = 0;
    while k < p.len()
        invariant
            k <= p@.len(),
            byte_len(p@) == 2,
            forall|j: int| 0 <= j < k ==> is_hex(#[trigger] p@[j]),
        decreases p@.len() - k,
    {
        let c = p[k];
        let ok = ('0' <= c && c <= '9') || ('a' <= c && c <= 'f') || ('A' <= c && c <= 'F');
        if !ok {
            assert(!is_hex(p@[k as int]));
            return Err(ByteSliceError::NotHex { index });
        }
        k = k + 1;
    }
    assert(all_hex(p@));
    proof {
        lemma_hex_byte_len(p@);
    }
    assert(p@.len() == 2);
    let d0 = hex_digit_value(p[0]);
    let d1 = hex_digit_value(p[1]);
    assert(p@.take(1).drop_last() == Seq::<char>::empty());
    assert(p@.take(1).last() == p@[0]);
    assert(hex_value(Seq::<char>::empty()) == 0);
    assert(hex_value(p@.take(1)) == hex_val(p@[0]));
    assert(p@.drop_last() == p@.take(1));
    assert(hex_value(p@) == 16 * hex_val(p@[0]) + hex_val(p@[1]));
    Ok(d0 * 16 + d1)
}

fn hex_digit_value(c: char) -> (d: u8)
    requires
        is_hex(c),
    ensures
        d == hex_val(c),
        d < 16,
{
    if '0' <= c && c <= '9' {
        ((c as u32) - 48) as u8
    } else if 'a' <= c && c <= 'f' {
        ((c as u32) - 87) as u8
    } else {
        ((c as u32) - 55) as u8
    }
}

proof fn lemma_hex_byte_len(s: Seq<char>)
    requires
        all_hex(s),
    ensures
        byte_len(s) == s.len(),
    decreases s.len(),
{
    if s.len() > 0 {
        assert(is_hex(s[s.len() - 1]));
        assert(all_hex(s.drop_last())) by {
            assert forall|i: int| 0 <= i < s.drop_last().len() implies is_hex(#[trigger] s.drop_last()[i]) by {
                assert(is_hex(s[i]));
            }
        }
        lemma_hex_byte_len(s.drop_last());
    }
}

proof fn lemma_byte_len_prefix(s: Seq<char>, n: int)
    requires
        0 <= n <= s.len(),
    ensures
        byte_len(s.take(n)) <= byte_len(s),
    decreases s.len() - n,
{
    if n < s.len() {
        lemma_byte_len_prefix(s, n + 1);
        assert(s.take(n + 1).drop_last() == s.take(n));
    } else {
        assert(s.take(n) == s);
    }
}

/// The bytes that a literal such as `"0C 00 FF"` denotes.
pub fn byte_slice(s: &str) -> (r: Result<Vec<u8>, ByteSliceError>)
    ensures
        match byte_slice_spec(s@) {
            Ok(b) => r matches Ok(v) && v@ == b,
            Err(e) => r == Err::<Vec<u8>, ByteSliceError>(e),
        },
{
    let chars = chars_of(s);
    if chars.len() == 0 {
        return Err(ByteSliceError::Empty);
    }
    if chars[0] == ' ' || chars[chars.len() - 1] == ' ' {
        return Err(ByteSliceError::EdgeSpace);
    }
    let mut i: usize = 0;
    while i < chars.len() - 1
        invariant
            chars@ == s@,
            i < chars@.len(),
            s@.len() > 0 && s@[0] != ' ' && s@.last() != ' ',
            forall|j: int| 0 <= j < i ==> !(#[trigger] chars@[j] == ' ' && chars@[j + 1] == ' '),
        decreases chars@.len() - i,
    {
        if chars[i] == ' ' && chars[i + 1] == ' ' {
            assert(s@[i as int] == ' ' && s@[i + 1] == ' ');
            assert(has_double_space(s@));
            return Err(ByteSliceError::DoubleSpace);
        }
        i = i + 1;
    }
    assert(!has_double_space(s@));
    let ghost parts = split_on(s@, ' ');
    proof {
        lemma_split_on_len(s@, ' ');
    }
    let mut out: Vec<u8> = Vec::new();
    let mut cur: Vec<char> = Vec::new();
    let mut done: usize = 0;
    let mut k: usize = 0;
    assert(s@.take(0) == Seq::<char>::empty());
    while k < chars.len()
        invariant
            chars@ == s@,
            k <= chars@.len(),
            s@.len() > 0 && s@[0] != ' ' && s@.last() != ' ',
            !has_double_space(s@),
            parts == split_on(s@, ' '),
            split_on(s@.take(k as int), ' ').len() == done + 1,
            split_on(s@.take(k as int), ' ').last() == cur@,
            done < parts.len(),
            parse_pieces(parts, done as nat) == Ok::<Seq<u8>, ByteSliceError>(out@),
        decreases chars@.len() - k,
    {
        let c = chars[k];
        let ghost a = split_on(s@.take(k as int), ' ');
        assert(s@.take(k + 1).drop_last() == s@.take(k as int));
        assert(s@.take(k + 1).last() == c);
        proof {
            lemma_split_on_prefix(s@, ' ', k + 1);
            lemma_split_on_len(s@.take(k as int), ' ');
        }
        if c == ' ' {
            assert(split_on(s@.take(k + 1), ' ') == a.push(seq![]));
            assert(split_on(s@.take(k + 1), ' ')[done as int] == a[done as int]);
            assert(parts[done as int] == cur@);
            match check_piece(&cur, done) {
                Err(e) => {
                    proof {
                        lemma_parse_pieces_err(parts, (done + 1) as nat, parts.len());
                    }
                    return Err(e);
                },
                Ok(b) => {
                    out.push(b);
                },
            }
            done = done + 1;
            cur = Vec::new();
        } else {
            cur.push(c);
        }
        k = k + 1;
    }
    assert(s@.take(k as int) == s@);
    proof {
        lemma_split_on_prefix(s@, ' ', k as int);
    }
    assert(parts[done as int] == cur@);
    match check_piece(&cur, done) {
        Err(e) => {
            proof {
                lemma_parse_pieces_err(parts, (done + 1) as nat, parts.len());
            }
            Err(e)
        },
        Ok(b) => {
            out.push(b);
            Ok(out)
        },
    }
}

proof fn lemma_split_on_prefix(s: Seq<char>, sep: char, k: int)
    requires
        0 <= k <= s.len(),
    ensures
        split_on(s.take(k), sep).len() >= 1,
        split_on(s.take(k), sep).len() <= split_on(s, sep).len(),
        forall|j: int|
            0 <= j < split_on(s.take(k), sep).len() - 1 ==> #[trigger] split_on(s.take(k), sep)[j]
                == split_on(s, sep)[j],
        k == s.len() ==> split_on(s.take(k), sep) == split_on(s, sep),
    decreases s.len() - k,
{
    lemma_split_on_len(s.take(k), sep);
    if k < s.len() {
        lemma_split_on_prefix(s, sep, k + 1);
        let a = split_on(s.take(k), sep);
        let b = split_on(s.take(k + 1), sep);
        assert(s.take(k + 1).drop_last() == s.take(k));
        assert(s.take(k + 1).last() == s[k]);
        assert(b.len() >= a.len());
        assert forall|j: int| 0 <= j < a.len() - 1 implies #[trigger] a[j] == split_on(s, sep)[j] by {
            assert(a[j] == b[j]);
        }
    } else {
        assert(s.take(k) == s);
    }
}

proof fn lemma_split_on_len(s: Seq<char>, sep: char)
    ensures
        split_on(s, sep).len() >= 1,
        split_on(s, sep).len() <= s.len() + 1,
    decreases s.len(),
{
    if s.len() > 0 {
        lemma_split_on_len(s.drop_last(), sep);
    }
}

proof fn lemma_parse_pieces_err(parts: Seq<Seq<char>>, n: nat, m: nat)
    requires
        n <= m,
        parse_pieces(parts, n) is Err,
    ensures
        parse_pieces(parts, m) == parse_pieces(parts, n),
    decreases m - n,
{
    if n < m {
        lemma_parse_pieces_err(parts, n, (m - 1) as nat);
    }
}

/// Why a mapping configuration was refused.
#[derive(Clone, Copy, Debug, PartialEq, Eq, Structural)]
pub enum MappingError {
    /// The source encoding is not one the table knows.
    UnknownEncoding,
    /// A character of the mapping lies outside the Basic Multilingual Plane.
    OutsideBmp { from: char, to: char },
}

/// The code page that a mapping configuration names: its own code page where
/// it gives one, else that of its source encoding, else 0.
pub open spec fn code_page_spec(code_page: Option<u32>, src_encoding: Option<Seq<char>>) -> Result<
    u32,
    MappingError,
> {
    match code_page {
        Some(cp) => Ok(cp),
        None => match src_encoding {
            Some(e) => if e == "ShiftJIS"@ || e == "CP932"@ {
                Ok(932)
            } else if e == "GBK"@ {
                Ok(936)
            } else {
                Err(MappingError::UnknownEncoding)
            },
            None => Ok(0),
        },
    }
}

fn is_text(s: &str, lit: &str) -> (r: bool)
    ensures
        r == (s@ == lit@),
{
    let a = chars_of(s);
    let b = chars_of(lit);
    chars_eq(&a, &b)
}

/// The code page of a mapping configuration.
pub fn code_page_for(code_page: Option<u32>, src_encoding: Option<&str>) -> (r: Result<u32, MappingError>)
    ensures
        r == code_page_spec(
            code_page,
            match src_encoding {
                Some(e) => Some(e@),
                None => None,
            },
        ),
{
    match code_page {
        Some(cp) => Ok(cp),
        None => match src_encoding {
            Some(e) => if is_text(e, "ShiftJIS") || is_text(e, "CP932") {
                Ok(932)
            } else if is_text(e, "GBK") {
                Ok(936)
            } else {
                Err(MappingError::UnknownEncoding)
            },
            None => Ok(0),
        },
    }
}

/// The pairs of `s` whose key is `k`, in order.
pub open spec fn key_is(k: u16) -> spec_fn((u16, u16)) -> bool {
    |p: (u16, u16)| p.0 == k
}

/// `t` holds the pairs of `s` ordered by key, pairs with equal keys in their
/// original order.
pub open spec fn sorted_by_key(t: Seq<(u16, u16)>, s: Seq<(u16, u16)>) -> bool {
    &&& forall|i: int, j: int| 0 <= i < j < t.len() ==> t[i].0 <= t[j].0
    &&& forall|k: u16| #[trigger] t.filter(key_is(k)) == s.filter(key_is(k))
}

/// Where a character pair lies beyond the Basic Multilingual Plane.
pub open spec fn outside_bmp(p: (char, char)) -> bool {
    p.0 as u32 > 0xFFFF || p.1 as u32 > 0xFFFF
}

/// The index of the first pair outside the Basic Multilingual Plane.
pub open spec fn first_outside(s: Seq<(char, char)>, i: int) -> Option<int>
    decreases s.len() - i,
{
    if i < 0 || i >= s.len() {
        None
    } else if outside_bmp(s[i]) {
        Some(i)
    } else {
        first_outside(s, i + 1)
    }
}

/// The pairs as 16-bit code units.
pub open spec fn narrow(s: Seq<(char, char)>) -> Seq<(u16, u16)> {
    s.map_values(|p: (char, char)| (p.0 as u16, p.1 as u16))
}

proof fn lemma_insert_key(v: Seq<(u16, u16)>, k: int, x: (u16, u16), a: u16)
    requires
        0 <= k <= v.len(),
        forall|j: int| k <= j < v.len() ==> v[j].0 > x.0,
    ensures
        v.insert(k, x).filter(key_is(a)) == if a == x.0 {
            v.filter(key_is(a)).push(x)
        } else {
            v.filter(key_is(a))
        },
{
    let pred = key_is(a);
    let l = v.take(k);
    let r = v.skip(k);
    assert(v.insert(k, x) == l + seq![x] + r);
    assert(v == l + r);
    assert(l + seq![x] == l.push(x));
    Seq::filter_distributes_over_add(l + seq![x], r, pred);
    Seq::filter_distributes_over_add(l, r, pred);
    l.lemma_filter_push(x, pred);
    if a == x.0 {
        assert(r.all(|p: (u16, u16)| !pred(p)));
        r.lemma_all_neg_filter_empty(pred);
        assert(r.filter(pred) == Seq::<(u16, u16)>::empty());
        assert(l.filter(pred) + r.filter(pred) == l.filter(pred));
        assert(l.filter(pred).push(x) + r.filter(pred) == l.filter(pred).push(x));
    }
}

/// The character mapping as 16-bit code units ordered by source unit; a pair
/// outside the Basic Multilingual Plane is refused (the first one found).
pub fn bmp_mapping(pairs: &[(char, char)]) -> (r: Result<Vec<(u16, u16)>, MappingError>)
    ensures
        match first_outside(pairs@, 0) {
            Some(i) => r == Err::<Vec<(u16, u16)>, MappingError>(
                MappingError::OutsideBmp { from: pairs@[i].0, to: pairs@[i].1 },
            ),
            None => r matches Ok(v) && sorted_by_key(v@, narrow(pairs@)),
        },
{
    let mut i: usize = 0;
    while i < pairs.len()
        invariant
            i <= pairs@.len(),
            first_outside(pairs@, 0) == first_outside(pairs@, i as int),
        decreases pairs@.len() - i,
    {
        let (a, b) = pairs[i];
        if (a as u32) > 0xFFFF || (b as u32) > 0xFFFF {
            return Err(MappingError::OutsideBmp { from: a, to: b });
        }
        i = i + 1;
    }
    let ghost all = narrow(pairs@);
    let mut out: Vec<(u16, u16)> = Vec::new();
    let mut i: usize = 0;
    assert(all.take(0) =~= out@);
    while i < pairs.len()
        invariant
            i <= pairs@.len(),
            all == narrow(pairs@),
            sorted_by_key(out@, all.take(i as int)),
        decreases pairs@.len() - i,
    {
        let (a, b) = pairs[i];
        let x: (u16, u16) = (a as u16, b as u16);
        assert(all[i as int] == x);
        let mut k: usize = out.len();
        while k > 0 && out[k - 1].0 > x.0
            invariant
                k <= out@.len(),
                forall|j: int| k <= j < out@.len() ==> out@[j].0 > x.0,
            decreases k,
        {
            k = k - 1;
        }
        let ghost before = out@;
        out.insert(k, x);
        proof {
            assert(all.take(i + 1) == all.take(i as int).push(x));
            assert forall|c: u16| #[trigger] out@.filter(key_is(c)) == all.take(i + 1).filter(key_is(c)) by {
                lemma_insert_key(before, k as int, x, c);
                all.take(i as int).lemma_filter_push(x, key_is(c));
            }
            assert forall|p: int, q: int| 0 <= p < q < out@.len() implies out@[p].0 <= out@[q].0 by {
                if q < k {
                } else if q == k {
                    if p < k - 1 {
                        assert(before[p].0 <= before[k - 1].0);
                    }
                } else if p < k {
                    assert(before[p].0 <= before[q - 1].0);
                } else if p == k {
                } else {
                    assert(before[p - 1].0 <= before[q - 1].0);
                }
            }
        }
        i = i + 1;
    }
    assert(all.take(i as int) == all);
    Ok(out)
}

} // verus!
