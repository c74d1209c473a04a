//! Byte patches in the x64dbg "1337" format.
//!
//! A patch file is a list of lines.  Empty lines and lines starting with `//`
//! or `#` are ignored; `>name` selects the module that the following lines
//! patch; `address:old->new` replaces the byte at the hexadecimal offset
//! `address` of the current module by the hexadecimal byte `new`.
use vstd::prelude::*;
use crate::text::{
    law_trim_ignores_trailing_space, trim, trim_chars, parse_hex, parse_hex_spec, hex_body, lower_seq, chars_of, string_from_chars,
    first_index, lemma_first_index, string_views, to_lower, lower,
};
use crate::vfs_rules::chars_eq;

verus! {

/// Why a set of patch files was refused.  Files and lines are counted from 0.
#[derive(Clone, Copy, Debug, PartialEq, Eq, Structural)]
pub enum Patch1337Error {
    /// A line is neither a comment, a module line nor `address:old->new`.
    BadFormat { file: usize, line: usize },
    /// The address of a patch line is not a hexadecimal `u64`.
    BadAddress { file: usize, line: usize },
    /// The new byte of a patch line is not a hexadecimal `u8`.
    BadByte { file: usize, line: usize },
    /// A patch line comes before any module line of its file.
    MissingModule { file: usize, line: usize },
    /// More than one module line names an `.exe` module.
    TooManyMainModules { count: usize },
}

/// The lines of `s`, separated by `\n`.  A final empty piece is kept; the
/// scanner skips empty lines, so it changes nothing.
pub open spec fn split_lines(s: Seq<char>) -> Seq<Seq<char>>
    decreases s.len(),
{
    if s.len() == 0 {
        seq![seq![]]
    } else {
        let p = split_lines(s.drop_last());
        if s.last() == '\n' {
            p.push(seq![])
        } else {
            p.update(p.len() - 1, p.last().push(s.last()))
        }
    }
}

pub proof fn lemma_split_lines_nonempty(s: Seq<char>)
    ensures
        split_lines(s).len() >= 1,
    decreases s.len(),
{
    if s.len() > 0 {
        lemma_split_lines_nonempty(s.drop_last());
    }
}

/// Index of the first `->` in `s`.
pub open spec fn first_arrow(s: Seq<char>) -> Option<int>
    decreases s.len(),
{
    if s.len() < 2 {
        None
    } else if s[0] == '-' && s[1] == '>' {
        Some(0)
    } else {
        match first_arrow(s.drop_first()) {
            Some(k) => Some(k + 1),
            None => None,
        }
    }
}

/// `s` holds `->` at `i`.
pub open spec fn arrow_at(s: Seq<char>, i: int) -> bool {
    0 <= i && i + 1 < s.len() && s[i] == '-' && s[i + 1] == '>'
}

pub proof fn lemma_first_arrow(s: Seq<char>)
    ensures
        match first_arrow(s) {
            Some(k) => arrow_at(s, k) && forall|j: int| 0 <= j < k ==> !arrow_at(s, j),
            None => forall|j: int| !arrow_at(s, j),
        },
    decreases s.len(),
{
    if s.len() >= 2 && !(s[0] == '-' && s[1] == '>') {
        lemma_first_arrow(s.drop_first());
        assert forall|j: int| 0 < j implies arrow_at(s, j) == arrow_at(s.drop_first(), j - 1) by {}
    }
}

/// The name of a module line ends with `.exe`, in any ASCII case.
pub open spec fn is_exe(name: Seq<char>) -> bool {
    name.len() >= 4 && lower_seq(name.skip(name.len() - 4)) == seq!['.', 'e', 'x', 'e']
}

/// What one line of a patch file is.
pub enum LineKind {
    Skip,
    Module(Seq<char>),
    Patch(Seq<char>, Seq<char>),
    Malformed,
}

/// A line without its comment: what comes before its first `#`.
pub open spec fn strip_comment(line: Seq<char>) -> Seq<char> {
    match first_index(line, '#') {
        Some(i) => line.take(i),
        None => line,
    }
}

/// The kind of a line, read without its `#` comment and after trimming white
/// space.  A patch line is split at its first `:` and the rest at its first
/// `->`; the byte between them, the original value, is not read.
pub open spec fn line_kind(line: Seq<char>) -> LineKind {
    let t = trim(strip_comment(line));
    if t.len() == 0 || (t.len() >= 2 && t[0] == '/' && t[1] == '/') {
        LineKind::Skip
    } else if t[0] == '>' {
        LineKind::Module(t.drop_first())
    } else {
        match first_index(t, ':') {
            None => LineKind::Malformed,
            Some(c) => {
                let rest = t.skip(c + 1);
                match first_arrow(rest) {
                    None => LineKind::Malformed,
                    Some(a) => LineKind::Patch(t.take(c), rest.skip(a + 2)),
                }
            },
        }
    }
}

proof fn lemma_first_index_push(s: Seq<char>, c: char, x: char)
    ensures
        first_index(s.push(x), c) == (match first_index(s, c) {
            Some(k) => Some(k),
            None => if x == c {
                Some(s.len() as int)
            } else {
                None
            },
        }),
    decreases s.len(),
{
    assert(first_index(Seq::<char>::empty(), c) is None);
    if s.len() > 0 {
        assert(s.push(x)[0] == s[0]);
        assert(s.push(x).drop_first() == s.drop_first().push(x));
        lemma_first_index_push(s.drop_first(), c, x);
        assert(s.drop_first().len() + 1 == s.len());
    } else {
        assert(s.push(x).drop_first() == Seq::<char>::empty());
        assert(s.push(x)[0] == x);
        assert(first_index(s, c) is None);
    }
}

/// A line reads the same with a carriage return (as a CRLF line end leaves
/// it), a space, a tab, another ASCII white-space character, a no-break space
/// or an ideographic space at its end.
pub proof fn law_line_kind_ignores_line_end(line: Seq<char>, c: char)
    requires
        c == '\r' || c == ' ' || c == '\t' || c == '\n' || c == '\u{0B}' || c == '\u{0C}' || c
            == '\u{A0}' || c == '\u{3000}',
    ensures
        line_kind(line.push(c)) == line_kind(line),
{
    lemma_first_index_push(line, '#', c);
    match first_index(line, '#') {
        Some(i) => {
            crate::text::lemma_first_index(line, '#');
            assert(line.push(c).take(i) == line.take(i));
            assert(strip_comment(line.push(c)) == strip_comment(line));
        },
        None => {
            assert(strip_comment(line.push(c)) == strip_comment(line).push(c));
            law_trim_ignores_trailing_space(line, c);
        },
    }
}

/// The state of a scan: the current module, how many `.exe` module lines were
/// seen, and the patches of each module in the order their modules first
/// received one.
pub struct ScanState {
    pub module: Option<Seq<char>>,
    pub mains: nat,
    pub groups: Seq<(Seq<char>, Seq<(u64, u8)>)>,
}

/// The index of the group of module `m`.
pub open spec fn group_index(g: Seq<(Seq<char>, Seq<(u64, u8)>)>, m: Seq<char>) -> Option<int>
    decreases g.len(),
{
    if g.len() == 0 {
        None
    } else if g.last().0 == m {
        Some(g.len() - 1)
    } else {
        group_index(g.drop_last(), m)
    }
}

pub proof fn lemma_group_index(g: Seq<(Seq<char>, Seq<(u64, u8)>)>, m: Seq<char>)
    ensures
        match group_index(g, m) {
            Some(i) => 0 <= i < g.len() && g[i].0 == m,
            None => forall|i: int| 0 <= i < g.len() ==> g[i].0 != m,
        },
    decreases g.len(),
{
    if g.len() > 0 && g.last().0 != m {
        lemma_group_index(g.drop_last(), m);
        assert forall|i: int| 0 <= i < g.len() - 1 implies g[i] == g.drop_last()[i] by {}
    }
}

/// `g` with `item` appended to the patches of module `m`.
pub open spec fn add_patch(
    g: Seq<(Seq<char>, Seq<(u64, u8)>)>,
    m: Seq<char>,
    item: (u64, u8),
) -> Seq<(Seq<char>, Seq<(u64, u8)>)> {
    match group_index(g, m) {
        Some(i) => g.update(i, (m, g[i].1.push(item))),
        None => g.push((m, seq![item])),
    }
}

/// One line scanned from state `st`; `file` and `idx` locate it.
pub open spec fn scan_line(st: ScanState, line: Seq<char>, file: int, idx: int) -> Result<
    ScanState,
    Patch1337Error,
> {
    match line_kind(line) {
        LineKind::Skip => Ok(st),
        LineKind::Module(m) => Ok(
            ScanState {
                module: Some(m),
                mains: st.mains + if is_exe(m) {
                    1nat
                } else {
                    0nat
                },
                groups: st.groups,
            },
        ),
        LineKind::Malformed => Err(Patch1337Error::BadFormat { file: file as usize, line: idx as usize }),
        LineKind::Patch(a, b) => match parse_hex_spec(hex_body(trim(a)), 0xFFFF_FFFF_FFFF_FFFF) {
            None => Err(Patch1337Error::BadAddress { file: file as usize, line: idx as usize }),
            Some(addr) => match parse_hex_spec(hex_body(trim(b)), 0xFF) {
                None => Err(Patch1337Error::BadByte { file: file as usize, line: idx as usize }),
                Some(byte) => match st.module {
                    None => Err(
                        Patch1337Error::MissingModule { file: file as usize, line: idx as usize },
                    ),
                    Some(m) => Ok(
                        ScanState {
                            module: st.module,
                            mains: st.mains,
                            groups: add_patch(st.groups, m, (addr as u64, byte as u8)),
                        },
                    ),
                },
            },
        },
    }
}

/// The first `n` lines of file number `file` scanned from `st`.
pub open spec fn scan_lines(st: ScanState, lines: Seq<Seq<char>>, file: int, n: nat) -> Result<
    ScanState,
    Patch1337Error,
>
    decreases n,
{
    if n == 0 {
        Ok(st)
    } else {
        match scan_lines(st, lines, file, (n - 1) as nat) {
            Err(e) => Err(e),
            Ok(s) => scan_line(s, lines[n - 1], file, n - 1),
        }
    }
}

/// The first `n` files scanned in order; each file starts without a module.
pub open spec fn scan_files(files: Seq<Seq<char>>, n: nat) -> Result<ScanState, Patch1337Error>
    decreases n,
{
    if n == 0 {
        Ok(ScanState { module: None, mains: 0, groups: seq![] })
    } else {
        match scan_files(files, (n - 1) as nat) {
            Err(e) => Err(e),
            Ok(s) => {
                let lines = split_lines(files[n - 1]);
                scan_lines(
                    ScanState { module: None, mains: s.mains, groups: s.groups },
                    lines,
                    n - 1,
                    lines.len(),
                )
            },
        }
    }
}

fn split_lines_exec(s: &[char]) -> (r: Vec<Vec<char>>)
    ensures
        r@.map_values(|l: Vec<char>| l@) == split_lines(s@),
{
    let mut done: Vec<Vec<char>> = Vec::new();
    let mut cur: Vec<char> = Vec::new();
    let mut i: usize = 0;
    assert(s@.take(0) == Seq::<char>::empty());
    while i < s.len()
        invariant
            i <= s@.len(),
            done@.map_values(|l: Vec<char>| l@).push(cur@) == split_lines(s@.take(i as int)),
        decreases s@.len() - i,
    {
        let ghost before = s@.take(i as int);
        assert(s@.take(i + 1).drop_last() == before);
        assert(s@.take(i + 1).last() == s@[i as int]);
        proof {
            lemma_split_lines_nonempty(before);
        }
        if s[i] == '\n' {
            let ghost dv = done@.map_values(|l: Vec<char>| l@);
            let finished = cur;
            cur = Vec::new();
            done.push(finished);
            assert(done@.map_values(|l: Vec<char>| l@) == dv.push(finished@));
        } else {
            let ghost dv = done@.map_values(|l: Vec<char>| l@);
            let ghost p = dv.push(cur@);
            cur.push(s[i]);
            assert(dv.push(cur@) == p.update(p.len() - 1, p.last().push(s@[i as int])));
        }
        i = i + 1;
    }
    assert(s@.take(i as int) == s@);
    done.push(cur);
    done
}

fn find_char(s: &[char], c: char) -> (r: Option<usize>)
    ensures
        match r {
            Some(i) => first_index(s@, c) == Some(i as int),
            None => first_index(s@, c) is None,
        },
{
    proof {
        lemma_first_index(s@, c);
    }
    let mut i: usize = 0;
    while i < s.len()
        invariant
            i <= s@.len(),
            forall|j: int| 0 <= j < i ==> s@[j] != c,
            match first_index(s@, c) {
                Some(k) => 0 <= k < s.len() && s@[k] == c && forall|j: int| 0 <= j < k ==> s@[j] != c,
                None => forall|j: int| 0 <= j < s.len() ==> s@[j] != c,
            },
        decreases s@.len() - i,
    {
        if s[i] == c {
            return Some(i);
        }
        i = i + 1;
    }
    None
}

fn find_arrow(s: &[char]) -> (r: Option<usize>)
    ensures
        match r {
            Some(i) => first_arrow(s@) == Some(i as int),
            None => first_arrow(s@) is None,
        },
{
    proof {
        lemma_first_arrow(s@);
    }
    let mut i: usize = 0;
    while i < s.len() && s.len() - i >= 2
        invariant
            i <= s@.len(),
            forall|j: int| 0 <= j < i ==> !arrow_at(s@, j),
            match first_arrow(s@) {
                Some(k) => arrow_at(s@, k) && forall|j: int| 0 <= j < k ==> !arrow_at(s@, j),
                None => forall|j: int| !arrow_at(s@, j),
            },
        decreases s@.len() - i,
    {
        if s[i] == '-' && s[i + 1] == '>' {
            assert(arrow_at(s@, i as int));
            return Some(i);
        }
        i = i + 1;
    }
    assert forall|j: int| !arrow_at(s@, j) by {}
    None
}

fn slice_from(s: &[char], start: usize) -> (r: Vec<char>)
    requires
        start <= s@.len(),
    ensures
        r@ == s@.skip(start as int),
{
    let mut r: Vec<char> = Vec::new();
    let mut i: usize = start;
    while i < s.len()
        invariant
            start <= i <= s@.len(),
            r@ == s@.subrange(start as int, i as int),
        decreases s@.len() - i,
    {
        r.push(s[i]);
        i = i + 1;
        assert(r@ == s@.subrange(start as int, i as int));
    }
    r
}

fn slice_to(s: &[char], end: usize) -> (r: Vec<char>)
    requires
        end <= s@.len(),
    ensures
        r@ == s@.take(end as int),
{
    let mut r: Vec<char> = Vec::new();
    let mut i: usize = 0;
    while i < end
        invariant
            i <= end <= s@.len(),
            r@ == s@.take(i as int),
        decreases end - i,
    {
        r.push(s[i]);
        i = i + 1;
        assert(r@ == s@.take(i as int));
    }
    r
}

/// A classified line, as values.
enum LineClass {
    Skip,
    Module(Vec<char>),
    Patch(Vec<char>, Vec<char>),
    Malformed,
}

spec fn class_view(c: LineClass) -> LineKind {
    match c {
        LineClass::Skip => LineKind::Skip,
        LineClass::Module(m) => LineKind::Module(m@),
        LineClass::Patch(a, b) => LineKind::Patch(a@, b@),
        LineClass::Malformed => LineKind::Malformed,
    }
}

fn classify(line: &[char]) -> (r: LineClass)
    ensures
        class_view(r) == line_kind(line@),
{
    let code = match find_char(line, '#') {
        Some(h) => {
            proof {
                lemma_first_index(line@, '#');
            }
            slice_to(line, h)
        },
        None => slice_to(line, line.len()),
    };
    assert(code@ == strip_comment(line@));
    let t = trim_chars(&code);
    if t.len() == 0 || (t.len() >= 2 && t[0] == '/' && t[1] == '/') {
        return LineClass::Skip;
    }
    if t[0] == '>' {
        let m = slice_from(&t, 1);
        assert(m@ == t@.drop_first());
        return LineClass::Module(m);
    }
    match find_char(&t, ':') {
        None => LineClass::Malformed,
        Some(c) => {
            proof {
                lemma_first_index(t@, ':');
            }
            let rest = slice_from(&t, c + 1);
            match find_arrow(&rest) {
                None => LineClass::Malformed,
                Some(a) => {
                    proof {
                        lemma_first_arrow(rest@);
                    }
                    let addr = slice_to(&t, c);
                    let byte = slice_from(&rest, a + 2);
                    LineClass::Patch(addr, byte)
                },
            }
        },
    }
}

fn hex_digits(s: &[char]) -> (r: Vec<char>)
    ensures
        r@ == hex_body(s@),
{
    if s.len() >= 2 && s[0] == '0' && (s[1] == 'x' || s[1] == 'X') {
        slice_from(s, 2)
    } else {
        slice_from(s, 0)
    }
}

fn is_exe_exec(name: &[char]) -> (r: bool)
    ensures
        r == is_exe(name@),
{
    if name.len() < 4 {
        return false;
    }
    let n = name.len();
    let a = to_lower(name[n - 4]);
    let b = to_lower(name[n - 3]);
    let c = to_lower(name[n - 2]);
    let d = to_lower(name[n - 1]);
    let r = a == '.' && b == 'e' && c == 'x' && d == 'e';
    let ghost tail = lower_seq(name@.skip(n - 4));
    assert(tail.len() == 4);
    assert(tail[0] == a && tail[1] == b && tail[2] == c && tail[3] == d);
    if r {
        assert(tail == seq!['.', 'e', 'x', 'e']);
    }
    r
}

/// The patches of `s` at address `a`.
pub open spec fn addr_is(a: u64) -> spec_fn((u64, u8)) -> bool {
    |p: (u64, u8)| p.0 == a
}

/// The patches of `s` at address `a`, in order.
pub open spec fn with_addr(s: Seq<(u64, u8)>, a: u64) -> Seq<(u64, u8)> {
    s.filter(addr_is(a))
}

/// `t` holds the patches of `s` ordered by address; patches at one address
/// keep their order (a stable sort).
pub open spec fn sorted_stably(t: Seq<(u64, u8)>, s: Seq<(u64, u8)>) -> bool {
    &&& forall|i: int, j: int| 0 <= i < j < t.len() ==> t[i].0 <= t[j].0
    &&& forall|a: u64| #[trigger] with_addr(t, a) == with_addr(s, a)
}

proof fn lemma_insert_filter(v: Seq<(u64, u8)>, k: int, x: (u64, u8), a: u64)
    requires
        0 <= k <= v.len(),
        forall|j: int| k <= j < v.len() ==> v[j].0 > x.0,
    ensures
        with_addr(v.insert(k, x), a) == if a == x.0 {
            with_addr(v, a).push(x)
        } else {
            with_addr(v, a)
        },
{
    let pred = addr_is(a);
    let l = v.take(k);
    let r = v.skip(k);
    assert(v.insert(k, x) == l + seq![x] + r);
    assert(v == l + r);
    assert(l + seq![x] == l.push(x));
    Seq::filter_distributes_over_add(l + seq![x], r, pred);
    Seq::filter_distributes_over_add(l, r, pred);
    l.lemma_filter_push(x, pred);
    if a == x.0 {
        assert(r.all(|p: (u64, u8)| !pred(p)));
        r.lemma_all_neg_filter_empty(pred);
        assert(r.filter(pred) == Seq::<(u64, u8)>::empty());
        assert(l.filter(pred) + r.filter(pred) == l.filter(pred));
        assert(l.filter(pred).push(x) + r.filter(pred) == l.filter(pred).push(x));
    }
}

/// The patches of `v` in a stable order by address.
fn sort_by_addr(v: &[(u64, u8)]) -> (r: Vec<(u64, u8)>)
    ensures
        sorted_stably(r@, v@),
{
    let mut out: Vec<(u64, u8)> = Vec::new();
    let mut i: usize = 0;
    assert(v@.take(0) =~= out@);
    while i < v.len()
        invariant
            i <= v@.len(),
            sorted_stably(out@, v@.take(i as int)),
        decreases v@.len() - i,
    {
        let x = v[i];
        let mut k: usize = out.len();
        while k > 0 && out[k - 1].0 > x.0
            invariant
                k <= out@.len(),
                forall|j: int| k <= j < out@.len() ==> out@[j].0 > x.0,
            decreases k,
        {
            k = k - 1;
        }
        let ghost before = out@;
        out.insert(k, x);
        proof {
            assert(v@.take(i + 1) == v@.take(i as int).push(x));
            assert forall|a: u64| #[trigger] with_addr(out@, a) == with_addr(v@.take(i + 1), a) by {
                lemma_insert_filter(before, k as int, x, a);
                v@.take(i as int).lemma_filter_push(x, addr_is(a));
            }
            assert forall|p: int, q: int| 0 <= p < q < out@.len() implies out@[p].0 <= out@[q].0 by {
                if q < k {
                } else if q == k {
                    if p < k - 1 {
                        assert(before[p].0 <= before[k - 1].0);
                    }
                } else if p < k {
                    assert(before[p].0 <= before[q - 1].0);
                } else if p == k {
                } else {
                    assert(before[p - 1].0 <= before[q - 1].0);
                }
            }
        }
        i = i + 1;
    }
    assert(v@.take(i as int) == v@);
    out
}

/// A run of bytes written at consecutive offsets from `offset`.
pub struct PatchRun {
    pub offset: u64,
    pub bytes: Vec<u8>,
}

/// The runs as (offset, bytes) pairs.
pub open spec fn runs_view(v: Seq<PatchRun>) -> Seq<(u64, Seq<u8>)> {
    v.map_values(|r: PatchRun| (r.offset, r.bytes@))
}

/// The (address, byte) pairs that a run writes.
pub open spec fn run_items(offset: u64, bytes: Seq<u8>) -> Seq<(int, u8)> {
    Seq::new(bytes.len(), |i: int| (offset + i, bytes[i]))
}

/// The (address, byte) pairs that the runs write, run after run.
pub open spec fn flatten_runs(runs: Seq<(u64, Seq<u8>)>) -> Seq<(int, u8)>
    decreases runs.len(),
{
    if runs.len() == 0 {
        seq![]
    } else {
        flatten_runs(runs.drop_last()) + run_items(runs.last().0, runs.last().1)
    }
}

/// The patches with their addresses as integers.
pub open spec fn widen(t: Seq<(u64, u8)>) -> Seq<(int, u8)> {
    t.map_values(|p: (u64, u8)| (p.0 as int, p.1))
}

/// `runs` writes exactly the patches of `t`, in order; every run is non-empty,
/// and no run starts where the one before it ends, so each run is as long as
/// the patches allow.
pub open spec fn runs_cover(runs: Seq<(u64, Seq<u8>)>, t: Seq<(u64, u8)>) -> bool {
    &&& flatten_runs(runs) == widen(t)
    &&& forall|i: int| 0 <= i < runs.len() ==> #[trigger] runs[i].1.len() > 0
    &&& forall|i: int|
        0 <= i < runs.len() - 1 ==> #[trigger] runs[i + 1].0 != runs[i].0 + runs[i].1.len()
}

/// Groups consecutive patches whose addresses follow each other into runs.
fn merge_runs(t: &[(u64, u8)]) -> (r: Vec<PatchRun>)
    ensures
        runs_cover(runs_view(r@), t@),
{
    let mut runs: Vec<PatchRun> = Vec::new();
    if t.len() == 0 {
        assert(runs_view(runs@) == Seq::<(u64, Seq<u8>)>::empty());
        assert(widen(t@) == Seq::<(int, u8)>::empty());
        return runs;
    }
    let mut off: u64 = t[0].0;
    let mut cur: Vec<u8> = Vec::new();
    cur.push(t[0].1);
    let mut i: usize = 1;
    assert(runs_view(runs@) == Seq::<(u64, Seq<u8>)>::empty());
    assert(run_items(off, cur@) == widen(t@.take(1)));
    while i < t.len()
        invariant
            1 <= i <= t@.len(),
            cur@.len() > 0,
            cur@.len() <= i,
            flatten_runs(runs_view(runs@)) + run_items(off, cur@) == widen(t@.take(i as int)),
            forall|j: int| 0 <= j < runs@.len() ==> #[trigger] runs_view(runs@)[j].1.len() > 0,
            forall|j: int|
                0 <= j < runs@.len() - 1 ==> #[trigger] runs_view(runs@)[j + 1].0
                    != runs_view(runs@)[j].0 + runs_view(runs@)[j].1.len(),
            runs@.len() > 0 ==> off != runs_view(runs@).last().0 + runs_view(runs@).last().1.len(),
        decreases t@.len() - i,
    {
        let (a, b) = t[i];
        let ghost w = widen(t@.take(i as int));
        assert(widen(t@.take(i + 1)) == w.push((a as int, b)));
        if a >= off && a - off == cur.len() as u64 {
            let ghost old_items = run_items(off, cur@);
            cur.push(b);
            assert(run_items(off, cur@) == old_items.push((a as int, b)));
            assert(flatten_runs(runs_view(runs@)) + run_items(off, cur@) == (flatten_runs(
                runs_view(runs@),
            ) + old_items).push((a as int, b)));
        } else {
            let ghost old_view = runs_view(runs@);
            let ghost prev = run_items(off, cur@);
            let ghost cur_view = cur@;
            let finished = PatchRun { offset: off, bytes: cur };
            runs.push(finished);
            assert(runs_view(runs@) == old_view.push((off, cur_view)));
            assert(runs_view(runs@).drop_last() == old_view);
            off = a;
            cur = Vec::new();
            cur.push(b);
            assert(run_items(off, cur@) == seq![(a as int, b)]);
            assert(flatten_runs(runs_view(runs@)) == flatten_runs(old_view) + prev);
        }
        i = i + 1;
    }
    let ghost old_view = runs_view(runs@);
    let ghost last = run_items(off, cur@);
    let ghost cur_view = cur@;
    let finished = PatchRun { offset: off, bytes: cur };
    runs.push(finished);
    assert(runs_view(runs@) == old_view.push((off, cur_view)));
    assert(runs_view(runs@).drop_last() == old_view);
    assert(flatten_runs(runs_view(runs@)) == flatten_runs(old_view) + last);
    assert(t@.take(i as int) == t@);
    runs
}

/// `n`, or `usize::MAX` where it is larger.
pub open spec fn saturate(n: nat) -> usize {
    if n <= usize::MAX {
        n as usize
    } else {
        usize::MAX
    }
}

struct Scan {
    module: Option<Vec<char>>,
    mains: usize,
    names: Vec<Vec<char>>,
    items: Vec<Vec<(u64, u8)>>,
}

impl Scan {
    spec fn models(&self, st: ScanState) -> bool {
        &&& match (self.module, st.module) {
            (None, None) => true,
            (Some(m), Some(n)) => m@ == n,
            _ => false,
        }
        &&& self.mains == saturate(st.mains)
        &&& self.names@.len() == st.groups.len()
        &&& self.items@.len() == st.groups.len()
        &&& forall|i: int|
            0 <= i < st.groups.len() ==> #[trigger] self.names@[i]@ == st.groups[i].0
                && self.items@[i]@ == st.groups[i].1
    }
}

fn find_group(names: &Vec<Vec<char>>, m: &[char], Ghost(g): Ghost<
    Seq<(Seq<char>, Seq<(u64, u8)>)>,
>) -> (r: Option<usize>)
    requires
        names@.len() == g.len(),
        forall|i: int| 0 <= i < g.len() ==> #[trigger] names@[i]@ == g[i].0,
    ensures
        match r {
            Some(i) => group_index(g, m@) == Some(i as int),
            None => group_index(g, m@) is None,
        },
{
    let mut j: usize = names.len();
    assert(g.take(j as int) == g);
    while j > 0
        invariant
            j <= g.len(),
            names@.len() == g.len(),
            forall|i: int| 0 <= i < g.len() ==> #[trigger] names@[i]@ == g[i].0,
            group_index(g, m@) == group_index(g.take(j as int), m@),
        decreases j,
    {
        assert(g.take(j as int).last() == g[j - 1]);
        assert(g.take(j as int).drop_last() == g.take(j - 1));
        if chars_eq(&names[j - 1], m) {
            return Some(j - 1);
        }
        j = j - 1;
    }
    None
}

fn scan_line_exec(sc: &mut Scan, line: &[char], file: usize, idx: usize, Ghost(st): Ghost<ScanState>) -> (r: Result<(), Patch1337Error>)
    requires
        old(sc).models(st),
    ensures
        match scan_line(st, line@, file as int, idx as int) {
            Ok(st2) => r is Ok && final(sc).models(st2),
            Err(e) => r == Err::<(), Patch1337Error>(e),
        },
{
    match classify(line) {
        LineClass::Skip => {
            assert(sc.models(st));
            Ok(())
        },
        LineClass::Module(m) => {
            let ghost st2 = ScanState {
                module: Some(m@),
                mains: st.mains + if is_exe(m@) {
                    1nat
                } else {
                    0nat
                },
                groups: st.groups,
            };
            if is_exe_exec(&m) && sc.mains < usize::MAX {
                sc.mains = sc.mains + 1;
            }
            sc.module = Some(m);
            proof {
                assert forall|i: int| 0 <= i < st.groups.len() implies #[trigger] sc.names@[i]@
                    == st.groups[i].0 && sc.items@[i]@ == st.groups[i].1 by {
                    assert(old(sc).names@[i]@ == st.groups[i].0);
                }
                assert(sc.mains == saturate(st2.mains));
                assert(sc.names@.len() == st2.groups.len());
                assert(sc.items@.len() == st2.groups.len());
                assert(sc.module is Some);
                assert(sc.module.unwrap()@ == m@);
                assert(sc.models(st2));
            }
            Ok(())
        },
        LineClass::Malformed => Err(Patch1337Error::BadFormat { file, line: idx }),
        LineClass::Patch(a, b) => {
            let at = hex_digits(&trim_chars(&a));
            let bt = hex_digits(&trim_chars(&b));
            match parse_hex(&at, 0xFFFF_FFFF_FFFF_FFFF) {
                None => Err(Patch1337Error::BadAddress { file, line: idx }),
                Some(addr) => match parse_hex(&bt, 0xFF) {
                    None => Err(Patch1337Error::BadByte { file, line: idx }),
                    Some(byte) => {
                        let item: (u64, u8) = (addr, byte as u8);
                        match &sc.module {
                            None => Err(Patch1337Error::MissingModule { file, line: idx }),
                            Some(m) => {
                                let found = find_group(&sc.names, m, Ghost(st.groups));
                                let ghost g = st.groups;
                                let ghost st2 = ScanState {
                                    module: st.module,
                                    mains: st.mains,
                                    groups: add_patch(g, m@, item),
                                };
                                match found {
                                    Some(i) => {
                                        proof {
                                            lemma_group_index(g, m@);
                                        }
                                        sc.items[i].push(item);
                                        proof {
                                            let g2 = add_patch(g, m@, item);
                                            assert forall|k: int| 0 <= k < g2.len() implies #[trigger] sc.names@[k]@ == g2[k].0 && sc.items@[k]@ == g2[k].1 by {
                                                if k < g.len() {
                                                    assert(old(sc).names@[k]@ == g[k].0);
                                                }
                                            }
                                            assert(sc.models(st2));
                                        }
                                    },
                                    None => {
                                        let mut v: Vec<(u64, u8)> = Vec::new();
                                        v.push(item);
                                        let name = slice_to(m, m.len());
                                        assert(name@ == m@);
                                        sc.names.push(name);
                                        sc.items.push(v);
                                        proof {
                                            let g2 = add_patch(g, m@, item);
                                            assert forall|k: int| 0 <= k < g2.len() implies #[trigger] sc.names@[k]@ == g2[k].0 && sc.items@[k]@ == g2[k].1 by {
                                                if k == g.len() {
                                                    assert(v@ == seq![item]);
                                                } else {
                                                    assert(old(sc).names@[k]@ == g[k].0);
                                                }
                                            }
                                            assert(sc.models(st2));
                                        }
                                    },
                                }
                                Ok(())
                            },
                        }
                    },
                },
            }
        },
    }
}

fn scan_file(sc: &mut Scan, content: &str, file: usize, Ghost(st): Ghost<ScanState>) -> (r: Result<
    (),
    Patch1337Error,
>)
    requires
        old(sc).models(st),
    ensures
        match scan_lines(
            ScanState { module: None, mains: st.mains, groups: st.groups },
            split_lines(content@),
            file as int,
            split_lines(content@).len(),
        ) {
            Ok(st2) => r is Ok && final(sc).models(st2),
            Err(e) => r == Err::<(), Patch1337Error>(e),
        },
{
    let chars = chars_of(content);
    let lines = split_lines_exec(&chars);
    let ghost ls = split_lines(content@);
    assert(lines@.len() == ls.len());
    sc.module = None;
    let ghost st0 = ScanState { module: None, mains: st.mains, groups: st.groups };
    proof {
        assert forall|i: int| 0 <= i < st.groups.len() implies #[trigger] sc.names@[i]@
            == st.groups[i].0 && sc.items@[i]@ == st.groups[i].1 by {
            assert(old(sc).names@[i]@ == st.groups[i].0);
        }
        assert(sc.models(st0));
    }
    let ghost mut cur = st0;
    let mut i: usize = 0;
    while i < lines.len()
        invariant
            i <= lines@.len(),
            lines@.len() == ls.len(),
            ls == split_lines(content@),
            st0 == (ScanState { module: None, mains: st.mains, groups: st.groups }),
            forall|k: int| 0 <= k < ls.len() ==> #[trigger] lines@[k]@ == ls[k],
            scan_lines(st0, ls, file as int, i as nat) == Ok::<ScanState, Patch1337Error>(cur),
            sc.models(cur),
        decreases lines@.len() - i,
    {
        assert(lines@[i as int]@ == ls[i as int]);
        let res = scan_line_exec(sc, &lines[i], file, i, Ghost(cur));
        match res {
            Ok(()) => {
                proof {
                    cur = scan_line(cur, ls[i as int], file as int, i as int)->Ok_0;
                }
            },
            Err(e) => {
                proof {
                    assert(scan_lines(st0, ls, file as int, (i + 1) as nat) == scan_line(
                        cur,
                        ls[i as int],
                        file as int,
                        i as int,
                    ));
                    assert(scan_line(cur, ls[i as int], file as int, i as int) == Err::<ScanState, Patch1337Error>(e));
                    lemma_scan_lines_err(st0, ls, file as int, (i + 1) as nat, ls.len());
                    assert(scan_lines(st0, ls, file as int, ls.len()) == Err::<ScanState, Patch1337Error>(e));
                }
                return Err(e);
            },
        }
        i = i + 1;
    }
    Ok(())
}

proof fn lemma_scan_lines_err(st: ScanState, lines: Seq<Seq<char>>, file: int, n: nat, m: nat)
    requires
        n <= m,
        scan_lines(st, lines, file, n) is Err,
    ensures
        scan_lines(st, lines, file, m) == scan_lines(st, lines, file, n),
    decreases m - n,
{
    if n < m {
        lemma_scan_lines_err(st, lines, file, n, (m - 1) as nat);
    }
}

proof fn lemma_scan_files_err(files: Seq<Seq<char>>, n: nat, m: nat)
    requires
        n <= m,
        scan_files(files, n) is Err,
    ensures
        scan_files(files, m) == scan_files(files, n),
    decreases m - n,
{
    if n < m {
        lemma_scan_files_err(files, n, (m - 1) as nat);
    }
}

/// The patches of one module: its name, whether it is the main executable
/// (its name ends with `.exe`), and the runs of bytes to write at offsets
/// from the module's base.
pub struct ModulePatch {
    pub module: String,
    pub is_main: bool,
    pub runs: Vec<PatchRun>,
}

/// `p` patches module `g.0` with the patches `g.1`: sorted stably by offset
/// and merged into maximal runs of consecutive offsets.
pub open spec fn plans_module(p: ModulePatch, g: (Seq<char>, Seq<(u64, u8)>)) -> bool {
    &&& p.module@ == g.0
    &&& p.is_main == is_exe(g.0)
    &&& exists|t: Seq<(u64, u8)>| sorted_stably(t, g.1) && runs_cover(runs_view(p.runs@), t)
}

/// What planning the patch files `files` gives.
pub open spec fn plan_result(files: Seq<Seq<char>>, r: Result<Vec<ModulePatch>, Patch1337Error>) -> bool {
    match scan_files(files, files.len()) {
        Err(e) => r == Err::<Vec<ModulePatch>, Patch1337Error>(e),
        Ok(st) => if st.mains > 1 {
            r == Err::<Vec<ModulePatch>, Patch1337Error>(
                Patch1337Error::TooManyMainModules { count: saturate(st.mains) },
            )
        } else {
            match r {
                Ok(v) => v@.len() == st.groups.len() && forall|i: int|
                    0 <= i < st.groups.len() ==> #[trigger] plans_module(v@[i], st.groups[i]),
                Err(_) => false,
            }
        },
    }
}

/// Reads the contents of patch files, in order, into the patches of each
/// module.  Modules come in the order in which they first receive a patch.
pub fn plan_patches(files: &[String]) -> (r: Result<Vec<ModulePatch>, Patch1337Error>)
    ensures
        plan_result(string_views(files@), r),
{
    let ghost fs = string_views(files@);
    let mut sc = Scan { module: None, mains: 0, names: Vec::new(), items: Vec::new() };
    let ghost mut st = ScanState { module: None, mains: 0, groups: seq![] };
    let mut f: usize = 0;
    while f < files.len()
        invariant
            f <= files@.len(),
            fs == string_views(files@),
            scan_files(fs, f as nat) == Ok::<ScanState, Patch1337Error>(st),
            sc.models(st),
        decreases files@.len() - f,
    {
        assert(fs[f as int] == files@[f as int]@);
        let res = scan_file(&mut sc, files[f].as_str(), f, Ghost(st));
        let ghost lines = split_lines(fs[f as int]);
        let ghost st0 = ScanState { module: None, mains: st.mains, groups: st.groups };
        match res {
            Ok(()) => {
                proof {
                    st = scan_lines(st0, lines, f as int, lines.len())->Ok_0;
                }
            },
            Err(e) => {
                proof {
                    lemma_scan_files_err(fs, (f + 1) as nat, fs.len());
                }
                return Err(e);
            },
        }
        f = f + 1;
    }
    if sc.mains > 1 {
        return Err(Patch1337Error::TooManyMainModules { count: sc.mains });
    }
    let mut out: Vec<ModulePatch> = Vec::new();
    let mut i: usize = 0;
    while i < sc.names.len()
        invariant
            i <= sc.names@.len(),
            sc.models(st),
            out@.len() == i,
            forall|k: int| 0 <= k < i ==> #[trigger] plans_module(out@[k], st.groups[k]),
        decreases sc.names@.len() - i,
    {
        assert(sc.names@[i as int]@ == st.groups[i as int].0);
        let sorted = sort_by_addr(&sc.items[i]);
        let runs = merge_runs(&sorted);
        let is_main = is_exe_exec(&sc.names[i]);
        let module = string_from_chars(&sc.names[i]);
        let mp = ModulePatch { module, is_main, runs };
        assert(sorted_stably(sorted@, st.groups[i as int].1) && runs_cover(runs_view(mp.runs@), sorted@));
        assert(plans_module(mp, st.groups[i as int]));
        out.push(mp);
        i = i + 1;
    }
    Ok(out)
}

/// `base + off`, wrapping around at the width of `usize`.
pub open spec fn wrap_add(base: usize, off: u64) -> usize {
    ((base + off) % (usize::MAX + 1)) as usize
}

fn wrap_add_exec(base: usize, off: u64) -> (r: usize)
    ensures
        r == wrap_add(base, off),
{
    let ghost m: int = usize::MAX + 1;
    let o: usize = if off <= usize::MAX as u64 {
        off as usize
    } else {
        (off % (usize::MAX as u64 + 1)) as usize
    };
    proof {
        if off <= usize::MAX {
            vstd::arithmetic::div_mod::lemma_small_mod(off as nat, m as nat);
        }
        assert(o == (off as int) % m);
        vstd::arithmetic::div_mod::lemma_add_mod_noop(base as int, off as int, m);
        vstd::arithmetic::div_mod::lemma_small_mod(base as nat, m as nat);
    }
    let r = base.wrapping_add(o);
    proof {
        if base + o > usize::MAX {
            vstd::arithmetic::div_mod::lemma_fundamental_div_mod_converse(base + o, m, 1, base + o - m);
        } else {
            vstd::arithmetic::div_mod::lemma_small_mod((base + o) as nat, m as nat);
        }
    }
    r
}

/// A write of `bytes` at `address`.
pub struct PatchWrite {
    pub address: usize,
    pub bytes: Vec<u8>,
}

/// The writes as (address, bytes) pairs.
pub open spec fn writes_view(v: Seq<PatchWrite>) -> Seq<(usize, Seq<u8>)> {
    v.map_values(|w: PatchWrite| (w.address, w.bytes@))
}

/// Why a plan could not be applied.
#[derive(Clone, Copy, Debug, PartialEq, Eq, Structural)]
pub enum ApplyError {
    /// The module of plan entry `index` is not loaded.
    MissingModule { index: usize },
}

/// The base address that `bases` gives for plan entry `i`.
pub open spec fn base_of(bases: Seq<Option<usize>>, i: int) -> Option<usize> {
    if 0 <= i < bases.len() {
        bases[i]
    } else {
        None
    }
}

/// The writes of one module loaded at `base`.
pub open spec fn module_writes(base: usize, runs: Seq<(u64, Seq<u8>)>) -> Seq<(usize, Seq<u8>)> {
    runs.map_values(|r: (u64, Seq<u8>)| (wrap_add(base, r.0), r.1))
}

/// The writes of the first `n` plan entries, or the first entry whose module
/// is not loaded.
pub open spec fn plan_writes(plan: Seq<ModulePatch>, bases: Seq<Option<usize>>, n: nat) -> Result<
    Seq<(usize, Seq<u8>)>,
    ApplyError,
>
    decreases n,
{
    if n == 0 {
        Ok(seq![])
    } else {
        match plan_writes(plan, bases, (n - 1) as nat) {
            Err(e) => Err(e),
            Ok(w) => match base_of(bases, n - 1) {
                None => Err(ApplyError::MissingModule { index: (n - 1) as usize }),
                Some(b) => Ok(w + module_writes(b, runs_view(plan[n - 1].runs@))),
            },
        }
    }
}

/// The name under which a module's handle is looked up: the empty name
/// (the process's own executable) for the main module, its own name otherwise.
pub fn handle_name(p: &ModulePatch) -> (r: String)
    ensures
        r@ == (if p.is_main {
            Seq::<char>::empty()
        } else {
            p.module@
        }),
{
    if p.is_main {
        String::new()
    } else {
        p.module.clone()
    }
}

fn copy_bytes(v: &[u8]) -> (r: Vec<u8>)
    ensures
        r@ == v@,
{
    let mut r: Vec<u8> = Vec::new();
    let mut i: usize = 0;
    while i < v.len()
        invariant
            i <= v@.len(),
            r@ == v@.take(i as int),
        decreases v@.len() - i,
    {
        r.push(v[i]);
        i = i + 1;
        assert(r@ == v@.take(i as int));
    }
    assert(v@.take(i as int) == v@);
    r
}

/// The writes that apply `plan` to modules loaded at `bases` (one base per plan
/// entry, `None` where the module is not loaded): each run is written at its
/// offset from its module's base, module after module.
pub fn apply(plan: &[ModulePatch], bases: &[Option<usize>]) -> (r: Result<Vec<PatchWrite>, ApplyError>)
    ensures
        match plan_writes(plan@, bases@, plan@.len()) {
            Ok(w) => r matches Ok(v) && writes_view(v@) == w,
            Err(e) => r == Err::<Vec<PatchWrite>, ApplyError>(e),
        },
{
    let mut out: Vec<PatchWrite> = Vec::new();
    let mut i: usize = 0;
    assert(writes_view(out@) == Seq::<(usize, Seq<u8>)>::empty());
    while i < plan.len()
        invariant
            i <= plan@.len(),
            plan_writes(plan@, bases@, i as nat) == Ok::<Seq<(usize, Seq<u8>)>, ApplyError>(
                writes_view(out@),
            ),
        decreases plan@.len() - i,
    {
        let base = if i < bases.len() {
            bases[i]
        } else {
            None
        };
        match base {
            None => {
                proof {
                    lemma_plan_writes_err(plan@, bases@, (i + 1) as nat, plan@.len());
                }
                return Err(ApplyError::MissingModule { index: i });
            },
            Some(b) => {
                let runs = &plan[i].runs;
                let ghost before = writes_view(out@);
                let mut j: usize = 0;
                while j < runs.len()
                    invariant
                        j <= runs@.len(),
                        runs@ == plan@[i as int].runs@,
                        writes_view(out@) == before + module_writes(
                            b,
                            runs_view(runs@).take(j as int),
                        ),
                    decreases runs@.len() - j,
                {
                    let address = wrap_add_exec(b, runs[j].offset);
                    let bytes = copy_bytes(&runs[j].bytes);
                    let ghost prev = writes_view(out@);
                    out.push(PatchWrite { address, bytes });
                    assert(writes_view(out@) == prev.push((address, bytes@)));
                    assert(runs_view(runs@).take(j + 1) == runs_view(runs@).take(j as int).push(
                        (runs@[j as int].offset, runs@[j as int].bytes@),
                    ));
                    j = j + 1;
                }
                assert(runs_view(runs@).take(j as int) == runs_view(runs@));
            },
        }
        i = i + 1;
    }
    Ok(out)
}

proof fn lemma_plan_writes_err(plan: Seq<ModulePatch>, bases: Seq<Option<usize>>, n: nat, m: nat)
    requires
        n <= m,
        plan_writes(plan, bases, n) is Err,
    ensures
        plan_writes(plan, bases, m) == plan_writes(plan, bases, n),
    decreases m - n,
{
    if n < m {
        lemma_plan_writes_err(plan, bases, n, (m - 1) as nat);
    }
}

/// The number of groups of executable modules.
pub open spec fn exe_groups(g: Seq<(Seq<char>, Seq<(u64, u8)>)>) -> nat
    decreases g.len(),
{
    if g.len() == 0 {
        0
    } else {
        exe_groups(g.drop_last()) + if is_exe(g.last().0) {
            1nat
        } else {
            0nat
        }
    }
}

/// One, where the current module is an executable without a group yet.
spec fn pending_main(st: ScanState) -> nat {
    match st.module {
        Some(m) => if is_exe(m) && group_index(st.groups, m) is None {
            1nat
        } else {
            0nat
        },
        None => 0nat,
    }
}

/// Every group of an executable, and the current executable module without a
/// group, was announced by its own header line.
spec fn mains_bound(st: ScanState) -> bool {
    exe_groups(st.groups) + pending_main(st) <= st.mains
}

proof fn lemma_exe_groups_update(g: Seq<(Seq<char>, Seq<(u64, u8)>)>, i: int, x: Seq<(u64, u8)>)
    requires
        0 <= i < g.len(),
    ensures
        exe_groups(g.update(i, (g[i].0, x))) == exe_groups(g),
    decreases g.len(),
{
    let h = g.update(i, (g[i].0, x));
    if i == g.len() - 1 {
        assert(h.drop_last() == g.drop_last());
    } else {
        assert(h.drop_last() == g.drop_last().update(i, (g[i].0, x)));
        lemma_exe_groups_update(g.drop_last(), i, x);
    }
}

proof fn lemma_add_patch_groups(g: Seq<(Seq<char>, Seq<(u64, u8)>)>, m: Seq<char>, item: (u64, u8))
    ensures
        group_index(add_patch(g, m, item), m) is Some,
        exe_groups(add_patch(g, m, item)) == exe_groups(g) + if group_index(g, m) is None && is_exe(m) {
            1nat
        } else {
            0nat
        },
        forall|k: Seq<char>| group_index(g, k) is Some ==> #[trigger] group_index(add_patch(g, m, item), k) is Some,
{
    lemma_group_index(g, m);
    let a = add_patch(g, m, item);
    match group_index(g, m) {
        Some(i) => {
            lemma_exe_groups_update(g, i, g[i].1.push(item));
            lemma_group_index(a, m);
            assert forall|k: Seq<char>| group_index(g, k) is Some implies #[trigger] group_index(a, k) is Some by {
                lemma_group_index(g, k);
                lemma_group_index(a, k);
                let j = group_index(g, k)->0;
                assert(a[j].0 == k);
            }
        },
        None => {
            assert(a.drop_last() == g);
            lemma_group_index(a, m);
            assert forall|k: Seq<char>| group_index(g, k) is Some implies #[trigger] group_index(a, k) is Some by {
                lemma_group_index(g, k);
                lemma_group_index(a, k);
                let j = group_index(g, k)->0;
                assert(a[j].0 == k);
            }
        },
    }
}

proof fn lemma_scan_line_mains(st: ScanState, line: Seq<char>, file: int, idx: int)
    requires
        mains_bound(st),
    ensures
        scan_line(st, line, file, idx) matches Ok(s2) ==> mains_bound(s2),
{
    match scan_line(st, line, file, idx) {
        Ok(s2) => {
            match line_kind(line) {
                LineKind::Patch(a, b) => {
                    let m = st.module->0;
                    let addr = parse_hex_spec(hex_body(trim(a)), 0xFFFF_FFFF_FFFF_FFFF)->0;
                    let byte = parse_hex_spec(hex_body(trim(b)), 0xFF)->0;
                    lemma_add_patch_groups(st.groups, m, (addr as u64, byte as u8));
                },
                _ => {},
            }
        },
        Err(_) => {},
    }
}

proof fn lemma_scan_lines_mains(st: ScanState, lines: Seq<Seq<char>>, file: int, n: nat)
    requires
        mains_bound(st),
    ensures
        scan_lines(st, lines, file, n) matches Ok(s2) ==> mains_bound(s2),
    decreases n,
{
    if n > 0 {
        lemma_scan_lines_mains(st, lines, file, (n - 1) as nat);
        match scan_lines(st, lines, file, (n - 1) as nat) {
            Ok(s) => lemma_scan_line_mains(s, lines[n - 1], file, n - 1),
            Err(_) => {},
        }
    }
}

proof fn lemma_scan_files_mains(files: Seq<Seq<char>>, n: nat)
    ensures
        scan_files(files, n) matches Ok(st) ==> mains_bound(st),
    decreases n,
{
    if n > 0 {
        lemma_scan_files_mains(files, (n - 1) as nat);
        match scan_files(files, (n - 1) as nat) {
            Ok(s) => {
                let lines = split_lines(files[n - 1]);
                lemma_scan_lines_mains(
                    ScanState { module: None, mains: s.mains, groups: s.groups },
                    lines,
                    n - 1,
                    lines.len(),
                );
            },
            Err(_) => {},
        }
    }
}

proof fn lemma_one_exe_group(g: Seq<(Seq<char>, Seq<(u64, u8)>)>, i: int, j: int)
    requires
        exe_groups(g) <= 1,
        0 <= i < g.len(),
        0 <= j < g.len(),
        is_exe(g[i].0),
        is_exe(g[j].0),
    ensures
        i == j,
    decreases g.len(),
{
    let last = g.len() - 1;
    if i != last && j != last {
        lemma_one_exe_group(g.drop_last(), i, j);
    } else if i != j {
        let k = if i == last { j } else { i };
        lemma_exe_groups_pos(g.drop_last(), k);
    }
}

proof fn lemma_exe_groups_pos(g: Seq<(Seq<char>, Seq<(u64, u8)>)>, k: int)
    requires
        0 <= k < g.len(),
        is_exe(g[k].0),
    ensures
        exe_groups(g) >= 1,
    decreases g.len(),
{
    if k < g.len() - 1 {
        lemma_exe_groups_pos(g.drop_last(), k);
    }
}

/// A plan that succeeds patches at most one executable module: two modules
/// of a successful plan are never both the main one.
pub proof fn law_single_main_module(files: Seq<Seq<char>>, r: Result<Vec<ModulePatch>, Patch1337Error>, i: int, j: int)
    requires
        plan_result(files, r),
        r matches Ok(v) && 0 <= i < v@.len() && 0 <= j < v@.len() && v@[i].is_main && v@[j].is_main,
    ensures
        i == j,
{
    lemma_scan_files_mains(files, files.len());
    let st = scan_files(files, files.len())->Ok_0;
    let v = r->Ok_0;
    assert(plans_module(v@[i], st.groups[i]));
    assert(plans_module(v@[j], st.groups[j]));
    lemma_one_exe_group(st.groups, i, j);
}

} // verus!
