//! Whole-file patches: raw files are recognised by their SHA-256 and replaced
//! by translated files of the same length.
use vstd::prelude::*;
use crate::text::{decimal, push_decimal, string_from_chars, push_str_chars};

verus! {

/// The SHA-256 digest of `data`, as `sha2` computes it.
pub uninterp spec fn sha256_digest(data: Seq<u8>) -> Seq<u8>;

/// `sha2::Sha256::digest`: the claim is that the 32 bytes returned are the
/// SHA-256 digest of the input, which depends on the input alone.
#[verifier::external_body]
fn sha256_raw(data: &[u8]) -> (r: [u8; 32])
    ensures
        r@ == sha256_digest(data@),
{
    <sha2::Sha256 as sha2::Digest>::digest(data).into()
}

/// The SHA-256 digest of `data`.
pub fn sha256_of_bytes(data: &[u8]) -> (r: [u8; 32])
    ensures
        r@ == sha256_digest(data@),
{
    sha256_raw(data)
}

/// What reading a translated file gave.
#[derive(Clone, Copy, Debug, PartialEq, Eq, Structural)]
pub enum TranslatedFile {
    /// There is no translated file of that name.
    Missing,
    /// It exists but could not be read.
    Unreadable,
    /// It was read; it holds `len` bytes.
    Read { len: usize },
}

/// What was read for one raw file: its translated counterpart and its own
/// bytes (`None` where it could not be read).
pub struct PatchSource {
    pub translated: TranslatedFile,
    pub raw: Option<Vec<u8>>,
}

/// Why a raw file cannot be patched.  Files are counted from 0.
#[derive(Clone, Copy, Debug, PartialEq, Eq, Structural)]
pub enum PatchIssue {
    MissingTranslation { index: usize },
    UnreadableRaw { index: usize },
    UnreadableTranslation { index: usize },
    LengthMismatch { index: usize, raw_len: usize, translated_len: usize },
    /// Its digest equals that of the accepted file `earlier`.
    DuplicateRaw { index: usize, earlier: usize },
}

/// An accepted raw file: its index, its length and its digest.
pub struct PatchEntry {
    pub index: usize,
    pub len: usize,
    pub hash: [u8; 32],
}

/// The (index, length, digest) of the entries.
pub open spec fn entries_view(v: Seq<PatchEntry>) -> Seq<(usize, usize, Seq<u8>)> {
    v.map_values(|e: PatchEntry| (e.index, e.len, e.hash@))
}

/// The accepted entry, if any, whose digest is `h`.
pub open spec fn entry_with_hash(acc: Seq<(usize, usize, Seq<u8>)>, h: Seq<u8>) -> Option<int>
    decreases acc.len(),
{
    if acc.len() == 0 {
        None
    } else {
        match entry_with_hash(acc.drop_last(), h) {
            Some(k) => Some(k),
            None => if acc.last().2 == h {
                Some(acc.len() - 1)
            } else {
                None
            },
        }
    }
}

/// Checks file `i`: its translation, its bytes, the lengths, then whether its
/// digest was already accepted.  `Ok` holds the entry to accept.
pub open spec fn check_source(
    translated: TranslatedFile,
    raw: Option<Seq<u8>>,
    i: int,
    acc: Seq<(usize, usize, Seq<u8>)>,
) -> Result<(usize, usize, Seq<u8>), PatchIssue> {
    match translated {
        TranslatedFile::Missing => Err(PatchIssue::MissingTranslation { index: i as usize }),
        _ => match raw {
            None => Err(PatchIssue::UnreadableRaw { index: i as usize }),
            Some(bytes) => match translated {
                TranslatedFile::Read { len } => if bytes.len() != len {
                    Err(
                        PatchIssue::LengthMismatch {
                            index: i as usize,
                            raw_len: bytes.len() as usize,
                            translated_len: len,
                        },
                    )
                } else {
                    match entry_with_hash(acc, sha256_digest(bytes)) {
                        Some(k) => Err(
                            PatchIssue::DuplicateRaw { index: i as usize, earlier: acc[k].0 },
                        ),
                        None => Ok((i as usize, len, sha256_digest(bytes))),
                    }
                },
                _ => Err(PatchIssue::UnreadableTranslation { index: i as usize }),
            },
        },
    }
}

/// The view of a source.
pub open spec fn raw_view(r: Option<Vec<u8>>) -> Option<Seq<u8>> {
    match r {
        Some(v) => Some(v@),
        None => None,
    }
}

/// The accepted entries and the issues of the first `n` sources.
pub open spec fn check_sources(s: Seq<PatchSource>, n: nat) -> (
    Seq<(usize, usize, Seq<u8>)>,
    Seq<PatchIssue>,
)
    decreases n,
{
    if n == 0 {
        (seq![], seq![])
    } else {
        let (acc, issues) = check_sources(s, (n - 1) as nat);
        match check_source(s[n - 1].translated, raw_view(s[n - 1].raw), n - 1, acc) {
            Ok(e) => (acc.push(e), issues),
            Err(x) => (acc, issues.push(x)),
        }
    }
}

fn find_hash(acc: &Vec<PatchEntry>, h: &[u8; 32]) -> (r: Option<usize>)
    ensures
        match r {
            Some(k) => k < acc@.len() && entry_with_hash(entries_view(acc@), h@) == Some(k as int),
            None => entry_with_hash(entries_view(acc@), h@) is None,
        },
{
    let ghost ev = entries_view(acc@);
    let mut k: usize = 0;
    assert(ev.take(0) == Seq::<(usize, usize, Seq<u8>)>::empty());
    while k < acc.len()
        invariant
            k <= acc@.len(),
            ev == entries_view(acc@),
            entry_with_hash(ev.take(k as int), h@) is None,
        decreases acc@.len() - k,
    {
        assert(ev.take(k + 1).drop_last() == ev.take(k as int));
        let mut same = true;
        let mut j: usize = 0;
        while j < 32
            invariant
                j <= 32,
                k < acc@.len(),
                same == forall|t: int| 0 <= t < j ==> acc@[k as int].hash@[t] == h@[t],
            decreases 32 - j,
        {
            if acc[k].hash[j] != h[j] {
                same = false;
            }
            j = j + 1;
        }
        if same {
            assert(acc@[k as int].hash@ =~= h@);
        }
        assert(same == (acc@[k as int].hash@ == h@));
        if same {
            assert(entry_with_hash(ev.take(k + 1), h@) == Some(k as int));
            proof {
                lemma_hash_prefix(ev, h@, k + 1);
            }
            return Some(k);
        }
        k = k + 1;
    }
    assert(ev.take(k as int) == ev);
    None
}

proof fn lemma_hash_prefix(ev: Seq<(usize, usize, Seq<u8>)>, h: Seq<u8>, n: int)
    requires
        0 <= n <= ev.len(),
        entry_with_hash(ev.take(n), h) is Some,
    ensures
        entry_with_hash(ev, h) == entry_with_hash(ev.take(n), h),
    decreases ev.len() - n,
{
    if n < ev.len() {
        assert(ev.take(n + 1).drop_last() == ev.take(n));
        lemma_hash_prefix(ev, h, n + 1);
    } else {
        assert(ev.take(n) == ev);
    }
}

/// Checks the raw files in order.  Each accepted file is recognised by its
/// digest; the result is the accepted entries, or every issue found.
pub fn check_patch_sources(sources: &[PatchSource]) -> (r: Result<Vec<PatchEntry>, Vec<PatchIssue>>)
    ensures
        ({
            let (acc, issues) = check_sources(sources@, sources@.len());
            if issues.len() == 0 {
                r matches Ok(v) && entries_view(v@) == acc
            } else {
                r matches Err(v) && v@ == issues
            }
        }),
{
    let mut acc: Vec<PatchEntry> = Vec::new();
    let mut issues: Vec<PatchIssue> = Vec::new();
    let mut i: usize = 0;
    assert(entries_view(acc@) == Seq::<(usize, usize, Seq<u8>)>::empty());
    while i < sources.len()
        invariant
            i <= sources@.len(),
            check_sources(sources@, i as nat) == (entries_view(acc@), issues@),
        decreases sources@.len() - i,
    {
        let ghost before = entries_view(acc@);
        let ghost expect = check_source(
            sources@[i as int].translated,
            raw_view(sources@[i as int].raw),
            i as int,
            before,
        );
        let ghost old_issues = issues@;
        let src = &sources[i];
        match src.translated {
            TranslatedFile::Missing => {
                issues.push(PatchIssue::MissingTranslation { index: i });
            },
            _ => match &src.raw {
                None => {
                    issues.push(PatchIssue::UnreadableRaw { index: i });
                },
                Some(bytes) => match src.translated {
                    TranslatedFile::Read { len } => {
                        if bytes.len() != len {
                            issues.push(
                                PatchIssue::LengthMismatch {
                                    index: i,
                                    raw_len: bytes.len(),
                                    translated_len: len,
                                },
                            );
                        } else {
                            let hash = sha256_of_bytes(bytes.as_slice());
                            match find_hash(&acc, &hash) {
                                Some(k) => {
                                    issues.push(
                                        PatchIssue::DuplicateRaw { index: i, earlier: acc[k].index },
                                    );
                                },
                                None => {
                                    acc.push(PatchEntry { index: i, len, hash });
                                    assert(entries_view(acc@) == before.push((i, len, hash@)));
                                },
                            }
                        }
                    },
                    _ => {
                        issues.push(PatchIssue::UnreadableTranslation { index: i });
                    },
                },
            },
        }
        proof {
            assert(check_sources(sources@, (i + 1) as nat) == (match expect {
                Ok(e) => (before.push(e), old_issues),
                Err(x) => (before, old_issues.push(x)),
            }));
        }
        i = i + 1;
    }
    if issues.len() == 0 {
        Ok(acc)
    } else {
        Err(issues)
    }
}

/// `v` is strictly increasing.
pub open spec fn strictly_increasing(v: Seq<usize>) -> bool {
    forall|i: int, j: int| 0 <= i < j < v.len() ==> v[i] < v[j]
}

/// The distinct values of `v`, in increasing order.
pub fn sorted_unique(v: &[usize]) -> (r: Vec<usize>)
    ensures
        strictly_increasing(r@),
        forall|x: usize| r@.contains(x) <==> v@.contains(x),
{
    let mut out: Vec<usize> = Vec::new();
    let mut i: usize = 0;
    while i < v.len()
        invariant
            i <= v@.len(),
            strictly_increasing(out@),
            forall|x: usize| out@.contains(x) <==> v@.take(i as int).contains(x),
        decreases v@.len() - i,
    {
        let x = v[i];
        let mut k: usize = out.len();
        while k > 0 && out[k - 1] > x
            invariant
                k <= out@.len(),
                forall|j: int| k <= j < out@.len() ==> out@[j] > x,
            decreases k,
        {
            k = k - 1;
        }
        let ghost before = out@;
        if k > 0 && out[k - 1] == x {
            assert(before[k - 1] == x);
            assert(before.contains(x));
        } else {
            out.insert(k, x);
            assert forall|p: int, q: int| 0 <= p < q < out@.len() implies out@[p] < out@[q] by {
                if q < k {
                } else if q == k {
                    if p < k - 1 {
                        assert(before[p] < before[k - 1]);
                    }
                } else if p < k {
                    assert(before[p] < before[q - 1]);
                } else if p == k {
                } else {
                    assert(before[p - 1] < before[q - 1]);
                }
            }
            assert forall|y: usize| out@.contains(y) <==> before.contains(y) || y == x by {
                if out@.contains(y) {
                    let t = choose|t: int| 0 <= t < out@.len() && #[trigger] out@[t] == y;
                    if t < k {
                        assert(before[t] == y);
                    } else if t > k {
                        assert(before[t - 1] == y);
                    }
                }
                if before.contains(y) {
                    let t = choose|t: int| 0 <= t < before.len() && #[trigger] before[t] == y;
                    if t < k {
                        assert(out@[t] == y);
                    } else {
                        assert(out@[t + 1] == y);
                    }
                }
                if y == x {
                    assert(out@[k as int] == x);
                }
            }
        }
        let ghost prev = v@.take(i as int);
        let ghost next = v@.take(i + 1);
        assert(next == prev.push(x));
        assert forall|y: usize| next.contains(y) <==> prev.contains(y) || y == x by {
            if next.contains(y) {
                let t = choose|t: int| 0 <= t < next.len() && #[trigger] next[t] == y;
                if t < i {
                    assert(prev[t] == y);
                }
            }
            if prev.contains(y) {
                let t = choose|t: int| 0 <= t < prev.len() && #[trigger] prev[t] == y;
                assert(next[t] == y);
            }
            if y == x {
                assert(next[i as int] == x);
            }
        }
        assert forall|y: usize| out@.contains(y) <==> next.contains(y) by {
            assert(before.contains(y) <==> prev.contains(y));
        }
        i = i + 1;
    }
    assert(v@.take(i as int) == v@);
    out
}

/// `s` padded on the left with `0` to at least four characters.
pub open spec fn pad4(s: Seq<char>) -> Seq<char> {
    if s.len() < 4 {
        Seq::new((4 - s.len()) as nat, |i: int| '0') + s
    } else {
        s
    }
}

/// The name of the `n`-th patch: `PATCH_` and `n` in at least four digits.
pub fn patch_name(n: usize) -> (r: String)
    ensures
        r@ == "PATCH_"@ + pad4(decimal(n as nat)),
{
    let mut digits: Vec<char> = Vec::new();
    push_decimal(&mut digits, n);
    assert(digits@ == decimal(n as nat));
    let mut out: Vec<char> = Vec::new();
    push_str_chars(&mut out, "PATCH_");
    let mut pad: usize = 0;
    let missing: usize = if digits.len() < 4 {
        4 - digits.len()
    } else {
        0
    };
    while pad < missing
        invariant
            pad <= missing,
            out@ == "PATCH_"@ + Seq::new(pad as nat, |i: int| '0'),
        decreases missing - pad,
    {
        out.push('0');
        pad = pad + 1;
        assert(out@ == "PATCH_"@ + Seq::new(pad as nat, |i: int| '0'));
    }
    let mut k: usize = 0;
    let ghost head = out@;
    while k < digits.len()
        invariant
            k <= digits@.len(),
            out@ == head + digits@.take(k as int),
        decreases digits@.len() - k,
    {
        out.push(digits[k]);
        k = k + 1;
        assert(out@ == head + digits@.take(k as int));
    }
    assert(digits@.take(k as int) == digits@);
    if digits.len() < 4 {
        assert(out@ == "PATCH_"@ + pad4(decimal(n as nat)));
    } else {
        assert(Seq::new(0nat, |i: int| '0') + digits@ == digits@);
        assert(out@ == "PATCH_"@ + pad4(decimal(n as nat)));
    }
    string_from_chars(&out)
}

/// An upper-case hexadecimal digit.
pub open spec fn hex_upper(d: nat) -> char {
    if d < 10 {
        ((d + 48) as u8) as char
    } else {
        ((d + 55) as u8) as char
    }
}

/// The escaped text of a byte string: `\x` and two upper-case hexadecimal
/// digits per byte.
pub open spec fn escaped_bytes(b: Seq<u8>) -> Seq<char>
    decreases b.len(),
{
    if b.len() == 0 {
        seq![]
    } else {
        escaped_bytes(b.drop_last()) + seq![
            '\\',
            'x',
            hex_upper((b.last() / 16) as nat),
            hex_upper((b.last() % 16) as nat),
        ]
    }
}

fn hex_digit_upper(d: u8) -> (c: char)
    requires
        d < 16,
    ensures
        c == hex_upper(d as nat),
{
    if d < 10 {
        (d + 48) as char
    } else {
        (d + 55) as char
    }
}

/// The escaped text of `b`, as a byte-string literal writes it.
pub fn escaped_byte_string(b: &[u8]) -> (r: String)
    ensures
        r@ == escaped_bytes(b@),
{
    let mut out: Vec<char> = Vec::new();
    let mut i: usize = 0;
    while i < b.len()
        invariant
            i <= b@.len(),
            out@ == escaped_bytes(b@.take(i as int)),
        decreases b@.len() - i,
    {
        let x = b[i];
        out.push('\\');
        out.push('x');
        out.push(hex_digit_upper(x / 16));
        out.push(hex_digit_upper(x % 16));
        assert(b@.take(i + 1).drop_last() == b@.take(i as int));
        i = i + 1;
    }
    assert(b@.take(i as int) == b@);
    string_from_chars(&out)
}

/// `e` records source `e.0`: its translation was read with length `e.1`, and
/// its bytes have that length and digest `e.2`.
pub open spec fn entry_matches(s: Seq<PatchSource>, e: (usize, usize, Seq<u8>)) -> bool {
    &&& 0 <= e.0 < s.len()
    &&& s[e.0 as int].translated == (TranslatedFile::Read { len: e.1 })
    &&& match raw_view(s[e.0 as int].raw) {
        Some(b) => b.len() == e.1 && e.2 == sha256_digest(b),
        None => false,
    }
}

proof fn lemma_entry_with_hash(acc: Seq<(usize, usize, Seq<u8>)>, h: Seq<u8>)
    ensures
        entry_with_hash(acc, h) is None ==> forall|i: int| 0 <= i < acc.len() ==> acc[i].2 != h,
    decreases acc.len(),
{
    if acc.len() > 0 {
        lemma_entry_with_hash(acc.drop_last(), h);
        assert forall|i: int| 0 <= i < acc.len() - 1 implies acc[i] == acc.drop_last()[i] by {}
    }
}

/// The accepted raw files have pairwise different digests, come in order of
/// their indices, and each has the length of its translation.
pub proof fn law_entries_distinct(s: Seq<PatchSource>, n: nat)
    requires
        n <= s.len(),
        s.len() <= usize::MAX,
    ensures
        ({
            let acc = check_sources(s, n).0;
            &&& forall|i: int, j: int| 0 <= i < j < acc.len() ==> acc[i].2 != acc[j].2 && acc[i].0
                < acc[j].0
            &&& forall|i: int| 0 <= i < acc.len() ==> (#[trigger] acc[i]).0 < n && entry_matches(s, acc[i])
        }),
    decreases n,
{
    if n > 0 {
        law_entries_distinct(s, (n - 1) as nat);
        let acc = check_sources(s, (n - 1) as nat).0;
        match check_source(s[n - 1].translated, raw_view(s[n - 1].raw), n - 1, acc) {
            Ok(e) => {
                lemma_entry_with_hash(acc, e.2);
                let acc2 = acc.push(e);
                assert(check_sources(s, n).0 == acc2);
                assert(entry_matches(s, e));
                assert(e.0 == n - 1);
                assert forall|i: int, j: int| 0 <= i < j < acc2.len() implies acc2[i].2 != acc2[j].2 && acc2[i].0 < acc2[j].0 by {
                    if j == acc.len() {
                        assert(entry_matches(s, acc[i]));
                        assert(acc[i].0 < n - 1);
                    }
                }
                assert forall|i: int| 0 <= i < acc2.len() implies (#[trigger] acc2[i]).0 < n && entry_matches(s, acc2[i]) by {
                    if i < acc.len() {
                        assert(entry_matches(s, acc[i]));
                    }
                }
            },
            Err(_) => {
                assert(check_sources(s, n).0 == acc);
                assert forall|i: int| 0 <= i < acc.len() implies (#[trigger] acc[i]).0 < n && entry_matches(s, acc[i]) by {
                    assert(entry_matches(s, acc[i]));
                }
            },
        }
    }
}

} // verus!
