//! Path patterns with `*`, `*.*` and `**` wildcards: compiling, matching and
//! filling templates with the captured parts.
use vstd::prelude::*;
use crate::text::{
    chars_of, eq_ignore_case, first_index, join, last_index, lemma_first_index, lemma_last_index,
    lower, lower_seq, push_chars, push_str_chars, split_nonempty, split_nonempty_exec,
    string_from_chars, string_views, to_lower, views,
};

verus! {

/// One `/`-separated piece of a compiled pattern.
pub enum Segment {
    /// Matched exactly, ignoring ASCII case (no `*` in it).
    Literal(Vec<char>),
    /// A piece with a `*`: text before the first `*`, and after it.
    /// The part that `*` stands for is captured.
    Wildcard { prefix: Vec<char>, suffix: Vec<char> },
    /// The piece `*.*`: captures the stem and the extension.
    StarDotStar,
    /// The piece `**`: zero or more whole path pieces.
    RecursiveWild,
}

/// The mathematical form of a [`Segment`].
pub enum SegmentModel {
    Literal(Seq<char>),
    Wildcard { prefix: Seq<char>, suffix: Seq<char> },
    StarDotStar,
    RecursiveWild,
}

impl View for Segment {
    type V = SegmentModel;

    open spec fn view(&self) -> SegmentModel {
        match self {
            Segment::Literal(l) => SegmentModel::Literal(l@),
            Segment::Wildcard { prefix, suffix } => SegmentModel::Wildcard {
                prefix: prefix@,
                suffix: suffix@,
            },
            Segment::StarDotStar => SegmentModel::StarDotStar,
            Segment::RecursiveWild => SegmentModel::RecursiveWild,
        }
    }
}

pub open spec fn segment_views(v: Seq<Segment>) -> Seq<SegmentModel> {
    v.map_values(|s: Segment| s@)
}

/// How one non-empty piece of a pattern is read.
pub open spec fn classify(part: Seq<char>) -> SegmentModel {
    if part == seq!['*', '*'] {
        SegmentModel::RecursiveWild
    } else if part == seq!['*', '.', '*'] {
        SegmentModel::StarDotStar
    } else {
        match first_index(part, '*') {
            Some(k) => SegmentModel::Wildcard { prefix: part.take(k), suffix: part.skip(k + 1) },
            None => SegmentModel::Literal(part),
        }
    }
}

/// The segments of a pattern: its non-empty `/`-pieces, each classified.
pub open spec fn parse_pattern_spec(pattern: Seq<char>) -> Seq<SegmentModel> {
    split_nonempty(pattern, '/').map_values(|part: Seq<char>| classify(part))
}

/// `seg` starts with `prefix` and ends with `suffix` (ignoring ASCII case),
/// and the two do not overlap.
pub open spec fn wildcard_fits(seg: Seq<char>, prefix: Seq<char>, suffix: Seq<char>) -> bool {
    &&& prefix.len() + suffix.len() <= seg.len()
    &&& eq_ignore_case(seg.take(prefix.len() as int), prefix)
    &&& eq_ignore_case(seg.skip(seg.len() - suffix.len()), suffix)
}

/// The part of `seg` that a `*` between `prefix` and `suffix` stands for.
pub open spec fn wildcard_middle(seg: Seq<char>, prefix: Seq<char>, suffix: Seq<char>) -> Seq<char> {
    seg.subrange(prefix.len() as int, seg.len() - suffix.len())
}

/// The captures of matching the path pieces `path` against `segs`, trying
/// the alternatives of `**` from the shortest up; `None` when nothing matches.
pub open spec fn match_from(segs: Seq<SegmentModel>, path: Seq<Seq<char>>) -> Option<Seq<Seq<char>>>
    decreases segs.len(), 0int, 0int,
{
    if segs.len() == 0 {
        if path.len() == 0 {
            Some(seq![])
        } else {
            None
        }
    } else {
        match segs[0] {
            SegmentModel::Literal(lit) => {
                if path.len() > 0 && eq_ignore_case(path[0], lit) {
                    match_from(segs.drop_first(), path.drop_first())
                } else {
                    None
                }
            },
            SegmentModel::Wildcard { prefix, suffix } => {
                if path.len() > 0 && wildcard_fits(path[0], prefix, suffix) {
                    match match_from(segs.drop_first(), path.drop_first()) {
                        Some(c) => Some(seq![wildcard_middle(path[0], prefix, suffix)] + c),
                        None => None,
                    }
                } else {
                    None
                }
            },
            SegmentModel::StarDotStar => {
                if path.len() > 0 && last_index(path[0], '.') is Some {
                    let k = last_index(path[0], '.')->0;
                    match match_from(segs.drop_first(), path.drop_first()) {
                        Some(c) => Some(seq![path[0].take(k), path[0].skip(k + 1)] + c),
                        None => None,
                    }
                } else {
                    None
                }
            },
            SegmentModel::RecursiveWild => match_recursive(segs.drop_first(), path, 0),
        }
    }
}

/// `**` followed by `rest`: the first `k`, counting up from `k`, for which
/// `rest` matches what is left after `k` pieces.
pub open spec fn match_recursive(rest: Seq<SegmentModel>, path: Seq<Seq<char>>, k: int) -> Option<
    Seq<Seq<char>>,
>
    decreases rest.len(), 1int, path.len() + 1 - k,
{
    if k < 0 || k > path.len() {
        None
    } else {
        match match_from(rest, path.skip(k)) {
            Some(c) => Some(seq![join(path.take(k), '/')] + c),
            None => match_recursive(rest, path, k + 1),
        }
    }
}

/// Filling one template segment, from the text built so far and the index
/// of the next capture to use.
pub open spec fn fill_segment(seg: SegmentModel, r: Seq<char>, ci: int, caps: Seq<Seq<char>>) -> (
    Seq<char>,
    int,
) {
    match seg {
        SegmentModel::Literal(lit) => (r + lit, ci),
        SegmentModel::Wildcard { prefix, suffix } => {
            if 0 <= ci < caps.len() {
                (r + prefix + caps[ci] + suffix, ci + 1)
            } else {
                (r + prefix + suffix, ci)
            }
        },
        SegmentModel::StarDotStar => {
            let (r2, c2) = if 0 <= ci < caps.len() {
                (r + caps[ci], ci + 1)
            } else {
                (r, ci)
            };
            let r3 = r2.push('.');
            if 0 <= c2 < caps.len() {
                (r3 + caps[c2], c2 + 1)
            } else {
                (r3, c2)
            }
        },
        SegmentModel::RecursiveWild => {
            if 0 <= ci < caps.len() {
                if caps[ci].len() > 0 {
                    (r + caps[ci], ci + 1)
                } else if r.len() > 0 && r.last() == '/' {
                    (r.drop_last(), ci + 1)
                } else {
                    (r, ci + 1)
                }
            } else {
                (r, ci)
            }
        },
    }
}

/// Filling the template segments from index `i` on, separated by `/`.
pub open spec fn fill_from(segs: Seq<SegmentModel>, caps: Seq<Seq<char>>, i: int, r: Seq<char>, ci: int) -> Seq<char>
    decreases segs.len() - i,
{
    if i < 0 || i >= segs.len() {
        r
    } else {
        let r1 = if i > 0 {
            r.push('/')
        } else {
            r
        };
        let (r2, c2) = fill_segment(segs[i], r1, ci, caps);
        fill_from(segs, caps, i + 1, r2, c2)
    }
}

/// The text of a template filled with captures.
pub open spec fn fill_spec(segs: Seq<SegmentModel>, caps: Seq<Seq<char>>) -> Seq<char> {
    fill_from(segs, caps, 0, seq![], 0)
}


/// A capture found while matching: part of one path piece (`*`, `*.*`),
/// or a run of whole path pieces (`**`).
pub enum CaptureRange<'a> {
    Single(&'a [char]),
    Recursive(&'a [Vec<char>]),
}

impl<'a> View for CaptureRange<'a> {
    type V = Seq<char>;

    /// The captured text; a run of pieces is joined with `/`.
    open spec fn view(&self) -> Seq<char> {
        match self {
            CaptureRange::Single(s) => s@,
            CaptureRange::Recursive(segs) => join(views(segs@), '/'),
        }
    }
}

pub open spec fn capture_views<'a>(v: Seq<CaptureRange<'a>>) -> Seq<Seq<char>> {
    v.map_values(|c: CaptureRange<'a>| c@)
}

/// Joining `parts` with one more part at the end.
pub proof fn lemma_join_push(parts: Seq<Seq<char>>, x: Seq<char>, sep: char)
    ensures
        join(parts.push(x), sep) == if parts.len() == 0 {
            x
        } else {
            join(parts, sep).push(sep) + x
        },
    decreases parts.len(),
{
    if parts.len() == 0 {
        assert(parts.push(x) == seq![x]);
        assert(join(seq![x], sep) == x);
    } else if parts.len() == 1 {
        assert(parts.push(x).drop_first() == seq![x]);
        assert(parts.push(x)[0] == parts[0]);
        assert(join(seq![x], sep) == x);
        assert(join(parts.push(x), sep) == parts[0].push(sep) + x);
    } else {
        lemma_join_push(parts.drop_first(), x, sep);
        assert(parts.push(x).drop_first() == parts.drop_first().push(x));
        assert(parts.push(x)[0] == parts[0]);
        let a = parts[0].push(sep);
        let b = join(parts.drop_first(), sep);
        assert((a + b).push(sep) + x == a + (b.push(sep) + x));
    }
}

/// Joins character vectors with `/`.
pub fn join_exec(parts: &[Vec<char>]) -> (r: Vec<char>)
    ensures
        r@ == join(views(parts@), '/'),
{
    let mut r: Vec<char> = Vec::new();
    let mut i: usize = 0;
    while i < parts.len()
        invariant
            i <= parts@.len(),
            r@ == join(views(parts@).take(i as int), '/'),
        decreases parts@.len() - i,
    {
        let ghost before = r@;
        proof {
            lemma_join_push(views(parts@).take(i as int), parts@[i as int]@, '/');
            assert(views(parts@).take(i + 1) == views(parts@).take(i as int).push(parts@[i as int]@));
        }
        if i > 0 {
            r.push('/');
        }
        push_chars(&mut r, parts[i].as_slice());
        i = i + 1;
    }
    assert(views(parts@).take(i as int) == views(parts@));
    r
}

impl<'a> CaptureRange<'a> {
    /// The captured text as a `String`.
    pub fn get_total(&self) -> (r: String)
        ensures
            r@ == self@,
    {
        match self {
            CaptureRange::Single(s) => string_from_chars(s),
            CaptureRange::Recursive(segs) => {
                let v = join_exec(segs);
                string_from_chars(v.as_slice())
            },
        }
    }
}

/// Copies `s[a..b]` into a new vector.
fn copy_range(s: &[char], a: usize, b: usize) -> (v: Vec<char>)
    requires
        a <= b <= s@.len(),
    ensures
        v@ == s@.subrange(a as int, b as int),
{
    let mut v: Vec<char> = Vec::new();
    push_chars(&mut v, &s[a..b]);
    v
}

/// Reads one non-empty pattern piece.
fn classify_part(part: &[char]) -> (seg: Segment)
    ensures
        seg@ == classify(part@),
{
    let n = part.len();
    if n == 2 && part[0] == '*' && part[1] == '*' {
        assert(part@ == seq!['*', '*']);
        return Segment::RecursiveWild;
    }
    if n == 3 && part[0] == '*' && part[1] == '.' && part[2] == '*' {
        assert(part@ == seq!['*', '.', '*']);
        assert(part@ != seq!['*', '*']);
        return Segment::StarDotStar;
    }
    assert(part@ != seq!['*', '*']) by {
        if part@ == seq!['*', '*'] {
            assert(part@[0] == '*' && part@[1] == '*');
        }
    }
    assert(part@ != seq!['*', '.', '*']) by {
        if part@ == seq!['*', '.', '*'] {
            assert(part@[0] == '*' && part@[1] == '.' && part@[2] == '*');
        }
    }
    let mut k: usize = 0;
    while k < n && part[k] != '*'
        invariant
            n == part@.len(),
            k <= n,
            forall|j: int| 0 <= j < k ==> part@[j] != '*',
        decreases n - k,
    {
        k = k + 1;
    }
    proof {
        lemma_first_index(part@, '*');
    }
    if k < n {
        assert(first_index(part@, '*') == Some(k as int)) by {
            let f = first_index(part@, '*');
            if f is Some {
                let j = f->0;
                assert(!(j < k));
                assert(!(j > k));
            }
        }
        let prefix = copy_range(part, 0, k);
        let suffix = copy_range(part, k + 1, n);
        assert(prefix@ == part@.take(k as int));
        assert(suffix@ == part@.skip(k + 1));
        Segment::Wildcard { prefix, suffix }
    } else {
        assert(first_index(part@, '*') is None) by {
            let f = first_index(part@, '*');
            if f is Some {
                let j = f->0;
                assert(part@[j] == '*');
            }
        }
        let lit = copy_range(part, 0, n);
        assert(lit@ == part@);
        Segment::Literal(lit)
    }
}

/// Compiles a pattern string into its segments.
/// The caller has already rejected malformed patterns (`*.*.*`, `**.png`, ...).
pub fn parse_pattern(pattern: &str) -> (segs: Vec<Segment>)
    ensures
        segment_views(segs@) == parse_pattern_spec(pattern@),
{
    let chars = chars_of(pattern);
    let parts = split_nonempty_exec(chars.as_slice(), '/');
    let ghost spec_parts = split_nonempty(pattern@, '/');
    let mut segs: Vec<Segment> = Vec::new();
    let mut i: usize = 0;
    while i < parts.len()
        invariant
            i <= parts@.len(),
            views(parts@) == spec_parts,
            spec_parts == split_nonempty(pattern@, '/'),
            segment_views(segs@) == parse_pattern_spec(pattern@).take(i as int),
        decreases parts@.len() - i,
    {
        let seg = classify_part(parts[i].as_slice());
        let ghost before = segment_views(segs@);
        segs.push(seg);
        proof {
            assert(spec_parts[i as int] == parts@[i as int]@);
            assert(segment_views(segs@) == before.push(seg@));
            assert(parse_pattern_spec(pattern@).take(i + 1) == parse_pattern_spec(pattern@).take(
                i as int,
            ).push(classify(spec_parts[i as int])));
        }
        i = i + 1;
    }
    assert(parse_pattern_spec(pattern@).take(i as int) == parse_pattern_spec(pattern@));
    segs
}


/// Compares two character slices, ignoring ASCII case.
pub fn eq_ignore_case_exec(a: &[char], b: &[char]) -> (r: bool)
    ensures
        r == eq_ignore_case(a@, b@),
{
    if a.len() != b.len() {
        assert(lower_seq(a@).len() != lower_seq(b@).len());
        return false;
    }
    let mut i: usize = 0;
    while i < a.len()
        invariant
            a@.len() == b@.len(),
            i <= a@.len(),
            forall|j: int| 0 <= j < i ==> lower(a@[j]) == lower(b@[j]),
        decreases a@.len() - i,
    {
        if to_lower(a[i]) != to_lower(b[i]) {
            assert(lower_seq(a@)[i as int] != lower_seq(b@)[i as int]);
            return false;
        }
        i = i + 1;
    }
    assert(lower_seq(a@) == lower_seq(b@));
    true
}

/// Whether a path piece fits a `prefix*suffix` segment.
fn wildcard_fits_exec(seg: &[char], prefix: &[char], suffix: &[char]) -> (r: bool)
    ensures
        r == wildcard_fits(seg@, prefix@, suffix@),
{
    let n = seg.len();
    if prefix.len() > n || suffix.len() > n - prefix.len() {
        return false;
    }
    let head = &seg[0..prefix.len()];
    let tail = &seg[n - suffix.len()..n];
    assert(head@ == seg@.take(prefix@.len() as int));
    assert(tail@ == seg@.skip(seg@.len() - suffix@.len()));
    eq_ignore_case_exec(head, prefix) && eq_ignore_case_exec(tail, suffix)
}

/// Index of the last `.` in a path piece.
fn last_dot(seg: &[char]) -> (r: Option<usize>)
    ensures
        match r {
            Some(k) => k < seg.len() && last_index(seg@, '.') == Some(k as int),
            None => last_index(seg@, '.') is None,
        },
{
    let mut k: usize = seg.len();
    while k > 0 && seg[k - 1] != '.'
        invariant
            k <= seg@.len(),
            forall|j: int| k <= j < seg@.len() ==> seg@[j] != '.',
        decreases k,
    {
        k = k - 1;
    }
    proof {
        lemma_last_index(seg@, '.');
    }
    if k == 0 {
        assert(last_index(seg@, '.') is None) by {
            let f = last_index(seg@, '.');
            if f is Some {
                assert(seg@[f->0] == '.');
            }
        }
        None
    } else {
        assert(last_index(seg@, '.') == Some(k - 1)) by {
            let f = last_index(seg@, '.');
            if f is Some {
                let j = f->0;
                assert(!(j < k - 1));
                assert(!(j > k - 1));
            }
        }
        Some(k - 1)
    }
}

/// Matches `path_segs[pi..]` against `segments[si..]` by backtracking.
/// On success the captures are appended to `captures`, the earlier ones kept
/// as they were; on failure `captures` is left as it was.
fn match_segments<'a>(
    segments: &Vec<Segment>,
    si: usize,
    path_segs: &'a [Vec<char>],
    pi: usize,
    captures: &mut Vec<CaptureRange<'a>>,
) -> (matched: bool)
    requires
        si <= segments@.len(),
        pi <= path_segs@.len(),
    ensures
        match match_from(
            segment_views(segments@).skip(si as int),
            views(path_segs@).skip(pi as int),
        ) {
            Some(c) => matched && capture_views(final(captures)@) == capture_views(old(captures)@)
                + c,
            None => !matched && final(captures)@ == old(captures)@,
        },
        matched ==> final(captures)@.len() >= old(captures)@.len() && final(captures)@.subrange(
            0,
            old(captures)@.len() as int,
        ) == old(captures)@,
    decreases segments@.len() - si,
{
    let ghost segs = segment_views(segments@).skip(si as int);
    let ghost path = views(path_segs@).skip(pi as int);
    if si == segments.len() && pi == path_segs.len() {
        assert(capture_views(captures@) + seq![] == capture_views(captures@));
        return true;
    }
    if si >= segments.len() {
        return false;
    }
    proof {
        assert(segs[0] == segments@[si as int]@);
        assert(segs.drop_first() == segment_views(segments@).skip(si + 1));
        if pi < path_segs@.len() {
            assert(path[0] == path_segs@[pi as int]@);
            assert(path.drop_first() == views(path_segs@).skip(pi + 1));
        }
    }
    match &segments[si] {
        Segment::Literal(lit) => {
            if pi < path_segs.len() && eq_ignore_case_exec(path_segs[pi].as_slice(), lit.as_slice()) {
                match_segments(segments, si + 1, path_segs, pi + 1, captures)
            } else {
                false
            }
        },
        Segment::Wildcard { prefix, suffix } => {
            if pi < path_segs.len() {
                let current: &'a [char] = path_segs[pi].as_slice();
                if wildcard_fits_exec(current, prefix.as_slice(), suffix.as_slice()) {
                    let cap = &current[prefix.len()..current.len() - suffix.len()];
                    let ghost before = capture_views(captures@);
                    let ghost oc = captures@;
                    captures.push(CaptureRange::Single(cap));
                    assert(capture_views(captures@) == before.push(cap@));
                    if match_segments(segments, si + 1, path_segs, pi + 1, captures) {
                        proof {
                            assert(captures@.subrange(0, oc.len() as int) =~= oc.push(CaptureRange::Single(cap)).subrange(0, oc.len() as int));
                            let c = match_from(segs.drop_first(), path.drop_first())->0;
                            assert(before.push(cap@) + c == before + (seq![cap@] + c));
                        }
                        return true;
                    }
                    captures.pop();
                }
            }
            false
        },
        Segment::StarDotStar => {
            if pi < path_segs.len() {
                let current: &'a [char] = path_segs[pi].as_slice();
                match last_dot(current) {
                    Some(k) => {
                        let stem = &current[0..k];
                        let ext = &current[k + 1..current.len()];
                        assert(stem@ == path[0].take(k as int));
                        assert(ext@ == path[0].skip(k + 1));
                        let ghost before = capture_views(captures@);
                        let ghost oc = captures@;
                        captures.push(CaptureRange::Single(stem));
                        captures.push(CaptureRange::Single(ext));
                        let ghost pushed = captures@;
                        assert(capture_views(captures@) == before.push(stem@).push(ext@));
                        if match_segments(segments, si + 1, path_segs, pi + 1, captures) {
                            proof {
                                assert(captures@.subrange(0, oc.len() as int) =~= pushed.subrange(0, oc.len() as int));
                                let c = match_from(segs.drop_first(), path.drop_first())->0;
                                assert(before.push(stem@).push(ext@) + c == before + (seq![
                                    stem@,
                                    ext@,
                                ] + c));
                            }
                            return true;
                        }
                        captures.pop();
                        captures.pop();
                    },
                    None => {},
                }
            }
            false
        },
        Segment::RecursiveWild => {
            let remaining = path_segs.len() - pi;
            let ghost rest = segs.drop_first();
            let mut k: usize = 0;
            loop
                invariant
                    si < segments.len(),
                    pi <= path_segs@.len(),
                    pi + remaining == path_segs.len(),
                    k <= remaining,
                    segs == segment_views(segments@).skip(si as int),
                    path == views(path_segs@).skip(pi as int),
                    rest == segment_views(segments@).skip(si + 1),
                    segs[0] == SegmentModel::RecursiveWild,
                    captures@ == old(captures)@,
                    match_from(segs, path) == match_recursive(rest, path, k as int),
                decreases remaining - k,
            {
                let end = pi + k;
                let run: &'a [Vec<char>] = &path_segs[pi..end];
                assert(views(run@) == path.take(k as int));
                assert(path.skip(k as int) == views(path_segs@).skip(end as int));
                let ghost before = capture_views(captures@);
                let ghost oc = captures@;
                captures.push(CaptureRange::Recursive(run));
                let ghost pushed = captures@;
                assert(capture_views(captures@) == before.push(join(path.take(k as int), '/')));
                if match_segments(segments, si + 1, path_segs, end, captures) {
                    proof {
                        assert(captures@.subrange(0, oc.len() as int) =~= pushed.subrange(0, oc.len() as int));
                        let c = match_from(rest, path.skip(k as int))->0;
                        assert(before.push(join(path.take(k as int), '/')) + c == before + (seq![
                            join(path.take(k as int), '/'),
                        ] + c));
                    }
                    return true;
                }
                captures.pop();
                if k == remaining {
                    assert(match_recursive(rest, path, k + 1) is None);
                    return false;
                }
                k = k + 1;
            }
        },
    }
}


/// Fills the template `segments` with `captures`, joining the pieces with `/`.
/// A `**` whose capture is empty takes back the `/` put before it.
fn fill_template(segments: &Vec<Segment>, captures: &[String]) -> (r: String)
    ensures
        r@ == fill_spec(segment_views(segments@), string_views(captures@)),
{
    let ghost segs = segment_views(segments@);
    let ghost caps = string_views(captures@);
    let mut result: Vec<char> = Vec::new();
    let mut cap_idx: usize = 0;
    let mut i: usize = 0;
    while i < segments.len()
        invariant
            i <= segments@.len(),
            cap_idx <= captures@.len(),
            segs == segment_views(segments@),
            caps == string_views(captures@),
            fill_spec(segs, caps) == fill_from(segs, caps, i as int, result@, cap_idx as int),
        decreases segments@.len() - i,
    {
        if i > 0 {
            result.push('/');
        }
        let ghost r1 = result@;
        let ghost c1 = cap_idx as int;
        assert(segs[i as int] == segments@[i as int]@);
        match &segments[i] {
            Segment::Literal(lit) => {
                push_chars(&mut result, lit.as_slice());
            },
            Segment::Wildcard { prefix, suffix } => {
                push_chars(&mut result, prefix.as_slice());
                if cap_idx < captures.len() {
                    push_str_chars(&mut result, captures[cap_idx].as_str());
                    cap_idx = cap_idx + 1;
                }
                push_chars(&mut result, suffix.as_slice());
            },
            Segment::StarDotStar => {
                if cap_idx < captures.len() {
                    push_str_chars(&mut result, captures[cap_idx].as_str());
                    cap_idx = cap_idx + 1;
                }
                result.push('.');
                if cap_idx < captures.len() {
                    push_str_chars(&mut result, captures[cap_idx].as_str());
                    cap_idx = cap_idx + 1;
                }
            },
            Segment::RecursiveWild => {
                if cap_idx < captures.len() {
                    let cap = captures[cap_idx].as_str();
                    if !cap.is_empty() {
                        push_str_chars(&mut result, cap);
                    } else if result.len() > 0 && result[result.len() - 1] == '/' {
                        result.pop();
                    }
                    cap_idx = cap_idx + 1;
                }
            },
        }
        assert((result@, cap_idx as int) == fill_segment(segs[i as int], r1, c1, caps));
        i = i + 1;
    }
    string_from_chars(result.as_slice())
}

/// A compiled source-path pattern.
pub struct PatternMatcher {
    segments: Vec<Segment>,
}

/// A compiled target-path template.
pub struct PatternTemplate {
    segments: Vec<Segment>,
}

impl View for PatternMatcher {
    type V = Seq<SegmentModel>;

    closed spec fn view(&self) -> Seq<SegmentModel> {
        segment_views(self.segments@)
    }
}

impl View for PatternTemplate {
    type V = Seq<SegmentModel>;

    closed spec fn view(&self) -> Seq<SegmentModel> {
        segment_views(self.segments@)
    }
}

/// The captures of matching a normalised path against compiled segments.
pub open spec fn match_path_spec(segs: Seq<SegmentModel>, path: Seq<char>) -> Option<Seq<Seq<char>>> {
    match_from(segs, split_nonempty(path, '/'))
}

impl PatternMatcher {
    /// Compiles a source pattern.
    pub fn compile(source: &str) -> (m: Self)
        ensures
            m@ == parse_pattern_spec(source@),
    {
        PatternMatcher { segments: parse_pattern(source) }
    }

    /// Matches a normalised path; on success returns the captured texts,
    /// one per `*` or `**` and two (stem, extension) per `*.*`, in order.
    pub fn match_path(&self, normalized_path: &str) -> (r: Option<Vec<String>>)
        ensures
            match match_path_spec(self@, normalized_path@) {
                Some(c) => r is Some && string_views(r->0@) == c,
                None => r is None,
            },
    {
        let chars = chars_of(normalized_path);
        let path_segs = split_nonempty_exec(chars.as_slice(), '/');
        let mut captures: Vec<CaptureRange> = Vec::new();
        proof {
            assert(segment_views(self.segments@).skip(0) == segment_views(self.segments@));
            assert(views(path_segs@).skip(0) == views(path_segs@));
        }
        if match_segments(&self.segments, 0, path_segs.as_slice(), 0, &mut captures) {
            assert(capture_views(Seq::<CaptureRange>::empty()) == Seq::<Seq<char>>::empty());
            let mut out: Vec<String> = Vec::new();
            let mut i: usize = 0;
            while i < captures.len()
                invariant
                    i <= captures@.len(),
                    string_views(out@) == capture_views(captures@).take(i as int),
                decreases captures@.len() - i,
            {
                let t = captures[i].get_total();
                let ghost before = string_views(out@);
                out.push(t);
                assert(string_views(out@) == before.push(t@));
                assert(capture_views(captures@).take(i + 1) == capture_views(captures@).take(
                    i as int,
                ).push(captures@[i as int]@));
                i = i + 1;
            }
            assert(capture_views(captures@).take(i as int) == capture_views(captures@));
            Some(out)
        } else {
            None
        }
    }
}

impl PatternTemplate {
    /// Compiles a target template.
    pub fn compile(target: &str) -> (t: Self)
        ensures
            t@ == parse_pattern_spec(target@),
    {
        PatternTemplate { segments: parse_pattern(target) }
    }

    /// Fills the template with captures, in order.
    pub fn fill(&self, captures: &[String]) -> (r: String)
        ensures
            r@ == fill_spec(self@, string_views(captures@)),
    {
        fill_template(&self.segments, captures)
    }
}

} // verus!
