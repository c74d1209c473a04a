//! Properties that tie the pattern compiler, the matcher, the template
//! filler and the rule checker together.
use vstd::prelude::*;
use crate::pattern::{
    classify, fill_from, fill_segment, fill_spec, match_from, match_path_spec, match_recursive,
    parse_pattern_spec, wildcard_middle, SegmentModel,
};
use crate::text::{
    eq_ignore_case, first_index, join, last_index, lemma_last_index, lower_seq, split_acc,
    split_nonempty,
};
use crate::vfs::{
    clean_pieces, device, has_prefix, strip_win_prefix, to_slash, trim_end_slashes, unix_clean, verbatim,
    verbatim_unc,
};
use crate::vfs_rules::{
    kept_dirs, pattern_captures, piece_captures, star_count, sum_captures, DirItem,
};

verus! {

/// Captures one compiled segment yields.
pub open spec fn segment_captures(seg: SegmentModel) -> nat {
    match seg {
        SegmentModel::Literal(_) => 0,
        SegmentModel::Wildcard { .. } => 1,
        SegmentModel::StarDotStar => 2,
        SegmentModel::RecursiveWild => 1,
    }
}

pub open spec fn segments_captures(segs: Seq<SegmentModel>) -> nat
    decreases segs.len(),
{
    if segs.len() == 0 {
        0
    } else {
        segment_captures(segs[0]) + segments_captures(segs.drop_first())
    }
}

proof fn lemma_star_count_first_index(s: Seq<char>)
    ensures
        (star_count(s) > 0) == (first_index(s, '*') is Some),
    decreases s.len(),
{
    if s.len() > 0 {
        lemma_star_count_first_index(s.drop_first());
    }
}

proof fn lemma_piece_classify(part: Seq<char>)
    ensures
        piece_captures(part) == segment_captures(classify(part)),
{
    lemma_star_count_first_index(part);
}

proof fn lemma_sum_classified(parts: Seq<Seq<char>>)
    ensures
        sum_captures(parts) == segments_captures(parts.map_values(|p: Seq<char>| classify(p))),
    decreases parts.len(),
{
    if parts.len() > 0 {
        lemma_piece_classify(parts[0]);
        lemma_sum_classified(parts.drop_first());
        assert(parts.map_values(|p: Seq<char>| classify(p)).drop_first() == parts.drop_first().map_values(
            |p: Seq<char>| classify(p),
        ));
    }
}

/// A compiled pattern yields exactly as many captures per match as the
/// rule checker counts for its text.
pub proof fn lemma_compiled_captures(pattern: Seq<char>)
    ensures
        segments_captures(parse_pattern_spec(pattern)) == pattern_captures(pattern),
{
    lemma_sum_classified(split_nonempty(pattern, '/'));
}

proof fn lemma_match_from_len(segs: Seq<SegmentModel>, path: Seq<Seq<char>>)
    ensures
        match_from(segs, path) matches Some(c) ==> c.len() == segments_captures(segs),
    decreases segs.len(), 0int, 0int,
{
    if segs.len() > 0 {
        match segs[0] {
            SegmentModel::RecursiveWild => {
                lemma_match_recursive_len(segs.drop_first(), path, 0);
            },
            _ => {
                if path.len() > 0 {
                    lemma_match_from_len(segs.drop_first(), path.drop_first());
                }
            },
        }
    }
}

proof fn lemma_match_recursive_len(rest: Seq<SegmentModel>, path: Seq<Seq<char>>, k: int)
    ensures
        match_recursive(rest, path, k) matches Some(c) ==> c.len() == 1 + segments_captures(rest),
    decreases rest.len(), 1int, path.len() + 1 - k,
{
    if 0 <= k <= path.len() {
        lemma_match_from_len(rest, path.skip(k));
        lemma_match_recursive_len(rest, path, k + 1);
    }
}

/// Whenever a path matches a pattern, the number of captures returned is
/// the number that the rule checker counts for that pattern.
pub proof fn law_match_capture_count(pattern: Seq<char>, path: Seq<char>)
    requires
        match_path_spec(parse_pattern_spec(pattern), path) is Some,
    ensures
        match_path_spec(parse_pattern_spec(pattern), path)->0.len() == pattern_captures(pattern),
{
    lemma_compiled_captures(pattern);
    lemma_match_from_len(parse_pattern_spec(pattern), split_nonempty(path, '/'));
}


/// Every piece is non-empty.
pub open spec fn all_nonempty(p: Seq<Seq<char>>) -> bool {
    forall|i: int| 0 <= i < p.len() ==> #[trigger] p[i].len() > 0
}

proof fn lemma_split_parts_nonempty(s: Seq<char>, sep: char, cur: Seq<char>)
    ensures
        all_nonempty(split_acc(s, sep, cur)),
    decreases s.len(),
{
    if s.len() > 0 {
        if s[0] == sep {
            lemma_split_parts_nonempty(s.drop_first(), sep, seq![]);
        } else {
            lemma_split_parts_nonempty(s.drop_first(), sep, cur.push(s[0]));
        }
    }
}

proof fn lemma_lower_add(a: Seq<char>, b: Seq<char>)
    ensures
        lower_seq(a + b) == lower_seq(a) + lower_seq(b),
{
    assert(lower_seq(a + b) == lower_seq(a) + lower_seq(b));
}

proof fn lemma_join_split(p: Seq<Seq<char>>, k: int)
    requires
        0 < k < p.len(),
    ensures
        join(p, '/') == join(p.take(k), '/').push('/') + join(p.skip(k), '/'),
    decreases k,
{
    if k == 1 {
        assert(p.take(1) == seq![p[0]]);
        assert(join(seq![p[0]], '/') == p[0]);
        assert(p.skip(1) == p.drop_first());
    } else {
        let d = p.drop_first();
        lemma_join_split(d, k - 1);
        assert(p.take(k).drop_first() == d.take(k - 1));
        assert(p.take(k)[0] == p[0]);
        assert(p.skip(k) == d.skip(k - 1));
        let a = p[0].push('/');
        let b = join(d.take(k - 1), '/');
        let e = join(d.skip(k - 1), '/');
        assert(a + (b.push('/') + e) == (a + b).push('/') + e);
    }
}

proof fn lemma_join_nonempty(p: Seq<Seq<char>>)
    requires
        p.len() > 0,
        p[0].len() > 0,
    ensures
        join(p, '/').len() > 0,
{
}

/// The first `k` from `k0` on at which `**` followed by `rest` succeeds.
proof fn lemma_recursive_witness(rest: Seq<SegmentModel>, path: Seq<Seq<char>>, k0: int) -> (k: int)
    requires
        0 <= k0,
        match_recursive(rest, path, k0) is Some,
    ensures
        k0 <= k <= path.len(),
        match_from(rest, path.skip(k)) is Some,
        match_recursive(rest, path, k0)->0 == seq![join(path.take(k), '/')] + match_from(
            rest,
            path.skip(k),
        )->0,
    decreases path.len() + 1 - k0,
{
    if match_from(rest, path.skip(k0)) is Some {
        k0
    } else {
        lemma_recursive_witness(rest, path, k0 + 1)
    }
}

proof fn lemma_caps_window(caps: Seq<Seq<char>>, ci: int, c: Seq<Seq<char>>, n: int)
    requires
        0 <= ci,
        ci + c.len() <= caps.len(),
        caps.subrange(ci, ci + c.len()) == c,
        0 <= n <= c.len(),
    ensures
        caps.subrange(ci + n, ci + c.len()) == c.skip(n),
        forall|t: int| 0 <= t < c.len() ==> caps[ci + t] == c[t],
{
    assert forall|t: int| 0 <= t < c.len() implies caps[ci + t] == c[t] by {
        assert(caps.subrange(ci, ci + c.len())[t] == caps[ci + t]);
    }
    assert(caps.subrange(ci + n, ci + c.len()) == c.skip(n));
}

/// The separator put before segment `j`.
pub open spec fn lead(j: int, r: Seq<char>) -> Seq<char> {
    if j > 0 {
        r.push('/')
    } else {
        r
    }
}

/// What filling from segment `j` on should produce after `r`, for a match
/// of the remaining path pieces `p`.
pub open spec fn expected_tail(j: int, r: Seq<char>, p: Seq<Seq<char>>) -> Seq<char> {
    if p.len() == 0 {
        r
    } else {
        lead(j, r) + join(p, '/')
    }
}

/// One piece `x` filled in for the first path piece `p[0]`.
proof fn lemma_piece_step(j: int, r: Seq<char>, x: Seq<char>, p: Seq<Seq<char>>, out: Seq<char>)
    requires
        p.len() > 0,
        lower_seq(x) == lower_seq(p[0]),
        lower_seq(out) == lower_seq(expected_tail(1, lead(j, r) + x, p.drop_first())),
    ensures
        lower_seq(out) == lower_seq(expected_tail(j, r, p)),
{
    let r1 = lead(j, r);
    if p.len() == 1 {
        assert(join(p, '/') == p[0]);
        lemma_lower_add(r1, x);
        lemma_lower_add(r1, p[0]);
    } else {
        let t = join(p.drop_first(), '/');
        assert(join(p, '/') == p[0].push('/') + t);
        assert(expected_tail(1, r1 + x, p.drop_first()) == r1 + (x + (seq!['/'] + t)));
        assert(expected_tail(j, r, p) == r1 + (p[0] + (seq!['/'] + t)));
        lemma_lower_add(x, seq!['/'] + t);
        lemma_lower_add(p[0], seq!['/'] + t);
        lemma_lower_add(r1, x + (seq!['/'] + t));
        lemma_lower_add(r1, p[0] + (seq!['/'] + t));
    }
}

/// Filling the template from segment `j` with the captures of matching the
/// remaining pieces gives back those pieces, up to ASCII case.
proof fn lemma_fill_tail(
    segs: Seq<SegmentModel>,
    j: int,
    p: Seq<Seq<char>>,
    c: Seq<Seq<char>>,
    caps: Seq<Seq<char>>,
    ci: int,
    r: Seq<char>,
)
    requires
        0 <= j <= segs.len(),
        j == 0 ==> segs.len() == 0 || !(segs[0] is RecursiveWild),
        all_nonempty(p),
        match_from(segs.skip(j), p) == Some(c),
        0 <= ci,
        ci + c.len() <= caps.len(),
        caps.subrange(ci, ci + c.len()) == c,
    ensures
        lower_seq(fill_from(segs, caps, j, r, ci)) == lower_seq(expected_tail(j, r, p)),
    decreases segs.len() - j, 1int,
{
    let rest = segs.skip(j);
    if j == segs.len() {
        assert(rest.len() == 0);
        return;
    }
    assert(rest[0] == segs[j]);
    assert(rest.drop_first() == segs.skip(j + 1));
    match segs[j] {
        SegmentModel::Literal(lit) => lemma_fill_literal(segs, j, p, c, caps, ci, r),
        SegmentModel::Wildcard { .. } => lemma_fill_wildcard(segs, j, p, c, caps, ci, r),
        SegmentModel::StarDotStar => lemma_fill_star_dot_star(segs, j, p, c, caps, ci, r),
        SegmentModel::RecursiveWild => lemma_fill_recursive(segs, j, p, c, caps, ci, r),
    }
}

proof fn lemma_fill_literal(
    segs: Seq<SegmentModel>,
    j: int,
    p: Seq<Seq<char>>,
    c: Seq<Seq<char>>,
    caps: Seq<Seq<char>>,
    ci: int,
    r: Seq<char>,
)
    requires
        0 <= j < segs.len(),
        segs[j] is Literal,
        segs.skip(j)[0] == segs[j],
        segs.skip(j).drop_first() == segs.skip(j + 1),
        all_nonempty(p),
        match_from(segs.skip(j), p) == Some(c),
        0 <= ci,
        ci + c.len() <= caps.len(),
        caps.subrange(ci, ci + c.len()) == c,
    ensures
        lower_seq(fill_from(segs, caps, j, r, ci)) == lower_seq(expected_tail(j, r, p)),
    decreases segs.len() - j, 0int,
{
    let lit = segs[j]->Literal_0;
    let r1 = lead(j, r);
    lemma_fill_tail(segs, j + 1, p.drop_first(), c, caps, ci, r1 + lit);
    lemma_piece_step(j, r, lit, p, fill_from(segs, caps, j, r, ci));
}

proof fn lemma_fill_wildcard(
    segs: Seq<SegmentModel>,
    j: int,
    p: Seq<Seq<char>>,
    c: Seq<Seq<char>>,
    caps: Seq<Seq<char>>,
    ci: int,
    r: Seq<char>,
)
    requires
        0 <= j < segs.len(),
        segs[j] is Wildcard,
        segs.skip(j)[0] == segs[j],
        segs.skip(j).drop_first() == segs.skip(j + 1),
        all_nonempty(p),
        match_from(segs.skip(j), p) == Some(c),
        0 <= ci,
        ci + c.len() <= caps.len(),
        caps.subrange(ci, ci + c.len()) == c,
    ensures
        lower_seq(fill_from(segs, caps, j, r, ci)) == lower_seq(expected_tail(j, r, p)),
    decreases segs.len() - j, 0int,
{
    let prefix = segs[j]->prefix;
    let suffix = segs[j]->suffix;
    let r1 = lead(j, r);
    let seg0 = p[0];
    let mid = wildcard_middle(seg0, prefix, suffix);
    let c2 = match_from(segs.skip(j + 1), p.drop_first())->0;
    assert(c == seq![mid] + c2);
    lemma_caps_window(caps, ci, c, 1);
    assert(c.skip(1) == c2);
    assert(caps[ci + 0] == c[0]);
    let x = prefix + mid + suffix;
    assert(fill_segment(segs[j], r1, ci, caps) == (r1 + x, ci + 1));
    lemma_fill_tail(segs, j + 1, p.drop_first(), c2, caps, ci + 1, r1 + x);
    let pl = prefix.len() as int;
    let n = seg0.len() as int;
    assert(seg0 == seg0.take(pl) + mid + seg0.skip(n - suffix.len()));
    lemma_lower_add(prefix, mid);
    lemma_lower_add(prefix + mid, suffix);
    lemma_lower_add(seg0.take(pl), mid);
    lemma_lower_add(seg0.take(pl) + mid, seg0.skip(n - suffix.len()));
    lemma_piece_step(j, r, x, p, fill_from(segs, caps, j, r, ci));
}

proof fn lemma_fill_star_dot_star(
    segs: Seq<SegmentModel>,
    j: int,
    p: Seq<Seq<char>>,
    c: Seq<Seq<char>>,
    caps: Seq<Seq<char>>,
    ci: int,
    r: Seq<char>,
)
    requires
        0 <= j < segs.len(),
        segs[j] is StarDotStar,
        segs.skip(j)[0] == segs[j],
        segs.skip(j).drop_first() == segs.skip(j + 1),
        all_nonempty(p),
        match_from(segs.skip(j), p) == Some(c),
        0 <= ci,
        ci + c.len() <= caps.len(),
        caps.subrange(ci, ci + c.len()) == c,
    ensures
        lower_seq(fill_from(segs, caps, j, r, ci)) == lower_seq(expected_tail(j, r, p)),
    decreases segs.len() - j, 0int,
{
    let r1 = lead(j, r);
    let seg0 = p[0];
    lemma_last_index(seg0, '.');
    let k = last_index(seg0, '.')->0;
    let stem = seg0.take(k);
    let ext = seg0.skip(k + 1);
    let c2 = match_from(segs.skip(j + 1), p.drop_first())->0;
    assert(c == seq![stem, ext] + c2);
    lemma_caps_window(caps, ci, c, 2);
    assert(c.skip(2) == c2);
    assert(c[0] == stem && c[1] == ext);
    assert(caps[ci + 0] == stem);
    assert(caps[ci + 1] == ext);
    let x = stem.push('.') + ext;
    assert(fill_segment(segs[j], r1, ci, caps) == (r1 + x, ci + 2));
    lemma_fill_tail(segs, j + 1, p.drop_first(), c2, caps, ci + 2, r1 + x);
    assert(seg0 == x);
    lemma_piece_step(j, r, x, p, fill_from(segs, caps, j, r, ci));
}

proof fn lemma_fill_recursive(
    segs: Seq<SegmentModel>,
    j: int,
    p: Seq<Seq<char>>,
    c: Seq<Seq<char>>,
    caps: Seq<Seq<char>>,
    ci: int,
    r: Seq<char>,
)
    requires
        0 < j < segs.len(),
        segs[j] is RecursiveWild,
        segs.skip(j)[0] == segs[j],
        segs.skip(j).drop_first() == segs.skip(j + 1),
        all_nonempty(p),
        match_from(segs.skip(j), p) == Some(c),
        0 <= ci,
        ci + c.len() <= caps.len(),
        caps.subrange(ci, ci + c.len()) == c,
    ensures
        lower_seq(fill_from(segs, caps, j, r, ci)) == lower_seq(expected_tail(j, r, p)),
    decreases segs.len() - j, 0int,
{
    let r1 = lead(j, r);
    let k = lemma_recursive_witness(segs.skip(j + 1), p, 0);
    let cap = join(p.take(k), '/');
    let p2 = p.skip(k);
    let c2 = match_from(segs.skip(j + 1), p2)->0;
    assert(c == seq![cap] + c2);
    lemma_caps_window(caps, ci, c, 1);
    assert(c.skip(1) == c2);
    assert(c[0] == cap);
    assert(caps[ci + 0] == cap);
    assert(all_nonempty(p2));
    if k == 0 {
        assert(p.take(0) == Seq::<Seq<char>>::empty());
        assert(cap.len() == 0);
        assert(r1.drop_last() == r);
        assert(fill_segment(segs[j], r1, ci, caps) == (r, ci + 1));
        assert(p2 == p);
        lemma_fill_tail(segs, j + 1, p2, c2, caps, ci + 1, r);
    } else {
        assert(p.take(k)[0] == p[0]);
        lemma_join_nonempty(p.take(k));
        assert(fill_segment(segs[j], r1, ci, caps) == (r1 + cap, ci + 1));
        lemma_fill_tail(segs, j + 1, p2, c2, caps, ci + 1, r1 + cap);
        if k == p.len() {
            assert(p.take(k) == p);
        } else {
            lemma_join_split(p, k);
            assert((r1 + cap).push('/') + join(p2, '/') == r1 + (cap.push('/') + join(p2, '/')));
        }
    }
}

/// Filling a pattern's own template with the captures of a match gives back
/// the matched path (its non-empty pieces joined with `/`), up to ASCII case,
/// provided the pattern does not begin with `**`.
pub proof fn law_fill_reverses_match(pattern: Seq<char>, path: Seq<char>)
    requires
        match_path_spec(parse_pattern_spec(pattern), path) is Some,
        parse_pattern_spec(pattern).len() > 0 ==> !(parse_pattern_spec(pattern)[0] is RecursiveWild),
    ensures
        eq_ignore_case(
            fill_spec(
                parse_pattern_spec(pattern),
                match_path_spec(parse_pattern_spec(pattern), path)->0,
            ),
            join(split_nonempty(path, '/'), '/'),
        ),
{
    let segs = parse_pattern_spec(pattern);
    let p = split_nonempty(path, '/');
    let c = match_path_spec(segs, path)->0;
    lemma_split_parts_nonempty(path, '/', seq![]);
    assert(segs.skip(0) == segs);
    assert(c.subrange(0, c.len() as int) == c);
    lemma_fill_tail(segs, 0, p, c, c, 0, seq![]);
    assert(Seq::<char>::empty() + join(p, '/') == join(p, '/'));
}


/// An item is redundant when it has a `cfg` and the same path is also
/// asked for without one.
pub open spec fn redundant_dir(items: Seq<DirItem>, it: DirItem) -> bool {
    it.0 is Some && items.contains((None, it.1))
}

/// The directories to create hold each `(cfg, path)` at most once; each of
/// them was asked for and is not made redundant by an unconditional copy;
/// and every directory asked for that is not redundant is among them.
pub proof fn law_create_dirs_dedup(items: Seq<DirItem>, n: int)
    requires
        0 <= n <= items.len(),
    ensures
        kept_dirs(items, n).no_duplicates(),
        forall|k: int|
            0 <= k < kept_dirs(items, n).len() ==> items.take(n).contains(
                #[trigger] kept_dirs(items, n)[k],
            ) && !redundant_dir(items, kept_dirs(items, n)[k]),
        forall|k: int|
            0 <= k < n && !redundant_dir(items, #[trigger] items[k]) ==> kept_dirs(
                items,
                n,
            ).contains(items[k]),
    decreases n,
{
    if n > 0 {
        law_create_dirs_dedup(items, n - 1);
        let prev = kept_dirs(items, n - 1);
        let it = items[n - 1];
        let cur = kept_dirs(items, n);
        assert(items.take(n) == items.take(n - 1).push(it));
        assert forall|k: int| 0 <= k < prev.len() implies items.take(n).contains(prev[k]) by {
            let j = choose|j: int| 0 <= j < n - 1 && #[trigger] items.take(n - 1)[j] == prev[k];
            assert(items.take(n)[j] == prev[k]);
        }
        if !(redundant_dir(items, it) || prev.contains(it)) {
            assert(cur == prev.push(it));
            assert(items.take(n)[n - 1] == it);
            assert forall|k: int| 0 <= k < n && !redundant_dir(items, #[trigger] items[k]) implies cur.contains(
                items[k],
            ) by {
                if k < n - 1 {
                    let j = choose|j: int| 0 <= j < prev.len() && #[trigger] prev[j] == items[k];
                    assert(cur[j] == items[k]);
                } else {
                    assert(cur[prev.len() as int] == items[k]);
                }
            }
        } else {
            assert(cur == prev);
        }
    }
}

proof fn lemma_split_join(a: Seq<char>, b: Seq<char>, sep: char, cur: Seq<char>)
    ensures
        split_acc(a + seq![sep] + b, sep, cur) == split_acc(a, sep, cur) + split_acc(b, sep, seq![]),
    decreases a.len(),
{
    let s = a + seq![sep] + b;
    if a.len() == 0 {
        assert(s == seq![sep] + b);
        assert(s.drop_first() == b);
    } else {
        assert(s[0] == a[0]);
        assert(s.drop_first() == a.drop_first() + seq![sep] + b);
        lemma_split_join(a.drop_first(), b, sep, if a[0] == sep {
            seq![]
        } else {
            cur.push(a[0])
        });
        if a[0] == sep {
            let head: Seq<Seq<char>> = if cur.len() > 0 {
                seq![cur]
            } else {
                seq![]
            };
            assert(head + (split_acc(a.drop_first(), sep, seq![]) + split_acc(b, sep, seq![])) == (head
                + split_acc(a.drop_first(), sep, seq![])) + split_acc(b, sep, seq![]));
        }
    }
}

/// The pieces of two texts joined with a separator are the pieces of the
/// first and then those of the second.
pub proof fn lemma_split_nonempty_join(a: Seq<char>, b: Seq<char>, sep: char)
    ensures
        split_nonempty(a + seq![sep] + b, sep) == split_nonempty(a, sep) + split_nonempty(b, sep),
{
    lemma_split_join(a, b, sep, seq![]);
}

/// The captures of two patterns joined with `/` add up.
pub proof fn law_capture_count_join(a: Seq<char>, b: Seq<char>)
    ensures
        pattern_captures(a + seq!['/'] + b) == pattern_captures(a) + pattern_captures(b),
{
    lemma_split_nonempty_join(a, b, '/');
    crate::vfs_rules::lemma_sum_captures_add(split_nonempty(a, '/'), split_nonempty(b, '/'));
}

/// Matching a path does not depend on its runs of `/`: a leading or a
/// trailing `/`, and a doubled `/` between two parts, change nothing.
pub proof fn law_match_ignores_slash_runs(segs: Seq<SegmentModel>, a: Seq<char>, b: Seq<char>)
    ensures
        match_path_spec(segs, seq!['/'] + a) == match_path_spec(segs, a),
        match_path_spec(segs, a + seq!['/']) == match_path_spec(segs, a),
        match_path_spec(segs, a + seq!['/', '/'] + b) == match_path_spec(segs, a + seq!['/'] + b),
{
    let e = Seq::<char>::empty();
    lemma_split_nonempty_join(e, a, '/');
    assert(e + seq!['/'] + a == seq!['/'] + a);
    assert(split_nonempty(e, '/') == Seq::<Seq<char>>::empty());
    assert(Seq::<Seq<char>>::empty() + split_nonempty(a, '/') == split_nonempty(a, '/'));
    lemma_split_nonempty_join(a, e, '/');
    assert(a + seq!['/'] + e == a + seq!['/']);
    assert(split_nonempty(a, '/') + Seq::<Seq<char>>::empty() == split_nonempty(a, '/'));
    lemma_split_nonempty_join(a, seq!['/'] + b, '/');
    assert(a + seq!['/'] + (seq!['/'] + b) == a + seq!['/', '/'] + b);
    lemma_split_nonempty_join(e, b, '/');
    assert(e + seq!['/'] + b == seq!['/'] + b);
    assert(Seq::<Seq<char>>::empty() + split_nonempty(b, '/') == split_nonempty(b, '/'));
    lemma_split_nonempty_join(a, b, '/');
}

/// Two sequences of path pieces that are equal up to the case of ASCII
/// letters, piece by piece.
pub open spec fn same_ignoring_case(p1: Seq<Seq<char>>, p2: Seq<Seq<char>>) -> bool {
    &&& p1.len() == p2.len()
    &&& forall|i: int| 0 <= i < p1.len() ==> lower_seq(#[trigger] p1[i]) == lower_seq(p2[i])
}

proof fn lemma_lower_char(c: char)
    ensures
        (crate::text::lower(c) == '.') == (c == '.'),
        (crate::text::lower(c) == '/') == (c == '/'),
{
}

proof fn lemma_last_dot_lower(s: Seq<char>)
    ensures
        last_index(lower_seq(s), '.') == last_index(s, '.'),
    decreases s.len(),
{
    if s.len() > 0 {
        assert(lower_seq(s).drop_last() == lower_seq(s.drop_last()));
        lemma_lower_char(s.last());
        lemma_last_dot_lower(s.drop_last());
    }
}

proof fn lemma_lower_parts(a: Seq<char>, b: Seq<char>, n: int)
    requires
        lower_seq(a) == lower_seq(b),
        0 <= n <= a.len(),
    ensures
        a.len() == b.len(),
        lower_seq(a.take(n)) == lower_seq(b.take(n)),
        lower_seq(a.skip(n)) == lower_seq(b.skip(n)),
{
    assert(lower_seq(a).len() == a.len() && lower_seq(b).len() == b.len());
    assert(lower_seq(a.take(n)) =~= lower_seq(a).take(n));
    assert(lower_seq(b.take(n)) =~= lower_seq(b).take(n));
    assert(lower_seq(a.skip(n)) =~= lower_seq(a).skip(n));
    assert(lower_seq(b.skip(n)) =~= lower_seq(b).skip(n));
}

proof fn lemma_same_skip(p1: Seq<Seq<char>>, p2: Seq<Seq<char>>, k: int)
    requires
        same_ignoring_case(p1, p2),
        0 <= k <= p1.len(),
    ensures
        same_ignoring_case(p1.skip(k), p2.skip(k)),
{
    assert forall|i: int| 0 <= i < p1.skip(k).len() implies lower_seq(#[trigger] p1.skip(k)[i]) == lower_seq(
        p2.skip(k)[i],
    ) by {
        assert(p1.skip(k)[i] == p1[i + k]);
        assert(p2.skip(k)[i] == p2[i + k]);
    }
}

proof fn lemma_match_case(segs: Seq<SegmentModel>, p1: Seq<Seq<char>>, p2: Seq<Seq<char>>)
    requires
        same_ignoring_case(p1, p2),
    ensures
        (match_from(segs, p1) is Some) == (match_from(segs, p2) is Some),
    decreases segs.len(), 0int, 0int,
{
    if segs.len() > 0 {
        if p1.len() > 0 {
            lemma_same_skip(p1, p2, 1);
            assert(p1.skip(1) == p1.drop_first() && p2.skip(1) == p2.drop_first());
            assert(lower_seq(p1[0]) == lower_seq(p2[0]));
        }
        match segs[0] {
            SegmentModel::Literal(lit) => {
                if p1.len() > 0 {
                    lemma_match_case(segs.drop_first(), p1.drop_first(), p2.drop_first());
                }
            },
            SegmentModel::Wildcard { prefix, suffix } => {
                if p1.len() > 0 {
                    let a = p1[0];
                    let b = p2[0];
                    lemma_lower_parts(a, b, 0);
                    if prefix.len() + suffix.len() <= a.len() {
                        lemma_lower_parts(a, b, prefix.len() as int);
                        lemma_lower_parts(a, b, a.len() - suffix.len());
                    }
                    lemma_match_case(segs.drop_first(), p1.drop_first(), p2.drop_first());
                }
            },
            SegmentModel::StarDotStar => {
                if p1.len() > 0 {
                    lemma_last_dot_lower(p1[0]);
                    lemma_last_dot_lower(p2[0]);
                    lemma_match_case(segs.drop_first(), p1.drop_first(), p2.drop_first());
                }
            },
            SegmentModel::RecursiveWild => {
                lemma_recursive_case(segs.drop_first(), p1, p2, 0);
            },
        }
    }
}

proof fn lemma_recursive_case(rest: Seq<SegmentModel>, p1: Seq<Seq<char>>, p2: Seq<Seq<char>>, k: int)
    requires
        same_ignoring_case(p1, p2),
    ensures
        (match_recursive(rest, p1, k) is Some) == (match_recursive(rest, p2, k) is Some),
    decreases rest.len(), 1int, p1.len() + 1 - k,
{
    if 0 <= k <= p1.len() {
        lemma_same_skip(p1, p2, k);
        lemma_match_case(rest, p1.skip(k), p2.skip(k));
        lemma_recursive_case(rest, p1, p2, k + 1);
    }
}

proof fn lemma_split_case(s1: Seq<char>, s2: Seq<char>, c1: Seq<char>, c2: Seq<char>)
    requires
        lower_seq(s1) == lower_seq(s2),
        lower_seq(c1) == lower_seq(c2),
    ensures
        same_ignoring_case(split_acc(s1, '/', c1), split_acc(s2, '/', c2)),
    decreases s1.len(),
{
    assert(lower_seq(s1).len() == s1.len() && lower_seq(s2).len() == s2.len());
    assert(lower_seq(c1).len() == c1.len() && lower_seq(c2).len() == c2.len());
    if s1.len() > 0 {
        assert(lower_seq(s1)[0] == crate::text::lower(s1[0]));
        assert(lower_seq(s2)[0] == crate::text::lower(s2[0]));
        assert(crate::text::lower(s1[0]) == crate::text::lower(s2[0]));
        lemma_lower_char(s1[0]);
        lemma_lower_char(s2[0]);
        assert(lower_seq(s1.drop_first()) =~= lower_seq(s1).drop_first());
        assert(lower_seq(s2.drop_first()) =~= lower_seq(s2).drop_first());
        if s1[0] == '/' {
            lemma_split_case(s1.drop_first(), s2.drop_first(), seq![], seq![]);
            let h1: Seq<Seq<char>> = if c1.len() > 0 { seq![c1] } else { seq![] };
            let h2: Seq<Seq<char>> = if c2.len() > 0 { seq![c2] } else { seq![] };
            let t1 = split_acc(s1.drop_first(), '/', seq![]);
            let t2 = split_acc(s2.drop_first(), '/', seq![]);
            assert(s2[0] == '/');
            assert(split_acc(s1, '/', c1) == h1 + t1);
            assert(split_acc(s2, '/', c2) == h2 + t2);
            assert forall|i: int| 0 <= i < (h1 + t1).len() implies lower_seq(#[trigger] (h1 + t1)[i]) == lower_seq(
                (h2 + t2)[i],
            ) by {
                if i < h1.len() {
                    assert((h1 + t1)[i] == c1);
                    assert((h2 + t2)[i] == c2);
                } else {
                    assert((h1 + t1)[i] == t1[i - h1.len()]);
                    assert((h2 + t2)[i] == t2[i - h2.len()]);
                }
            }
        } else {
            assert(lower_seq(c1.push(s1[0])) =~= lower_seq(c1).push(crate::text::lower(s1[0])));
            assert(lower_seq(c2.push(s2[0])) =~= lower_seq(c2).push(crate::text::lower(s2[0])));
            assert(s2[0] != '/');
            lemma_split_case(s1.drop_first(), s2.drop_first(), c1.push(s1[0]), c2.push(s2[0]));
            assert(split_acc(s1, '/', c1) == split_acc(s1.drop_first(), '/', c1.push(s1[0])));
            assert(split_acc(s2, '/', c2) == split_acc(s2.drop_first(), '/', c2.push(s2[0])));
        }
    } else {
        assert(s2.len() == 0);
        if c1.len() > 0 {
            assert(split_acc(s1, '/', c1) == seq![c1]);
            assert(split_acc(s2, '/', c2) == seq![c2]);
            assert(seq![c1][0] == c1);
            assert(seq![c2][0] == c2);
        } else {
            assert(split_acc(s1, '/', c1) == Seq::<Seq<char>>::empty());
            assert(split_acc(s2, '/', c2) == Seq::<Seq<char>>::empty());
        }
    }
}

/// Whether a path matches does not depend on the case of its ASCII letters.
pub proof fn law_match_ignores_case(segs: Seq<SegmentModel>, s1: Seq<char>, s2: Seq<char>)
    requires
        lower_seq(s1) == lower_seq(s2),
    ensures
        (match_path_spec(segs, s1) is Some) == (match_path_spec(segs, s2) is Some),
{
    lemma_split_case(s1, s2, seq![], seq![]);
    lemma_match_case(segs, split_nonempty(s1, '/'), split_nonempty(s2, '/'));
}


/// Whether a path matches depends only on its non-empty `/`-pieces up to the
/// case of ASCII letters: two paths whose pieces agree so match alike, however
/// their runs of `/` differ; and paths with the same pieces give the same
/// captures.
pub proof fn law_match_depends_on_pieces(segs: Seq<SegmentModel>, s1: Seq<char>, s2: Seq<char>)
    requires
        same_ignoring_case(split_nonempty(s1, '/'), split_nonempty(s2, '/')),
    ensures
        (match_path_spec(segs, s1) is Some) == (match_path_spec(segs, s2) is Some),
        split_nonempty(s1, '/') == split_nonempty(s2, '/') ==> match_path_spec(segs, s1) == match_path_spec(
            segs,
            s2,
        ),
{
    lemma_match_case(segs, split_nonempty(s1, '/'), split_nonempty(s2, '/'));
}

/// No ASCII upper-case letter in `s`.
pub open spec fn is_lower(s: Seq<char>) -> bool {
    lower_seq(s) == s
}

/// A path with no empty `/`-piece: no `/` at either end, none doubled.
pub open spec fn no_empty_piece(s: Seq<char>) -> bool {
    &&& s.len() > 0 ==> s[0] != '/' && s.last() != '/'
    &&& forall|i: int| 0 <= i < s.len() - 1 ==> !(#[trigger] s[i] == '/' && s[i + 1] == '/')
}

/// The components of a segment that a template writes out are lower-case.
pub open spec fn seg_lower(seg: SegmentModel) -> bool {
    match seg {
        SegmentModel::Literal(l) => is_lower(l),
        SegmentModel::Wildcard { prefix, suffix } => is_lower(prefix) && is_lower(suffix),
        _ => true,
    }
}

pub open spec fn all_lower(p: Seq<Seq<char>>) -> bool {
    forall|i: int| 0 <= i < p.len() ==> is_lower(#[trigger] p[i])
}

proof fn lemma_lower_range(s: Seq<char>, a: int, b: int)
    requires
        is_lower(s),
        0 <= a <= b <= s.len(),
    ensures
        is_lower(s.subrange(a, b)),
        is_lower(s.take(b)),
        is_lower(s.skip(a)),
{
    assert(lower_seq(s.subrange(a, b)) =~= lower_seq(s).subrange(a, b));
    assert(lower_seq(s.take(b)) =~= lower_seq(s).take(b));
    assert(lower_seq(s.skip(a)) =~= lower_seq(s).skip(a));
}

proof fn lemma_lower_push(s: Seq<char>, c: char)
    requires
        is_lower(s),
        crate::text::lower(c) == c,
    ensures
        is_lower(s.push(c)),
{
    assert(lower_seq(s.push(c)) =~= lower_seq(s).push(crate::text::lower(c)));
}

proof fn lemma_lower_join(p: Seq<Seq<char>>)
    requires
        all_lower(p),
    ensures
        is_lower(join(p, '/')),
    decreases p.len(),
{
    if p.len() > 1 {
        assert(all_lower(p.drop_first()) && is_lower(p[0])) by {
            assert forall|i: int| 0 <= i < p.drop_first().len() implies is_lower(#[trigger] p.drop_first()[i]) by {
                assert(p.drop_first()[i] == p[i + 1]);
            }
        }
        lemma_lower_join(p.drop_first());
        lemma_lower_char('/');
        lemma_lower_push(p[0], '/');
        lemma_lower_add(p[0].push('/'), join(p.drop_first(), '/'));
    } else if p.len() == 1 {
        assert(is_lower(p[0]));
    } else {
        assert(lower_seq(Seq::<char>::empty()) =~= Seq::<char>::empty());
    }
}

proof fn lemma_split_lower(s: Seq<char>, cur: Seq<char>)
    requires
        is_lower(s),
        is_lower(cur),
    ensures
        all_lower(split_acc(s, '/', cur)),
    decreases s.len(),
{
    assert(lower_seq(s).len() == s.len());
    if s.len() > 0 {
        assert(lower_seq(s)[0] == crate::text::lower(s[0]));
        lemma_lower_range(s, 1, s.len() as int);
        assert(s.skip(1) == s.drop_first());
        if s[0] == '/' {
            assert(lower_seq(Seq::<char>::empty()) =~= Seq::<char>::empty());
            lemma_split_lower(s.drop_first(), seq![]);
            let h: Seq<Seq<char>> = if cur.len() > 0 { seq![cur] } else { seq![] };
            let t = split_acc(s.drop_first(), '/', seq![]);
            assert forall|i: int| 0 <= i < (h + t).len() implies is_lower(#[trigger] (h + t)[i]) by {
                if i < h.len() {
                    assert((h + t)[i] == cur);
                } else {
                    assert((h + t)[i] == t[i - h.len()]);
                }
            }
        } else {
            lemma_lower_push(cur, s[0]);
            lemma_split_lower(s.drop_first(), cur.push(s[0]));
        }
    } else if cur.len() > 0 {
        assert(split_acc(s, '/', cur) == seq![cur]);
        assert(seq![cur][0] == cur);
    }
}

proof fn lemma_segs_lower(pattern: Seq<char>)
    requires
        is_lower(pattern),
    ensures
        forall|i: int| 0 <= i < parse_pattern_spec(pattern).len() ==> seg_lower(#[trigger] parse_pattern_spec(pattern)[i]),
{
    assert(lower_seq(Seq::<char>::empty()) =~= Seq::<char>::empty());
    lemma_split_lower(pattern, seq![]);
    let parts = split_nonempty(pattern, '/');
    assert forall|i: int| 0 <= i < parse_pattern_spec(pattern).len() implies seg_lower(
        #[trigger] parse_pattern_spec(pattern)[i],
    ) by {
        let part = parts[i];
        assert(parse_pattern_spec(pattern)[i] == crate::pattern::classify(part));
        assert(is_lower(part));
        crate::text::lemma_first_index(part, '*');
        match crate::text::first_index(part, '*') {
            Some(k) => {
                lemma_lower_range(part, 0, k);
                lemma_lower_range(part, k + 1, part.len() as int);
            },
            None => {},
        }
    }
}

proof fn lemma_all_lower_tail(p: Seq<Seq<char>>, k: int)
    requires
        all_lower(p),
        0 <= k <= p.len(),
    ensures
        all_lower(p.skip(k)),
        all_lower(p.take(k)),
{
    assert forall|i: int| 0 <= i < p.skip(k).len() implies is_lower(#[trigger] p.skip(k)[i]) by {
        assert(p.skip(k)[i] == p[i + k]);
    }
    assert forall|i: int| 0 <= i < p.take(k).len() implies is_lower(#[trigger] p.take(k)[i]) by {
        assert(p.take(k)[i] == p[i]);
    }
}

proof fn lemma_all_lower_cons(x: Seq<Seq<char>>, c: Seq<Seq<char>>)
    requires
        all_lower(x),
        all_lower(c),
    ensures
        all_lower(x + c),
{
    assert forall|i: int| 0 <= i < (x + c).len() implies is_lower(#[trigger] (x + c)[i]) by {
        if i < x.len() {
            assert((x + c)[i] == x[i]);
        } else {
            assert((x + c)[i] == c[i - x.len()]);
        }
    }
}

proof fn lemma_caps_lower(segs: Seq<SegmentModel>, p: Seq<Seq<char>>)
    requires
        all_lower(p),
        match_from(segs, p) is Some,
    ensures
        all_lower(match_from(segs, p)->0),
    decreases segs.len(), 0int, 0int,
{
    if segs.len() > 0 {
        if p.len() > 0 {
            lemma_all_lower_tail(p, 1);
            assert(p.skip(1) == p.drop_first());
            assert(is_lower(p[0]));
        }
        match segs[0] {
            SegmentModel::Literal(_) => {
                lemma_caps_lower(segs.drop_first(), p.drop_first());
            },
            SegmentModel::Wildcard { prefix, suffix } => {
                lemma_caps_lower(segs.drop_first(), p.drop_first());
                lemma_lower_range(p[0], prefix.len() as int, p[0].len() - suffix.len());
                let m = wildcard_middle(p[0], prefix, suffix);
                assert(all_lower(seq![m])) by {
                    assert(seq![m][0] == m);
                }
                lemma_all_lower_cons(seq![m], match_from(segs.drop_first(), p.drop_first())->0);
            },
            SegmentModel::StarDotStar => {
                lemma_caps_lower(segs.drop_first(), p.drop_first());
                lemma_last_index(p[0], '.');
                let k = last_index(p[0], '.')->0;
                lemma_lower_range(p[0], k + 1, p[0].len() as int);
                lemma_lower_range(p[0], 0, k);
                let x = seq![p[0].take(k), p[0].skip(k + 1)];
                assert(all_lower(x)) by {
                    assert(x[0] == p[0].take(k) && x[1] == p[0].skip(k + 1));
                }
                lemma_all_lower_cons(x, match_from(segs.drop_first(), p.drop_first())->0);
            },
            SegmentModel::RecursiveWild => {
                lemma_caps_lower_recursive(segs.drop_first(), p, 0);
            },
        }
    }
}

proof fn lemma_caps_lower_recursive(rest: Seq<SegmentModel>, p: Seq<Seq<char>>, k: int)
    requires
        all_lower(p),
        match_recursive(rest, p, k) is Some,
    ensures
        all_lower(match_recursive(rest, p, k)->0),
    decreases rest.len(), 1int, p.len() + 1 - k,
{
    if 0 <= k <= p.len() {
        if match_from(rest, p.skip(k)) is Some {
            lemma_all_lower_tail(p, k);
            lemma_caps_lower(rest, p.skip(k));
            lemma_lower_join(p.take(k));
            let x = seq![join(p.take(k), '/')];
            assert(all_lower(x)) by {
                assert(x[0] == join(p.take(k), '/'));
            }
            lemma_all_lower_cons(x, match_from(rest, p.skip(k))->0);
        } else {
            lemma_caps_lower_recursive(rest, p, k + 1);
        }
    }
}

proof fn lemma_fill_lower(segs: Seq<SegmentModel>, caps: Seq<Seq<char>>, i: int, r: Seq<char>, ci: int)
    requires
        forall|j: int| 0 <= j < segs.len() ==> seg_lower(#[trigger] segs[j]),
        all_lower(caps),
        is_lower(r),
    ensures
        is_lower(fill_from(segs, caps, i, r, ci)),
    decreases segs.len() - i,
{
    if 0 <= i < segs.len() {
        lemma_lower_char('/');
        lemma_lower_char('.');
        let r1 = if i > 0 { r.push('/') } else { r };
        if i > 0 {
            lemma_lower_push(r, '/');
        }
        assert(seg_lower(segs[i]));
        match segs[i] {
            SegmentModel::Literal(l) => {
                lemma_lower_add(r1, l);
            },
            SegmentModel::Wildcard { prefix, suffix } => {
                if 0 <= ci < caps.len() {
                    assert(is_lower(caps[ci]));
                    lemma_lower_add(r1, prefix);
                    lemma_lower_add(r1 + prefix, caps[ci]);
                    lemma_lower_add(r1 + prefix + caps[ci], suffix);
                } else {
                    lemma_lower_add(r1, prefix);
                    lemma_lower_add(r1 + prefix, suffix);
                }
            },
            SegmentModel::StarDotStar => {
                let r2 = if 0 <= ci < caps.len() { r1 + caps[ci] } else { r1 };
                let c2 = if 0 <= ci < caps.len() { ci + 1 } else { ci };
                if 0 <= ci < caps.len() {
                    assert(is_lower(caps[ci]));
                    lemma_lower_add(r1, caps[ci]);
                }
                lemma_lower_push(r2, '.');
                if 0 <= c2 < caps.len() {
                    assert(is_lower(caps[c2]));
                    lemma_lower_add(r2.push('.'), caps[c2]);
                }
            },
            SegmentModel::RecursiveWild => {
                if 0 <= ci < caps.len() {
                    assert(is_lower(caps[ci]));
                    lemma_lower_add(r1, caps[ci]);
                    if r1.len() > 0 {
                        lemma_lower_range(r1, 0, r1.len() - 1);
                        assert(r1.drop_last() == r1.take(r1.len() - 1));
                    }
                }
            },
        }
        let (r2, c2) = fill_segment(segs[i], r1, ci, caps);
        lemma_fill_lower(segs, caps, i + 1, r2, c2);
    }
}

proof fn lemma_split_nonempty_start(s: Seq<char>, cur: Seq<char>)
    requires
        cur.len() > 0,
    ensures
        split_acc(s, '/', cur).len() > 0,
    decreases s.len(),
{
    if s.len() > 0 && s[0] != '/' {
        lemma_split_nonempty_start(s.drop_first(), cur.push(s[0]));
    }
}

proof fn lemma_join_split_clean(s: Seq<char>, cur: Seq<char>)
    requires
        forall|i: int| 0 <= i < s.len() - 1 ==> !(#[trigger] s[i] == '/' && s[i + 1] == '/'),
        s.len() > 0 ==> s.last() != '/',
        cur.len() == 0 && s.len() > 0 ==> s[0] != '/',
    ensures
        join(split_acc(s, '/', cur), '/') == cur + s,
    decreases s.len(),
{
    let t = s.drop_first();
    if s.len() == 0 {
        if cur.len() > 0 {
            assert(split_acc(s, '/', cur) == seq![cur]);
            assert(join(seq![cur], '/') == cur);
        }
        assert(cur + s == cur);
    } else {
        assert forall|i: int| 0 <= i < t.len() - 1 implies !(#[trigger] t[i] == '/' && t[i + 1] == '/') by {
            assert(t[i] == s[i + 1] && t[i + 1] == s[i + 2]);
        }
        if t.len() > 0 {
            assert(t.last() == s.last());
        }
        if s[0] == '/' {
            assert(t.len() > 0);
            assert(!(s[0] == '/' && s[1] == '/'));
            assert(t[0] != '/');
            lemma_join_split_clean(t, seq![]);
            let rest = split_acc(t, '/', seq![]);
            assert(rest == split_acc(t.drop_first(), '/', seq![t[0]]));
            lemma_split_nonempty_start(t.drop_first(), seq![t[0]]);
            assert(split_acc(s, '/', cur) == seq![cur] + rest);
            let parts = seq![cur] + rest;
            assert(parts.drop_first() == rest);
            assert(parts[0] == cur);
            assert(join(parts, '/') == cur.push('/') + join(rest, '/'));
            assert(Seq::<char>::empty() + t == t);
            assert(cur.push('/') + t == cur + s);
        } else {
            lemma_join_split_clean(t, cur.push(s[0]));
            assert(cur.push(s[0]) + t == cur + s);
        }
    }
}

/// For a lower-case pattern and a lower-case path with no empty `/`-piece,
/// filling the pattern's template with the captures of a match gives back the
/// path exactly, provided the pattern does not begin with `**`.
pub proof fn law_fill_restores_path(pattern: Seq<char>, path: Seq<char>)
    requires
        match_path_spec(parse_pattern_spec(pattern), path) is Some,
        parse_pattern_spec(pattern).len() > 0 ==> !(parse_pattern_spec(pattern)[0] is RecursiveWild),
        is_lower(pattern),
        is_lower(path),
        no_empty_piece(path),
    ensures
        fill_spec(parse_pattern_spec(pattern), match_path_spec(parse_pattern_spec(pattern), path)->0) == path,
{
    let segs = parse_pattern_spec(pattern);
    let caps = match_path_spec(segs, path)->0;
    law_fill_reverses_match(pattern, path);
    lemma_join_split_clean(path, seq![]);
    assert(Seq::<char>::empty() + path == path);
    assert(lower_seq(Seq::<char>::empty()) =~= Seq::<char>::empty());
    lemma_split_lower(path, seq![]);
    lemma_caps_lower(segs, split_nonempty(path, '/'));
    lemma_segs_lower(pattern);
    lemma_fill_lower(segs, caps, 0, seq![], 0);
}

proof fn lemma_lower_idem(x: Seq<char>)
    ensures
        lower_seq(lower_seq(x)) == lower_seq(x),
{
    assert forall|i: int| 0 <= i < x.len() implies crate::text::lower(crate::text::lower(x[i]))
        == crate::text::lower(x[i]) by {
        let c = x[i];
        if 'A' <= c && c <= 'Z' {
            assert(((c as u32) + 32) as char >= 'a');
        }
    }
    assert(lower_seq(lower_seq(x)) =~= lower_seq(x));
}

proof fn lemma_lower_dots(p: Seq<char>)
    ensures
        lower_seq(p) == seq!['.'] ==> p == seq!['.'],
        lower_seq(p) == seq!['.', '.'] ==> p == seq!['.', '.'],
        p == seq!['.'] ==> lower_seq(p) == seq!['.'],
        p == seq!['.', '.'] ==> lower_seq(p) == seq!['.', '.'],
{
    lemma_lower_char('.');
    assert(lower_seq(p).len() == p.len());
    if p.len() >= 1 {
        assert(lower_seq(p)[0] == crate::text::lower(p[0]));
        lemma_lower_char(p[0]);
    }
    if p.len() >= 2 {
        assert(lower_seq(p)[1] == crate::text::lower(p[1]));
        lemma_lower_char(p[1]);
    }
    if p == seq!['.'] {
        assert(lower_seq(p) =~= seq!['.']);
    }
    if p == seq!['.', '.'] {
        assert(lower_seq(p) =~= seq!['.', '.']);
    }
    if lower_seq(p) == seq!['.'] {
        assert(p =~= seq!['.']);
    }
    if lower_seq(p) == seq!['.', '.'] {
        assert(p =~= seq!['.', '.']);
    }
}

/// Putting a clean path (its separators read as `/`) in lower-case Unix form
/// keeps it clean: no `.` element, `..` only at the start, no empty element
/// and no trailing `/`.
pub proof fn law_unix_clean_keeps_clean(c: Seq<char>)
    requires
        clean_pieces(c.map_values(|ch: char| to_slash(ch))),
    ensures
        clean_pieces(unix_clean(c)),
{
    let x = c.map_values(|ch: char| to_slash(ch));
    assert(x.len() == c.len());
    if c.len() >= 2 {
        assert(x[0] == to_slash(c[0]) && x[1] == to_slash(c[1]));
        assert(!(x[0] == '/' && x[1] == '/'));
        assert(!(c[0] == '\\' && c[1] == '\\'));
    }
    if has_prefix(c, verbatim_unc()) {
        assert(c.take(8)[0] == c[0] && c.take(8)[1] == c[1]);
    }
    if has_prefix(c, verbatim()) {
        assert(c.take(4)[0] == c[0] && c.take(4)[1] == c[1]);
    }
    if has_prefix(c, device()) {
        assert(c.take(4)[0] == c[0] && c.take(4)[1] == c[1]);
    }
    assert(strip_win_prefix(c) == c);
    let m = c.map_values(|ch: char| crate::text::lower(to_slash(ch)));
    assert(m =~= lower_seq(x));
    assert(unix_clean(c) == trim_end_slashes(m));
    assert forall|i: int| 0 <= i < m.len() implies (#[trigger] m[i] == '/') == (x[i] == '/') by {
        lemma_lower_char(x[i]);
    }
    let e = Seq::<char>::empty();
    assert(trim_end_slashes(e) == e);
    assert(split_nonempty(e, '/') == Seq::<Seq<char>>::empty());
    if x.len() == 0 {
        assert(m == e);
    } else if x.len() == 1 && x[0] == '/' {
        assert(m.drop_last() == e);
        assert(unix_clean(c) == e);
    } else {
        assert(m.last() != '/');
        assert(unix_clean(c) == m);
        // The elements of the lower-case form match those of `x` up to case.
        lemma_lower_idem(x);
        assert(lower_seq(e) =~= e);
        lemma_split_case(x, m, e, e);
        let px = split_nonempty(x, '/');
        let pm = split_nonempty(m, '/');
        assert(is_lower(m));
        assert(is_lower(e));
        lemma_split_lower(m, e);
        assert forall|i: int| 0 <= i < pm.len() implies (#[trigger] pm[i] == seq!['.']) == (px[i]
            == seq!['.']) && (pm[i] == seq!['.', '.']) == (px[i] == seq!['.', '.']) by {
            assert(is_lower(pm[i]));
            assert(lower_seq(px[i]) == lower_seq(pm[i]));
            lemma_lower_dots(px[i]);
            lemma_lower_dots(pm[i]);
        }
        if x == seq!['.'] {
            lemma_lower_dots(x);
        }
        if m == seq!['.'] {
            lemma_lower_dots(x);
        }
        assert forall|i: int, j: int|
            #![trigger pm[i], pm[j]]
            0 <= j < i < pm.len() && pm[i] == seq!['.', '.'] implies pm[j] == seq!['.', '.'] by {
            assert(px[i] == seq!['.', '.']);
            assert(px[j] == seq!['.', '.']);
        }
    }
}

} // verus!
