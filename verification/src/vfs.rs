//! Path redirection: normalising paths, expanding rule variables, finding the
//! rule that a path matches and deciding where an access goes.
use vstd::prelude::*;
use crate::text::{split_nonempty, lower, lower_seq, chars_of, string_from_chars, to_lower, push_chars, push_str_chars, string_views};
use crate::pattern::{PatternMatcher, PatternTemplate, SegmentModel, match_path_spec, fill_spec, parse_pattern_spec};
use crate::vfs_rules::{VfsMode, RawVfsRule};

verus! {

/// `s` begins with `p`.
pub open spec fn has_prefix(s: Seq<char>, p: Seq<char>) -> bool {
    s.len() >= p.len() && s.take(p.len() as int) == p
}

/// The verbatim UNC prefix `\\?\UNC\`.
pub open spec fn verbatim_unc() -> Seq<char> {
    seq!['\\', '\\', '?', '\\', 'U', 'N', 'C', '\\']
}

/// The verbatim prefix `\\?\`.
pub open spec fn verbatim() -> Seq<char> {
    seq!['\\', '\\', '?', '\\']
}

/// The device prefix `\\.\`.
pub open spec fn device() -> Seq<char> {
    seq!['\\', '\\', '.', '\\']
}

/// `s` without its Windows-only prefix, if it has one.
pub open spec fn strip_win_prefix(s: Seq<char>) -> Seq<char> {
    if has_prefix(s, verbatim_unc()) {
        s.skip(8)
    } else if has_prefix(s, verbatim()) {
        s.skip(4)
    } else if has_prefix(s, device()) {
        s.skip(4)
    } else {
        s
    }
}

/// A backslash turned into a slash.
pub open spec fn to_slash(c: char) -> char {
    if c == '\\' {
        '/'
    } else {
        c
    }
}

/// A slash turned into a backslash.
pub open spec fn to_backslash(c: char) -> char {
    if c == '/' {
        '\\'
    } else {
        c
    }
}

/// `s` without its trailing slashes.
pub open spec fn trim_end_slashes(s: Seq<char>) -> Seq<char>
    decreases s.len(),
{
    if s.len() > 0 && s.last() == '/' {
        trim_end_slashes(s.drop_last())
    } else {
        s
    }
}

/// The lower-case Unix form of a path: the Windows-only prefix removed,
/// backslashes turned into slashes, ASCII letters lower-cased and trailing
/// slashes removed.
pub open spec fn unix_clean(s: Seq<char>) -> Seq<char> {
    trim_end_slashes(strip_win_prefix(s).map_values(|c: char| lower(to_slash(c))))
}

/// Whether `s` begins with `p`.
pub fn has_prefix_exec(s: &[char], p: &[char]) -> (r: bool)
    ensures
        r == has_prefix(s@, p@),
{
    if s.len() < p.len() {
        return false;
    }
    let mut i: usize = 0;
    while i < p.len()
        invariant
            i <= p@.len() <= s@.len(),
            forall|j: int| 0 <= j < i ==> s@[j] == p@[j],
        decreases p@.len() - i,
    {
        if s[i] != p[i] {
            assert(s@.take(p@.len() as int)[i as int] != p@[i as int]);
            return false;
        }
        i = i + 1;
    }
    assert(s@.take(p@.len() as int) == p@);
    true
}

/// Normalises a path string into the lower-case Unix form that rules match.
pub fn to_unix_clean_path_string(s: &str) -> (r: String)
    ensures
        r@ == unix_clean(s@),
{
    let chars = chars_of(s);
    let unc: [char; 8] = ['\\', '\\', '?', '\\', 'U', 'N', 'C', '\\'];
    let verb: [char; 4] = ['\\', '\\', '?', '\\'];
    let dev: [char; 4] = ['\\', '\\', '.', '\\'];
    assert(unc@ == verbatim_unc());
    assert(verb@ == verbatim());
    assert(dev@ == device());
    let start: usize = if has_prefix_exec(&chars, &unc) {
        8
    } else if has_prefix_exec(&chars, &verb) {
        4
    } else if has_prefix_exec(&chars, &dev) {
        4
    } else {
        0
    };
    let ghost stripped = strip_win_prefix(s@);
    assert(stripped == s@.skip(start as int));
    let ghost mapped = stripped.map_values(|c: char| lower(to_slash(c)));
    let mut out: Vec<char> = Vec::new();
    let mut i: usize = start;
    while i < chars.len()
        invariant
            start <= i <= chars@.len(),
            chars@ == s@,
            stripped == s@.skip(start as int),
            mapped == stripped.map_values(|c: char| lower(to_slash(c))),
            out@ == mapped.take(i - start),
        decreases chars@.len() - i,
    {
        let c = chars[i];
        let d = if c == '\\' {
            '/'
        } else {
            c
        };
        out.push(to_lower(d));
        i = i + 1;
        assert(out@ == mapped.take(i - start));
    }
    assert(mapped.take(i - start) == mapped);
    let mut n: usize = out.len();
    assert(out@.take(n as int) == mapped);
    while n > 0 && out[n - 1] == '/'
        invariant
            n <= out@.len(),
            out@ == mapped,
            trim_end_slashes(mapped) == trim_end_slashes(mapped.take(n as int)),
        decreases n,
    {
        assert(mapped.take(n as int).drop_last() == mapped.take(n - 1));
        n = n - 1;
    }
    let mut res: Vec<char> = Vec::new();
    let mut k: usize = 0;
    while k < n
        invariant
            k <= n <= out@.len(),
            res@ == out@.take(k as int),
        decreases n - k,
    {
        res.push(out[k]);
        k = k + 1;
        assert(res@ == out@.take(k as int));
    }
    string_from_chars(&res)
}

/// A normalised path has no backslash, no ASCII upper-case letter and no
/// trailing `/`; normalising it again gives it back.
pub proof fn law_unix_clean_idempotent(s: Seq<char>)
    ensures
        unix_clean(unix_clean(s)) == unix_clean(s),
        forall|i: int| 0 <= i < unix_clean(s).len() ==> #[trigger] unix_clean(s)[i] != '\\',
        lower_seq(unix_clean(s)) == unix_clean(s),
        unix_clean(s).len() > 0 ==> unix_clean(s).last() != '/',
{
    let t = unix_clean(s);
    let m = strip_win_prefix(s).map_values(|c: char| lower(to_slash(c)));
    lemma_trim_end_slashes(m);
    assert forall|i: int| 0 <= i < t.len() implies t[i] != '\\' && lower(t[i]) == t[i] by {
        assert(t[i] == m[i]);
    }
    if t.len() >= 8 {
        assert(t.take(8)[0] == t[0]);
    }
    if t.len() >= 4 {
        assert(t.take(4)[0] == t[0]);
    }
    assert(!has_prefix(t, verbatim_unc()));
    assert(!has_prefix(t, verbatim()));
    assert(!has_prefix(t, device()));
    assert(strip_win_prefix(t) == t);
    assert(t.map_values(|c: char| lower(to_slash(c))) == t);
    lemma_trim_end_slashes(t);
    if t.len() > 0 {
        assert(t.last() != '/');
    }
    assert(lower_seq(t) =~= t);
}

proof fn lemma_trim_end_slashes(s: Seq<char>)
    ensures
        trim_end_slashes(s).len() <= s.len(),
        trim_end_slashes(s) == s.take(trim_end_slashes(s).len() as int),
        trim_end_slashes(s).len() > 0 ==> trim_end_slashes(s).last() != '/',
    decreases s.len(),
{
    if s.len() > 0 && s.last() == '/' {
        lemma_trim_end_slashes(s.drop_last());
        let t = trim_end_slashes(s.drop_last());
        assert(s.drop_last().take(t.len() as int) == s.take(t.len() as int));
    } else {
        assert(s.take(s.len() as int) == s);
    }
}

/// The Windows form of a path: slashes turned into backslashes and, for an
/// absolute path, the verbatim prefix added (`\\?\UNC\` for a UNC path).
pub open spec fn windows_form(s: Seq<char>, absolute: bool) -> Seq<char> {
    let w = s.map_values(|c: char| to_backslash(c));
    if absolute {
        if has_prefix(w, verbatim()) {
            w
        } else if has_prefix(w, seq!['\\', '\\']) {
            verbatim_unc() + w.skip(2)
        } else {
            verbatim() + w
        }
    } else {
        w
    }
}

/// A path that no platform calls absolute: it does not begin with a
/// separator, nor with a drive (`X:`).
pub open spec fn plainly_relative(s: Seq<char>) -> bool {
    s.len() == 0 || (s[0] != '/' && s[0] != '\\' && !(s.len() >= 2 && s[1] == ':'))
}

/// `std::path::Path::is_absolute`: whether the platform's path rules call `s`
/// absolute.  Its documentation calls a path absolute on Unix when it starts
/// with the root `/`, and on Windows when it has a prefix (a drive `X:`, or a
/// form that starts with separators) and a root.  The claim is only that a
/// path beginning with neither a separator nor a drive is not absolute; which
/// other paths are depends on the platform and is left unsaid.
#[verifier::external_body]
fn path_is_absolute(s: &str) -> (r: bool)
    ensures
        plainly_relative(s@) ==> !r,
{
    std::path::Path::new(s).is_absolute()
}

/// The Windows form of `s` for a path that is, or is not, absolute.
pub fn windows_path_from(s: &str, absolute: bool) -> (r: String)
    ensures
        r@ == windows_form(s@, absolute),
{
    let chars = chars_of(s);
    let mut w: Vec<char> = Vec::new();
    let mut i: usize = 0;
    while i < chars.len()
        invariant
            i <= chars@.len(),
            chars@ == s@,
            w@ == s@.map_values(|c: char| to_backslash(c)).take(i as int),
        decreases chars@.len() - i,
    {
        let c = chars[i];
        w.push(
            if c == '/' {
                '\\'
            } else {
                c
            },
        );
        i = i + 1;
        assert(w@ == s@.map_values(|c: char| to_backslash(c)).take(i as int));
    }
    assert(s@.map_values(|c: char| to_backslash(c)).take(i as int) == s@.map_values(
        |c: char| to_backslash(c),
    ));
    if !absolute {
        return string_from_chars(&w);
    }
    let verb: [char; 4] = ['\\', '\\', '?', '\\'];
    let two: [char; 2] = ['\\', '\\'];
    assert(verb@ == verbatim());
    assert(two@ == seq!['\\', '\\']);
    if has_prefix_exec(&w, &verb) {
        string_from_chars(&w)
    } else if has_prefix_exec(&w, &two) {
        let mut out: Vec<char> = Vec::new();
        let unc: [char; 8] = ['\\', '\\', '?', '\\', 'U', 'N', 'C', '\\'];
        assert(unc@ == verbatim_unc());
        push_chars(&mut out, &unc);
        let mut k: usize = 2;
        while k < w.len()
            invariant
                2 <= k <= w@.len(),
                out@ == verbatim_unc() + w@.subrange(2, k as int),
            decreases w@.len() - k,
        {
            out.push(w[k]);
            k = k + 1;
            assert(out@ == verbatim_unc() + w@.subrange(2, k as int));
        }
        assert(w@.subrange(2, k as int) == w@.skip(2));
        string_from_chars(&out)
    } else {
        let mut out: Vec<char> = Vec::new();
        push_chars(&mut out, &verb);
        push_chars(&mut out, &w);
        string_from_chars(&out)
    }
}

/// The Windows form of `s`, with the verbatim prefix where the platform calls
/// the path absolute.
pub fn to_windows_path(s: &str) -> (r: String)
    ensures
        r@ == windows_form(s@, true) || r@ == windows_form(s@, false),
        plainly_relative(s@) ==> r@ == windows_form(s@, false),
{
    let w = windows_path_from(s, false);
    proof {
        let m = s@.map_values(|c: char| to_backslash(c));
        assert(w@ == m);
        if s@.len() > 0 {
            assert(m[0] == to_backslash(s@[0]));
        }
        if s@.len() >= 2 {
            assert(m[1] == to_backslash(s@[1]));
        }
    }
    let absolute = path_is_absolute(w.as_str());
    windows_path_from(s, absolute)
}

/// Every occurrence of `p` in `s` replaced by `r`, scanning from the left and
/// never overlapping; an empty `p` occurs before every character and at the end.
pub open spec fn replace_all(s: Seq<char>, p: Seq<char>, r: Seq<char>) -> Seq<char>
    decreases s.len(),
{
    if p.len() == 0 {
        if s.len() == 0 {
            r
        } else {
            r + seq![s[0]] + replace_all(s.drop_first(), p, r)
        }
    } else if s.len() < p.len() {
        s
    } else if s.take(p.len() as int) == p {
        r + replace_all(s.skip(p.len() as int), p, r)
    } else {
        seq![s[0]] + replace_all(s.drop_first(), p, r)
    }
}

fn window_is(s: &[char], i: usize, p: &[char]) -> (r: bool)
    requires
        i + p@.len() <= s@.len(),
    ensures
        r == (s@.skip(i as int).take(p@.len() as int) == p@),
{
    let mut k: usize = 0;
    while k < p.len()
        invariant
            k <= p@.len(),
            i + p.len() <= s.len(),
            forall|j: int| 0 <= j < k ==> s@[i + j] == p@[j],
        decreases p@.len() - k,
    {
        if s[i + k] != p[k] {
            assert(s@.skip(i as int).take(p@.len() as int)[k as int] != p@[k as int]);
            return false;
        }
        k = k + 1;
    }
    assert(s@.skip(i as int).take(p@.len() as int) == p@);
    true
}

/// `s` with every occurrence of `p` replaced by `r`.
pub fn replace_all_exec(s: &[char], p: &[char], r: &[char]) -> (out: Vec<char>)
    ensures
        out@ == replace_all(s@, p@, r@),
{
    let mut out: Vec<char> = Vec::new();
    let mut i: usize = 0;
    assert(s@.skip(0) == s@);
    while i < s.len()
        invariant
            i <= s@.len(),
            out@ + replace_all(s@.skip(i as int), p@, r@) == replace_all(s@, p@, r@),
        decreases s@.len() - i,
    {
        let ghost rest = s@.skip(i as int);
        assert(rest.drop_first() == s@.skip(i + 1));
        if p.len() == 0 {
            push_chars(&mut out, r);
            out.push(s[i]);
            i = i + 1;
            assert(out@ + replace_all(s@.skip(i as int), p@, r@) == replace_all(s@, p@, r@));
        } else if s.len() - i >= p.len() && window_is(s, i, p) {
            assert(rest.skip(p@.len() as int) == s@.skip(i + p@.len()));
            push_chars(&mut out, r);
            i = i + p.len();
            assert(out@ + replace_all(s@.skip(i as int), p@, r@) == replace_all(s@, p@, r@));
        } else {
            if s.len() - i < p.len() {
                assert(replace_all(rest, p@, r@) == rest);
                assert(replace_all(rest.drop_first(), p@, r@) == rest.drop_first());
                assert(rest == seq![rest[0]] + rest.drop_first());
            }
            out.push(s[i]);
            i = i + 1;
            assert(out@ + replace_all(s@.skip(i as int), p@, r@) == replace_all(s@, p@, r@));
        }
    }
    let ghost e = s@.skip(i as int);
    assert(e.len() == 0);
    if p.len() == 0 {
        push_chars(&mut out, r);
    } else {
        assert(replace_all(e, p@, r@) == e);
    }
    out
}

/// `template` with each variable of `vars`, in order, replaced by its value.
pub open spec fn expand_spec(template: Seq<char>, vars: Seq<(Seq<char>, Seq<char>)>) -> Seq<char>
    decreases vars.len(),
{
    if vars.len() == 0 {
        template
    } else {
        let v = vars.last();
        replace_all(expand_spec(template, vars.drop_last()), v.0, v.1)
    }
}

/// The views of variable pairs.
pub open spec fn var_views(v: Seq<(String, String)>) -> Seq<(Seq<char>, Seq<char>)> {
    v.map_values(|p: (String, String)| (p.0@, p.1@))
}

/// Replaces each variable placeholder in `template` by its value, variable by
/// variable in the order of `vars`.
pub fn expand_vars(template: &str, vars: &[(String, String)]) -> (r: String)
    ensures
        r@ == expand_spec(template@, var_views(vars@)),
{
    let mut cur = chars_of(template);
    let mut i: usize = 0;
    while i < vars.len()
        invariant
            i <= vars@.len(),
            cur@ == expand_spec(template@, var_views(vars@).take(i as int)),
        decreases vars@.len() - i,
    {
        let name = chars_of(vars[i].0.as_str());
        let value = chars_of(vars[i].1.as_str());
        cur = replace_all_exec(&cur, &name, &value);
        assert(var_views(vars@).take(i + 1).drop_last() == var_views(vars@).take(i as int));
        i = i + 1;
    }
    assert(var_views(vars@).take(i as int) == var_views(vars@));
    string_from_chars(&cur)
}

fn var_pair(name: &str, path: &str) -> (r: (String, String))
    ensures
        r.0@ == name@,
        r.1@ == unix_clean(path@),
{
    (name.to_string(), to_unix_clean_path_string(path))
}

/// The default variables: the working directory, the temporary directory, the
/// executable's directory and, where there is one, the resource pack directory,
/// each in normalised form.
pub fn default_vars(cwd: &str, temp_dir: &str, exe_dir: &str, resource_pack_dir: Option<&str>) -> (r: Vec<(String, String)>)
    ensures
        r@.len() == 3 + if resource_pack_dir is Some { 1int } else { 0int },
        r@[0].0@ == "{cwd}"@ && r@[0].1@ == unix_clean(cwd@),
        r@[1].0@ == "{temp_dir}"@ && r@[1].1@ == unix_clean(temp_dir@),
        r@[2].0@ == "{exe_dir}"@ && r@[2].1@ == unix_clean(exe_dir@),
        resource_pack_dir matches Some(d) ==> r@[3].0@ == "{resource_pack_dir}"@ && r@[3].1@
            == unix_clean(d@),
{
    let mut v: Vec<(String, String)> = Vec::new();
    v.push(var_pair("{cwd}", cwd));
    v.push(var_pair("{temp_dir}", temp_dir));
    v.push(var_pair("{exe_dir}", exe_dir));
    if let Some(d) = resource_pack_dir {
        v.push(var_pair("{resource_pack_dir}", d));
    }
    v
}

/// A rule with its variables expanded and its patterns compiled.
pub struct ResolvedRule {
    pub matcher: PatternMatcher,
    pub template: PatternTemplate,
    pub mode: VfsMode,
}

/// Expands the variables of a rule and compiles its source and target.
pub fn resolve_rule(raw: &RawVfsRule, vars: &[(String, String)]) -> (r: ResolvedRule)
    ensures
        r.matcher@ == parse_pattern_spec(expand_spec(raw.source@, var_views(vars@))),
        r.template@ == parse_pattern_spec(expand_spec(raw.target@, var_views(vars@))),
        r.mode == raw.mode,
{
    let source = expand_vars(raw.source.as_str(), vars);
    let target = expand_vars(raw.target.as_str(), vars);
    ResolvedRule {
        matcher: PatternMatcher::compile(source.as_str()),
        template: PatternTemplate::compile(target.as_str()),
        mode: raw.mode,
    }
}

/// The index of the first rule, from `i` on, whose source matches `path`.
pub open spec fn first_rule_from(rules: Seq<ResolvedRule>, path: Seq<char>, i: int) -> Option<int>
    decreases rules.len() - i,
{
    if i < 0 || i >= rules.len() {
        None
    } else if match_path_spec(rules[i].matcher@, path) is Some {
        Some(i)
    } else {
        first_rule_from(rules, path, i + 1)
    }
}

/// Where a matched rule sends a path.
pub struct RedirectResult {
    pub target_path: String,
    pub mode: VfsMode,
}

/// The target that rule `rule` gives for `path`, in Unix form.
pub open spec fn rule_target(rule: ResolvedRule, path: Seq<char>) -> Seq<char> {
    fill_spec(rule.template@, match_path_spec(rule.matcher@, path)->Some_0)
}

/// Finds the first rule whose source matches the normalised path and fills its
/// target with the captures; the target is given in Windows form.
pub fn resolve_redirect(clean_path: &str, rules: &[ResolvedRule]) -> (r: Option<RedirectResult>)
    ensures
        match first_rule_from(rules@, clean_path@, 0) {
            None => r is None,
            Some(i) => r matches Some(res) && res.mode == rules@[i].mode && (res.target_path@
                == windows_form(rule_target(rules@[i], clean_path@), true) || res.target_path@
                == windows_form(rule_target(rules@[i], clean_path@), false)),
        },
{
    let mut i: usize = 0;
    while i < rules.len()
        invariant
            i <= rules@.len(),
            first_rule_from(rules@, clean_path@, 0) == first_rule_from(rules@, clean_path@, i as int),
        decreases rules@.len() - i,
    {
        match rules[i].matcher.match_path(clean_path) {
            Some(captures) => {
                let target = rules[i].template.fill(&captures);
                let target_path = to_windows_path(target.as_str());
                return Some(RedirectResult { target_path, mode: rules[i].mode });
            },
            None => {},
        }
        i = i + 1;
    }
    None
}

/// Which directory listings an enumeration takes, and in what order.
pub enum EnumPlan {
    /// The path is not redirected: its own listing as it is.
    Unchanged,
    /// A forced rule: the target's listing alone; a failure to list it is
    /// the enumeration's failure.
    TargetOnly(String),
    /// A fallback rule: the path's own listing, then the target's, each empty
    /// where it cannot be read, merged by `merge_listing`.
    Merge(String),
}

/// Plans the enumeration of a directory from its redirection.
pub fn enum_plan(redirect: Option<RedirectResult>) -> (r: EnumPlan)
    ensures
        match redirect {
            None => r is Unchanged,
            Some(res) => match res.mode {
                VfsMode::Force => r == EnumPlan::TargetOnly(res.target_path),
                VfsMode::Fallback => r == EnumPlan::Merge(res.target_path),
            },
        },
{
    match redirect {
        None => EnumPlan::Unchanged,
        Some(res) => match res.mode {
            VfsMode::Force => EnumPlan::TargetOnly(res.target_path),
            VfsMode::Fallback => EnumPlan::Merge(res.target_path),
        },
    }
}

/// Where an access to a redirected path goes: the target of a forced rule; the
/// target of a fallback rule where it exists; otherwise the original path
/// (`None`).
pub fn try_redirect(redirect: Option<RedirectResult>, target_exists: bool) -> (r: Option<String>)
    ensures
        match redirect {
            None => r is None,
            Some(res) => match res.mode {
                VfsMode::Force => r == Some(res.target_path),
                VfsMode::Fallback => if target_exists {
                    r == Some(res.target_path)
                } else {
                    r is None
                },
            },
        },
{
    match redirect {
        None => None,
        Some(res) => match res.mode {
            VfsMode::Force => Some(res.target_path),
            VfsMode::Fallback => if target_exists {
                Some(res.target_path)
            } else {
                None
            },
        },
    }
}

/// `s` is at most one path element on every platform: it holds no `/`, no
/// `\\` and no `:` (so no separator and no drive or other prefix).
pub open spec fn single_element(s: Seq<char>) -> bool {
    forall|i: int| 0 <= i < s.len() ==> s[i] != '/' && s[i] != '\\' && s[i] != ':'
}

/// What cleaning gives a path of at most one element: `.` for the empty
/// path, else the path unchanged.
pub open spec fn cleaned_element(s: Seq<char>) -> Seq<char> {
    if s.len() == 0 {
        seq!['.']
    } else {
        s
    }
}

/// A path whose elements are separated by `/` on every platform: it holds no
/// backslash and no `:`, and does not begin with `//` (so it has no Windows prefix).
pub open spec fn plain_path(s: Seq<char>) -> bool {
    &&& forall|i: int| 0 <= i < s.len() ==> #[trigger] s[i] != '\\' && s[i] != ':'
    &&& !(s.len() >= 2 && s[0] == '/' && s[1] == '/')
}

/// A clean path, its elements taken between `/`: no `.` element (unless the
/// path is `.` itself), `..` elements only at its start, no empty element
/// (no doubled `/`), and no `/` at its end unless it is the root `/`.
pub open spec fn clean_pieces(x: Seq<char>) -> bool {
    let p = split_nonempty(x, '/');
    &&& x == seq!['.'] || forall|i: int| 0 <= i < p.len() ==> #[trigger] p[i] != seq!['.']
    &&& forall|i: int, j: int|
        #![trigger p[i], p[j]]
        0 <= j < i < p.len() && p[i] == seq!['.', '.'] ==> p[j] == seq!['.', '.']
    &&& forall|i: int| 0 <= i < x.len() - 1 ==> !(#[trigger] x[i] == '/' && x[i + 1] == '/')
    &&& x.len() > 1 ==> x.last() != '/'
}

/// `path_clean::clean`: cleans `.` and `..` elements and repeated separators
/// out of a path by the platform's path rules (lossily back to text).  The
/// claims are what the crate documents and holds on every platform: the empty
/// path becomes `.`; a path of one element (`.`, `..` or a name, which no rule
/// rewrites) comes back as it was; and a path whose elements every platform
/// splits at `/` comes back clean (its separators, backslashes on Windows,
/// read as `/`): `.` elements removed, each `..` removed with the name before it or at
/// the root, repeated and trailing separators removed, and `.` for nothing
/// left.  Which other paths the platform splits, and how, is left unsaid.
#[verifier::external_body]
fn clean_path(s: &str) -> (r: String)
    ensures
        single_element(s@) ==> r@ == cleaned_element(s@),
        plain_path(s@) ==> clean_pieces(r@.map_values(|c: char| to_slash(c))),
{
    path_clean::clean(s).to_string_lossy().into_owned()
}

/// The normalised form of an absolute path: cleaned of `.` and `..`, then in
/// lower-case Unix form.  A path of at most one element is only put in that
/// form (the empty path as `.`).
pub fn normalize_path_to_string(absolute: &str) -> (r: String)
    ensures
        exists|cleaned: Seq<char>| r@ == unix_clean(cleaned),
        unix_clean(r@) == r@,
        single_element(absolute@) ==> r@ == unix_clean(cleaned_element(absolute@)),
        plain_path(absolute@) ==> clean_pieces(r@),
{
    let cleaned = clean_path(absolute);
    let r = to_unix_clean_path_string(cleaned.as_str());
    proof {
        law_unix_clean_idempotent(cleaned@);
        if plain_path(absolute@) {
            crate::laws::law_unix_clean_keeps_clean(cleaned@);
        }
    }
    r
}

/// Whether `name` equals one of `names`, ignoring ASCII case.
pub open spec fn seen_name(names: Seq<Seq<char>>, name: Seq<char>) -> bool {
    exists|k: int| 0 <= k < names.len() && lower_seq(#[trigger] names[k]) == lower_seq(name)
}

/// Which entries of the original listing a merged listing keeps: those whose
/// name, ignoring ASCII case, is neither in the redirected listing nor an
/// earlier entry of the original listing.
pub open spec fn keeps_original(redirected: Seq<Seq<char>>, original: Seq<Seq<char>>, j: int) -> bool {
    !seen_name(redirected, original[j]) && !seen_name(original.take(j), original[j])
}

fn same_name(a: &[char], b: &[char]) -> (r: bool)
    ensures
        r == (lower_seq(a@) == lower_seq(b@)),
{
    if a.len() != b.len() {
        assert(lower_seq(a@).len() != lower_seq(b@).len());
        return false;
    }
    let mut i: usize = 0;
    while i < a.len()
        invariant
            i <= a@.len(),
            a@.len() == b@.len(),
            forall|j: int| 0 <= j < i ==> lower(a@[j]) == lower(b@[j]),
        decreases a@.len() - i,
    {
        if to_lower(a[i]) != to_lower(b[i]) {
            assert(lower_seq(a@)[i as int] != lower_seq(b@)[i as int]);
            return false;
        }
        i = i + 1;
    }
    assert(lower_seq(a@) == lower_seq(b@));
    true
}

fn name_seen(names: &[Vec<char>], n: usize, name: &[char]) -> (r: bool)
    requires
        n <= names@.len(),
    ensures
        r == seen_name(names@.take(n as int).map_values(|v: Vec<char>| v@), name@),
{
    let ghost ns = names@.take(n as int).map_values(|v: Vec<char>| v@);
    let mut k: usize = 0;
    while k < n
        invariant
            k <= n <= names@.len(),
            ns == names@.take(n as int).map_values(|v: Vec<char>| v@),
            forall|j: int| 0 <= j < k ==> lower_seq(#[trigger] ns[j]) != lower_seq(name@),
        decreases n - k,
    {
        assert(ns[k as int] == names@[k as int]@);
        if same_name(&names[k], name) {
            assert(lower_seq(ns[k as int]) == lower_seq(name@));
            return true;
        }
        k = k + 1;
    }
    false
}

/// For a fallback rule, which entries of the original listing join the
/// redirected one: a flag per original entry, true where the entry is kept.
pub fn merge_listing(redirected: &[String], original: &[String]) -> (keep: Vec<bool>)
    ensures
        keep@.len() == original@.len(),
        forall|j: int|
            0 <= j < original@.len() ==> #[trigger] keep@[j] == keeps_original(
                string_views(redirected@),
                string_views(original@),
                j,
            ),
{
    let mut red: Vec<Vec<char>> = Vec::new();
    let mut i: usize = 0;
    while i < redirected.len()
        invariant
            i <= redirected@.len(),
            red@.len() == i,
            forall|k: int| 0 <= k < i ==> #[trigger] red@[k]@ == redirected@[k]@,
        decreases redirected@.len() - i,
    {
        red.push(chars_of(redirected[i].as_str()));
        i = i + 1;
    }
    let mut orig: Vec<Vec<char>> = Vec::new();
    let mut i: usize = 0;
    while i < original.len()
        invariant
            i <= original@.len(),
            orig@.len() == i,
            forall|k: int| 0 <= k < i ==> #[trigger] orig@[k]@ == original@[k]@,
        decreases original@.len() - i,
    {
        orig.push(chars_of(original[i].as_str()));
        i = i + 1;
    }
    let ghost rs = string_views(redirected@);
    let ghost os = string_views(original@);
    assert(red@.take(red@.len() as int).map_values(|v: Vec<char>| v@) == rs);
    let mut keep: Vec<bool> = Vec::new();
    let mut j: usize = 0;
    while j < orig.len()
        invariant
            j <= orig@.len(),
            orig@.len() == original@.len(),
            os == string_views(original@),
            rs == string_views(redirected@),
            red@.take(red@.len() as int).map_values(|v: Vec<char>| v@) == rs,
            forall|k: int| 0 <= k < orig@.len() ==> #[trigger] orig@[k]@ == original@[k]@,
            keep@.len() == j,
            forall|k: int| 0 <= k < j ==> #[trigger] keep@[k] == keeps_original(rs, os, k),
        decreases orig@.len() - j,
    {
        let in_red = name_seen(&red, red.len(), &orig[j]);
        let in_orig = name_seen(&orig, j, &orig[j]);
        assert(orig@.take(j as int).map_values(|v: Vec<char>| v@) == os.take(j as int));
        assert(orig@[j as int]@ == os[j as int]);
        keep.push(!in_red && !in_orig);
        j = j + 1;
    }
    keep
}

} // verus!
