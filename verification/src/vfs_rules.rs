//! Checking and compiling the VFS redirection rules: path variables,
//! pattern shapes, capture counts, modes and the directories to create.
use vstd::prelude::*;
use crate::text::{
    chars_of, decimal, push_chars, push_decimal, push_str_chars, split_acc, split_nonempty, split_nonempty_exec,
    string_from_chars, views,
};

verus! {

/// What to do when the redirected target does not exist.
#[derive(Clone, Copy, PartialEq, Eq, Debug, Structural)]
pub enum VfsMode {
    /// Fall back to the source path when the target is missing.
    Fallback,
    /// Always use the target path.
    Force,
}

/// What is wrong with the `{var}` placeholders of a path.
pub enum VarIssue {
    /// A `{` inside an open `{`.
    Nested,
    /// A `{` that is never closed.
    Unclosed,
    /// `{}`.
    Empty,
    /// A variable that is not one of the allowed names.
    Unknown(Seq<char>),
    /// A `}` with no `{` before it.
    Unmatched,
}

/// The placeholder names a path may use.
pub open spec fn allowed_var(v: Seq<char>) -> bool {
    ||| v == "cwd"@
    ||| v == "temp_dir"@
    ||| v == "exe_dir"@
    ||| v == "resource_pack_dir"@
}

/// Scans `s` for placeholders; `open` holds the name read so far inside
/// an open `{`. Returns the first problem met, if any.
pub open spec fn scan_vars(s: Seq<char>, open: Option<Seq<char>>) -> Option<VarIssue>
    decreases s.len(),
{
    if s.len() == 0 {
        if open is Some {
            Some(VarIssue::Unclosed)
        } else {
            None
        }
    } else {
        let c = s[0];
        match open {
            None => {
                if c == '{' {
                    scan_vars(s.drop_first(), Some(seq![]))
                } else if c == '}' {
                    Some(VarIssue::Unmatched)
                } else {
                    scan_vars(s.drop_first(), None)
                }
            },
            Some(name) => {
                if c == '{' {
                    Some(VarIssue::Nested)
                } else if c == '}' {
                    if name.len() == 0 {
                        Some(VarIssue::Empty)
                    } else if !allowed_var(name) {
                        Some(VarIssue::Unknown(name))
                    } else {
                        scan_vars(s.drop_first(), None)
                    }
                } else {
                    scan_vars(s.drop_first(), Some(name.push(c)))
                }
            },
        }
    }
}

/// The first placeholder problem of a path.
pub open spec fn var_issue(path: Seq<char>) -> Option<VarIssue> {
    scan_vars(path, None)
}

/// The number of `*` in a piece.
pub open spec fn star_count(s: Seq<char>) -> nat
    decreases s.len(),
{
    if s.len() == 0 {
        0
    } else {
        (if s[0] == '*' {
            1nat
        } else {
            0nat
        }) + star_count(s.drop_first())
    }
}

/// Captures that one pattern piece yields: `**` one, `*.*` two, any other
/// piece with a `*` one, a literal none.
pub open spec fn piece_captures(part: Seq<char>) -> nat {
    if part == seq!['*', '*'] {
        1
    } else if part == seq!['*', '.', '*'] {
        2
    } else if star_count(part) > 0 {
        1
    } else {
        0
    }
}

pub open spec fn sum_captures(parts: Seq<Seq<char>>) -> nat
    decreases parts.len(),
{
    if parts.len() == 0 {
        0
    } else {
        piece_captures(parts[0]) + sum_captures(parts.drop_first())
    }
}

/// The number of captures a pattern yields.
pub open spec fn pattern_captures(pattern: Seq<char>) -> nat {
    sum_captures(split_nonempty(pattern, '/'))
}

pub proof fn lemma_sum_captures_add(a: Seq<Seq<char>>, b: Seq<Seq<char>>)
    ensures
        sum_captures(a + b) == sum_captures(a) + sum_captures(b),
    decreases a.len(),
{
    if a.len() > 0 {
        lemma_sum_captures_add(a.drop_first(), b);
        assert((a + b).drop_first() == a.drop_first() + b);
    } else {
        assert(a + b == b);
    }
}

pub proof fn lemma_star_count_bound(s: Seq<char>)
    ensures
        star_count(s) <= s.len(),
    decreases s.len(),
{
    if s.len() > 0 {
        lemma_star_count_bound(s.drop_first());
    }
}

proof fn lemma_sum_single(x: Seq<char>)
    ensures
        sum_captures(seq![x]) == piece_captures(x),
{
    let e = Seq::<Seq<char>>::empty();
    assert(seq![x].drop_first() == e);
    assert(sum_captures(e) == 0);
    assert(seq![x][0] == x);
    assert(seq![x].len() == 1);
}

proof fn lemma_piece_captures_bound(part: Seq<char>)
    ensures
        piece_captures(part) <= part.len(),
{
    lemma_star_count_bound(part);
    if part == seq!['*', '*'] {
        assert(part.len() == 2);
    } else if part == seq!['*', '.', '*'] {
        assert(part.len() == 3);
    }
}

proof fn lemma_split_captures_bound(s: Seq<char>, cur: Seq<char>)
    ensures
        sum_captures(split_acc(s, '/', cur)) <= s.len() + cur.len(),
    decreases s.len(),
{
    lemma_piece_captures_bound(cur);
    lemma_sum_single(cur);
    if s.len() == 0 {
    } else if s[0] == '/' {
        lemma_split_captures_bound(s.drop_first(), seq![]);
        let head: Seq<Seq<char>> = if cur.len() > 0 {
            seq![cur]
        } else {
            seq![]
        };
        lemma_sum_captures_add(head, split_acc(s.drop_first(), '/', seq![]));
    } else {
        lemma_split_captures_bound(s.drop_first(), cur.push(s[0]));
    }
}

/// Counts the `*` in a piece.
fn star_count_exec(s: &[char]) -> (n: usize)
    ensures
        n == star_count(s@),
{
    let mut n: usize = 0;
    let mut i: usize = s.len();
    while i > 0
        invariant
            i <= s@.len(),
            n == star_count(s@.skip(i as int)),
            n <= s@.len() - i,
        decreases i,
    {
        i = i - 1;
        assert(s@.skip(i as int).drop_first() == s@.skip(i + 1));
        if s[i] == '*' {
            n = n + 1;
        }
    }
    assert(s@.skip(0) == s@);
    n
}

/// Whether two character slices are equal.
pub fn chars_eq(a: &[char], b: &[char]) -> (r: bool)
    ensures
        r == (a@ == b@),
{
    if a.len() != b.len() {
        return false;
    }
    let mut i: usize = 0;
    while i < a.len()
        invariant
            a@.len() == b@.len(),
            i <= a@.len(),
            forall|j: int| 0 <= j < i ==> a@[j] == b@[j],
        decreases a@.len() - i,
    {
        if a[i] != b[i] {
            return false;
        }
        i = i + 1;
    }
    assert(a@ == b@);
    true
}

/// Whether a piece is exactly `**`.
fn is_double_star(s: &[char]) -> (r: bool)
    ensures
        r == (s@ == seq!['*', '*']),
{
    let r = s.len() == 2 && s[0] == '*' && s[1] == '*';
    proof {
        if r {
            assert(s@ == seq!['*', '*']);
        } else if s@ == seq!['*', '*'] {
            assert(s@[0] == '*' && s@[1] == '*');
        }
    }
    r
}

/// Whether a piece is exactly `*.*`.
fn is_star_dot_star(s: &[char]) -> (r: bool)
    ensures
        r == (s@ == seq!['*', '.', '*']),
{
    let r = s.len() == 3 && s[0] == '*' && s[1] == '.' && s[2] == '*';
    proof {
        if r {
            assert(s@ == seq!['*', '.', '*']);
        } else if s@ == seq!['*', '.', '*'] {
            assert(s@[0] == '*' && s@[1] == '.' && s@[2] == '*');
        }
    }
    r
}

/// Counts the captures of a pattern: `*` and `**` one each, `*.*` two,
/// literal pieces none.
pub fn count_pattern_captures(pattern: &str) -> (n: usize)
    ensures
        n == pattern_captures(pattern@),
{
    let chars = chars_of(pattern);
    let parts = split_nonempty_exec(chars.as_slice(), '/');
    proof {
        lemma_split_captures_bound(pattern@, seq![]);
    }
    let ghost all = views(parts@);
    let n = chars.len();
    let mut total: usize = 0;
    let mut i: usize = 0;
    while i < parts.len()
        invariant
            i <= parts@.len(),
            all == views(parts@),
            all == split_nonempty(pattern@, '/'),
            sum_captures(all) <= n,
            total == sum_captures(all.take(i as int)),
        decreases parts@.len() - i,
    {
        proof {
            lemma_sum_captures_add(all.take(i as int), seq![all[i as int]]);
            assert(all.take(i + 1) == all.take(i as int) + seq![all[i as int]]);
            lemma_sum_single(all[i as int]);
            lemma_sum_captures_add(all.take(i + 1), all.skip(i + 1));
            assert(all.take(i + 1) + all.skip(i + 1) == all);
            assert(all[i as int] == parts@[i as int]@);
        }
        let part = parts[i].as_slice();
        let c: usize = if is_double_star(part) {
            1
        } else if is_star_dot_star(part) {
            2
        } else if star_count_exec(part) > 0 {
            1
        } else {
            0
        };
        total = total + c;
        i = i + 1;
    }
    assert(all.take(i as int) == all);
    total
}


/// A placeholder problem, as found by the scanner.
pub enum VarProblem {
    Nested,
    Unclosed,
    Empty,
    Unknown(Vec<char>),
    Unmatched,
}

impl View for VarProblem {
    type V = VarIssue;

    open spec fn view(&self) -> VarIssue {
        match self {
            VarProblem::Nested => VarIssue::Nested,
            VarProblem::Unclosed => VarIssue::Unclosed,
            VarProblem::Empty => VarIssue::Empty,
            VarProblem::Unknown(v) => VarIssue::Unknown(v@),
            VarProblem::Unmatched => VarIssue::Unmatched,
        }
    }
}

/// Whether `name` is one of the allowed placeholder names.
fn is_allowed_var(name: &[char]) -> (r: bool)
    ensures
        r == allowed_var(name@),
{
    let cwd = chars_of("cwd");
    let temp = chars_of("temp_dir");
    let exe = chars_of("exe_dir");
    let pack = chars_of("resource_pack_dir");
    chars_eq(name, cwd.as_slice()) || chars_eq(name, temp.as_slice()) || chars_eq(
        name,
        exe.as_slice(),
    ) || chars_eq(name, pack.as_slice())
}

/// Finds the first placeholder problem of a path.
fn find_var_problem(path: &[char]) -> (r: Option<VarProblem>)
    ensures
        match var_issue(path@) {
            None => r is None,
            Some(issue) => r matches Some(p) && p@ == issue,
        },
{
    let mut open: Option<Vec<char>> = None;
    let mut i: usize = 0;
    assert(path@.skip(0) == path@);
    while i < path.len()
        invariant
            i <= path@.len(),
            var_issue(path@) == scan_vars(
                path@.skip(i as int),
                match open {
                    Some(v) => Some(v@),
                    None => None,
                },
            ),
        decreases path@.len() - i,
    {
        let c = path[i];
        assert(path@.skip(i as int)[0] == c);
        assert(path@.skip(i as int).drop_first() == path@.skip(i + 1));
        match open {
            None => {
                if c == '{' {
                    open = Some(Vec::new());
                    assert(open->0@ == Seq::<char>::empty());
                } else if c == '}' {
                    return Some(VarProblem::Unmatched);
                }
            },
            Some(mut name) => {
                if c == '{' {
                    return Some(VarProblem::Nested);
                } else if c == '}' {
                    if name.len() == 0 {
                        return Some(VarProblem::Empty);
                    }
                    if !is_allowed_var(name.as_slice()) {
                        return Some(VarProblem::Unknown(name));
                    }
                    open = None;
                } else {
                    name.push(c);
                    open = Some(name);
                }
            },
        }
        i = i + 1;
    }
    if open.is_some() {
        Some(VarProblem::Unclosed)
    } else {
        None
    }
}

/// Everything the rule checker can reject, with the text it was about.
pub enum VfsRuleError {
    NestedVar { field: String, path: String },
    UnclosedVar { field: String, path: String },
    EmptyVar { field: String, path: String },
    UnknownVar { field: String, path: String, var: String },
    UnmatchedBrace { field: String, path: String },
    Backslash { field: String, path: String },
    EmptyPath { field: String },
    TooManyRecursive { field: String, path: String, count: usize },
    TooManyStars { field: String, path: String, index: usize, segment: String, count: usize },
    DirWildcard { path: String },
    UnknownMode { mode: String },
    CaptureMismatch { source: String, source_count: usize, target: String, target_count: usize },
}

/// The mathematical form of a [`VfsRuleError`].
pub enum RuleErrorModel {
    NestedVar { field: Seq<char>, path: Seq<char> },
    UnclosedVar { field: Seq<char>, path: Seq<char> },
    EmptyVar { field: Seq<char>, path: Seq<char> },
    UnknownVar { field: Seq<char>, path: Seq<char>, var: Seq<char> },
    UnmatchedBrace { field: Seq<char>, path: Seq<char> },
    Backslash { field: Seq<char>, path: Seq<char> },
    EmptyPath { field: Seq<char> },
    TooManyRecursive { field: Seq<char>, path: Seq<char>, count: nat },
    TooManyStars { field: Seq<char>, path: Seq<char>, index: nat, segment: Seq<char>, count: nat },
    DirWildcard { path: Seq<char> },
    UnknownMode { mode: Seq<char> },
    CaptureMismatch { source: Seq<char>, source_count: nat, target: Seq<char>, target_count: nat },
}

impl View for VfsRuleError {
    type V = RuleErrorModel;

    open spec fn view(&self) -> RuleErrorModel {
        match self {
            VfsRuleError::NestedVar { field, path } => RuleErrorModel::NestedVar {
                field: field@,
                path: path@,
            },
            VfsRuleError::UnclosedVar { field, path } => RuleErrorModel::UnclosedVar {
                field: field@,
                path: path@,
            },
            VfsRuleError::EmptyVar { field, path } => RuleErrorModel::EmptyVar {
                field: field@,
                path: path@,
            },
            VfsRuleError::UnknownVar { field, path, var } => RuleErrorModel::UnknownVar {
                field: field@,
                path: path@,
                var: var@,
            },
            VfsRuleError::UnmatchedBrace { field, path } => RuleErrorModel::UnmatchedBrace {
                field: field@,
                path: path@,
            },
            VfsRuleError::Backslash { field, path } => RuleErrorModel::Backslash {
                field: field@,
                path: path@,
            },
            VfsRuleError::EmptyPath { field } => RuleErrorModel::EmptyPath { field: field@ },
            VfsRuleError::TooManyRecursive { field, path, count } => RuleErrorModel::TooManyRecursive {
                field: field@,
                path: path@,
                count: *count as nat,
            },
            VfsRuleError::TooManyStars { field, path, index, segment, count } =>
                RuleErrorModel::TooManyStars {
                field: field@,
                path: path@,
                index: *index as nat,
                segment: segment@,
                count: *count as nat,
            },
            VfsRuleError::DirWildcard { path } => RuleErrorModel::DirWildcard { path: path@ },
            VfsRuleError::UnknownMode { mode } => RuleErrorModel::UnknownMode { mode: mode@ },
            VfsRuleError::CaptureMismatch { source, source_count, target, target_count } =>
                RuleErrorModel::CaptureMismatch {
                source: source@,
                source_count: *source_count as nat,
                target: target@,
                target_count: *target_count as nat,
            },
        }
    }
}

/// The error reported for a placeholder problem in `path` (of field `field`).
pub open spec fn var_error(issue: VarIssue, field: Seq<char>, path: Seq<char>) -> RuleErrorModel {
    match issue {
        VarIssue::Nested => RuleErrorModel::NestedVar { field, path },
        VarIssue::Unclosed => RuleErrorModel::UnclosedVar { field, path },
        VarIssue::Empty => RuleErrorModel::EmptyVar { field, path },
        VarIssue::Unknown(var) => RuleErrorModel::UnknownVar { field, path, var },
        VarIssue::Unmatched => RuleErrorModel::UnmatchedBrace { field, path },
    }
}

/// Checks the `{var}` placeholders of a path: only `{cwd}`, `{temp_dir}`,
/// `{exe_dir}` and `{resource_pack_dir}` are allowed; empty, unclosed,
/// nested and stray braces are rejected.
pub fn validate_path_vars(path: &str, field_name: &str) -> (r: Result<(), VfsRuleError>)
    ensures
        match var_issue(path@) {
            None => r is Ok,
            Some(issue) => r matches Err(e) && e@ == var_error(issue, field_name@, path@),
        },
{
    let chars = chars_of(path);
    match find_var_problem(chars.as_slice()) {
        None => Ok(()),
        Some(problem) => {
            let field = field_name.to_owned();
            let p = path.to_owned();
            Err(
                match problem {
                    VarProblem::Nested => VfsRuleError::NestedVar { field, path: p },
                    VarProblem::Unclosed => VfsRuleError::UnclosedVar { field, path: p },
                    VarProblem::Empty => VfsRuleError::EmptyVar { field, path: p },
                    VarProblem::Unknown(v) => VfsRuleError::UnknownVar {
                        field,
                        path: p,
                        var: string_from_chars(v.as_slice()),
                    },
                    VarProblem::Unmatched => VfsRuleError::UnmatchedBrace { field, path: p },
                },
            )
        },
    }
}

/// Whether `c` occurs in `s`.
fn contains_char(s: &[char], c: char) -> (r: bool)
    ensures
        r == s@.contains(c),
{
    let mut i: usize = 0;
    while i < s.len()
        invariant
            i <= s@.len(),
            forall|j: int| 0 <= j < i ==> s@[j] != c,
        decreases s@.len() - i,
    {
        if s[i] == c {
            assert(s@[i as int] == c);
            return true;
        }
        i = i + 1;
    }
    false
}

/// Why a `create_dirs` path is rejected, if it is.
pub open spec fn dir_path_error(path: Seq<char>) -> Option<RuleErrorModel> {
    match var_issue(path) {
        Some(issue) => Some(var_error(issue, "create_dirs"@, path)),
        None => {
            if path.len() == 0 {
                Some(RuleErrorModel::EmptyPath { field: "create_dirs"@ })
            } else if path.contains('\\') {
                Some(RuleErrorModel::Backslash { field: "create_dirs"@, path })
            } else if path.contains('*') {
                Some(RuleErrorModel::DirWildcard { path })
            } else {
                None
            }
        },
    }
}

/// Checks a directory to create: placeholders as for patterns, not empty,
/// no `\`, no `*`.
pub fn validate_dir_path(path: &str) -> (r: Result<(), VfsRuleError>)
    ensures
        match dir_path_error(path@) {
            None => r is Ok,
            Some(m) => r matches Err(e) && e@ == m,
        },
{
    validate_path_vars(path, "create_dirs")?;
    let chars = chars_of(path);
    if chars.len() == 0 {
        return Err(VfsRuleError::EmptyPath { field: "create_dirs".to_owned() });
    }
    if contains_char(chars.as_slice(), '\\') {
        return Err(VfsRuleError::Backslash { field: "create_dirs".to_owned(), path: path.to_owned() });
    }
    if contains_char(chars.as_slice(), '*') {
        return Err(VfsRuleError::DirWildcard { path: path.to_owned() });
    }
    Ok(())
}

/// How many pieces are exactly `**`.
pub open spec fn count_double_star(segs: Seq<Seq<char>>) -> nat
    decreases segs.len(),
{
    if segs.len() == 0 {
        0
    } else {
        (if segs[0] == seq!['*', '*'] {
            1nat
        } else {
            0nat
        }) + count_double_star(segs.drop_first())
    }
}

/// A piece with a `*` in a form other than `*.ext`, `name.*`, `*.*`, `**`.
pub open spec fn bad_piece(seg: Seq<char>) -> bool {
    seg != seq!['*', '*'] && seg != seq!['*', '.', '*'] && star_count(seg) >= 2
}

/// The index of the first bad piece from `i` on.
pub open spec fn first_bad_piece(segs: Seq<Seq<char>>, i: int) -> Option<int>
    decreases segs.len() - i,
{
    if i < 0 || i >= segs.len() {
        None
    } else if bad_piece(segs[i]) {
        Some(i)
    } else {
        first_bad_piece(segs, i + 1)
    }
}

/// Why a source or target pattern is rejected, if it is.
pub open spec fn pattern_error(p: Seq<char>, field: Seq<char>) -> Option<RuleErrorModel> {
    match var_issue(p) {
        Some(issue) => Some(var_error(issue, field, p)),
        None => {
            if p.contains('\\') {
                Some(RuleErrorModel::Backslash { field, path: p })
            } else if p.len() == 0 {
                Some(RuleErrorModel::EmptyPath { field })
            } else {
                let segs = split_nonempty(p, '/');
                if count_double_star(segs) > 1 {
                    Some(
                        RuleErrorModel::TooManyRecursive {
                            field,
                            path: p,
                            count: count_double_star(segs),
                        },
                    )
                } else {
                    match first_bad_piece(segs, 0) {
                        Some(i) => Some(
                            RuleErrorModel::TooManyStars {
                                field,
                                path: p,
                                index: (i + 1) as nat,
                                segment: segs[i],
                                count: star_count(segs[i]),
                            },
                        ),
                        None => None,
                    }
                }
            }
        },
    }
}

proof fn lemma_count_double_star_split(a: Seq<Seq<char>>, i: int)
    requires
        0 <= i < a.len(),
    ensures
        count_double_star(a.take(i + 1)) == count_double_star(a.take(i)) + (if a[i] == seq![
            '*',
            '*',
        ] {
            1nat
        } else {
            0nat
        }),
    decreases i,
{
    if i > 0 {
        lemma_count_double_star_split(a.drop_first(), i - 1);
        assert(a.take(i + 1).drop_first() == a.drop_first().take(i));
        assert(a.take(i).drop_first() == a.drop_first().take(i - 1));
        assert(a.take(i + 1)[0] == a[0]);
        assert(a.take(i)[0] == a[0]);
        assert(a.drop_first()[i - 1] == a[i]);
    } else {
        let e = Seq::<Seq<char>>::empty();
        assert(a.take(1).drop_first() == e);
        assert(a.take(0) == e);
        assert(count_double_star(e) == 0);
        assert(a.take(1)[0] == a[0]);
    }
}

/// Checks a source or target pattern: placeholders, no `\`, not empty, at
/// most one `**`, and every other piece with `*` in the form `*.ext`,
/// `name.*` or `*.*`.
pub fn validate_pattern(pattern: &str, field_name: &str) -> (r: Result<(), VfsRuleError>)
    ensures
        match pattern_error(pattern@, field_name@) {
            None => r is Ok,
            Some(m) => r matches Err(e) && e@ == m,
        },
{
    validate_path_vars(pattern, field_name)?;
    let chars = chars_of(pattern);
    if contains_char(chars.as_slice(), '\\') {
        return Err(VfsRuleError::Backslash { field: field_name.to_owned(), path: pattern.to_owned() });
    }
    if chars.len() == 0 {
        return Err(VfsRuleError::EmptyPath { field: field_name.to_owned() });
    }
    let parts = split_nonempty_exec(chars.as_slice(), '/');
    let ghost segs = views(parts@);
    let mut recursive_count: usize = 0;
    let mut i: usize = 0;
    while i < parts.len()
        invariant
            i <= parts@.len(),
            segs == views(parts@),
            recursive_count <= i,
            recursive_count == count_double_star(segs.take(i as int)),
        decreases parts@.len() - i,
    {
        proof {
            lemma_count_double_star_split(segs, i as int);
            assert(segs[i as int] == parts@[i as int]@);
        }
        if is_double_star(parts[i].as_slice()) {
            recursive_count = recursive_count + 1;
        }
        i = i + 1;
    }
    assert(segs.take(i as int) == segs);
    if recursive_count > 1 {
        return Err(
            VfsRuleError::TooManyRecursive {
                field: field_name.to_owned(),
                path: pattern.to_owned(),
                count: recursive_count,
            },
        );
    }
    let mut i: usize = 0;
    while i < parts.len()
        invariant
            i <= parts@.len(),
            segs == views(parts@),
            segs == split_nonempty(pattern@, '/'),
            var_issue(pattern@) is None,
            !pattern@.contains('\\'),
            pattern@.len() > 0,
            count_double_star(segs) <= 1,
            first_bad_piece(segs, 0) == first_bad_piece(segs, i as int),
        decreases parts@.len() - i,
    {
        let seg = parts[i].as_slice();
        assert(segs[i as int] == seg@);
        let n = star_count_exec(seg);
        if !is_double_star(seg) && !is_star_dot_star(seg) && n >= 2 {
            return Err(
                VfsRuleError::TooManyStars {
                    field: field_name.to_owned(),
                    path: pattern.to_owned(),
                    index: i + 1,
                    segment: string_from_chars(seg),
                    count: n,
                },
            );
        }
        i = i + 1;
    }
    Ok(())
}

/// The mode named by a rule's `mode` text.
pub open spec fn mode_of(mode: Seq<char>) -> Option<VfsMode> {
    if mode == "fallback"@ {
        Some(VfsMode::Fallback)
    } else if mode == "force"@ {
        Some(VfsMode::Force)
    } else {
        None
    }
}

/// Reads a rule's mode: `fallback` or `force`, exactly.
pub fn resolve_vfs_mode(mode: &str) -> (r: Result<VfsMode, VfsRuleError>)
    ensures
        match mode_of(mode@) {
            Some(m) => r == Ok::<VfsMode, VfsRuleError>(m),
            None => r matches Err(e) && e@ == (RuleErrorModel::UnknownMode { mode: mode@ }),
        },
{
    let chars = chars_of(mode);
    let fallback = chars_of("fallback");
    let force = chars_of("force");
    if chars_eq(chars.as_slice(), fallback.as_slice()) {
        Ok(VfsMode::Fallback)
    } else if chars_eq(chars.as_slice(), force.as_slice()) {
        Ok(VfsMode::Force)
    } else {
        Err(VfsRuleError::UnknownMode { mode: mode.to_owned() })
    }
}


/// One rule as written in a rules file.
pub struct VfsRuleEntry {
    pub source: String,
    pub target: String,
    pub mode: String,
    /// A `cfg` condition under which the rule (and its directories) apply.
    pub cfg: Option<String>,
    /// Directories to create before the rules are used.
    pub create_dirs: Option<Vec<String>>,
}

/// A checked rule.
pub struct RawVfsRule {
    pub source: String,
    pub target: String,
    pub mode: VfsMode,
    pub cfg: Option<String>,
}

pub open spec fn opt_view(o: Option<String>) -> Option<Seq<char>> {
    match o {
        Some(s) => Some(s@),
        None => None,
    }
}

/// Why a rule is rejected, if it is: its source, then its target, then the
/// two capture counts, then its mode.
pub open spec fn rule_error(source: Seq<char>, target: Seq<char>, mode: Seq<char>) -> Option<
    RuleErrorModel,
> {
    match pattern_error(source, "source"@) {
        Some(e) => Some(e),
        None => match pattern_error(target, "target"@) {
            Some(e) => Some(e),
            None => {
                if pattern_captures(source) != pattern_captures(target) {
                    Some(
                        RuleErrorModel::CaptureMismatch {
                            source,
                            source_count: pattern_captures(source),
                            target,
                            target_count: pattern_captures(target),
                        },
                    )
                } else {
                    match mode_of(mode) {
                        Some(_) => None,
                        None => Some(RuleErrorModel::UnknownMode { mode }),
                    }
                }
            },
        },
    }
}

pub open spec fn entry_error(e: VfsRuleEntry) -> Option<RuleErrorModel> {
    rule_error(e.source@, e.target@, e.mode@)
}

/// The error of the first rejected rule from index `i` on.
pub open spec fn first_entry_error(rules: Seq<VfsRuleEntry>, i: int) -> Option<RuleErrorModel>
    decreases rules.len() - i,
{
    if i < 0 || i >= rules.len() {
        None
    } else {
        match entry_error(rules[i]) {
            Some(e) => Some(e),
            None => first_entry_error(rules, i + 1),
        }
    }
}

/// `r` is the checked form of `e`.
pub open spec fn rule_compiled_from(r: RawVfsRule, e: VfsRuleEntry) -> bool {
    &&& r.source@ == e.source@
    &&& r.target@ == e.target@
    &&& mode_of(e.mode@) == Some(r.mode)
    &&& opt_view(r.cfg) == opt_view(e.cfg)
}

/// Checks one rule.
fn check_rule(e: &VfsRuleEntry) -> (r: Result<RawVfsRule, VfsRuleError>)
    ensures
        match entry_error(*e) {
            Some(m) => r matches Err(err) && err@ == m,
            None => r matches Ok(raw) && rule_compiled_from(raw, *e),
        },
{
    validate_pattern(e.source.as_str(), "source")?;
    validate_pattern(e.target.as_str(), "target")?;
    let source_count = count_pattern_captures(e.source.as_str());
    let target_count = count_pattern_captures(e.target.as_str());
    if source_count != target_count {
        return Err(
            VfsRuleError::CaptureMismatch {
                source: e.source.clone(),
                source_count,
                target: e.target.clone(),
                target_count,
            },
        );
    }
    let mode = resolve_vfs_mode(e.mode.as_str())?;
    Ok(RawVfsRule { source: e.source.clone(), target: e.target.clone(), mode, cfg: e.cfg.clone() })
}

/// Checks every rule, in order, and returns their checked forms; the first
/// rejected rule decides the error.
pub fn make_rule_entries(rules: &[VfsRuleEntry]) -> (r: Result<Vec<RawVfsRule>, VfsRuleError>)
    ensures
        match first_entry_error(rules@, 0) {
            Some(m) => r matches Err(e) && e@ == m,
            None => r matches Ok(v) && v@.len() == rules@.len() && forall|i: int|
                0 <= i < rules@.len() ==> rule_compiled_from(#[trigger] v@[i], rules@[i]),
        },
{
    let mut out: Vec<RawVfsRule> = Vec::new();
    let mut i: usize = 0;
    while i < rules.len()
        invariant
            i <= rules@.len(),
            out@.len() == i,
            first_entry_error(rules@, 0) == first_entry_error(rules@, i as int),
            forall|k: int| 0 <= k < i ==> rule_compiled_from(#[trigger] out@[k], rules@[k]),
        decreases rules@.len() - i,
    {
        let raw = check_rule(&rules[i])?;
        out.push(raw);
        i = i + 1;
    }
    Ok(out)
}

/// A directory to create, with the `cfg` it is created under.
pub struct CreateDir {
    pub cfg: Option<String>,
    pub path: String,
}

/// A directory as plain values: its `cfg` and its path.
pub type DirItem = (Option<Seq<char>>, Seq<char>);

pub open spec fn dir_view(d: CreateDir) -> DirItem {
    (opt_view(d.cfg), d.path@)
}

/// The directories one rule asks for, each with the rule's `cfg`.
pub open spec fn dirs_of(e: VfsRuleEntry) -> Seq<DirItem> {
    match e.create_dirs {
        Some(d) => d@.map_values(|s: String| (opt_view(e.cfg), s@)),
        None => seq![],
    }
}

/// All directories asked for, rule after rule.
pub open spec fn flat_dirs(rules: Seq<VfsRuleEntry>) -> Seq<DirItem>
    decreases rules.len(),
{
    if rules.len() == 0 {
        seq![]
    } else {
        flat_dirs(rules.drop_last()) + dirs_of(rules.last())
    }
}

/// The error of the first rejected directory.
pub open spec fn first_dir_error(items: Seq<DirItem>) -> Option<RuleErrorModel>
    decreases items.len(),
{
    if items.len() == 0 {
        None
    } else {
        match dir_path_error(items[0].1) {
            Some(e) => Some(e),
            None => first_dir_error(items.drop_first()),
        }
    }
}

/// The directories kept from the first `n` items: an item is dropped when
/// it was kept before, or when it has a `cfg` and the same path is also
/// asked for without one.
pub open spec fn kept_dirs(items: Seq<DirItem>, n: int) -> Seq<DirItem>
    decreases n,
{
    if n <= 0 || n > items.len() {
        seq![]
    } else {
        let prev = kept_dirs(items, n - 1);
        let it = items[n - 1];
        if (it.0 is Some && items.contains((None, it.1))) || prev.contains(it) {
            prev
        } else {
            prev.push(it)
        }
    }
}

proof fn lemma_first_dir_error_skip(items: Seq<DirItem>, n: int)
    requires
        0 <= n <= items.len(),
        forall|k: int| 0 <= k < n ==> dir_path_error(#[trigger] items[k].1) is None,
    ensures
        first_dir_error(items) == first_dir_error(items.skip(n)),
    decreases n,
{
    if n > 0 {
        assert(items.skip(1) == items.drop_first());
        lemma_first_dir_error_skip(items.drop_first(), n - 1);
        assert(items.drop_first().skip(n - 1) == items.skip(n));
    } else {
        assert(items.skip(0) == items);
    }
}

fn opt_string_eq(a: &Option<String>, b: &Option<String>) -> (r: bool)
    ensures
        r == (opt_view(*a) == opt_view(*b)),
{
    match (a, b) {
        (Some(x), Some(y)) => *x == *y,
        (None, None) => true,
        _ => false,
    }
}

proof fn lemma_flat_prefix(rules: Seq<VfsRuleEntry>, i: int)
    requires
        0 <= i <= rules.len(),
    ensures
        flat_dirs(rules.take(i)).len() <= flat_dirs(rules).len(),
        flat_dirs(rules).take(flat_dirs(rules.take(i)).len() as int) == flat_dirs(rules.take(i)),
    decreases rules.len() - i,
{
    if i == rules.len() {
        assert(rules.take(i) == rules);
        assert(flat_dirs(rules).take(flat_dirs(rules).len() as int) == flat_dirs(rules));
    } else {
        let dl = rules.drop_last();
        lemma_flat_prefix(dl, i);
        assert(rules.take(i) == dl.take(i));
        let m = flat_dirs(dl.take(i)).len() as int;
        assert(flat_dirs(rules) == flat_dirs(dl) + dirs_of(rules.last()));
        assert((flat_dirs(dl) + dirs_of(rules.last())).take(m) == flat_dirs(dl).take(m));
    }
}

proof fn lemma_flat_step(rules: Seq<VfsRuleEntry>, i: int)
    requires
        0 <= i < rules.len(),
    ensures
        flat_dirs(rules.take(i + 1)) == flat_dirs(rules.take(i)) + dirs_of(rules[i]),
{
    assert(rules.take(i + 1).drop_last() == rules.take(i));
    assert(rules.take(i + 1).last() == rules[i]);
}

pub open spec fn dir_views(v: Seq<CreateDir>) -> Seq<DirItem> {
    v.map_values(|d: CreateDir| dir_view(d))
}

pub open spec fn path_views(v: Seq<String>) -> Seq<Seq<char>> {
    v.map_values(|s: String| s@)
}

proof fn lemma_contains_push<A>(s: Seq<A>, x: A, y: A)
    ensures
        s.push(x).contains(y) <==> (s.contains(y) || x == y),
{
    if s.contains(y) {
        let k = choose|k: int| 0 <= k < s.len() && s[k] == y;
        assert(s.push(x)[k] == y);
    }
    if x == y {
        assert(s.push(x)[s.len() as int] == y);
    }
    if s.push(x).contains(y) {
        let k = choose|k: int| 0 <= k < s.push(x).len() && s.push(x)[k] == y;
        if k < s.len() {
            assert(s[k] == y);
        }
    }
}

fn contains_string(v: &Vec<String>, s: &String) -> (r: bool)
    ensures
        r == path_views(v@).contains(s@),
{
    let mut i: usize = 0;
    while i < v.len()
        invariant
            i <= v@.len(),
            forall|k: int| 0 <= k < i ==> path_views(v@)[k] != s@,
        decreases v@.len() - i,
    {
        if v[i] == *s {
            assert(path_views(v@)[i as int] == s@);
            return true;
        }
        i = i + 1;
    }
    false
}

fn contains_dir(v: &Vec<CreateDir>, cfg: &Option<String>, path: &String) -> (r: bool)
    ensures
        r == dir_views(v@).contains((opt_view(*cfg), path@)),
{
    let mut i: usize = 0;
    while i < v.len()
        invariant
            i <= v@.len(),
            forall|k: int| 0 <= k < i ==> dir_views(v@)[k] != (opt_view(*cfg), path@),
        decreases v@.len() - i,
    {
        if opt_string_eq(&v[i].cfg, cfg) && v[i].path == *path {
            assert(dir_views(v@)[i as int] == (opt_view(*cfg), path@));
            return true;
        }
        i = i + 1;
    }
    false
}

fn clone_opt(o: &Option<String>) -> (r: Option<String>)
    ensures
        opt_view(r) == opt_view(*o),
{
    match o {
        Some(s) => Some(s.clone()),
        None => None,
    }
}

/// Collects the directories to create, in the order they are asked for:
/// every path is checked first; then each `(cfg, path)` is kept once, and a
/// path asked for without a `cfg` makes its conditional copies redundant.
pub fn collect_create_dirs(rules: &[VfsRuleEntry]) -> (r: Result<Vec<CreateDir>, VfsRuleError>)
    ensures
        match first_dir_error(flat_dirs(rules@)) {
            Some(m) => r matches Err(e) && e@ == m,
            None => r matches Ok(v) && dir_views(v@) == kept_dirs(
                flat_dirs(rules@),
                flat_dirs(rules@).len() as int,
            ),
        },
{
    let ghost flat = flat_dirs(rules@);
    // The directories asked for without a condition.
    let mut unconditional: Vec<String> = Vec::new();
    let ghost mut n: int = 0;
    let mut i: usize = 0;
    assert(rules@.take(0) == Seq::<VfsRuleEntry>::empty());
    while i < rules.len()
        invariant
            i <= rules@.len(),
            flat == flat_dirs(rules@),
            n == flat_dirs(rules@.take(i as int)).len(),
            flat_dirs(rules@.take(i as int)) == flat.take(n),
            0 <= n <= flat.len(),
            forall|k: int| 0 <= k < n ==> dir_path_error(#[trigger] flat[k].1) is None,
            forall|d: Seq<char>|
                flat.take(n).contains((None, d)) <==> #[trigger] path_views(unconditional@).contains(d),
        decreases rules@.len() - i,
    {
        proof {
            lemma_flat_step(rules@, i as int);
            lemma_flat_prefix(rules@, i + 1);
        }
        let ghost base = flat.take(n);
        let ghost full = flat_dirs(rules@.take(i + 1));
        let ghost mine = dirs_of(rules@[i as int]);
        match &rules[i].create_dirs {
            Some(dirs) => {
                let mut j: usize = 0;
                while j < dirs.len()
                    invariant
                        j <= dirs@.len(),
                        i < rules@.len(),
                        flat == flat_dirs(rules@),
                        0 <= n,
                        rules@[i as int].create_dirs == Some(*dirs),
                        mine == dirs_of(rules@[i as int]),
                        mine.len() == dirs@.len(),
                        full == base + mine,
                        flat.take(full.len() as int) == full,
                        base == flat.take(n),
                        n + mine.len() <= flat.len(),
                        forall|k: int| 0 <= k < n + j ==> dir_path_error(#[trigger] flat[k].1) is None,
                        forall|d: Seq<char>|
                            flat.take(n + j).contains((None, d)) <==> #[trigger] path_views(
                                unconditional@,
                            ).contains(d),
                    decreases dirs@.len() - j,
                {
                    assert(base.len() == n);
                    assert(flat[n + j] == flat.take(full.len() as int)[n + j]);
                    assert(full[n + j] == mine[j as int]);
                    assert(flat[n + j] == mine[j as int]);
                    assert(mine[j as int] == (opt_view(rules@[i as int].cfg), dirs@[j as int]@));
                    match validate_dir_path(dirs[j].as_str()) {
                        Err(e) => {
                            proof {
                                lemma_first_dir_error_skip(flat, n + j);
                                let rest = flat.skip(n + j);
                                assert(rest[0] == flat[n + j]);
                                assert(rest[0].1 == dirs@[j as int]@);
                                assert(dir_path_error(dirs@[j as int]@) == Some(e@));
                                assert(first_dir_error(rest) == Some(e@));
                            }
                            return Err(e);
                        },
                        Ok(()) => {},
                    }
                    let ghost before = path_views(unconditional@);
                    if rules[i].cfg.is_none() {
                        unconditional.push(dirs[j].clone());
                        assert(path_views(unconditional@) == before.push(dirs@[j as int]@));
                    } else {
                        assert(path_views(unconditional@) == before);
                    }
                    proof {
                        assert(flat.take(n + j + 1) == flat.take(n + j).push(flat[n + j]));
                        assert forall|d: Seq<char>|
                            flat.take(n + j + 1).contains((None, d)) <==> #[trigger] path_views(
                                unconditional@,
                            ).contains(d) by {
                            lemma_contains_push(flat.take(n + j), flat[n + j], (None, d));
                            lemma_contains_push(before, dirs@[j as int]@, d);
                        }
                    }
                    j = j + 1;
                }
                proof {
                    assert(flat.take(n + mine.len()) == full);
                    n = n + mine.len();
                }
            },
            None => {
                assert(mine.len() == 0);
                assert(full == base);
            },
        }
        i = i + 1;
    }
    assert(rules@.take(i as int) == rules@);
    assert(flat.take(n) == flat);
    proof {
        lemma_first_dir_error_skip(flat, n);
        assert(flat.skip(n).len() == 0);
    }
    // Second pass: keep each (cfg, path) once, unconditional paths first.
    let mut items: Vec<CreateDir> = Vec::new();
    let ghost mut m: int = 0;
    let mut i: usize = 0;
    while i < rules.len()
        invariant
            i <= rules@.len(),
            flat == flat_dirs(rules@),
            m == flat_dirs(rules@.take(i as int)).len(),
            0 <= m <= flat.len(),
            forall|d: Seq<char>| flat.contains((None, d)) <==> #[trigger] path_views(unconditional@).contains(d),
            dir_views(items@) == kept_dirs(flat, m),
        decreases rules@.len() - i,
    {
        proof {
            lemma_flat_step(rules@, i as int);
            lemma_flat_prefix(rules@, i + 1);
            lemma_flat_prefix(rules@, i as int);
        }
        let ghost full = flat_dirs(rules@.take(i + 1));
        let ghost mine = dirs_of(rules@[i as int]);
        match &rules[i].create_dirs {
            Some(dirs) => {
                let mut j: usize = 0;
                while j < dirs.len()
                    invariant
                        j <= dirs@.len(),
                        i < rules@.len(),
                        flat == flat_dirs(rules@),
                        0 <= m,
                        rules@[i as int].create_dirs == Some(*dirs),
                        mine == dirs_of(rules@[i as int]),
                        mine.len() == dirs@.len(),
                        full == flat_dirs(rules@.take(i as int)) + mine,
                        flat.take(full.len() as int) == full,
                        m == flat_dirs(rules@.take(i as int)).len(),
                        m + mine.len() <= flat.len(),
                        forall|d: Seq<char>|
                            flat.contains((None, d)) <==> #[trigger] path_views(unconditional@).contains(d),
                        dir_views(items@) == kept_dirs(flat, m + j),
                    decreases dirs@.len() - j,
                {
                    let ghost it = flat[m + j];
                    assert(flat[m + j] == flat.take(full.len() as int)[m + j]);
                    assert(full[m + j] == mine[j as int]);
                    assert(it == mine[j as int]);
                    assert(it == (opt_view(rules@[i as int].cfg), dirs@[j as int]@));
                    let cfg = &rules[i].cfg;
                    let path = &dirs[j];
                    let redundant = cfg.is_some() && contains_string(&unconditional, path);
                    if !redundant && !contains_dir(&items, cfg, path) {
                        let ghost before = dir_views(items@);
                        let d = CreateDir { cfg: clone_opt(cfg), path: path.clone() };
                        items.push(d);
                        assert(dir_views(items@) == before.push(dir_view(d)));
                    }
                    j = j + 1;
                }
                proof {
                    m = m + mine.len();
                }
            },
            None => {
                assert(mine.len() == 0);
            },
        }
        i = i + 1;
    }
    assert(rules@.take(i as int) == rules@);
    Ok(items)
}


/// The human-readable text of an error.
pub open spec fn error_text(e: RuleErrorModel) -> Seq<char> {
    match e {
        RuleErrorModel::NestedVar { field, path } => field + " 路径 `"@ + path + "` 包含非法嵌套 `{`"@,
        RuleErrorModel::UnclosedVar { field, path } => field + " 路径 `"@ + path + "` 中的变量未闭合"@,
        RuleErrorModel::EmptyVar { field, path } => field + " 路径 `"@ + path + "` 包含空变量 `{}`"@,
        RuleErrorModel::UnknownVar { field, path, var } => field + " 路径 `"@ + path
            + "` 包含未知变量 `{"@ + var
            + "}`，允许的变量: cwd, temp_dir, exe_dir, resource_pack_dir"@,
        RuleErrorModel::UnmatchedBrace { field, path } => field + " 路径 `"@ + path
            + "` 包含未匹配的 `}`"@,
        RuleErrorModel::Backslash { field, path } => field + " 路径 `"@ + path
            + "` 包含非法分隔符 `\\`, 请使用 `/`"@,
        RuleErrorModel::EmptyPath { field } => field + " 路径不能为空"@,
        RuleErrorModel::TooManyRecursive { field, path, count } => field + " 路径 `"@ + path
            + "` 包含 "@ + decimal(count) + " 个 `**`, 最多允许一个"@,
        RuleErrorModel::TooManyStars { field, path, index, segment, count } => field + " 路径 `"@
            + path + "` 第 "@ + decimal(index) + " 段 `"@ + segment + "` 包含 "@ + decimal(count)
            + " 个 `*`, 只允许 `*.ext`, `name.*`, `*.*` 等写法"@,
        RuleErrorModel::DirWildcard { path } => "create_dirs 路径 `"@ + path
            + "` 包含非法通配符 `*`, 目录路径不支持 glob"@,
        RuleErrorModel::UnknownMode { mode } => "非法的 VfsMode: `"@ + mode
            + "`, 期望 `fallback` 或 `force`"@,
        RuleErrorModel::CaptureMismatch { source, source_count, target, target_count } =>
            "VFS 规则 capture 数量不匹配:\nsource: `"@ + source + "` ("@ + decimal(source_count)
            + " captures)\ntarget: `"@ + target + "` ("@ + decimal(target_count)
            + " captures)\nsource 和 target 的 `*` / `**` 捕获数量必须完全一致"@,
    }
}

impl VfsRuleError {
    /// The human-readable text of the error.
    pub fn message(&self) -> (r: String)
        ensures
            r@ == error_text(self@),
    {
        let mut out: Vec<char> = Vec::new();
        match self {
            VfsRuleError::NestedVar { field, path } => {
                push_str_chars(&mut out, field.as_str());
                push_str_chars(&mut out, " 路径 `");
                push_str_chars(&mut out, path.as_str());
                push_str_chars(&mut out, "` 包含非法嵌套 `{`");
            },
            VfsRuleError::UnclosedVar { field, path } => {
                push_str_chars(&mut out, field.as_str());
                push_str_chars(&mut out, " 路径 `");
                push_str_chars(&mut out, path.as_str());
                push_str_chars(&mut out, "` 中的变量未闭合");
            },
            VfsRuleError::EmptyVar { field, path } => {
                push_str_chars(&mut out, field.as_str());
                push_str_chars(&mut out, " 路径 `");
                push_str_chars(&mut out, path.as_str());
                push_str_chars(&mut out, "` 包含空变量 `{}`");
            },
            VfsRuleError::UnknownVar { field, path, var } => {
                push_str_chars(&mut out, field.as_str());
                push_str_chars(&mut out, " 路径 `");
                push_str_chars(&mut out, path.as_str());
                push_str_chars(&mut out, "` 包含未知变量 `{");
                push_str_chars(&mut out, var.as_str());
                push_str_chars(&mut out, "}`，允许的变量: cwd, temp_dir, exe_dir, resource_pack_dir");
            },
            VfsRuleError::UnmatchedBrace { field, path } => {
                push_str_chars(&mut out, field.as_str());
                push_str_chars(&mut out, " 路径 `");
                push_str_chars(&mut out, path.as_str());
                push_str_chars(&mut out, "` 包含未匹配的 `}`");
            },
            VfsRuleError::Backslash { field, path } => {
                push_str_chars(&mut out, field.as_str());
                push_str_chars(&mut out, " 路径 `");
                push_str_chars(&mut out, path.as_str());
                push_str_chars(&mut out, "` 包含非法分隔符 `\\`, 请使用 `/`");
            },
            VfsRuleError::EmptyPath { field } => {
                push_str_chars(&mut out, field.as_str());
                push_str_chars(&mut out, " 路径不能为空");
            },
            VfsRuleError::TooManyRecursive { field, path, count } => {
                push_str_chars(&mut out, field.as_str());
                push_str_chars(&mut out, " 路径 `");
                push_str_chars(&mut out, path.as_str());
                push_str_chars(&mut out, "` 包含 ");
                push_decimal(&mut out, *count);
                push_str_chars(&mut out, " 个 `**`, 最多允许一个");
            },
            VfsRuleError::TooManyStars { field, path, index, segment, count } => {
                push_str_chars(&mut out, field.as_str());
                push_str_chars(&mut out, " 路径 `");
                push_str_chars(&mut out, path.as_str());
                push_str_chars(&mut out, "` 第 ");
                push_decimal(&mut out, *index);
                push_str_chars(&mut out, " 段 `");
                push_str_chars(&mut out, segment.as_str());
                push_str_chars(&mut out, "` 包含 ");
                push_decimal(&mut out, *count);
                push_str_chars(&mut out, " 个 `*`, 只允许 `*.ext`, `name.*`, `*.*` 等写法");
            },
            VfsRuleError::DirWildcard { path } => {
                push_str_chars(&mut out, "create_dirs 路径 `");
                push_str_chars(&mut out, path.as_str());
                push_str_chars(&mut out, "` 包含非法通配符 `*`, 目录路径不支持 glob");
            },
            VfsRuleError::UnknownMode { mode } => {
                push_str_chars(&mut out, "非法的 VfsMode: `");
                push_str_chars(&mut out, mode.as_str());
                push_str_chars(&mut out, "`, 期望 `fallback` 或 `force`");
            },
            VfsRuleError::CaptureMismatch { source, source_count, target, target_count } => {
                push_str_chars(&mut out, "VFS 规则 capture 数量不匹配:\nsource: `");
                push_str_chars(&mut out, source.as_str());
                push_str_chars(&mut out, "` (");
                push_decimal(&mut out, *source_count);
                push_str_chars(&mut out, " captures)\ntarget: `");
                push_str_chars(&mut out, target.as_str());
                push_str_chars(&mut out, "` (");
                push_decimal(&mut out, *target_count);
                push_str_chars(&mut out, " captures)\nsource 和 target 的 `*` / `**` 捕获数量必须完全一致");
            },
        }
        string_from_chars(out.as_slice())
    }
}

} // verus!
