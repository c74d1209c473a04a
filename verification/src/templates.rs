//! The files that a template is expanded over: which files of a directory take
//! part, and the names each one gives the template.
use vstd::prelude::*;
use crate::hooks::{lookup, pair_views};
use crate::pe::{file_stem, library_name};
use crate::text::{chars_of, last_index, lemma_last_index, string_views};
use crate::vfs_rules::chars_eq;

verus! {

/// The extension of a file name: what follows its last `.`, where that `.`
/// is not its first character.
pub open spec fn file_ext(name: Seq<char>) -> Option<Seq<char>> {
    match last_index(name, '.') {
        Some(i) => if i == 0 {
            None
        } else {
            Some(name.skip(i + 1))
        },
        None => None,
    }
}

/// Whether file `name` takes part in an expansion: in Rust mode only `.rs`
/// files other than `mod.rs` and `lib.rs`; and never one whose full name is
/// among the excluded names.
pub open spec fn expands(name: Seq<char>, rust_mode: bool, excluded: Seq<Seq<char>>) -> bool {
    &&& rust_mode ==> file_ext(name) == Some("rs"@) && file_stem(name) != "mod"@ && file_stem(name)
        != "lib"@
    &&& !excluded.contains(name)
}

/// The PascalCase form of a name, as `convert_case` makes it.
pub uninterp spec fn pascal_cased(s: Seq<char>) -> Seq<char>;

/// `convert_case::Casing::to_case` with `Case::Pascal`: the claim is only that
/// the result is a function of the name.
#[verifier::external_body]
fn pascal_case(s: &str) -> (r: String)
    ensures
        r@ == pascal_cased(s@),
{
    convert_case::Casing::to_case(&s, convert_case::Case::Pascal)
}

/// A file that a template is expanded for: its full name, its stem (the name
/// the template receives as identifier and as string), the stem in
/// PascalCase, and the expression that the JSON configuration gives for the
/// file, if any.
pub struct ExpandedFile {
    pub name: String,
    pub stem: String,
    pub pascal: String,
    pub expr: Option<String>,
}

/// `f` is what file `name` gives the template.
pub open spec fn expanded_as(f: ExpandedFile, name: Seq<char>, exprs: Seq<(Seq<char>, Seq<char>)>) -> bool {
    &&& f.name@ == name
    &&& f.stem@ == file_stem(name)
    &&& f.pascal@ == pascal_cased(file_stem(name))
    &&& match lookup(exprs, name) {
        Some(e) => f.expr matches Some(x) && x@ == e,
        None => f.expr is None,
    }
}

/// The names of `names` that take part in an expansion, in order.
pub open spec fn expanded_names(names: Seq<Seq<char>>, rust_mode: bool, excluded: Seq<Seq<char>>) -> Seq<
    Seq<char>,
>
    decreases names.len(),
{
    if names.len() == 0 {
        seq![]
    } else {
        let rest = expanded_names(names.drop_last(), rust_mode, excluded);
        if expands(names.last(), rust_mode, excluded) {
            rest.push(names.last())
        } else {
            rest
        }
    }
}

fn is_rs_file(name: &Vec<char>) -> (r: bool)
    ensures
        r == (file_ext(name@) == Some("rs"@)),
{
    proof {
        reveal_strlit("rs");
        lemma_last_index(name@, '.');
    }
    let n = name.len();
    if n >= 4 && name[n - 3] == '.' && name[n - 2] == 'r' && name[n - 1] == 's' {
        proof {
            let k = last_index(name@, '.')->0;
            assert(k == n - 3);
            assert(name@.skip(k + 1) == "rs"@);
        }
        true
    } else {
        proof {
            match last_index(name@, '.') {
                Some(k) => if k != 0 {
                    if name@.skip(k + 1) == "rs"@ {
                        assert(name@.skip(k + 1).len() == 2);
                        assert(name@[n - 2] == name@.skip(k + 1)[0]);
                        assert(name@[n - 1] == name@.skip(k + 1)[1]);
                    }
                },
                None => {},
            }
        }
        false
    }
}

/// Whether file `name` has extension `ext` (by the rule of `file_ext`).
pub fn has_extension(name: &str, ext: &str) -> (r: bool)
    ensures
        r == (file_ext(name@) == Some(ext@)),
{
    let chars = chars_of(name);
    proof {
        lemma_last_index(chars@, '.');
    }
    let mut i: usize = chars.len();
    while i > 0 && chars[i - 1] != '.'
        invariant
            i <= chars@.len(),
            forall|j: int| i <= j < chars@.len() ==> chars@[j] != '.',
        decreases i,
    {
        i = i - 1;
    }
    if i <= 1 {
        proof {
            if i == 1 {
                assert(last_index(chars@, '.') == Some(0int));
            } else {
                assert(last_index(chars@, '.') is None);
            }
        }
        return false;
    }
    proof {
        assert(last_index(chars@, '.') == Some(i - 1));
    }
    let mut tail: Vec<char> = Vec::new();
    let mut k: usize = i;
    while k < chars.len()
        invariant
            i <= k <= chars@.len(),
            tail@ == chars@.subrange(i as int, k as int),
        decreases chars@.len() - k,
    {
        tail.push(chars[k]);
        k = k + 1;
        assert(tail@ == chars@.subrange(i as int, k as int));
    }
    assert(tail@ == chars@.skip(i as int));
    let ec = chars_of(ext);
    chars_eq(tail.as_slice(), ec.as_slice())
}

fn str_is(s: &String, lit: &str) -> (r: bool)
    ensures
        r == (s@ == lit@),
{
    let a = chars_of(s.as_str());
    let b = chars_of(lit);
    chars_eq(a.as_slice(), b.as_slice())
}

fn contains_string(v: &Vec<String>, s: &String) -> (r: bool)
    ensures
        r == string_views(v@).contains(s@),
{
    let sc = chars_of(s.as_str());
    let mut i: usize = 0;
    while i < v.len()
        invariant
            i <= v@.len(),
            sc@ == s@,
            forall|j: int| 0 <= j < i ==> v@[j]@ != s@,
        decreases v@.len() - i,
    {
        let vc = chars_of(v[i].as_str());
        if chars_eq(vc.as_slice(), sc.as_slice()) {
            assert(string_views(v@)[i as int] == s@);
            return true;
        }
        i = i + 1;
    }
    proof {
        if string_views(v@).contains(s@) {
            let j = choose|j: int| 0 <= j < string_views(v@).len() && string_views(v@)[j] == s@;
            assert(v@[j]@ == s@);
        }
    }
    false
}

fn find_expr(exprs: &[(String, String)], name: &String) -> (r: Option<String>)
    ensures
        match lookup(pair_views(exprs@), name@) {
            Some(e) => r matches Some(x) && x@ == e,
            None => r is None,
        },
{
    let nc = chars_of(name.as_str());
    let mut i: usize = 0;
    assert(pair_views(exprs@).skip(0) == pair_views(exprs@));
    while i < exprs.len()
        invariant
            i <= exprs@.len(),
            nc@ == name@,
            lookup(pair_views(exprs@), name@) == lookup(pair_views(exprs@).skip(i as int), name@),
        decreases exprs@.len() - i,
    {
        let kc = chars_of(exprs[i].0.as_str());
        let ghost rest = pair_views(exprs@).skip(i as int);
        assert(rest.drop_first() == pair_views(exprs@).skip(i + 1));
        if chars_eq(kc.as_slice(), nc.as_slice()) {
            return Some(exprs[i].1.clone());
        }
        i = i + 1;
    }
    None
}

/// The files of a directory (by name, in the order given) that a template is
/// expanded for, with the names each gives it.  `exclude` names files to
/// leave out by their full name; `exprs` pairs file names with an expression
/// for them.
pub fn expanded_files(
    names: &[String],
    rust_mode: bool,
    exclude: &[String],
    exprs: &[(String, String)],
) -> (r: Vec<ExpandedFile>)
    ensures
        ({
            let sel = expanded_names(string_views(names@), rust_mode, string_views(exclude@));
            &&& r@.len() == sel.len()
            &&& forall|i: int| 0 <= i < sel.len() ==> expanded_as(#[trigger] r@[i], sel[i], pair_views(exprs@))
        }),
{
    let ghost excluded = string_views(exclude@);
    let mut excluded_names: Vec<String> = Vec::new();
    let mut k: usize = 0;
    while k < exclude.len()
        invariant
            k <= exclude@.len(),
            string_views(excluded_names@) == excluded.take(k as int),
            excluded == string_views(exclude@),
        decreases exclude@.len() - k,
    {
        let s = exclude[k].clone();
        let ghost before = excluded_names@;
        excluded_names.push(s);
        assert(string_views(excluded_names@) == string_views(before).push(s@));
        assert(excluded.take(k + 1) == excluded.take(k as int).push(excluded[k as int]));
        k = k + 1;
    }
    assert(excluded.take(k as int) == excluded);
    let mut out: Vec<ExpandedFile> = Vec::new();
    let mut i: usize = 0;
    while i < names.len()
        invariant
            i <= names@.len(),
            string_views(excluded_names@) == excluded,
            excluded == string_views(exclude@),
            out@.len() == expanded_names(string_views(names@).take(i as int), rust_mode, excluded).len(),
            forall|j: int|
                0 <= j < out@.len() ==> expanded_as(
                    #[trigger] out@[j],
                    expanded_names(string_views(names@).take(i as int), rust_mode, excluded)[j],
                    pair_views(exprs@),
                ),
        decreases names@.len() - i,
    {
        let name = &names[i];
        let chars = chars_of(name.as_str());
        let stem = library_name(name.as_str());
        let mut take = true;
        if rust_mode {
            let rs = is_rs_file(&chars);
            let is_mod = str_is(&stem, "mod");
            let is_lib = str_is(&stem, "lib");
            take = rs && !is_mod && !is_lib;
        }
        if take && contains_string(&excluded_names, name) {
            take = false;
        }
        let ghost prefix = string_views(names@).take(i as int);
        let ghost next = string_views(names@).take(i + 1);
        assert(next.drop_last() == prefix);
        assert(next.last() == name@);
        assert(take == expands(name@, rust_mode, excluded));
        if take {
            let pascal = pascal_case(stem.as_str());
            let expr = find_expr(exprs, name);
            out.push(ExpandedFile { name: name.clone(), stem, pascal, expr });
        }
        i = i + 1;
    }
    assert(string_views(names@).take(i as int) == string_views(names@));
    out
}

} // verus!
