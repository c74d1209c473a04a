//! Hook lists: the hooks a user forces on or off, and the featured hooks that
//! remain for each feature.
use vstd::prelude::*;
use crate::text::{chars_of, string_views};
use crate::vfs_rules::chars_eq;
use crate::vfs::has_prefix;

verus! {

/// The hooks that a user enables and disables by name.
pub struct UserHookLists {
    pub enable: Vec<String>,
    pub disable: Vec<String>,
}

impl Default for UserHookLists {
    fn default() -> (r: Self)
        ensures
            r.enable@.len() == 0,
            r.disable@.len() == 0,
    {
        UserHookLists { enable: Vec::new(), disable: Vec::new() }
    }
}

/// Why a user's hook lists were refused.
#[derive(Clone, Copy, Debug, PartialEq, Eq, Structural)]
pub enum HookListError {
    /// Entry `index` of the enable list repeats an earlier entry.
    DuplicateEnable { index: usize },
    /// Entry `index` of the disable list repeats an earlier entry or an
    /// enabled hook.
    DuplicateDisable { index: usize },
}

/// `name` occurs among `names`.
pub open spec fn listed(names: Seq<Seq<char>>, name: Seq<char>) -> bool {
    exists|k: int| 0 <= k < names.len() && #[trigger] names[k] == name
}

/// The index of the first entry, from `i` on, that repeats an earlier entry of
/// its list (or of `before`, the list checked first).
pub open spec fn first_repeat(before: Seq<Seq<char>>, names: Seq<Seq<char>>, i: int) -> Option<int>
    decreases names.len() - i,
{
    if i < 0 || i >= names.len() {
        None
    } else if listed(before + names.take(i), names[i]) {
        Some(i)
    } else {
        first_repeat(before, names, i + 1)
    }
}

/// What checking the user's lists gives: the first repeated enable entry, else
/// the first disable entry that repeats an enable or earlier disable entry.
pub open spec fn user_lists_check(enable: Seq<Seq<char>>, disable: Seq<Seq<char>>) -> Result<(), HookListError> {
    match first_repeat(seq![], enable, 0) {
        Some(i) => Err(HookListError::DuplicateEnable { index: i as usize }),
        None => match first_repeat(enable, disable, 0) {
            Some(j) => Err(HookListError::DuplicateDisable { index: j as usize }),
            None => Ok(()),
        },
    }
}

fn listed_exec(names: &[Vec<char>], n: usize, name: &[char]) -> (r: bool)
    requires
        n <= names@.len(),
    ensures
        r == listed(names@.take(n as int).map_values(|v: Vec<char>| v@), name@),
{
    let ghost ns = names@.take(n as int).map_values(|v: Vec<char>| v@);
    let mut k: usize = 0;
    while k < n
        invariant
            k <= n <= names@.len(),
            ns == names@.take(n as int).map_values(|v: Vec<char>| v@),
            forall|j: int| 0 <= j < k ==> #[trigger] ns[j] != name@,
        decreases n - k,
    {
        assert(ns[k as int] == names@[k as int]@);
        if chars_eq(&names[k], name) {
            return true;
        }
        k = k + 1;
    }
    false
}

fn to_chars_list(v: &[String]) -> (r: Vec<Vec<char>>)
    ensures
        r@.map_values(|x: Vec<char>| x@) == string_views(v@),
{
    let mut out: Vec<Vec<char>> = Vec::new();
    let mut i: usize = 0;
    while i < v.len()
        invariant
            i <= v@.len(),
            out@.map_values(|x: Vec<char>| x@) == string_views(v@).take(i as int),
        decreases v@.len() - i,
    {
        let c = chars_of(v[i].as_str());
        let ghost before = out@.map_values(|x: Vec<char>| x@);
        out.push(c);
        assert(out@.map_values(|x: Vec<char>| x@) == before.push(v@[i as int]@));
        i = i + 1;
        assert(string_views(v@).take(i as int) == string_views(v@).take(i - 1).push(
            v@[i - 1]@,
        ));
    }
    assert(string_views(v@).take(i as int) == string_views(v@));
    out
}

/// Checks that no hook is named twice across the enable and disable lists.
pub fn check_user_lists(lists: &UserHookLists) -> (r: Result<(), HookListError>)
    ensures
        r == user_lists_check(string_views(lists.enable@), string_views(lists.disable@)),
{
    let en = to_chars_list(&lists.enable);
    let dis = to_chars_list(&lists.disable);
    let ghost e = string_views(lists.enable@);
    let ghost d = string_views(lists.disable@);
    let mut i: usize = 0;
    while i < en.len()
        invariant
            i <= en@.len(),
            en@.map_values(|x: Vec<char>| x@) == e,
            e == string_views(lists.enable@),
            d == string_views(lists.disable@),
            first_repeat(seq![], e, 0) == first_repeat(seq![], e, i as int),
        decreases en@.len() - i,
    {
        let hit = listed_exec(&en, i, &en[i]);
        assert(en@[i as int]@ == e[i as int]);
        assert(en@.take(i as int).map_values(|x: Vec<char>| x@) == Seq::<Seq<char>>::empty() + e.take(i as int));
        if hit {
            return Err(HookListError::DuplicateEnable { index: i });
        }
        i = i + 1;
    }
    let mut all: Vec<Vec<char>> = en;
    let mut j: usize = 0;
    assert(all@.take(all@.len() as int) == all@);
    while j < dis.len()
        invariant
            j <= dis@.len(),
            dis@.map_values(|x: Vec<char>| x@) == d,
            e == string_views(lists.enable@),
            d == string_views(lists.disable@),
            all@.len() == e.len() + j,
            all@.map_values(|x: Vec<char>| x@) == e + d.take(j as int),
            first_repeat(e, d, 0) == first_repeat(e, d, j as int),
            first_repeat(seq![], e, 0) is None,
        decreases dis@.len() - j,
    {
        let hit = listed_exec(&all, all.len(), &dis[j]);
        assert(dis@[j as int]@ == d[j as int]);
        assert(all@.take(all@.len() as int) == all@);
        if hit {
            return Err(HookListError::DuplicateDisable { index: j });
        }
        let item = chars_of_vec(&dis[j]);
        let ghost before = all@.map_values(|x: Vec<char>| x@);
        all.push(item);
        assert(all@.map_values(|x: Vec<char>| x@) == before.push(d[j as int]));
        assert(d.take(j + 1) == d.take(j as int).push(d[j as int]));
        j = j + 1;
    }
    Ok(())
}

fn chars_of_vec(v: &Vec<char>) -> (r: Vec<char>)
    ensures
        r@ == v@,
{
    let mut r: Vec<char> = Vec::new();
    let mut i: usize = 0;
    while i < v.len()
        invariant
            i <= v@.len(),
            r@ == v@.take(i as int),
        decreases v@.len() - i,
    {
        r.push(v[i]);
        i = i + 1;
        assert(r@ == v@.take(i as int));
    }
    assert(v@.take(i as int) == v@);
    r
}

/// The hooks of `hooks` that the user neither enables nor disables, in order.
pub open spec fn unforced(hooks: Seq<Seq<char>>, forced: Seq<Seq<char>>) -> Seq<Seq<char>> {
    hooks.filter(not_forced(forced))
}

/// The hooks that the user does not name.
pub open spec fn not_forced(forced: Seq<Seq<char>>) -> spec_fn(Seq<char>) -> bool {
    |h: Seq<char>| !listed(forced, h)
}

/// The featured hooks that remain once the user's choices are taken out.
pub fn filter_featured(hooks: &[String], lists: &UserHookLists) -> (r: Vec<String>)
    ensures
        string_views(r@) == unforced(
            string_views(hooks@),
            string_views(lists.enable@) + string_views(lists.disable@),
        ),
{
    let en = to_chars_list(&lists.enable);
    let dis = to_chars_list(&lists.disable);
    let ghost forced = string_views(lists.enable@) + string_views(lists.disable@);
    let ghost pred = not_forced(forced);
    let mut out: Vec<String> = Vec::new();
    let mut i: usize = 0;
    assert(string_views(hooks@).take(0).filter(pred) == Seq::<Seq<char>>::empty());
    while i < hooks.len()
        invariant
            i <= hooks@.len(),
            forced == string_views(lists.enable@) + string_views(lists.disable@),
            en@.map_values(|x: Vec<char>| x@) == string_views(lists.enable@),
            dis@.map_values(|x: Vec<char>| x@) == string_views(lists.disable@),
            pred == not_forced(forced),
            string_views(out@) == string_views(hooks@).take(i as int).filter(pred),
        decreases hooks@.len() - i,
    {
        let name = chars_of(hooks[i].as_str());
        let in_en = listed_exec(&en, en.len(), &name);
        let in_dis = listed_exec(&dis, dis.len(), &name);
        assert(en@.take(en@.len() as int) == en@);
        assert(dis@.take(dis@.len() as int) == dis@);
        proof {
            let a = string_views(lists.enable@);
            let b = string_views(lists.disable@);
            if listed(forced, name@) {
                let k = choose|k: int| 0 <= k < forced.len() && #[trigger] forced[k] == name@;
                if k < a.len() {
                    assert(a[k] == name@);
                } else {
                    assert(b[k - a.len()] == name@);
                }
            }
            if listed(a, name@) {
                let k = choose|k: int| 0 <= k < a.len() && #[trigger] a[k] == name@;
                assert(forced[k] == name@);
            }
            if listed(b, name@) {
                let k = choose|k: int| 0 <= k < b.len() && #[trigger] b[k] == name@;
                assert(forced[a.len() + k] == name@);
            }
        }
        let ghost before = string_views(out@);
        let ghost sv = string_views(hooks@);
        assert(sv.take(i + 1) == sv.take(i as int).push(sv[i as int]));
        proof {
            sv.take(i as int).lemma_filter_push(sv[i as int], pred);
        }
        if !in_en && !in_dis {
            out.push(hooks[i].clone());
            assert(string_views(out@) == before.push(hooks@[i as int]@));
        }
        i = i + 1;
    }
    assert(string_views(hooks@).take(i as int) == string_views(hooks@));
    out
}

proof fn lemma_first_repeat_none(before: Seq<Seq<char>>, names: Seq<Seq<char>>, i: int)
    requires
        0 <= i <= names.len(),
        first_repeat(before, names, i) is None,
    ensures
        forall|j: int| i <= j < names.len() ==> !listed(before + names.take(j), #[trigger] names[j]),
    decreases names.len() - i,
{
    if i < names.len() {
        lemma_first_repeat_none(before, names, i + 1);
    }
}

/// Accepted user lists name every hook once: no hook is enabled twice,
/// disabled twice, or both enabled and disabled.
pub proof fn law_user_lists_distinct(enable: Seq<Seq<char>>, disable: Seq<Seq<char>>)
    requires
        user_lists_check(enable, disable) is Ok,
    ensures
        (enable + disable).no_duplicates(),
{
    lemma_first_repeat_none(seq![], enable, 0);
    lemma_first_repeat_none(enable, disable, 0);
    let all = enable + disable;
    assert forall|i: int, j: int| 0 <= i < all.len() && 0 <= j < all.len() && i != j implies all[i] != all[j] by {
        let (a, b) = if i < j { (i, j) } else { (j, i) };
        if b < enable.len() {
            let pre = Seq::<Seq<char>>::empty() + enable.take(b);
            assert(pre[a] == enable[a]);
            assert(!listed(pre, enable[b]));
        } else {
            let k = b - enable.len();
            let pre = enable + disable.take(k);
            assert(all[b] == disable[k]);
            assert(pre[a] == all[a]);
            assert(!listed(pre, disable[k]));
        }
    }
}

/// The featured hooks that remain are exactly those of the list that the user
/// neither enables nor disables.
pub proof fn law_unforced_exact(hooks: Seq<Seq<char>>, forced: Seq<Seq<char>>)
    ensures
        forall|h: Seq<char>| #[trigger] unforced(hooks, forced).contains(h) <==> hooks.contains(h)
            && !listed(forced, h),
{
    let pred = not_forced(forced);
    assert forall|h: Seq<char>| #[trigger] unforced(hooks, forced).contains(h) <==> hooks.contains(h) && !listed(forced, h) by {
        if hooks.contains(h) && !listed(forced, h) {
            let t = choose|t: int| 0 <= t < hooks.len() && #[trigger] hooks[t] == h;
            hooks.lemma_filter_contains(pred, t);
        }
        if unforced(hooks, forced).contains(h) {
            hooks.lemma_filter_contains_rev(pred, h);
            let t = choose|t: int| 0 <= t < hooks.filter(pred).len() && #[trigger] hooks.filter(pred)[t] == h;
            hooks.lemma_filter_pred(pred, t);
        }
    }
}

/// The snake_case form of a name, as `convert_case` makes it.
pub uninterp spec fn snake_cased(s: Seq<char>) -> Seq<char>;

/// `convert_case::Casing::to_case` with `Case::Snake`: the claim is only that
/// the result is a function of the name.
#[verifier::external_body]
pub(crate) fn snake_case(s: &str) -> (r: String)
    ensures
        r@ == snake_cased(s@),
{
    convert_case::Casing::to_case(&s, convert_case::Case::Snake)
}

/// The Unicode lower-case form of a string, as `str::to_lowercase` makes it.
pub uninterp spec fn unicode_lower(s: Seq<char>) -> Seq<char>;

/// `str::to_lowercase`: the claim is only that the result is a function of the
/// string.
#[verifier::external_body]
pub(crate) fn to_lowercase(s: &str) -> (r: String)
    ensures
        r@ == unicode_lower(s@),
{
    s.to_lowercase()
}

/// The value that the first entry of `map` with key `k` gives.
pub open spec fn lookup(map: Seq<(Seq<char>, Seq<char>)>, k: Seq<char>) -> Option<Seq<char>>
    decreases map.len(),
{
    if map.len() == 0 {
        None
    } else if map[0].0 == k {
        Some(map[0].1)
    } else {
        lookup(map.drop_first(), k)
    }
}

/// The views of string pairs.
pub open spec fn pair_views(v: Seq<(String, String)>) -> Seq<(Seq<char>, Seq<char>)> {
    v.map_values(|p: (String, String)| (p.0@, p.1@))
}

/// Whether hooking `name` through the import table can work: where the hook's
/// library is known (by the snake_case name), the executable must import that
/// library; and it must import the function itself.  Names are compared in
/// lower case.
pub open spec fn import_compatible(
    name: Seq<char>,
    dll_map: Seq<(Seq<char>, Seq<char>)>,
    fns: Seq<Seq<char>>,
    dlls: Seq<Seq<char>>,
) -> bool {
    match lookup(dll_map, snake_cased(name)) {
        Some(dll) => listed(dlls, unicode_lower(dll)) && listed(fns, unicode_lower(name)),
        None => listed(fns, unicode_lower(name)),
    }
}

fn listed_strings(names: &[String], name: &str) -> (r: bool)
    ensures
        r == listed(string_views(names@), name@),
{
    let target = chars_of(name);
    let mut k: usize = 0;
    while k < names.len()
        invariant
            k <= names@.len(),
            target@ == name@,
            forall|j: int| 0 <= j < k ==> #[trigger] names@[j]@ != name@,
        decreases names@.len() - k,
    {
        let c = chars_of(names[k].as_str());
        if chars_eq(&c, &target) {
            assert(string_views(names@)[k as int] == name@);
            return true;
        }
        k = k + 1;
    }
    assert forall|j: int| 0 <= j < string_views(names@).len() implies string_views(names@)[j] != name@ by {
        assert(string_views(names@)[j] == names@[j]@);
    }
    false
}

fn lookup_exec(map: &[(String, String)], key: &str) -> (r: Option<String>)
    ensures
        match lookup(pair_views(map@), key@) {
            Some(v) => r matches Some(s) && s@ == v,
            None => r is None,
        },
{
    let target = chars_of(key);
    let mut k: usize = 0;
    assert(pair_views(map@).skip(0) == pair_views(map@));
    while k < map.len()
        invariant
            k <= map@.len(),
            target@ == key@,
            lookup(pair_views(map@), key@) == lookup(pair_views(map@).skip(k as int), key@),
        decreases map@.len() - k,
    {
        let ghost rest = pair_views(map@).skip(k as int);
        assert(rest[0] == (map@[k as int].0@, map@[k as int].1@));
        assert(rest.drop_first() == pair_views(map@).skip(k + 1));
        let c = chars_of(map[k].0.as_str());
        if chars_eq(&c, &target) {
            return Some(map[k].1.clone());
        }
        k = k + 1;
    }
    None
}

/// Whether hooking `name` through the import table can work, given the
/// libraries of known hooks and the executable's imported functions and
/// libraries (in lower case).
pub fn is_import_compatible(
    name: &str,
    dll_map: &[(String, String)],
    imported_fns: &[String],
    imported_dlls: &[String],
) -> (r: bool)
    ensures
        r == import_compatible(name@, pair_views(dll_map@), string_views(imported_fns@), string_views(imported_dlls@)),
{
    let key = snake_case(name);
    let lower_name = to_lowercase(name);
    match lookup_exec(dll_map, key.as_str()) {
        Some(dll) => {
            let lower_dll = to_lowercase(dll.as_str());
            if !listed_strings(imported_dlls, lower_dll.as_str()) {
                return false;
            }
            listed_strings(imported_fns, lower_name.as_str())
        },
        None => listed_strings(imported_fns, lower_name.as_str()),
    }
}

/// The functions (by name, not by ordinal) and libraries that an executable
/// imports, in lower case, from its (function, library) import list.
pub open spec fn imported_fns(imports: Seq<(Seq<char>, Seq<char>)>) -> Seq<Seq<char>>
    decreases imports.len(),
{
    if imports.len() == 0 {
        seq![]
    } else {
        let rest = imported_fns(imports.drop_last());
        if has_prefix(imports.last().0, "ORDINAL "@) {
            rest
        } else {
            rest.push(unicode_lower(imports.last().0))
        }
    }
}

pub open spec fn imported_dlls(imports: Seq<(Seq<char>, Seq<char>)>) -> Seq<Seq<char>> {
    imports.map_values(|p: (Seq<char>, Seq<char>)| unicode_lower(p.1))
}

/// The lower-case names of the functions and libraries that an executable
/// imports; functions imported by ordinal only are left out.
pub fn import_sets(imports: &[(String, String)]) -> (r: (Vec<String>, Vec<String>))
    ensures
        string_views(r.0@) == imported_fns(pair_views(imports@)),
        string_views(r.1@) == imported_dlls(pair_views(imports@)),
{
    let mut fns: Vec<String> = Vec::new();
    let mut dlls: Vec<String> = Vec::new();
    let mut i: usize = 0;
    let prefix = chars_of("ORDINAL ");
    while i < imports.len()
        invariant
            i <= imports@.len(),
            prefix@ == "ORDINAL "@,
            string_views(fns@) == imported_fns(pair_views(imports@).take(i as int)),
            string_views(dlls@) == imported_dlls(pair_views(imports@).take(i as int)),
        decreases imports@.len() - i,
    {
        let ghost pv = pair_views(imports@);
        assert(pv.take(i + 1).drop_last() == pv.take(i as int));
        assert(pv.take(i + 1).last() == (imports@[i as int].0@, imports@[i as int].1@));
        let name = chars_of(imports[i].0.as_str());
        let by_ordinal = crate::vfs::has_prefix_exec(&name, &prefix);
        let ghost f0 = string_views(fns@);
        if !by_ordinal {
            let l = to_lowercase(imports[i].0.as_str());
            fns.push(l);
            assert(string_views(fns@) == f0.push(unicode_lower(imports@[i as int].0@)));
        }
        let ghost d0 = string_views(dlls@);
        let d = to_lowercase(imports[i].1.as_str());
        dlls.push(d);
        assert(string_views(dlls@) == d0.push(unicode_lower(imports@[i as int].1@)));
        assert(imported_dlls(pv.take(i + 1)) == imported_dlls(pv.take(i as int)).push(unicode_lower(imports@[i as int].1@)));
        i = i + 1;
    }
    assert(pair_views(imports@).take(i as int) == pair_views(imports@));
    (fns, dlls)
}

/// The names that can be hooked through the import table, and the others,
/// each in order.
pub fn split_by_compat(
    names: &[String],
    dll_map: &[(String, String)],
    imported_fns: &[String],
    imported_dlls: &[String],
) -> (r: (Vec<String>, Vec<String>))
    ensures
        string_views(r.0@) == string_views(names@).filter(|n: Seq<char>| import_compatible(n, pair_views(dll_map@), string_views(imported_fns@), string_views(imported_dlls@))),
        string_views(r.1@) == string_views(names@).filter(|n: Seq<char>| !import_compatible(n, pair_views(dll_map@), string_views(imported_fns@), string_views(imported_dlls@))),
{
    let ghost yes = |n: Seq<char>| import_compatible(n, pair_views(dll_map@), string_views(imported_fns@), string_views(imported_dlls@));
    let ghost no = |n: Seq<char>| !import_compatible(n, pair_views(dll_map@), string_views(imported_fns@), string_views(imported_dlls@));
    let mut a: Vec<String> = Vec::new();
    let mut b: Vec<String> = Vec::new();
    let mut i: usize = 0;
    assert(string_views(names@).take(0).filter(yes) == Seq::<Seq<char>>::empty());
    assert(string_views(names@).take(0).filter(no) == Seq::<Seq<char>>::empty());
    while i < names.len()
        invariant
            i <= names@.len(),
            yes == (|n: Seq<char>| import_compatible(n, pair_views(dll_map@), string_views(imported_fns@), string_views(imported_dlls@))),
            no == (|n: Seq<char>| !import_compatible(n, pair_views(dll_map@), string_views(imported_fns@), string_views(imported_dlls@))),
            string_views(a@) == string_views(names@).take(i as int).filter(yes),
            string_views(b@) == string_views(names@).take(i as int).filter(no),
        decreases names@.len() - i,
    {
        let ghost sv = string_views(names@);
        assert(sv.take(i + 1) == sv.take(i as int).push(sv[i as int]));
        proof {
            sv.take(i as int).lemma_filter_push(sv[i as int], yes);
            sv.take(i as int).lemma_filter_push(sv[i as int], no);
        }
        let ghost a0 = string_views(a@);
        let ghost b0 = string_views(b@);
        if is_import_compatible(names[i].as_str(), dll_map, imported_fns, imported_dlls) {
            a.push(names[i].clone());
            assert(string_views(a@) == a0.push(names@[i as int]@));
        } else {
            b.push(names[i].clone());
            assert(string_views(b@) == b0.push(names@[i as int]@));
        }
        i = i + 1;
    }
    assert(string_views(names@).take(i as int) == string_views(names@));
    (a, b)
}

/// What is known of the executable's imports: the library of each known hook
/// (by snake_case name), and the lower-case names of the imported functions
/// and libraries.
pub struct ImportInfo {
    pub dll_map: Vec<(String, String)>,
    pub fns: Vec<String>,
    pub dlls: Vec<String>,
}

/// A group of hooks switched on and off together: under a `cfg` condition
/// (none for the user's own list), and only without import-table hooking
/// where `without_iat` holds.
pub struct HookBlock {
    pub cfg: Option<String>,
    pub without_iat: bool,
    pub hooks: Vec<String>,
}

/// A block as plain values.
pub type BlockModel = (Option<Seq<char>>, bool, Seq<Seq<char>>);

/// The views of blocks.
pub open spec fn block_views(v: Seq<HookBlock>) -> Seq<BlockModel> {
    v.map_values(
        |b: HookBlock|
            (
                match b.cfg {
                    Some(c) => Some(c@),
                    None => None,
                },
                b.without_iat,
                string_views(b.hooks@),
            ),
    )
}

/// The blocks of one featured group: its hooks that the user does not name,
/// split (where the imports are known) into those that import-table hooking
/// can serve and the others; empty blocks are left out.
pub open spec fn group_blocks(
    cfg: Seq<char>,
    hooks: Seq<Seq<char>>,
    forced: Seq<Seq<char>>,
    imports: Option<(Seq<(Seq<char>, Seq<char>)>, Seq<Seq<char>>, Seq<Seq<char>>)>,
) -> Seq<BlockModel> {
    let kept = unforced(hooks, forced);
    if kept.len() == 0 {
        seq![]
    } else {
        match imports {
            None => seq![(Some(cfg), false, kept)],
            Some((m, f, d)) => {
                let yes = kept.filter(|n: Seq<char>| import_compatible(n, m, f, d));
                let no = kept.filter(|n: Seq<char>| !import_compatible(n, m, f, d));
                (if yes.len() > 0 {
                    seq![(Some(cfg), false, yes)]
                } else {
                    seq![]
                }) + (if no.len() > 0 {
                    seq![(Some(cfg), true, no)]
                } else {
                    seq![]
                })
            },
        }
    }
}

/// The blocks of the first `n` featured groups.
pub open spec fn featured_blocks(
    featured: Seq<(Seq<char>, Seq<Seq<char>>)>,
    forced: Seq<Seq<char>>,
    imports: Option<(Seq<(Seq<char>, Seq<char>)>, Seq<Seq<char>>, Seq<Seq<char>>)>,
    n: nat,
) -> Seq<BlockModel>
    decreases n,
{
    if n == 0 {
        seq![]
    } else {
        featured_blocks(featured, forced, imports, (n - 1) as nat) + group_blocks(
            featured[n - 1].0,
            featured[n - 1].1,
            forced,
            imports,
        )
    }
}

/// The views of featured groups.
pub open spec fn featured_views(v: Seq<(String, Vec<String>)>) -> Seq<(Seq<char>, Seq<Seq<char>>)> {
    v.map_values(|g: (String, Vec<String>)| (g.0@, string_views(g.1@)))
}

/// The view of the import information.
pub open spec fn imports_view(i: Option<ImportInfo>) -> Option<(Seq<(Seq<char>, Seq<char>)>, Seq<Seq<char>>, Seq<Seq<char>>)> {
    match i {
        Some(info) => Some((pair_views(info.dll_map@), string_views(info.fns@), string_views(info.dlls@))),
        None => None,
    }
}

/// The hook blocks: the user's enabled hooks first (unconditionally, where
/// there are any), then the blocks of each featured group in order.
pub fn plan_hook_blocks(
    lists: &UserHookLists,
    featured: &[(String, Vec<String>)],
    imports: &Option<ImportInfo>,
) -> (r: Vec<HookBlock>)
    ensures
        block_views(r@) == (if lists.enable@.len() > 0 {
            seq![(None::<Seq<char>>, false, string_views(lists.enable@))]
        } else {
            seq![]
        }) + featured_blocks(
            featured_views(featured@),
            string_views(lists.enable@) + string_views(lists.disable@),
            imports_view(*imports),
            featured@.len(),
        ),
{
    let ghost forced = string_views(lists.enable@) + string_views(lists.disable@);
    let ghost iv = imports_view(*imports);
    let ghost fv = featured_views(featured@);
    let mut out: Vec<HookBlock> = Vec::new();
    if lists.enable.len() > 0 {
        out.push(HookBlock { cfg: None, without_iat: false, hooks: lists.enable.clone() });
        assert(block_views(out@) == seq![(None::<Seq<char>>, false, string_views(lists.enable@))]);
    } else {
        assert(block_views(out@) == Seq::<BlockModel>::empty());
    }
    let ghost head = block_views(out@);
    let mut g: usize = 0;
    while g < featured.len()
        invariant
            g <= featured@.len(),
            forced == string_views(lists.enable@) + string_views(lists.disable@),
            iv == imports_view(*imports),
            fv == featured_views(featured@),
            block_views(out@) == head + featured_blocks(fv, forced, iv, g as nat),
        decreases featured@.len() - g,
    {
        let (cfg, hooks) = (&featured[g].0, &featured[g].1);
        assert(fv[g as int] == (cfg@, string_views(hooks@)));
        let kept = filter_featured(hooks, lists);
        let ghost before = block_views(out@);
        if kept.len() > 0 {
            match imports {
                None => {
                    out.push(HookBlock { cfg: Some(cfg.clone()), without_iat: false, hooks: kept });
                    assert(block_views(out@) == before + group_blocks(fv[g as int].0, fv[g as int].1, forced, iv));
                },
                Some(info) => {
                    let (yes, no) = split_by_compat(&kept, &info.dll_map, &info.fns, &info.dlls);
                    let ghost mid = before;
                    if yes.len() > 0 {
                        out.push(HookBlock { cfg: Some(cfg.clone()), without_iat: false, hooks: yes });
                    }
                    let ghost mid2 = block_views(out@);
                    if no.len() > 0 {
                        out.push(HookBlock { cfg: Some(cfg.clone()), without_iat: true, hooks: no });
                    }
                    assert(block_views(out@) == before + group_blocks(fv[g as int].0, fv[g as int].1, forced, iv));
                },
            }
        } else {
            assert(group_blocks(fv[g as int].0, fv[g as int].1, forced, iv) == Seq::<BlockModel>::empty());
            assert(block_views(out@) == before + group_blocks(fv[g as int].0, fv[g as int].1, forced, iv));
        }
        assert(featured_blocks(fv, forced, iv, (g + 1) as nat) == featured_blocks(fv, forced, iv, g as nat) + group_blocks(fv[g as int].0, fv[g as int].1, forced, iv));
        g = g + 1;
    }
    out
}

} // verus!
