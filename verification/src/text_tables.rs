//! Text patch tables: a dictionary of context-free entries, and the body
//! texts by their index, split into texts given once and texts given several
//! times; a lookup that prefers the dictionary and picks, among several
//! candidates, the one nearest the text matched last.
use vstd::prelude::*;

verus! {

/// One entry of a text file: its message, and whether it is a name or a
/// dictionary entry (both go into the dictionary).
pub struct TextItem {
    pub message: Option<String>,
    pub is_name: bool,
    pub is_dict: bool,
}

/// Why the text tables were refused.
#[derive(Clone, Copy, Debug, PartialEq, Eq, Structural)]
pub enum TextPatchError {
    /// File `file` holds a different number of entries in the original and in
    /// the translation.
    LengthMismatch { file: usize, original: usize, translated: usize },
    /// Entry `entry` of file `file` gives a dictionary text a second,
    /// different translation.
    DictConflict { file: usize, entry: usize },
}

/// The (text, translation) pair of an entry: where both messages are present
/// and the original one is not empty.
pub open spec fn entry_pair(o: TextItem, t: TextItem) -> Option<(Seq<char>, Seq<char>)> {
    match (o.message, t.message) {
        (Some(a), Some(b)) => if a@.len() > 0 {
            Some((a@, b@))
        } else {
            None
        },
        _ => None,
    }
}

/// The keys of (key, value) pairs.
pub open spec fn pair_keys(p: Seq<(Seq<char>, Seq<char>)>) -> Seq<Seq<char>> {
    p.map_values(|e: (Seq<char>, Seq<char>)| e.0)
}

/// The index of the first `k` in `keys`.
pub open spec fn index_of_key(keys: Seq<Seq<char>>, k: Seq<char>) -> Option<int>
    decreases keys.len(),
{
    if keys.len() == 0 {
        None
    } else {
        match index_of_key(keys.drop_last(), k) {
            Some(j) => Some(j),
            None => if keys.last() == k {
                Some(keys.len() - 1)
            } else {
                None
            },
        }
    }
}

/// The dictionary and the body texts after entry `i` of file `f`: a
/// dictionary entry is added once (a second, different translation is
/// refused); a body entry is appended, its index being its position.
pub open spec fn add_entry(
    st: (Seq<(Seq<char>, Seq<char>)>, Seq<(Seq<char>, Seq<char>)>),
    o: TextItem,
    t: TextItem,
    f: int,
    i: int,
) -> Result<(Seq<(Seq<char>, Seq<char>)>, Seq<(Seq<char>, Seq<char>)>), TextPatchError> {
    match entry_pair(o, t) {
        None => Ok(st),
        Some((a, b)) => if o.is_name || o.is_dict {
            match index_of_key(pair_keys(st.0), a) {
                Some(j) => if st.0[j].1 == b {
                    Ok(st)
                } else {
                    Err(TextPatchError::DictConflict { file: f as usize, entry: i as usize })
                },
                None => Ok((st.0.push((a, b)), st.1)),
            }
        } else {
            Ok((st.0, st.1.push((a, b))))
        },
    }
}

/// The entries of file `f` from `i` on, added one after another.
pub open spec fn add_items_from(
    st: (Seq<(Seq<char>, Seq<char>)>, Seq<(Seq<char>, Seq<char>)>),
    os: Seq<TextItem>,
    ts: Seq<TextItem>,
    f: int,
    i: int,
) -> Result<(Seq<(Seq<char>, Seq<char>)>, Seq<(Seq<char>, Seq<char>)>), TextPatchError>
    decreases os.len() - i,
{
    if i < 0 || i >= os.len() {
        Ok(st)
    } else {
        match add_entry(st, os[i], ts[i], f, i) {
            Ok(st2) => add_items_from(st2, os, ts, f, i + 1),
            Err(e) => Err(e),
        }
    }
}

/// The files from `f` on, read one after another; a file whose original and
/// translation differ in length is refused.
pub open spec fn scan_from(
    st: (Seq<(Seq<char>, Seq<char>)>, Seq<(Seq<char>, Seq<char>)>),
    files: Seq<(Vec<TextItem>, Vec<TextItem>)>,
    f: int,
) -> Result<(Seq<(Seq<char>, Seq<char>)>, Seq<(Seq<char>, Seq<char>)>), TextPatchError>
    decreases files.len() - f,
{
    if f < 0 || f >= files.len() {
        Ok(st)
    } else {
        let (o, t) = files[f];
        if o@.len() != t@.len() {
            Err(
                TextPatchError::LengthMismatch {
                    file: f as usize,
                    original: o@.len() as usize,
                    translated: t@.len() as usize,
                },
            )
        } else {
            match add_items_from(st, o@, t@, f, 0) {
                Ok(st2) => scan_from(st2, files, f + 1),
                Err(e) => Err(e),
            }
        }
    }
}

/// How often `k` is a text of `b`.
pub open spec fn count_key(b: Seq<(Seq<char>, Seq<char>)>, k: Seq<char>) -> nat
    decreases b.len(),
{
    if b.len() == 0 {
        0
    } else {
        count_key(b.drop_last(), k) + if b.last().0 == k {
            1nat
        } else {
            0nat
        }
    }
}

/// The (index, translation) of every body text `k`, in order.
pub open spec fn candidates(b: Seq<(Seq<char>, Seq<char>)>, k: Seq<char>) -> Seq<(usize, Seq<char>)>
    decreases b.len(),
{
    if b.len() == 0 {
        seq![]
    } else {
        let c = candidates(b.drop_last(), k);
        if b.last().0 == k {
            c.push(((b.len() - 1) as usize, b.last().1))
        } else {
            c
        }
    }
}

/// The body texts among the first `n` that are given once, each with its
/// index and translation.
pub open spec fn singles(b: Seq<(Seq<char>, Seq<char>)>, n: nat) -> Seq<(Seq<char>, usize, Seq<char>)>
    decreases n,
{
    if n == 0 {
        seq![]
    } else {
        let s = singles(b, (n - 1) as nat);
        if count_key(b, b[n - 1].0) == 1 {
            s.push((b[n - 1].0, (n - 1) as usize, b[n - 1].1))
        } else {
            s
        }
    }
}

/// The body texts given several times, each once (where it first occurs
/// among the first `n`) with all its candidates.
pub open spec fn multis(b: Seq<(Seq<char>, Seq<char>)>, n: nat) -> Seq<(Seq<char>, Seq<(usize, Seq<char>)>)>
    decreases n,
{
    if n == 0 {
        seq![]
    } else {
        let s = multis(b, (n - 1) as nat);
        let k = b[n - 1].0;
        if count_key(b, k) >= 2 && count_key(b.take(n - 1), k) == 0 {
            s.push((k, candidates(b, k)))
        } else {
            s
        }
    }
}

/// The three tables as plain values.
pub struct TablesModel {
    pub dict: Seq<(Seq<char>, Seq<char>)>,
    pub single: Seq<(Seq<char>, usize, Seq<char>)>,
    pub multi: Seq<(Seq<char>, Seq<(usize, Seq<char>)>)>,
}

/// The tables of a dictionary and of the body texts.
pub open spec fn tables_of(dict: Seq<(Seq<char>, Seq<char>)>, body: Seq<(Seq<char>, Seq<char>)>) -> TablesModel {
    TablesModel { dict, single: singles(body, body.len()), multi: multis(body, body.len()) }
}

/// The text tables: the dictionary, the body texts given once (with their
/// index) and the body texts given several times (with every candidate).
pub struct TextTables {
    pub dict: Vec<(String, String)>,
    pub single: Vec<(String, usize, String)>,
    pub multi: Vec<(String, Vec<(usize, String)>)>,
}

/// The views of string pairs.
pub open spec fn pair_views(v: Seq<(String, String)>) -> Seq<(Seq<char>, Seq<char>)> {
    v.map_values(|p: (String, String)| (p.0@, p.1@))
}

/// The views of candidates.
pub open spec fn cand_views(v: Seq<(usize, String)>) -> Seq<(usize, Seq<char>)> {
    v.map_values(|p: (usize, String)| (p.0, p.1@))
}

/// The tables as plain values.
pub open spec fn tables_view(t: TextTables) -> TablesModel {
    TablesModel {
        dict: pair_views(t.dict@),
        single: t.single@.map_values(|e: (String, usize, String)| (e.0@, e.1, e.2@)),
        multi: t.multi@.map_values(|e: (String, Vec<(usize, String)>)| (e.0@, cand_views(e.1@))),
    }
}

proof fn lemma_index_of_key(keys: Seq<Seq<char>>, k: Seq<char>)
    ensures
        match index_of_key(keys, k) {
            Some(j) => 0 <= j < keys.len() && keys[j] == k && forall|i: int| 0 <= i < j ==> keys[i] != k,
            None => forall|i: int| 0 <= i < keys.len() ==> keys[i] != k,
        },
    decreases keys.len(),
{
    if keys.len() > 0 {
        lemma_index_of_key(keys.drop_last(), k);
        assert forall|i: int| 0 <= i < keys.len() - 1 implies keys[i] == keys.drop_last()[i] by {}
    }
}

proof fn lemma_index_of_key_first(keys: Seq<Seq<char>>, k: Seq<char>, j: int)
    requires
        0 <= j < keys.len(),
        keys[j] == k,
        forall|i: int| 0 <= i < j ==> keys[i] != k,
    ensures
        index_of_key(keys, k) == Some(j),
{
    lemma_index_of_key(keys, k);
}

fn dict_find(d: &Vec<(String, String)>, k: &String) -> (r: Option<usize>)
    ensures
        match r {
            Some(j) => j < d@.len() && index_of_key(pair_keys(pair_views(d@)), k@) == Some(j as int),
            None => index_of_key(pair_keys(pair_views(d@)), k@) is None,
        },
{
    let ghost keys = pair_keys(pair_views(d@));
    proof {
        lemma_index_of_key(keys, k@);
    }
    let mut i: usize = 0;
    while i < d.len()
        invariant
            i <= d@.len(),
            keys == pair_keys(pair_views(d@)),
            forall|j: int| 0 <= j < i ==> keys[j] != k@,
        decreases d@.len() - i,
    {
        assert(keys[i as int] == d@[i as int].0@);
        if d[i].0 == *k {
            proof {
                lemma_index_of_key_first(keys, k@, i as int);
            }
            return Some(i);
        }
        i = i + 1;
    }
    None
}

fn add_entry_exec(
    dict: &mut Vec<(String, String)>,
    body: &mut Vec<(String, String)>,
    o: &TextItem,
    t: &TextItem,
    f: usize,
    i: usize,
) -> (r: Result<(), TextPatchError>)
    ensures
        match add_entry((pair_views(old(dict)@), pair_views(old(body)@)), *o, *t, f as int, i as int) {
            Ok(st) => r is Ok && pair_views(final(dict)@) == st.0 && pair_views(final(body)@) == st.1,
            Err(e) => r == Err::<(), TextPatchError>(e),
        },
{
    let (a, b) = match (&o.message, &t.message) {
        (Some(a), Some(b)) => (a, b),
        _ => return Ok(()),
    };
    if a.as_str().is_empty() {
        return Ok(());
    }
    assert(entry_pair(*o, *t) == Some((a@, b@)));
    if o.is_name || o.is_dict {
        match dict_find(dict, a) {
            Some(j) => {
                assert(pair_views(dict@)[j as int] == (dict@[j as int].0@, dict@[j as int].1@));
                let same = dict[j].1 == *b;
                assert(same == (dict@[j as int].1@ == b@));
                assert(index_of_key(pair_keys(pair_views(dict@)), a@) == Some(j as int));
                if same {
                    Ok(())
                } else {
                    Err(TextPatchError::DictConflict { file: f, entry: i })
                }
            },
            None => {
                let ghost before = pair_views(dict@);
                let a2 = a.clone();
                let b2 = b.clone();
                dict.push((a2, b2));
                assert(pair_views(dict@) == before.push((a@, b@)));
                Ok(())
            },
        }
    } else {
        let ghost before = pair_views(body@);
        let a2 = a.clone();
        let b2 = b.clone();
        body.push((a2, b2));
        assert(pair_views(body@) == before.push((a@, b@)));
        assert(add_entry((pair_views(old(dict)@), before), *o, *t, f as int, i as int) == Ok::<
            (Seq<(Seq<char>, Seq<char>)>, Seq<(Seq<char>, Seq<char>)>),
            TextPatchError,
        >((pair_views(old(dict)@), before.push((a@, b@)))));
        Ok(())
    }
}

fn count_exec(b: &Vec<(String, String)>, k: &String, n: usize) -> (r: usize)
    requires
        n <= b@.len(),
    ensures
        r == count_key(pair_views(b@).take(n as int), k@),
{
    let ghost pv = pair_views(b@);
    let mut c: usize = 0;
    let mut j: usize = 0;
    assert(pv.take(0) == Seq::<(Seq<char>, Seq<char>)>::empty());
    while j < n
        invariant
            j <= n <= b@.len(),
            pv == pair_views(b@),
            c <= j,
            c == count_key(pv.take(j as int), k@),
        decreases n - j,
    {
        assert(pv.take(j + 1).drop_last() == pv.take(j as int));
        assert(pv.take(j + 1).last() == (b@[j as int].0@, b@[j as int].1@));
        if b[j].0 == *k {
            c = c + 1;
        }
        j = j + 1;
    }
    c
}

fn candidates_exec(b: &Vec<(String, String)>, k: &String) -> (r: Vec<(usize, String)>)
    ensures
        cand_views(r@) == candidates(pair_views(b@), k@),
{
    let ghost pv = pair_views(b@);
    let mut out: Vec<(usize, String)> = Vec::new();
    let mut j: usize = 0;
    assert(pv.take(0) == Seq::<(Seq<char>, Seq<char>)>::empty());
    while j < b.len()
        invariant
            j <= b@.len(),
            pv == pair_views(b@),
            cand_views(out@) == candidates(pv.take(j as int), k@),
        decreases b@.len() - j,
    {
        assert(pv.take(j + 1).drop_last() == pv.take(j as int));
        assert(pv.take(j + 1).last() == (b@[j as int].0@, b@[j as int].1@));
        if b[j].0 == *k {
            let ghost before = cand_views(out@);
            out.push((j, b[j].1.clone()));
            assert(cand_views(out@) == before.push((j, b@[j as int].1@)));
        }
        j = j + 1;
    }
    assert(pv.take(j as int) == pv);
    out
}

/// The tables of a dictionary and of the body texts.
pub fn build_tables(dict: Vec<(String, String)>, body: &Vec<(String, String)>) -> (r: TextTables)
    ensures
        tables_view(r) == tables_of(pair_views(dict@), pair_views(body@)),
{
    let ghost pv = pair_views(body@);
    let n = body.len();
    let mut single: Vec<(String, usize, String)> = Vec::new();
    let mut k: usize = 0;
    while k < n
        invariant
            k <= n == body@.len(),
            pv == pair_views(body@),
            single@.map_values(|e: (String, usize, String)| (e.0@, e.1, e.2@)) == singles(pv, k as nat),
        decreases n - k,
    {
        let c = count_exec(body, &body[k].0, n);
        assert(pv.take(n as int) == pv);
        assert(pv[k as int] == (body@[k as int].0@, body@[k as int].1@));
        if c == 1 {
            let ghost before = single@.map_values(|e: (String, usize, String)| (e.0@, e.1, e.2@));
            single.push((body[k].0.clone(), k, body[k].1.clone()));
            assert(single@.map_values(|e: (String, usize, String)| (e.0@, e.1, e.2@)) == before.push(
                (pv[k as int].0, k, pv[k as int].1),
            ));
        }
        k = k + 1;
    }
    let mut multi: Vec<(String, Vec<(usize, String)>)> = Vec::new();
    let mut k: usize = 0;
    while k < n
        invariant
            k <= n == body@.len(),
            pv == pair_views(body@),
            multi@.map_values(|e: (String, Vec<(usize, String)>)| (e.0@, cand_views(e.1@))) == multis(pv, k as nat),
        decreases n - k,
    {
        let c = count_exec(body, &body[k].0, n);
        let before_k = count_exec(body, &body[k].0, k);
        assert(pv.take(n as int) == pv);
        assert(pv[k as int] == (body@[k as int].0@, body@[k as int].1@));
        if c >= 2 && before_k == 0 {
            let ghost before = multi@.map_values(|e: (String, Vec<(usize, String)>)| (e.0@, cand_views(e.1@)));
            let cands = candidates_exec(body, &body[k].0);
            multi.push((body[k].0.clone(), cands));
            assert(multi@.map_values(|e: (String, Vec<(usize, String)>)| (e.0@, cand_views(e.1@))) == before.push(
                (pv[k as int].0, candidates(pv, pv[k as int].0)),
            ));
        }
        k = k + 1;
    }
    TextTables { dict, single, multi }
}

/// The tables of the text files: see `scan_from` and `tables_of`.
pub fn collect_text_tables(files: &[(Vec<TextItem>, Vec<TextItem>)]) -> (r: Result<TextTables, TextPatchError>)
    ensures
        match scan_from((seq![], seq![]), files@, 0) {
            Ok(st) => r matches Ok(t) && tables_view(t) == tables_of(st.0, st.1),
            Err(e) => r matches Err(x) && x == e,
        },
{
    let mut dict: Vec<(String, String)> = Vec::new();
    let mut body: Vec<(String, String)> = Vec::new();
    let ghost init = (Seq::<(Seq<char>, Seq<char>)>::empty(), Seq::<(Seq<char>, Seq<char>)>::empty());
    assert(pair_views(dict@) == init.0 && pair_views(body@) == init.1);
    let mut f: usize = 0;
    while f < files.len()
        invariant
            init == (Seq::<(Seq<char>, Seq<char>)>::empty(), Seq::<(Seq<char>, Seq<char>)>::empty()),
            f <= files@.len(),
            scan_from(init, files@, 0) == scan_from((pair_views(dict@), pair_views(body@)), files@, f as int),
        decreases files@.len() - f,
    {
        let o = &files[f].0;
        let t = &files[f].1;
        if o.len() != t.len() {
            return Err(TextPatchError::LengthMismatch { file: f, original: o.len(), translated: t.len() });
        }
        let mut i: usize = 0;
        while i < o.len()
            invariant
                init == (Seq::<(Seq<char>, Seq<char>)>::empty(), Seq::<(Seq<char>, Seq<char>)>::empty()),
                f < files@.len(),
                *o == files@[f as int].0,
                *t == files@[f as int].1,
                o@.len() == t@.len(),
                i <= o@.len(),
                scan_from(init, files@, 0) == match add_items_from(
                    (pair_views(dict@), pair_views(body@)),
                    o@,
                    t@,
                    f as int,
                    i as int,
                ) {
                    Ok(st2) => scan_from(st2, files@, f + 1),
                    Err(e) => Err(e),
                },
            decreases o@.len() - i,
        {
            match add_entry_exec(&mut dict, &mut body, &o[i], &t[i], f, i) {
                Err(e) => {
                    return Err(e);
                },
                Ok(()) => {},
            }
            i = i + 1;
        }
        f = f + 1;
    }
    Ok(build_tables(dict, &body))
}

/// The distance between two text indices.
pub open spec fn dist(a: usize, b: usize) -> nat {
    if a >= b {
        (a - b) as nat
    } else {
        (b - a) as nat
    }
}

/// The position, among the first `n` candidates, of the one whose index is
/// nearest `last`; of equally near ones, the first.
pub open spec fn nearest(c: Seq<(usize, Seq<char>)>, last: usize, n: nat) -> int
    decreases n,
{
    if n <= 1 {
        0
    } else {
        let b = nearest(c, last, (n - 1) as nat);
        if dist(c[n - 1].0, last) < dist(c[b].0, last) {
            n - 1
        } else {
            b
        }
    }
}

/// How far apart two indices are.
pub open spec fn gap(a: int, b: int) -> int {
    if a >= b {
        a - b
    } else {
        b - a
    }
}

/// The candidate chosen among the first `n` is one of them, no other is
/// nearer `last`, and every one before it is farther: the nearest, the first
/// of equally near ones.
pub proof fn law_nearest_is_closest(c: Seq<(usize, Seq<char>)>, last: usize, n: nat)
    requires
        1 <= n <= c.len(),
    ensures
        0 <= nearest(c, last, n) < n,
        forall|i: int| 0 <= i < n ==> gap(c[nearest(c, last, n)].0 as int, last as int) <= gap(#[trigger] c[i].0 as int, last as int),
        forall|i: int| 0 <= i < nearest(c, last, n) ==> gap(c[nearest(c, last, n)].0 as int, last as int) < gap(#[trigger] c[i].0 as int, last as int),
    decreases n,
{
    if n > 1 {
        law_nearest_is_closest(c, last, (n - 1) as nat);
        let b = nearest(c, last, (n - 1) as nat);
        assert(dist(c[n - 1].0, last) == gap(c[n - 1].0 as int, last as int));
        assert(dist(c[b].0, last) == gap(c[b].0 as int, last as int));
    }
}

/// Looking up a text given several times (and neither in the dictionary nor
/// given once) answers with one of its candidates, with that candidate's
/// index, and no candidate lies nearer the last matched index.
pub proof fn law_lookup_nearest(t: TablesModel, k: Seq<char>, last: usize, j: int)
    requires
        index_of_key(pair_keys(t.dict), k) is None,
        index_of_key(t.single.map_values(|e: (Seq<char>, usize, Seq<char>)| e.0), k) is None,
        index_of_key(t.multi.map_values(|e: (Seq<char>, Seq<(usize, Seq<char>)>)| e.0), k) == Some(j),
        t.multi[j].1.len() > 0,
    ensures
        ({
            let c = t.multi[j].1;
            &&& lookup_spec(t, k, last) matches Some((tr, Some(i))) && exists|b: int|
                0 <= b < c.len() && c[b] == (i, tr) && forall|m: int|
                    0 <= m < c.len() ==> gap(i as int, last as int) <= gap(#[trigger] c[m].0 as int, last as int)
        }),
{
    let c = t.multi[j].1;
    law_nearest_is_closest(c, last, c.len());
    let b = nearest(c, last, c.len());
    assert(c[b] == (c[b].0, c[b].1));
}

/// What looking up `k` gives, the body text matched last being `last`: a
/// dictionary entry (with no index); else the body text given once (with its
/// index); else, of the candidates of a text given several times, the one
/// nearest `last` (with its index); else nothing.
pub open spec fn lookup_spec(t: TablesModel, k: Seq<char>, last: usize) -> Option<(Seq<char>, Option<usize>)> {
    match index_of_key(pair_keys(t.dict), k) {
        Some(j) => Some((t.dict[j].1, None)),
        None => match index_of_key(t.single.map_values(|e: (Seq<char>, usize, Seq<char>)| e.0), k) {
            Some(j) => Some((t.single[j].2, Some(t.single[j].1))),
            None => match index_of_key(
                t.multi.map_values(|e: (Seq<char>, Seq<(usize, Seq<char>)>)| e.0),
                k,
            ) {
                Some(j) => {
                    let c = t.multi[j].1;
                    if c.len() == 0 {
                        None
                    } else {
                        let b = nearest(c, last, c.len());
                        Some((c[b].1, Some(c[b].0)))
                    }
                },
                None => None,
            },
        },
    }
}

/// The view of a lookup's result.
pub open spec fn found_view(r: Option<(String, Option<usize>)>) -> Option<(Seq<char>, Option<usize>)> {
    match r {
        Some((s, i)) => Some((s@, i)),
        None => None,
    }
}

fn single_find(v: &Vec<(String, usize, String)>, k: &String) -> (r: Option<usize>)
    ensures
        match r {
            Some(j) => j < v@.len() && index_of_key(
                tables_single_keys(v@),
                k@,
            ) == Some(j as int),
            None => index_of_key(tables_single_keys(v@), k@) is None,
        },
{
    let ghost keys = tables_single_keys(v@);
    proof {
        lemma_index_of_key(keys, k@);
    }
    let mut i: usize = 0;
    while i < v.len()
        invariant
            i <= v@.len(),
            keys == tables_single_keys(v@),
            forall|j: int| 0 <= j < i ==> keys[j] != k@,
        decreases v@.len() - i,
    {
        if v[i].0 == *k {
            proof {
                lemma_index_of_key_first(keys, k@, i as int);
            }
            return Some(i);
        }
        i = i + 1;
    }
    None
}

fn multi_find(v: &Vec<(String, Vec<(usize, String)>)>, k: &String) -> (r: Option<usize>)
    ensures
        match r {
            Some(j) => j < v@.len() && index_of_key(tables_multi_keys(v@), k@) == Some(j as int),
            None => index_of_key(tables_multi_keys(v@), k@) is None,
        },
{
    let ghost keys = tables_multi_keys(v@);
    proof {
        lemma_index_of_key(keys, k@);
    }
    let mut i: usize = 0;
    while i < v.len()
        invariant
            i <= v@.len(),
            keys == tables_multi_keys(v@),
            forall|j: int| 0 <= j < i ==> keys[j] != k@,
        decreases v@.len() - i,
    {
        if v[i].0 == *k {
            proof {
                lemma_index_of_key_first(keys, k@, i as int);
            }
            return Some(i);
        }
        i = i + 1;
    }
    None
}

/// The keys of the single table.
pub open spec fn tables_single_keys(v: Seq<(String, usize, String)>) -> Seq<Seq<char>> {
    v.map_values(|e: (String, usize, String)| e.0@)
}

/// The keys of the multi table.
pub open spec fn tables_multi_keys(v: Seq<(String, Vec<(usize, String)>)>) -> Seq<Seq<char>> {
    v.map_values(|e: (String, Vec<(usize, String)>)| e.0@)
}

fn nearest_exec(c: &Vec<(usize, String)>, last: usize) -> (r: usize)
    requires
        c@.len() > 0,
    ensures
        r == nearest(cand_views(c@), last, c@.len() as nat),
        r < c@.len(),
{
    let ghost cv = cand_views(c@);
    let mut best: usize = 0;
    let mut j: usize = 1;
    while j < c.len()
        invariant
            1 <= j <= c@.len(),
            cv == cand_views(c@),
            best < j,
            best == nearest(cv, last, j as nat),
        decreases c@.len() - j,
    {
        let dj: usize = if c[j].0 >= last { c[j].0 - last } else { last - c[j].0 };
        let db: usize = if c[best].0 >= last { c[best].0 - last } else { last - c[best].0 };
        assert(cv[j as int].0 == c@[j as int].0 && cv[best as int].0 == c@[best as int].0);
        if dj < db {
            best = j;
        }
        j = j + 1;
    }
    best
}

impl TextTables {
    /// The translation of `original`, the body text matched last being
    /// `last`: see `lookup_spec`.
    pub fn lookup_result(&self, original: &str, last: usize) -> (r: Option<(String, Option<usize>)>)
        ensures
            found_view(r) == lookup_spec(tables_view(*self), original@, last),
    {
        let k = original.to_owned();
        let ghost tv = tables_view(*self);
        assert(pair_keys(tv.dict) == pair_keys(pair_views(self.dict@)));
        assert(tv.single.map_values(|e: (Seq<char>, usize, Seq<char>)| e.0) == tables_single_keys(self.single@));
        assert(tv.multi.map_values(|e: (Seq<char>, Seq<(usize, Seq<char>)>)| e.0) == tables_multi_keys(
            self.multi@,
        ));
        match dict_find(&self.dict, &k) {
            Some(j) => {
                assert(tv.dict[j as int] == (self.dict@[j as int].0@, self.dict@[j as int].1@));
                return Some((self.dict[j].1.clone(), None));
            },
            None => {},
        }
        match single_find(&self.single, &k) {
            Some(j) => {
                assert(tv.single[j as int] == (self.single@[j as int].0@, self.single@[j as int].1, self.single@[j as int].2@));
                return Some((self.single[j].2.clone(), Some(self.single[j].1)));
            },
            None => {},
        }
        match multi_find(&self.multi, &k) {
            Some(j) => {
                let c = &self.multi[j].1;
                assert(tv.multi[j as int].1 == cand_views(c@));
                if c.len() == 0 {
                    return None;
                }
                let b = nearest_exec(c, last);
                assert(cand_views(c@)[b as int] == (c@[b as int].0, c@[b as int].1@));
                Some((c[b].1.clone(), Some(c[b].0)))
            },
            None => None,
        }
    }
}

/// The lookup state: the index of the body text matched last.
pub struct TextLookup {
    pub last: usize,
}

impl TextLookup {
    /// A state before any match: the last index is 0.
    pub fn new() -> (r: TextLookup)
        ensures
            r.last == 0,
    {
        TextLookup { last: 0 }
    }

    /// Looks `original` up and remembers the index of a body text matched
    /// (a dictionary match leaves it as it was).
    pub fn lookup(&mut self, tables: &TextTables, original: &str) -> (r: Option<(String, Option<usize>)>)
        ensures
            found_view(r) == lookup_spec(tables_view(*tables), original@, old(self).last),
            final(self).last == match found_view(r) {
                Some((_, Some(i))) => i,
                _ => old(self).last,
            },
    {
        let r = tables.lookup_result(original, self.last);
        match &r {
            Some((_, Some(i))) => {
                self.last = *i;
            },
            _ => {},
        }
        r
    }
}

proof fn lemma_singles_contains(b: Seq<(Seq<char>, Seq<char>)>, n: nat, k: int)
    requires
        0 <= k < n <= b.len(),
        count_key(b, b[k].0) == 1,
    ensures
        singles(b, n).contains((b[k].0, k as usize, b[k].1)),
    decreases n,
{
    let s = singles(b, (n - 1) as nat);
    if k == n - 1 {
        assert(singles(b, n).last() == (b[k].0, k as usize, b[k].1));
    } else {
        lemma_singles_contains(b, (n - 1) as nat, k);
        let i = choose|i: int| 0 <= i < s.len() && s[i] == (b[k].0, k as usize, b[k].1);
        assert(singles(b, n)[i] == s[i]);
    }
}

proof fn lemma_candidates_contains(b: Seq<(Seq<char>, Seq<char>)>, key: Seq<char>, k: int)
    requires
        0 <= k < b.len(),
        b[k].0 == key,
    ensures
        candidates(b, key).contains((k as usize, b[k].1)),
    decreases b.len(),
{
    if k == b.len() - 1 {
        assert(candidates(b, key).last() == (k as usize, b[k].1));
    } else {
        let d = b.drop_last();
        assert(d[k] == b[k]);
        lemma_candidates_contains(d, key, k);
        let c = candidates(d, key);
        let i = choose|i: int| 0 <= i < c.len() && c[i] == (k as usize, b[k].1);
        if b.last().0 == key {
            assert(candidates(b, key)[i] == c[i]);
        }
    }
}

proof fn lemma_count_pos(s: Seq<(Seq<char>, Seq<char>)>, key: Seq<char>)
    requires
        count_key(s, key) > 0,
    ensures
        exists|i: int| 0 <= i < s.len() && s[i].0 == key,
    decreases s.len(),
{
    if s.last().0 != key {
        lemma_count_pos(s.drop_last(), key);
        let i = choose|i: int| 0 <= i < s.drop_last().len() && s.drop_last()[i].0 == key;
        assert(s[i] == s.drop_last()[i]);
    } else {
        assert(s[s.len() - 1].0 == key);
    }
}

proof fn lemma_first_occurrence(b: Seq<(Seq<char>, Seq<char>)>, key: Seq<char>, k: int) -> (k0: int)
    requires
        0 <= k < b.len(),
        b[k].0 == key,
    ensures
        0 <= k0 <= k,
        b[k0].0 == key,
        count_key(b.take(k0), key) == 0,
    decreases k,
{
    if count_key(b.take(k), key) == 0 {
        k
    } else {
        lemma_count_pos(b.take(k), key);
        let i = choose|i: int| 0 <= i < b.take(k).len() && b.take(k)[i].0 == key;
        lemma_first_occurrence(b, key, i)
    }
}

proof fn lemma_multis_has(b: Seq<(Seq<char>, Seq<char>)>, n: nat, k0: int)
    requires
        0 <= k0 < n <= b.len(),
        count_key(b, b[k0].0) >= 2,
        count_key(b.take(k0), b[k0].0) == 0,
    ensures
        multis(b, n).contains((b[k0].0, candidates(b, b[k0].0))),
    decreases n,
{
    let s = multis(b, (n - 1) as nat);
    if k0 == n - 1 {
        assert(multis(b, n).last() == (b[k0].0, candidates(b, b[k0].0)));
    } else {
        lemma_multis_has(b, (n - 1) as nat, k0);
        let i = choose|i: int| 0 <= i < s.len() && s[i] == (b[k0].0, candidates(b, b[k0].0));
        assert(multis(b, n)[i] == s[i]);
    }
}

/// Every body text is kept with its index and translation: a text given
/// once in the single table, a text given several times among the
/// candidates of its entry in the multi table.
pub proof fn law_body_texts_kept(body: Seq<(Seq<char>, Seq<char>)>, k: int)
    requires
        0 <= k < body.len(),
    ensures
        count_key(body, body[k].0) == 1 ==> tables_of(seq![], body).single.contains(
            (body[k].0, k as usize, body[k].1),
        ),
        count_key(body, body[k].0) >= 2 ==> exists|j: int|
            0 <= j < tables_of(seq![], body).multi.len() && #[trigger] tables_of(seq![], body).multi[j].0
                == body[k].0 && tables_of(seq![], body).multi[j].1.contains((k as usize, body[k].1)),
{
    let key = body[k].0;
    if count_key(body, key) == 1 {
        lemma_singles_contains(body, body.len(), k);
    }
    if count_key(body, key) >= 2 {
        let k0 = lemma_first_occurrence(body, key, k);
        lemma_multis_has(body, body.len(), k0);
        lemma_candidates_contains(body, key, k);
        let m = multis(body, body.len());
        let j = choose|j: int| 0 <= j < m.len() && m[j] == (key, candidates(body, key));
        assert(tables_of(seq![], body).multi == m);
        assert(tables_of(seq![], body).multi[j].0 == key);
        assert(tables_of(seq![], body).multi[j].1.contains((k as usize, body[k].1)));
    }
}

} // verus!
