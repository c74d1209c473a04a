//! Build-time constants from configuration: merging the user's configuration
//! into the defaults, and turning each entry into a constant's value.
use vstd::prelude::*;
use crate::slices::{utf16_encode, PathExt};
use crate::text::{chars_of, string_from_chars};
use crate::vfs_rules::chars_eq;

verus! {

/// A configuration value, as JSON writes it; numbers are kept as their text.
pub enum JsonValue {
    Null,
    Bool(bool),
    Number(String),
    Text(String),
    Array(Vec<JsonValue>),
    Object,
}

/// A constant's scalar value: an expression written in the text, a string as
/// UTF-16 units, a string, a number (its text) or a boolean.
pub enum ConstScalar {
    Expr(String),
    Utf16(Vec<u16>),
    Text(String),
    Number(String),
    Bool(bool),
}

/// A scalar as plain values.
pub enum ScalarModel {
    Expr(Seq<char>),
    Utf16(Seq<u16>),
    Text(Seq<char>),
    Number(Seq<char>),
    Bool(bool),
}

pub open spec fn scalar_view(c: ConstScalar) -> ScalarModel {
    match c {
        ConstScalar::Expr(s) => ScalarModel::Expr(s@),
        ConstScalar::Utf16(u) => ScalarModel::Utf16(u@),
        ConstScalar::Text(s) => ScalarModel::Text(s@),
        ConstScalar::Number(s) => ScalarModel::Number(s@),
        ConstScalar::Bool(b) => ScalarModel::Bool(b),
    }
}

/// A constant's value: one scalar, or a slice of scalars.
pub enum ConstValue {
    Scalar(ConstScalar),
    Slice(Vec<ConstScalar>),
}

/// Why a configuration was refused.
#[derive(Clone, Copy, Debug, PartialEq, Eq, Structural)]
pub enum ConstError {
    /// A `null` where a value is needed.
    NullValue,
    /// An object, or an array inside an array, where a scalar is needed.
    NotScalar,
    /// Entry `entry` of file `file` is a second complex definition of a key.
    DuplicateComplex { file: usize, entry: usize },
    /// Merged entry `index` was only ever given simple values.
    NotComplex { index: usize },
}

/// The scalar that a JSON value gives: a string becomes an expression where
/// `expr` holds, else UTF-16 units where `utf16` holds, else a string.
pub open spec fn scalar_spec(v: JsonValue, utf16: bool, expr: bool) -> Result<ScalarModel, ConstError> {
    match v {
        JsonValue::Text(s) => Ok(
            if expr {
                ScalarModel::Expr(s@)
            } else if utf16 {
                ScalarModel::Utf16(utf16_encode(s@))
            } else {
                ScalarModel::Text(s@)
            },
        ),
        JsonValue::Number(n) => Ok(ScalarModel::Number(n@)),
        JsonValue::Bool(b) => Ok(ScalarModel::Bool(b)),
        JsonValue::Null => Err(ConstError::NullValue),
        _ => Err(ConstError::NotScalar),
    }
}

fn copy_string(s: &String) -> (r: String)
    ensures
        r@ == s@,
{
    s.clone()
}

/// The scalar of a JSON value.
pub fn scalar_value(v: &JsonValue, utf16: bool, expr: bool) -> (r: Result<ConstScalar, ConstError>)
    ensures
        match scalar_spec(*v, utf16, expr) {
            Ok(m) => r matches Ok(c) && scalar_view(c) == m,
            Err(e) => r == Err::<ConstScalar, ConstError>(e),
        },
{
    match v {
        JsonValue::Text(s) => if expr {
            Ok(ConstScalar::Expr(copy_string(s)))
        } else if utf16 {
            Ok(ConstScalar::Utf16(s.as_str().to_wide()))
        } else {
            Ok(ConstScalar::Text(copy_string(s)))
        },
        JsonValue::Number(n) => Ok(ConstScalar::Number(copy_string(n))),
        JsonValue::Bool(b) => Ok(ConstScalar::Bool(*b)),
        JsonValue::Null => Err(ConstError::NullValue),
        _ => Err(ConstError::NotScalar),
    }
}

/// The first element, from `i` on, that is not a scalar, with its error.
pub open spec fn first_bad_element(a: Seq<JsonValue>, utf16: bool, expr: bool, i: int) -> Option<ConstError>
    decreases a.len() - i,
{
    if i < 0 || i >= a.len() {
        None
    } else {
        match scalar_spec(a[i], utf16, expr) {
            Err(e) => Some(e),
            Ok(_) => first_bad_element(a, utf16, expr, i + 1),
        }
    }
}

/// `r` is what a JSON value gives as a constant's value: an array gives a
/// slice of its elements' scalars (or the error of its first element that is
/// not a scalar); anything else gives one scalar.
pub open spec fn value_of(v: JsonValue, utf16: bool, expr: bool, r: Result<ConstValue, ConstError>) -> bool {
        match v {
            JsonValue::Array(a) => match first_bad_element(a@, utf16, expr, 0) {
                Some(e) => r == Err::<ConstValue, ConstError>(e),
                None => r matches Ok(ConstValue::Slice(s)) && s@.len() == a@.len() && forall|i: int|
                    0 <= i < a@.len() ==> scalar_spec(a@[i], utf16, expr) == Ok::<ScalarModel, ConstError>(
                        scalar_view(#[trigger] s@[i]),
                    ),
            },
            _ => match scalar_spec(v, utf16, expr) {
                Ok(m) => r matches Ok(ConstValue::Scalar(c)) && scalar_view(c) == m,
                Err(e) => r == Err::<ConstValue, ConstError>(e),
            },
        }
}

/// A constant's value from a JSON value.
pub fn const_value(v: &JsonValue, utf16: bool, expr: bool) -> (r: Result<ConstValue, ConstError>)
    ensures
        value_of(*v, utf16, expr, r),
{
    match v {
        JsonValue::Array(a) => {
            let mut out: Vec<ConstScalar> = Vec::new();
            let mut i: usize = 0;
            while i < a.len()
                invariant
                    i <= a@.len(),
                    *v == JsonValue::Array(*a),
                    out@.len() == i,
                    first_bad_element(a@, utf16, expr, 0) == first_bad_element(a@, utf16, expr, i as int),
                    forall|j: int|
                        0 <= j < i ==> scalar_spec(a@[j], utf16, expr) == Ok::<ScalarModel, ConstError>(
                            scalar_view(#[trigger] out@[j]),
                        ),
                decreases a@.len() - i,
            {
                match scalar_value(&a[i], utf16, expr) {
                    Err(e) => {
                        return Err(e);
                    },
                    Ok(c) => {
                        out.push(c);
                    },
                }
                i = i + 1;
            }
            Ok(ConstValue::Slice(out))
        },
        _ => match scalar_value(v, utf16, expr) {
            Ok(c) => Ok(ConstValue::Scalar(c)),
            Err(e) => Err(e),
        },
    }
}

/// An identifier for a key: ASCII letters and digits kept, anything else `_`.
pub open spec fn ident_of(key: Seq<char>) -> Seq<char> {
    key.map_values(
        |c: char|
            if ('a' <= c && c <= 'z') || ('A' <= c && c <= 'Z') || ('0' <= c && c <= '9') {
                c
            } else {
                '_'
            },
    )
}

/// The identifier of a constant named by `key`.
pub fn const_ident(key: &str) -> (r: String)
    ensures
        r@ == ident_of(key@),
{
    let chars = chars_of(key);
    let mut out: Vec<char> = Vec::new();
    let mut i: usize = 0;
    while i < chars.len()
        invariant
            i <= chars@.len(),
            chars@ == key@,
            out@ == ident_of(key@).take(i as int),
        decreases chars@.len() - i,
    {
        let c = chars[i];
        let keep = ('a' <= c && c <= 'z') || ('A' <= c && c <= 'Z') || ('0' <= c && c <= '9');
        out.push(
            if keep {
                c
            } else {
                '_'
            },
        );
        i = i + 1;
        assert(out@ == ident_of(key@).take(i as int));
    }
    assert(ident_of(key@).take(i as int) == ident_of(key@));
    string_from_chars(&out)
}

/// A constant to define: its identifier, its type as written, whether it is
/// optional (of type `Option<..>`), and its value (`None` for an optional
/// constant without one).
pub struct ConstItem {
    pub ident: String,
    pub ty: String,
    pub optional: bool,
    pub value: Option<ConstValue>,
}

/// The constant of one configuration entry.  A missing or `null` value gives
/// `None` for an optional constant and no constant at all (`Ok(None)`)
/// otherwise.
pub fn const_item(
    key: &str,
    ty: &str,
    value: Option<&JsonValue>,
    utf16: bool,
    optional: bool,
    expr: bool,
) -> (r: Result<Option<ConstItem>, ConstError>)
    ensures
        match value {
            None => if optional {
                r matches Ok(Some(item)) && item.ident@ == ident_of(key@) && item.ty@ == ty@
                    && item.optional && item.value is None
            } else {
                r matches Ok(None)
            },
            Some(v) => if *v is Null {
                if optional {
                    r matches Ok(Some(item)) && item.ident@ == ident_of(key@) && item.ty@ == ty@
                        && item.optional && item.value is None
                } else {
                    r matches Ok(None)
                }
            } else {
                match r {
                    Ok(Some(item)) => item.ident@ == ident_of(key@) && item.ty@ == ty@ && item.optional
                        == optional && (item.value matches Some(c) && value_of(*v, utf16, expr, Ok(c))),
                    Ok(None) => false,
                    Err(e) => value_of(*v, utf16, expr, Err(e)),
                }
            },
        },
{
    let missing = match value {
        None => true,
        Some(JsonValue::Null) => true,
        _ => false,
    };
    if missing {
        if !optional {
            return Ok(None);
        }
        return Ok(Some(ConstItem { ident: const_ident(key), ty: ty.to_string(), optional, value: None }));
    }
    let v = match value {
        Some(v) => v,
        None => return Ok(None),
    };
    match const_value(v, utf16, expr) {
        Err(e) => Err(e),
        Ok(c) => Ok(Some(ConstItem { ident: const_ident(key), ty: ty.to_string(), optional, value: Some(c) })),
    }
}

/// One entry of a constants configuration: a complex entry that declares a
/// constant (its type, value and how the value is written), or a simple one
/// that only gives a value.
pub enum ConfigEntry {
    Complex { ty: String, value: Option<JsonValue>, encode_to_u16: bool, optional: bool, expr: bool },
    Simple(JsonValue),
}

/// The index of the first entry of `m` under key `k`.
pub open spec fn key_index(m: Seq<(String, ConfigEntry)>, k: Seq<char>) -> Option<int>
    decreases m.len(),
{
    if m.len() == 0 {
        None
    } else {
        match key_index(m.drop_last(), k) {
            Some(j) => Some(j),
            None => if m.last().0@ == k {
                Some(m.len() - 1)
            } else {
                None
            },
        }
    }
}

/// What entry `i` of file `f`, under key `k`, does to the merged entries `m`.
/// A new key is added as it is.  A second complex definition of a key is
/// refused.  A simple value replaces the value of its key (the last value
/// given wins); a complex definition that comes after simple values takes
/// the last of them where it has no value of its own.
pub open spec fn merge_step(m: Seq<(String, ConfigEntry)>, k: String, v: ConfigEntry, f: int, i: int) -> Result<
    Seq<(String, ConfigEntry)>,
    ConstError,
> {
    match key_index(m, k@) {
        Some(j) => match m[j].1 {
            ConfigEntry::Complex { ty, value, encode_to_u16, optional, expr } => match v {
                ConfigEntry::Simple(sv) => Ok(
                    m.update(
                        j,
                        (m[j].0, ConfigEntry::Complex { ty, value: Some(sv), encode_to_u16, optional, expr }),
                    ),
                ),
                ConfigEntry::Complex { .. } => Err(
                    ConstError::DuplicateComplex { file: f as usize, entry: i as usize },
                ),
            },
            ConfigEntry::Simple(pv) => match v {
                ConfigEntry::Simple(sv) => Ok(m.update(j, (m[j].0, ConfigEntry::Simple(sv)))),
                ConfigEntry::Complex { ty, value, encode_to_u16, optional, expr } => Ok(
                    m.update(
                        j,
                        (
                            m[j].0,
                            ConfigEntry::Complex {
                                ty,
                                value: if value is None {
                                    Some(pv)
                                } else {
                                    value
                                },
                                encode_to_u16,
                                optional,
                                expr,
                            },
                        ),
                    ),
                ),
            },
        },
        None => Ok(m.push((k, v))),
    }
}

/// The entries of file `f` from `i` on, merged one after another into `m`;
/// the first that is refused gives the error.
pub open spec fn merge_entries(m: Seq<(String, ConfigEntry)>, es: Seq<(String, ConfigEntry)>, f: int, i: int) -> Result<
    Seq<(String, ConfigEntry)>,
    ConstError,
>
    decreases es.len() - i,
{
    if i < 0 || i >= es.len() {
        Ok(m)
    } else {
        match merge_step(m, es[i].0, es[i].1, f, i) {
            Ok(m2) => merge_entries(m2, es, f, i + 1),
            Err(e) => Err(e),
        }
    }
}

/// The files from `f` on, merged one after another into `m`.
pub open spec fn merge_files(m: Seq<(String, ConfigEntry)>, fs: Seq<Seq<(String, ConfigEntry)>>, f: int) -> Result<
    Seq<(String, ConfigEntry)>,
    ConstError,
>
    decreases fs.len() - f,
{
    if f < 0 || f >= fs.len() {
        Ok(m)
    } else {
        match merge_entries(m, fs[f], f, 0) {
            Ok(m2) => merge_files(m2, fs, f + 1),
            Err(e) => Err(e),
        }
    }
}

/// The index of the first merged entry that is not complex.
pub open spec fn first_simple(m: Seq<(String, ConfigEntry)>) -> Option<int>
    decreases m.len(),
{
    if m.len() == 0 {
        None
    } else {
        match first_simple(m.drop_last()) {
            Some(j) => Some(j),
            None => if m.last().1 is Simple {
                Some(m.len() - 1)
            } else {
                None
            },
        }
    }
}

/// What merging the files `fs` in order gives: the merged entries, in the
/// order their keys first appear, once every key is complex.
pub open spec fn merge_result(fs: Seq<Seq<(String, ConfigEntry)>>) -> Result<Seq<(String, ConfigEntry)>, ConstError> {
    match merge_files(seq![], fs, 0) {
        Err(e) => Err(e),
        Ok(m) => match first_simple(m) {
            Some(j) => Err(ConstError::NotComplex { index: j as usize }),
            None => Ok(m),
        },
    }
}

/// The views of configuration files.
pub open spec fn files_view(files: Seq<Vec<(String, ConfigEntry)>>) -> Seq<Seq<(String, ConfigEntry)>> {
    files.map_values(|f: Vec<(String, ConfigEntry)>| f@)
}

proof fn lemma_key_index(m: Seq<(String, ConfigEntry)>, k: Seq<char>)
    ensures
        key_index(m, k) matches Some(j) ==> 0 <= j < m.len() && m[j].0@ == k,
    decreases m.len(),
{
    if m.len() > 0 {
        lemma_key_index(m.drop_last(), k);
    }
}

fn find_key(m: &Vec<(String, ConfigEntry)>, k: &String) -> (r: Option<usize>)
    ensures
        match r {
            Some(j) => key_index(m@, k@) == Some(j as int) && j < m@.len(),
            None => key_index(m@, k@) is None,
        },
{
    proof {
        lemma_key_index(m@, k@);
    }
    let kc = chars_of(k.as_str());
    let mut i: usize = 0;
    while i < m.len()
        invariant
            i <= m@.len(),
            kc@ == k@,
            key_index(m@.take(i as int), k@) is None,
        decreases m@.len() - i,
    {
        let ec = chars_of(m[i].0.as_str());
        assert(m@.take(i as int + 1).drop_last() == m@.take(i as int));
        if chars_eq(ec.as_slice(), kc.as_slice()) {
            proof {
                lemma_key_index_prefix(m@, k@, i as int + 1);
            }
            return Some(i);
        }
        i = i + 1;
    }
    assert(m@.take(i as int) == m@);
    None
}

proof fn lemma_key_index_prefix(m: Seq<(String, ConfigEntry)>, k: Seq<char>, n: int)
    requires
        0 <= n <= m.len(),
        key_index(m.take(n), k) is Some,
    ensures
        key_index(m, k) == key_index(m.take(n), k),
    decreases m.len() - n,
{
    if n < m.len() {
        assert(m.take(n + 1).drop_last() == m.take(n));
        lemma_key_index_prefix(m, k, n + 1);
    } else {
        assert(m.take(n) == m);
    }
}

fn merge_one(
    merged: &mut Vec<(String, ConfigEntry)>,
    k: String,
    v: ConfigEntry,
    f: usize,
    i: usize,
) -> (r: Result<(), ConstError>)
    ensures
        match merge_step(old(merged)@, k, v, f as int, i as int) {
            Ok(m) => r is Ok && final(merged)@ == m,
            Err(e) => r == Err::<(), ConstError>(e),
        },
{
    let ghost before = merged@;
    match find_key(merged, &k) {
        Some(j) => {
            let existing_complex = match &merged[j].1 {
                ConfigEntry::Complex { .. } => true,
                ConfigEntry::Simple(_) => false,
            };
            if existing_complex {
                match v {
                    ConfigEntry::Complex { .. } => Err(ConstError::DuplicateComplex { file: f, entry: i }),
                    ConfigEntry::Simple(sv) => {
                        let (dk, de) = merged.remove(j);
                        match de {
                            ConfigEntry::Complex { ty, value: _, encode_to_u16, optional, expr } => {
                                merged.insert(
                                    j,
                                    (dk, ConfigEntry::Complex { ty, value: Some(sv), encode_to_u16, optional, expr }),
                                );
                            },
                            ConfigEntry::Simple(_) => {
                                merged.insert(j, (dk, ConfigEntry::Simple(sv)));
                            },
                        }
                        assert(merged@ =~= before.update(j as int, merged@[j as int]));
                        Ok(())
                    },
                }
            } else {
                let (dk, de) = merged.remove(j);
                match de {
                    ConfigEntry::Simple(pv) => match v {
                        ConfigEntry::Simple(sv) => {
                            merged.insert(j, (dk, ConfigEntry::Simple(sv)));
                        },
                        ConfigEntry::Complex { ty, value, encode_to_u16, optional, expr } => {
                            let value = match value {
                                Some(x) => Some(x),
                                None => Some(pv),
                            };
                            merged.insert(j, (dk, ConfigEntry::Complex { ty, value, encode_to_u16, optional, expr }));
                        },
                    },
                    ConfigEntry::Complex { ty, value, encode_to_u16, optional, expr } => {
                        merged.insert(j, (dk, ConfigEntry::Complex { ty, value, encode_to_u16, optional, expr }));
                    },
                }
                assert(merged@ =~= before.update(j as int, merged@[j as int]));
                Ok(())
            }
        },
        None => {
            merged.push((k, v));
            Ok(())
        },
    }
}

fn first_simple_exec(m: &Vec<(String, ConfigEntry)>) -> (r: Option<usize>)
    ensures
        match first_simple(m@) {
            Some(j) => r == Some(j as usize),
            None => r is None,
        },
{
    let mut i: usize = 0;
    while i < m.len()
        invariant
            i <= m@.len(),
            first_simple(m@.take(i as int)) is None,
        decreases m@.len() - i,
    {
        assert(m@.take(i + 1).drop_last() == m@.take(i as int));
        let simple = match &m[i].1 {
            ConfigEntry::Simple(_) => true,
            ConfigEntry::Complex { .. } => false,
        };
        if simple {
            proof {
                lemma_first_simple_prefix(m@, i as int + 1);
            }
            return Some(i);
        }
        i = i + 1;
    }
    assert(m@.take(i as int) == m@);
    None
}

proof fn lemma_first_simple_prefix(m: Seq<(String, ConfigEntry)>, n: int)
    requires
        0 <= n <= m.len(),
        first_simple(m.take(n)) is Some,
    ensures
        first_simple(m) == first_simple(m.take(n)),
        first_simple(m)->0 < m.len(),
    decreases m.len() - n,
{
    lemma_first_simple_bound(m.take(n));
    if n < m.len() {
        assert(m.take(n + 1).drop_last() == m.take(n));
        lemma_first_simple_prefix(m, n + 1);
    } else {
        assert(m.take(n) == m);
    }
}

proof fn lemma_first_simple_bound(m: Seq<(String, ConfigEntry)>)
    ensures
        first_simple(m) matches Some(j) ==> 0 <= j < m.len(),
    decreases m.len(),
{
    if m.len() > 0 {
        lemma_first_simple_bound(m.drop_last());
    }
}

/// Merges configuration files, given in order, each as its entries: see
/// `merge_result`.
pub fn merge_config(files: Vec<Vec<(String, ConfigEntry)>>) -> (r: Result<Vec<(String, ConfigEntry)>, ConstError>)
    ensures
        match merge_result(files_view(files@)) {
            Ok(m) => r matches Ok(v) && v@ == m,
            Err(e) => r == Err::<Vec<(String, ConfigEntry)>, ConstError>(e),
        },
{
    let ghost fs = files_view(files@);
    let nf: usize = files.len();
    let mut rest = files;
    let mut merged: Vec<(String, ConfigEntry)> = Vec::new();
    let mut f: usize = 0;
    while rest.len() > 0
        invariant
            fs == files_view(files@),
            fs.len() == nf,
            f <= nf,
            f + rest@.len() == nf,
            forall|j: int| 0 <= j < rest@.len() ==> #[trigger] rest@[j]@ == fs[f + j],
            merge_files(seq![], fs, 0) == merge_files(merged@, fs, f as int),
        decreases rest@.len(),
    {
        let ghost rest_before = rest@;
        let file = rest.remove(0);
        assert(file@ == fs[f as int]);
        assert forall|j: int| 0 <= j < rest@.len() implies #[trigger] rest@[j]@ == fs[f + 1 + j] by {
            assert(rest@[j] == rest_before[j + 1]);
        }
        let ghost es = file@;
        let ne: usize = file.len();
        let mut entries = file;
        let mut i: usize = 0;
        assert(merge_files(seq![], fs, 0) == match merge_entries(merged@, es, f as int, 0) {
            Ok(m2) => merge_files(m2, fs, f + 1),
            Err(e) => Err::<Seq<(String, ConfigEntry)>, ConstError>(e),
        });
        while entries.len() > 0
            invariant
                fs == files_view(files@),
                es.len() == ne,
                i <= ne,
                i + entries@.len() == ne,
                entries@ == es.skip(i as int),
                f < nf,
                merge_files(seq![], fs, 0) == match merge_entries(merged@, es, f as int, i as int) {
                    Ok(m2) => merge_files(m2, fs, f + 1),
                    Err(e) => Err::<Seq<(String, ConfigEntry)>, ConstError>(e),
                },
            decreases entries@.len(),
        {
            let (k, v) = entries.remove(0);
            assert(es[i as int] == (k, v));
            assert(es.skip(i as int + 1) == es.skip(i as int).remove(0));
            match merge_one(&mut merged, k, v, f, i) {
                Err(e) => {
                    return Err(e);
                },
                Ok(()) => {},
            }
            i = i + 1;
        }
        f = f + 1;
    }
    match first_simple_exec(&merged) {
        Some(j) => Err(ConstError::NotComplex { index: j }),
        None => Ok(merged),
    }
}

} // verus!
