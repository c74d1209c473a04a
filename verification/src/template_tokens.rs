//! Template placeholders: a template, as tokens, filled in for one file.
//! `__file_stem_ident__`, `__file_stem_str__`, `__file_stem_pascal_ident__`,
//! `__file_str__` and `__file_json_value__` give the file's stem (as an
//! identifier and as a string), its stem in PascalCase, its full name and its
//! configured expression; `__concat__(a, b, ..)` joins its arguments into one
//! string literal. `__repeat__(..)` marks the part of a template that is
//! written once per file; a template without it is written once per file as a
//! whole.
use vstd::prelude::*;
use crate::templates::ExpandedFile;
use crate::text::chars_of;
use crate::vfs_rules::chars_eq;

verus! {

/// The delimiter of a token group.
#[derive(Clone, Copy, Debug, PartialEq, Eq, Structural)]
pub enum Delim {
    Paren,
    Brace,
    Bracket,
    Invisible,
}

/// A token of a template: an identifier, a string literal (by its value),
/// another literal (by its text), a punctuation character, an expression
/// spliced in by its source text, or a delimited group of tokens.
pub enum Tok {
    Ident(String),
    Str(String),
    Lit(String),
    Punct(char),
    Expr(String),
    Group(Delim, Vec<Tok>),
}

/// A token as plain values.
pub enum TokModel {
    Ident(Seq<char>),
    Str(Seq<char>),
    Lit(Seq<char>),
    Punct(char),
    Expr(Seq<char>),
    Group(Delim, Seq<TokModel>),
}

pub open spec fn tok_view(t: Tok) -> TokModel
    decreases t,
{
    match t {
        Tok::Ident(s) => TokModel::Ident(s@),
        Tok::Str(s) => TokModel::Str(s@),
        Tok::Lit(s) => TokModel::Lit(s@),
        Tok::Punct(c) => TokModel::Punct(c),
        Tok::Expr(s) => TokModel::Expr(s@),
        Tok::Group(d, v) => TokModel::Group(d, toks_view(v@)),
    }
}

pub open spec fn toks_view(s: Seq<Tok>) -> Seq<TokModel>
    decreases s,
{
    if s.len() == 0 {
        seq![]
    } else {
        seq![tok_view(s[0])] + toks_view(s.drop_first())
    }
}

/// A file as the template sees it.
pub struct FileModel {
    pub name: Seq<char>,
    pub stem: Seq<char>,
    pub pascal: Seq<char>,
    pub expr: Option<Seq<char>>,
}

pub open spec fn file_view(f: ExpandedFile) -> FileModel {
    FileModel {
        name: f.name@,
        stem: f.stem@,
        pascal: f.pascal@,
        expr: match f.expr {
            Some(e) => Some(e@),
            None => None,
        },
    }
}

/// Why a template could not be filled in.
#[derive(Clone, Copy, Debug, PartialEq, Eq, Structural)]
pub enum TemplateError {
    /// `__concat__` is not followed by a parenthesised group.
    ConcatNeedsParens,
    /// `__concat__` has fewer than two arguments.
    ConcatTooFewArgs,
    /// An argument of `__concat__` is empty (two commas in a row, or a comma at
    /// the end).
    EmptyConcatArg,
    /// An argument of `__concat__` is not one string literal or identifier.
    BadConcatArg,
    /// An argument of `__concat__` gives the empty string.
    EmptyConcatPart,
    /// `__file_json_value__` is used for a file with no configured expression.
    JsonValueMissing,
    /// `__repeat__` is not followed by a parenthesised group.
    RepeatNeedsParens,
}

/// The arguments of `__concat__` from `i` on: the tokens between commas, the
/// current one being `cur`.
pub open spec fn split_from(
    inner: Seq<TokModel>,
    i: int,
    cur: Seq<TokModel>,
    acc: Seq<Seq<TokModel>>,
) -> Result<Seq<Seq<TokModel>>, TemplateError>
    decreases inner.len() - i,
{
    if i < 0 || i >= inner.len() {
        if cur.len() == 0 {
            if acc.len() == 0 {
                Err(TemplateError::ConcatTooFewArgs)
            } else {
                Err(TemplateError::EmptyConcatArg)
            }
        } else {
            Ok(acc.push(cur))
        }
    } else if inner[i] == TokModel::Punct(',') {
        if cur.len() == 0 {
            Err(TemplateError::EmptyConcatArg)
        } else {
            split_from(inner, i + 1, seq![], acc.push(cur))
        }
    } else {
        split_from(inner, i + 1, cur.push(inner[i]), acc)
    }
}

/// The text that one argument of `__concat__` gives.
pub open spec fn part_value(arg: Seq<TokModel>, f: FileModel) -> Result<Seq<char>, TemplateError> {
    if arg.len() != 1 {
        Err(TemplateError::BadConcatArg)
    } else {
        let v = match arg[0] {
            TokModel::Str(s) => Ok(s),
            TokModel::Ident(n) => if n == "__concat__"@ {
                Err(TemplateError::ConcatNeedsParens)
            } else if n == "__file_stem_ident__"@ || n == "__file_stem_str__"@ {
                Ok(f.stem)
            } else if n == "__file_stem_pascal_ident__"@ {
                Ok(f.pascal)
            } else if n == "__file_str__"@ {
                Ok(f.name)
            } else if n == "__file_json_value__"@ {
                if f.expr is None {
                    Err(TemplateError::JsonValueMissing)
                } else {
                    Err(TemplateError::BadConcatArg)
                }
            } else {
                Ok(n)
            },
            _ => Err(TemplateError::BadConcatArg),
        };
        match v {
            Ok(s) => if s.len() == 0 {
                Err(TemplateError::EmptyConcatPart)
            } else {
                Ok(s)
            },
            Err(e) => Err(e),
        }
    }
}

/// The arguments from `i` on, joined after `acc`.
pub open spec fn join_parts(args: Seq<Seq<TokModel>>, f: FileModel, i: int, acc: Seq<char>) -> Result<
    Seq<char>,
    TemplateError,
>
    decreases args.len() - i,
{
    if i < 0 || i >= args.len() {
        Ok(acc)
    } else {
        match part_value(args[i], f) {
            Ok(p) => join_parts(args, f, i + 1, acc + p),
            Err(e) => Err(e),
        }
    }
}

/// The string that `__concat__` with the tokens `inner` gives.
pub open spec fn concat_value(inner: Seq<TokModel>, f: FileModel) -> Result<Seq<char>, TemplateError> {
    match split_from(inner, 0, seq![], seq![]) {
        Err(e) => Err(e),
        Ok(args) => if args.len() < 2 {
            Err(TemplateError::ConcatTooFewArgs)
        } else {
            join_parts(args, f, 0, seq![])
        },
    }
}

/// `head` before what filling in `rest` gives.
pub open spec fn prepend(head: TokModel, rest: Result<Seq<TokModel>, TemplateError>) -> Result<
    Seq<TokModel>,
    TemplateError,
> {
    match rest {
        Ok(r) => Ok(seq![head] + r),
        Err(e) => Err(e),
    }
}

/// The tokens `s` filled in for file `f`, left to right (a group's contents
/// before what follows it); the first error met is the result.
pub open spec fn replace_spec(s: Seq<TokModel>, f: FileModel) -> Result<Seq<TokModel>, TemplateError>
    decreases s,
{
    if s.len() == 0 {
        Ok(seq![])
    } else {
        match s[0] {
            TokModel::Ident(n) => if n == "__concat__"@ {
                if s.len() < 2 {
                    Err(TemplateError::ConcatNeedsParens)
                } else {
                    match s[1] {
                        TokModel::Group(Delim::Paren, inner) => match concat_value(inner, f) {
                            Err(e) => Err(e),
                            Ok(v) => prepend(
                                TokModel::Str(v),
                                replace_spec(
                                    if s.len() > 2 && s[2] == TokModel::Punct(';') {
                                        s.skip(3)
                                    } else {
                                        s.skip(2)
                                    },
                                    f,
                                ),
                            ),
                        },
                        _ => Err(TemplateError::ConcatNeedsParens),
                    }
                }
            } else if n == "__file_stem_ident__"@ {
                prepend(TokModel::Ident(f.stem), replace_spec(s.drop_first(), f))
            } else if n == "__file_stem_str__"@ {
                prepend(TokModel::Str(f.stem), replace_spec(s.drop_first(), f))
            } else if n == "__file_stem_pascal_ident__"@ {
                prepend(TokModel::Ident(f.pascal), replace_spec(s.drop_first(), f))
            } else if n == "__file_str__"@ {
                prepend(TokModel::Str(f.name), replace_spec(s.drop_first(), f))
            } else if n == "__file_json_value__"@ {
                match f.expr {
                    Some(e) => prepend(TokModel::Expr(e), replace_spec(s.drop_first(), f)),
                    None => Err(TemplateError::JsonValueMissing),
                }
            } else {
                prepend(s[0], replace_spec(s.drop_first(), f))
            },
            TokModel::Group(d, inner) => match replace_spec(inner, f) {
                Err(e) => Err(e),
                Ok(ri) => prepend(TokModel::Group(d, ri), replace_spec(s.drop_first(), f)),
            },
            _ => prepend(s[0], replace_spec(s.drop_first(), f)),
        }
    }
}

/// The number of tokens of `s`, counting those inside groups.
pub open spec fn size(s: Seq<TokModel>) -> nat
    decreases s,
{
    if s.len() == 0 {
        0
    } else {
        1 + (match s[0] {
            TokModel::Group(_, inner) => size(inner),
            _ => 0,
        }) + size(s.drop_first())
    }
}

proof fn lemma_toks_view(s: Seq<Tok>)
    ensures
        toks_view(s).len() == s.len(),
        forall|i: int| 0 <= i < s.len() ==> #[trigger] toks_view(s)[i] == tok_view(s[i]),
    decreases s.len(),
{
    if s.len() > 0 {
        lemma_toks_view(s.drop_first());
        assert forall|i: int| 0 <= i < s.len() implies #[trigger] toks_view(s)[i] == tok_view(s[i]) by {
            if i > 0 {
                assert(toks_view(s)[i] == toks_view(s.drop_first())[i - 1]);
            }
        }
    }
}

proof fn lemma_toks_view_eq(a: Seq<Tok>, b: Seq<TokModel>)
    requires
        a.len() == b.len(),
        forall|i: int| 0 <= i < a.len() ==> tok_view(a[i]) == b[i],
    ensures
        toks_view(a) == b,
{
    lemma_toks_view(a);
    assert(toks_view(a) =~= b);
}

proof fn lemma_toks_view_push(a: Seq<Tok>, t: Tok)
    ensures
        toks_view(a.push(t)) == toks_view(a).push(tok_view(t)),
{
    lemma_toks_view(a);
    lemma_toks_view(a.push(t));
    assert(toks_view(a.push(t)) =~= toks_view(a).push(tok_view(t)));
}

proof fn lemma_toks_view_drop(a: Seq<Tok>)
    requires
        a.len() > 0,
    ensures
        toks_view(a).drop_first() == toks_view(a.drop_first()),
        toks_view(a)[0] == tok_view(a[0]),
{
    lemma_toks_view(a);
    lemma_toks_view(a.drop_first());
    assert(toks_view(a).drop_first() =~= toks_view(a.drop_first()));
}

fn is_word(n: &String, lit: &str) -> (r: bool)
    ensures
        r == (n@ == lit@),
{
    let a = chars_of(n.as_str());
    let b = chars_of(lit);
    chars_eq(a.as_slice(), b.as_slice())
}

/// What the ranges of `s` hold.
pub open spec fn range_seqs(s: Seq<TokModel>, ranges: Seq<(usize, usize)>) -> Seq<Seq<TokModel>> {
    ranges.map_values(|r: (usize, usize)| s.subrange(r.0 as int, r.1 as int))
}

fn split_exec(inner: &Vec<Tok>) -> (r: Result<Vec<(usize, usize)>, TemplateError>)
    ensures
        match split_from(toks_view(inner@), 0, seq![], seq![]) {
            Ok(args) => r matches Ok(v) && range_seqs(toks_view(inner@), v@) == args && forall|k: int|
                0 <= k < v@.len() ==> #[trigger] v@[k].0 <= v@[k].1 <= inner@.len(),
            Err(e) => r == Err::<Vec<(usize, usize)>, TemplateError>(e),
        },
{
    let ghost iv = toks_view(inner@);
    proof {
        lemma_toks_view(inner@);
    }
    let mut ranges: Vec<(usize, usize)> = Vec::new();
    let mut start: usize = 0;
    let mut i: usize = 0;
    assert(iv.subrange(0, 0) == Seq::<TokModel>::empty());
    assert(range_seqs(iv, ranges@) == Seq::<Seq<TokModel>>::empty());
    while i < inner.len()
        invariant
            iv == toks_view(inner@),
            iv.len() == inner@.len(),
            forall|k: int| 0 <= k < inner@.len() ==> iv[k] == tok_view(#[trigger] inner@[k]),
            start <= i <= inner@.len(),
            forall|k: int| 0 <= k < ranges@.len() ==> #[trigger] ranges@[k].0 <= ranges@[k].1 <= inner@.len(),
            split_from(iv, 0, seq![], seq![]) == split_from(
                iv,
                i as int,
                iv.subrange(start as int, i as int),
                range_seqs(iv, ranges@),
            ),
        decreases inner@.len() - i,
    {
        let comma = match &inner[i] {
            Tok::Punct(c) => *c == ',',
            _ => false,
        };
        assert(comma == (iv[i as int] == TokModel::Punct(',')));
        if comma {
            if start == i {
                return Err(TemplateError::EmptyConcatArg);
            }
            let ghost before = range_seqs(iv, ranges@);
            ranges.push((start, i));
            assert(range_seqs(iv, ranges@) == before.push(iv.subrange(start as int, i as int)));
            start = i + 1;
            assert(iv.subrange(start as int, start as int) == Seq::<TokModel>::empty());
        } else {
            assert(iv.subrange(start as int, i + 1) == iv.subrange(start as int, i as int).push(iv[i as int]));
        }
        i = i + 1;
    }
    if start == i {
        if ranges.len() == 0 {
            return Err(TemplateError::ConcatTooFewArgs);
        }
        return Err(TemplateError::EmptyConcatArg);
    }
    let ghost before = range_seqs(iv, ranges@);
    ranges.push((start, i));
    assert(range_seqs(iv, ranges@) == before.push(iv.subrange(start as int, i as int)));
    Ok(ranges)
}

fn part_exec(t: &Tok, file: &ExpandedFile) -> (r: Result<Vec<char>, TemplateError>)
    ensures
        match part_value(seq![tok_view(*t)], file_view(*file)) {
            Ok(p) => r matches Ok(v) && v@ == p,
            Err(e) => r == Err::<Vec<char>, TemplateError>(e),
        },
{
    let v = match t {
        Tok::Str(s) => chars_of(s.as_str()),
        Tok::Ident(n) => if is_word(n, "__concat__") {
            return Err(TemplateError::ConcatNeedsParens);
        } else if is_word(n, "__file_stem_ident__") || is_word(n, "__file_stem_str__") {
            chars_of(file.stem.as_str())
        } else if is_word(n, "__file_stem_pascal_ident__") {
            chars_of(file.pascal.as_str())
        } else if is_word(n, "__file_str__") {
            chars_of(file.name.as_str())
        } else if is_word(n, "__file_json_value__") {
            if file.expr.is_none() {
                return Err(TemplateError::JsonValueMissing);
            } else {
                return Err(TemplateError::BadConcatArg);
            }
        } else {
            chars_of(n.as_str())
        },
        _ => {
            return Err(TemplateError::BadConcatArg);
        },
    };
    if v.len() == 0 {
        return Err(TemplateError::EmptyConcatPart);
    }
    Ok(v)
}

fn concat_exec(inner: &Vec<Tok>, file: &ExpandedFile) -> (r: Result<String, TemplateError>)
    ensures
        match concat_value(toks_view(inner@), file_view(*file)) {
            Ok(v) => r matches Ok(s) && s@ == v,
            Err(e) => r == Err::<String, TemplateError>(e),
        },
{
    let ghost iv = toks_view(inner@);
    let ghost fm = file_view(*file);
    proof {
        lemma_toks_view(inner@);
    }
    let ranges = match split_exec(inner) {
        Err(e) => return Err(e),
        Ok(r) => r,
    };
    let ghost args = range_seqs(iv, ranges@);
    if ranges.len() < 2 {
        return Err(TemplateError::ConcatTooFewArgs);
    }
    let mut acc: Vec<char> = Vec::new();
    let mut k: usize = 0;
    while k < ranges.len()
        invariant
            iv == toks_view(inner@),
            iv.len() == inner@.len(),
            forall|j: int| 0 <= j < inner@.len() ==> iv[j] == tok_view(#[trigger] inner@[j]),
            fm == file_view(*file),
            args == range_seqs(iv, ranges@),
            ranges@.len() >= 2,
            split_from(iv, 0, seq![], seq![]) == Ok::<Seq<Seq<TokModel>>, TemplateError>(args),
            k <= ranges@.len(),
            forall|j: int| 0 <= j < ranges@.len() ==> #[trigger] ranges@[j].0 <= ranges@[j].1 <= inner@.len(),
            join_parts(args, fm, 0, seq![]) == join_parts(args, fm, k as int, acc@),
        decreases ranges@.len() - k,
    {
        let (a, b) = ranges[k];
        assert(args[k as int] == iv.subrange(a as int, b as int));
        if b - a != 1 {
            return Err(TemplateError::BadConcatArg);
        }
        assert(iv.subrange(a as int, b as int) == seq![tok_view(inner@[a as int])]);
        match part_exec(&inner[a], file) {
            Err(e) => {
                return Err(e);
            },
            Ok(p) => {
                crate::text::push_chars(&mut acc, p.as_slice());
            },
        }
        k = k + 1;
    }
    Ok(crate::text::string_from_chars(acc.as_slice()))
}

/// Fills in the template `tokens` for `file`: see `replace_spec`.
pub fn replace_placeholders(tokens: Vec<Tok>, file: &ExpandedFile) -> (r: Result<Vec<Tok>, TemplateError>)
    ensures
        match replace_spec(toks_view(tokens@), file_view(*file)) {
            Ok(m) => r matches Ok(v) && toks_view(v@) == m,
            Err(e) => r == Err::<Vec<Tok>, TemplateError>(e),
        },
    decreases size(toks_view(tokens@)),
{
    let ghost v0 = toks_view(tokens@);
    let ghost fm = file_view(*file);
    let mut rest = tokens;
    let mut out: Vec<Tok> = Vec::new();
    assert(toks_view(out@) == Seq::<TokModel>::empty());
    assert(forall|r: Seq<TokModel>| Seq::<TokModel>::empty() + r == r);
    while rest.len() > 0
        invariant
            fm == file_view(*file),
            v0 == toks_view(tokens@),
            size(toks_view(rest@)) <= size(v0),
            replace_spec(v0, fm) == match replace_spec(toks_view(rest@), fm) {
                Ok(r) => Ok(toks_view(out@) + r),
                Err(e) => Err::<Seq<TokModel>, TemplateError>(e),
            },
        decreases rest@.len(),
    {
        let ghost rv = toks_view(rest@);
        let ghost rb = rest@;
        proof {
            lemma_toks_view_drop(rb);
            lemma_toks_view(rb);
        }
        let t = rest.remove(0);
        assert(rest@ == rb.drop_first());
        assert(size(toks_view(rest@)) <= size(rv));
        let ghost ob = toks_view(out@);
        let ghost out_seq = out@;
        match t {
            Tok::Ident(n) => {
                if is_word(&n, "__concat__") {
                    if rest.len() == 0 {
                        return Err(TemplateError::ConcatNeedsParens);
                    }
                    let is_paren = match &rest[0] {
                        Tok::Group(d, _) => *d == Delim::Paren,
                        _ => false,
                    };
                    proof {
                        lemma_toks_view_drop(rest@);
                    }
                    if !is_paren {
                        return Err(TemplateError::ConcatNeedsParens);
                    }
                    let ghost rb2 = rest@;
                    proof {
                        lemma_toks_view(rb2);
                    }
                    let g = rest.remove(0);
                    assert(size(toks_view(rest@)) <= size(toks_view(rb2)));
                    let inner = match g {
                        Tok::Group(_, inner) => inner,
                        _ => {
                            return Err(TemplateError::ConcatNeedsParens);
                        },
                    };
                    let v = match concat_exec(&inner, file) {
                        Err(e) => {
                            return Err(e);
                        },
                        Ok(v) => v,
                    };
                    let semi = rest.len() > 0 && match &rest[0] {
                        Tok::Punct(c) => *c == ';',
                        _ => false,
                    };
                    proof {
                        if rest@.len() > 0 {
                            lemma_toks_view_drop(rest@);
                        }
                    }
                    let ghost rb3 = rest@;
                    if semi {
                        rest.remove(0);
                        assert(size(toks_view(rest@)) <= size(toks_view(rb3)));
                    }
                    proof {
                        assert(rv.skip(2) == toks_view(rb2.drop_first()));
                        if semi {
                            assert(rv.skip(3) == toks_view(rest@));
                        } else {
                            assert(rv.skip(2) == toks_view(rest@));
                        }
                    }
                    out.push(Tok::Str(v));
                } else if is_word(&n, "__file_stem_ident__") {
                    out.push(Tok::Ident(file.stem.clone()));
                } else if is_word(&n, "__file_stem_str__") {
                    out.push(Tok::Str(file.stem.clone()));
                } else if is_word(&n, "__file_stem_pascal_ident__") {
                    out.push(Tok::Ident(file.pascal.clone()));
                } else if is_word(&n, "__file_str__") {
                    out.push(Tok::Str(file.name.clone()));
                } else if is_word(&n, "__file_json_value__") {
                    match &file.expr {
                        Some(e) => out.push(Tok::Expr(e.clone())),
                        None => {
                            return Err(TemplateError::JsonValueMissing);
                        },
                    }
                } else {
                    out.push(Tok::Ident(n));
                }
            },
            Tok::Group(d, inner) => {
                proof {
                    assert(size(toks_view(inner@)) < size(rv));
                    assert(size(toks_view(inner@)) < size(toks_view(tokens@)));
                }
                match replace_placeholders(inner, file) {
                    Err(e) => {
                        return Err(e);
                    },
                    Ok(ri) => {
                        out.push(Tok::Group(d, ri));
                    },
                }
            },
            other => {
                out.push(other);
            },
        }
        proof {
            lemma_toks_view_push(out@.drop_last(), out@.last());
            assert(out@.drop_last().push(out@.last()) == out@);
            assert(out@.drop_last() == out_seq);
            assert(toks_view(out@.drop_last()) == ob);
            match replace_spec(toks_view(rest@), fm) {
                Ok(r) => {
                    assert(ob + (seq![toks_view(out@).last()] + r) == toks_view(out@) + r);
                },
                Err(_) => {},
            }
        }
    }
    assert(toks_view(rest@) == Seq::<TokModel>::empty());
    assert(toks_view(out@) + Seq::<TokModel>::empty() == toks_view(out@));
    Ok(out)
}


/// Whether `s` holds `__repeat__`, at any depth.
pub open spec fn has_repeat(s: Seq<TokModel>) -> bool
    decreases s,
{
    if s.len() == 0 {
        false
    } else {
        (match s[0] {
            TokModel::Ident(n) => n == "__repeat__"@,
            TokModel::Group(_, inner) => has_repeat(inner),
            _ => false,
        }) || has_repeat(s.drop_first())
    }
}

/// The files as the template sees them.
pub open spec fn files_view(files: Seq<ExpandedFile>) -> Seq<FileModel> {
    files.map_values(|f: ExpandedFile| file_view(f))
}

/// `head` before what `rest` gives.
pub open spec fn append_result(head: Seq<TokModel>, rest: Result<Seq<TokModel>, TemplateError>) -> Result<
    Seq<TokModel>,
    TemplateError,
> {
    match rest {
        Ok(r) => Ok(head + r),
        Err(e) => Err(e),
    }
}

/// `inner` filled in for each file from the `k`-th on, one after another; the
/// first error met is the result.
pub open spec fn each_file(inner: Seq<TokModel>, files: Seq<FileModel>, k: int) -> Result<
    Seq<TokModel>,
    TemplateError,
>
    decreases files.len() - k,
{
    if k < 0 || k >= files.len() {
        Ok(seq![])
    } else {
        match replace_spec(inner, files[k]) {
            Err(e) => Err(e),
            Ok(r) => append_result(r, each_file(inner, files, k + 1)),
        }
    }
}

/// The tokens `s` with each `__repeat__(..)` replaced by its contents filled in
/// for every file (a `;` right after it is dropped); the rest is kept once.
pub open spec fn repeat_spec(s: Seq<TokModel>, files: Seq<FileModel>) -> Result<Seq<TokModel>, TemplateError>
    decreases s,
{
    if s.len() == 0 {
        Ok(seq![])
    } else {
        match s[0] {
            TokModel::Ident(n) => if n == "__repeat__"@ {
                if s.len() < 2 {
                    Err(TemplateError::RepeatNeedsParens)
                } else {
                    match s[1] {
                        TokModel::Group(Delim::Paren, inner) => match each_file(inner, files, 0) {
                            Err(e) => Err(e),
                            Ok(body) => append_result(
                                body,
                                repeat_spec(
                                    if s.len() > 2 && s[2] == TokModel::Punct(';') {
                                        s.skip(3)
                                    } else {
                                        s.skip(2)
                                    },
                                    files,
                                ),
                            ),
                        },
                        _ => Err(TemplateError::RepeatNeedsParens),
                    }
                }
            } else {
                prepend(s[0], repeat_spec(s.drop_first(), files))
            },
            TokModel::Group(d, inner) => match repeat_spec(inner, files) {
                Err(e) => Err(e),
                Ok(ri) => prepend(TokModel::Group(d, ri), repeat_spec(s.drop_first(), files)),
            },
            _ => prepend(s[0], repeat_spec(s.drop_first(), files)),
        }
    }
}

/// A template expanded over `files`: by its `__repeat__` parts where it has
/// any, else as a whole once per file.
pub open spec fn expand_spec(s: Seq<TokModel>, files: Seq<FileModel>) -> Result<Seq<TokModel>, TemplateError> {
    if has_repeat(s) {
        repeat_spec(s, files)
    } else {
        each_file(s, files, 0)
    }
}

proof fn lemma_size_elem(s: Seq<TokModel>, i: int)
    requires
        0 <= i < s.len(),
    ensures
        match s[i] {
            TokModel::Group(_, inner) => size(inner) < size(s),
            _ => true,
        },
    decreases s.len(),
{
    if i > 0 {
        lemma_size_elem(s.drop_first(), i - 1);
        assert(s.drop_first()[i - 1] == s[i]);
    }
}

proof fn lemma_toks_view_add(a: Seq<Tok>, b: Seq<Tok>)
    ensures
        toks_view(a + b) == toks_view(a) + toks_view(b),
{
    lemma_toks_view(a);
    lemma_toks_view(b);
    lemma_toks_view(a + b);
    assert(toks_view(a + b) =~= toks_view(a) + toks_view(b));
}

fn copy_toks(v: &Vec<Tok>) -> (r: Vec<Tok>)
    ensures
        toks_view(r@) == toks_view(v@),
    decreases size(toks_view(v@)),
{
    let ghost vv = toks_view(v@);
    proof {
        lemma_toks_view(v@);
    }
    let mut out: Vec<Tok> = Vec::new();
    let mut i: usize = 0;
    while i < v.len()
        invariant
            vv == toks_view(v@),
            vv.len() == v@.len(),
            forall|k: int| 0 <= k < v@.len() ==> vv[k] == tok_view(#[trigger] v@[k]),
            i <= v@.len(),
            out@.len() == i,
            forall|k: int| 0 <= k < i ==> tok_view(#[trigger] out@[k]) == vv[k],
        decreases v@.len() - i,
    {
        proof {
            lemma_size_elem(vv, i as int);
        }
        let t = match &v[i] {
            Tok::Ident(s) => Tok::Ident(s.clone()),
            Tok::Str(s) => Tok::Str(s.clone()),
            Tok::Lit(s) => Tok::Lit(s.clone()),
            Tok::Punct(c) => Tok::Punct(*c),
            Tok::Expr(s) => Tok::Expr(s.clone()),
            Tok::Group(d, inner) => Tok::Group(*d, copy_toks(inner)),
        };
        out.push(t);
        i = i + 1;
    }
    proof {
        lemma_toks_view_eq(out@, vv);
    }
    out
}

fn has_repeat_exec(v: &Vec<Tok>) -> (r: bool)
    ensures
        r == has_repeat(toks_view(v@)),
    decreases size(toks_view(v@)),
{
    let ghost vv = toks_view(v@);
    proof {
        lemma_toks_view(v@);
    }
    let mut i: usize = 0;
    assert(vv.subrange(0, vv.len() as int) == vv);
    while i < v.len()
        invariant
            vv == toks_view(v@),
            vv.len() == v@.len(),
            forall|k: int| 0 <= k < v@.len() ==> vv[k] == tok_view(#[trigger] v@[k]),
            i <= v@.len(),
            has_repeat(vv) == has_repeat(vv.subrange(i as int, vv.len() as int)),
        decreases v@.len() - i,
    {
        let ghost rest = vv.subrange(i as int, vv.len() as int);
        assert(rest[0] == vv[i as int]);
        assert(rest.drop_first() == vv.subrange(i + 1, vv.len() as int));
        proof {
            lemma_size_elem(vv, i as int);
        }
        let here = match &v[i] {
            Tok::Ident(n) => is_word(n, "__repeat__"),
            Tok::Group(_, inner) => has_repeat_exec(inner),
            _ => false,
        };
        if here {
            return true;
        }
        i = i + 1;
    }
    assert(vv.subrange(i as int, vv.len() as int) == Seq::<TokModel>::empty());
    false
}

fn each_file_exec(inner: &Vec<Tok>, files: &[ExpandedFile]) -> (r: Result<Vec<Tok>, TemplateError>)
    ensures
        match each_file(toks_view(inner@), files_view(files@), 0) {
            Ok(m) => r matches Ok(v) && toks_view(v@) == m,
            Err(e) => r == Err::<Vec<Tok>, TemplateError>(e),
        },
{
    let ghost iv = toks_view(inner@);
    let ghost fv = files_view(files@);
    let mut out: Vec<Tok> = Vec::new();
    let mut k: usize = 0;
    assert(toks_view(out@) == Seq::<TokModel>::empty());
    assert(forall|r: Seq<TokModel>| Seq::<TokModel>::empty() + r == r);
    while k < files.len()
        invariant
            iv == toks_view(inner@),
            fv == files_view(files@),
            fv.len() == files@.len(),
            k <= files@.len(),
            each_file(iv, fv, 0) == append_result(toks_view(out@), each_file(iv, fv, k as int)),
        decreases files@.len() - k,
    {
        assert(fv[k as int] == file_view(files@[k as int]));
        let copy = copy_toks(inner);
        let mut part = match replace_placeholders(copy, &files[k]) {
            Err(e) => {
                return Err(e);
            },
            Ok(p) => p,
        };
        let ghost before = out@;
        let ghost pv = part@;
        out.append(&mut part);
        proof {
            lemma_toks_view_add(before, pv);
            assert(out@ == before + pv);
            match each_file(iv, fv, k + 1) {
                Ok(t) => {
                    assert(toks_view(before) + (toks_view(pv) + t) == toks_view(out@) + t);
                },
                Err(_) => {},
            }
        }
        k = k + 1;
    }
    assert(toks_view(out@) + Seq::<TokModel>::empty() == toks_view(out@));
    Ok(out)
}

fn repeat_exec(tokens: Vec<Tok>, files: &[ExpandedFile]) -> (r: Result<Vec<Tok>, TemplateError>)
    ensures
        match repeat_spec(toks_view(tokens@), files_view(files@)) {
            Ok(m) => r matches Ok(v) && toks_view(v@) == m,
            Err(e) => r == Err::<Vec<Tok>, TemplateError>(e),
        },
    decreases size(toks_view(tokens@)),
{
    let ghost v0 = toks_view(tokens@);
    let ghost fv = files_view(files@);
    let mut rest = tokens;
    let mut out: Vec<Tok> = Vec::new();
    assert(toks_view(out@) == Seq::<TokModel>::empty());
    assert(forall|r: Seq<TokModel>| Seq::<TokModel>::empty() + r == r);
    while rest.len() > 0
        invariant
            fv == files_view(files@),
            v0 == toks_view(tokens@),
            size(toks_view(rest@)) <= size(v0),
            repeat_spec(v0, fv) == match repeat_spec(toks_view(rest@), fv) {
                Ok(r) => Ok(toks_view(out@) + r),
                Err(e) => Err::<Seq<TokModel>, TemplateError>(e),
            },
        decreases rest@.len(),
    {
        let ghost rv = toks_view(rest@);
        let ghost rb = rest@;
        proof {
            lemma_toks_view_drop(rb);
            lemma_toks_view(rb);
        }
        let t = rest.remove(0);
        assert(rest@ == rb.drop_first());
        assert(size(toks_view(rest@)) <= size(rv));
        let ghost ob = toks_view(out@);
        let ghost out_seq = out@;
        let is_repeat = match &t {
            Tok::Ident(n) => is_word(n, "__repeat__"),
            _ => false,
        };
        if is_repeat {
            if rest.len() == 0 {
                return Err(TemplateError::RepeatNeedsParens);
            }
            let is_paren = match &rest[0] {
                Tok::Group(d, _) => *d == Delim::Paren,
                _ => false,
            };
            proof {
                lemma_toks_view_drop(rest@);
            }
            if !is_paren {
                return Err(TemplateError::RepeatNeedsParens);
            }
            let ghost rb2 = rest@;
            proof {
                lemma_toks_view(rb2);
            }
            let g = rest.remove(0);
            assert(size(toks_view(rest@)) <= size(toks_view(rb2)));
            let inner = match g {
                Tok::Group(_, inner) => inner,
                _ => {
                    return Err(TemplateError::RepeatNeedsParens);
                },
            };
            let mut body = match each_file_exec(&inner, files) {
                Err(e) => {
                    return Err(e);
                },
                Ok(b) => b,
            };
            let semi = rest.len() > 0 && match &rest[0] {
                Tok::Punct(c) => *c == ';',
                _ => false,
            };
            proof {
                if rest@.len() > 0 {
                    lemma_toks_view_drop(rest@);
                }
            }
            let ghost rb3 = rest@;
            if semi {
                rest.remove(0);
                assert(size(toks_view(rest@)) <= size(toks_view(rb3)));
            }
            proof {
                assert(rv.skip(2) == toks_view(rb2.drop_first()));
                if semi {
                    assert(rv.skip(3) == toks_view(rest@));
                } else {
                    assert(rv.skip(2) == toks_view(rest@));
                }
            }
            let ghost bv = body@;
            out.append(&mut body);
            proof {
                lemma_toks_view_add(out_seq, bv);
                assert(out@ == out_seq + bv);
                match repeat_spec(toks_view(rest@), fv) {
                    Ok(r) => {
                        assert(ob + (toks_view(bv) + r) == toks_view(out@) + r);
                    },
                    Err(_) => {},
                }
            }
        } else {
            match t {
                Tok::Group(d, inner) => {
                    proof {
                        assert(size(toks_view(inner@)) < size(rv));
                    }
                    match repeat_exec(inner, files) {
                        Err(e) => {
                            return Err(e);
                        },
                        Ok(ri) => {
                            out.push(Tok::Group(d, ri));
                        },
                    }
                },
                other => {
                    out.push(other);
                },
            }
            proof {
                lemma_toks_view_push(out@.drop_last(), out@.last());
                assert(out@.drop_last().push(out@.last()) == out@);
                assert(out@.drop_last() == out_seq);
                assert(toks_view(out@.drop_last()) == ob);
                match repeat_spec(toks_view(rest@), fv) {
                    Ok(r) => {
                        assert(ob + (seq![toks_view(out@).last()] + r) == toks_view(out@) + r);
                    },
                    Err(_) => {},
                }
            }
        }
    }
    assert(toks_view(rest@) == Seq::<TokModel>::empty());
    assert(toks_view(out@) + Seq::<TokModel>::empty() == toks_view(out@));
    Ok(out)
}

/// Expands the template `tokens` over `files`: see `expand_spec`.
pub fn expand_template(tokens: Vec<Tok>, files: &[ExpandedFile]) -> (r: Result<Vec<Tok>, TemplateError>)
    ensures
        match expand_spec(toks_view(tokens@), files_view(files@)) {
            Ok(m) => r matches Ok(v) && toks_view(v@) == m,
            Err(e) => r == Err::<Vec<Tok>, TemplateError>(e),
        },
{
    if has_repeat_exec(&tokens) {
        repeat_exec(tokens, files)
    } else {
        each_file_exec(&tokens, files)
    }
}

} // verus!
