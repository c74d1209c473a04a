//! The `detour` attribute of a hooked function: which library and symbol it
//! hooks, what the generated wrapper is called and which calling convention it
//! uses.
use vstd::prelude::*;
use crate::hooks::{snake_case, snake_cased};
use crate::pe::{to_uppercase, unicode_upper};
use crate::text::{chars_of, push_str_chars, string_from_chars};
use crate::vfs_rules::chars_eq;

verus! {

/// One `key = value` argument of a `detour` attribute: the key, the value's
/// source text, and the value when it is a string literal or a `bool` literal.
pub struct DetourArg {
    pub key: String,
    pub text: String,
    pub string: Option<String>,
    pub boolean: Option<bool>,
}

/// An argument as plain values.
pub struct ArgModel {
    pub key: Seq<char>,
    pub text: Seq<char>,
    pub string: Option<Seq<char>>,
    pub boolean: Option<bool>,
}

pub open spec fn opt_view(o: Option<String>) -> Option<Seq<char>> {
    match o {
        Some(s) => Some(s@),
        None => None,
    }
}

pub open spec fn arg_view(a: DetourArg) -> ArgModel {
    ArgModel { key: a.key@, text: a.text@, string: opt_view(a.string), boolean: a.boolean }
}

pub open spec fn args_view(s: Seq<DetourArg>) -> Seq<ArgModel> {
    s.map_values(|a: DetourArg| arg_view(a))
}

/// Why a `detour` attribute was refused. `index` is the position of the
/// argument at fault.
#[derive(Clone, Copy, Debug, PartialEq, Eq, Structural)]
pub enum DetourAttrError {
    /// The key was given before.
    Duplicate { index: usize },
    /// The key is none of `dll`, `symbol`, `export`, `fallback`,
    /// `calling_convention` and `enable_hook_guard`.
    Unknown { index: usize },
    /// The key takes a string literal and the value is none.
    NotString { index: usize },
    /// `enable_hook_guard` takes `"true"` or `"false"` (or the `bool`
    /// literal) and the value is neither.
    NotBool { index: usize },
    /// No `dll` was given.
    MissingDll,
    /// No `symbol` was given.
    MissingSymbol,
}

/// A parsed `detour` attribute. `fallback` is the source text of the
/// expression returned when the hook is not in place.
pub struct DetourAttr {
    pub dll: String,
    pub symbol: String,
    pub export: Option<String>,
    pub fallback: Option<String>,
    pub calling_convention: Option<String>,
    pub enable_hook_guard: bool,
}

/// A parsed attribute as plain values.
pub struct AttrModel {
    pub dll: Seq<char>,
    pub symbol: Seq<char>,
    pub export: Option<Seq<char>>,
    pub fallback: Option<Seq<char>>,
    pub calling_convention: Option<Seq<char>>,
    pub enable_hook_guard: bool,
}

pub open spec fn attr_view(a: DetourAttr) -> AttrModel {
    AttrModel {
        dll: a.dll@,
        symbol: a.symbol@,
        export: opt_view(a.export),
        fallback: opt_view(a.fallback),
        calling_convention: opt_view(a.calling_convention),
        enable_hook_guard: a.enable_hook_guard,
    }
}

/// What the arguments read so far have given, key by key.
pub struct Slots {
    pub dll: Option<Seq<char>>,
    pub symbol: Option<Seq<char>>,
    pub export: Option<Seq<char>>,
    pub fallback: Option<Seq<char>>,
    pub cc: Option<Seq<char>>,
    pub guard: Option<bool>,
}

/// A key that takes a string literal, already `present` or not, given by the
/// argument `a` at `i`.
pub open spec fn string_slot(present: bool, a: ArgModel, i: int) -> Result<Seq<char>, DetourAttrError> {
    if present {
        Err(DetourAttrError::Duplicate { index: i as usize })
    } else {
        match a.string {
            Some(v) => Ok(v),
            None => Err(DetourAttrError::NotString { index: i as usize }),
        }
    }
}

/// The value of `enable_hook_guard`: the string `"true"` or `"false"`, or a
/// `bool` literal.
pub open spec fn guard_value(a: ArgModel) -> Option<bool> {
    match a.string {
        Some(v) => if v == "true"@ {
            Some(true)
        } else if v == "false"@ {
            Some(false)
        } else {
            None
        },
        None => a.boolean,
    }
}

/// The slots after the argument `a` at `i`.
pub open spec fn step(s: Slots, a: ArgModel, i: int) -> Result<Slots, DetourAttrError> {
    if a.key == "dll"@ {
        match string_slot(s.dll is Some, a, i) {
            Ok(v) => Ok(Slots { dll: Some(v), symbol: s.symbol, export: s.export, fallback: s.fallback, cc: s.cc, guard: s.guard }),
            Err(e) => Err(e),
        }
    } else if a.key == "symbol"@ {
        match string_slot(s.symbol is Some, a, i) {
            Ok(v) => Ok(Slots { dll: s.dll, symbol: Some(v), export: s.export, fallback: s.fallback, cc: s.cc, guard: s.guard }),
            Err(e) => Err(e),
        }
    } else if a.key == "export"@ {
        match string_slot(s.export is Some, a, i) {
            Ok(v) => Ok(Slots { dll: s.dll, symbol: s.symbol, export: Some(v), fallback: s.fallback, cc: s.cc, guard: s.guard }),
            Err(e) => Err(e),
        }
    } else if a.key == "fallback"@ {
        if s.fallback is Some {
            Err(DetourAttrError::Duplicate { index: i as usize })
        } else {
            Ok(Slots { dll: s.dll, symbol: s.symbol, export: s.export, fallback: Some(a.text), cc: s.cc, guard: s.guard })
        }
    } else if a.key == "calling_convention"@ {
        match string_slot(s.cc is Some, a, i) {
            Ok(v) => Ok(Slots { dll: s.dll, symbol: s.symbol, export: s.export, fallback: s.fallback, cc: Some(v), guard: s.guard }),
            Err(e) => Err(e),
        }
    } else if a.key == "enable_hook_guard"@ {
        if s.guard is Some {
            Err(DetourAttrError::Duplicate { index: i as usize })
        } else {
            match guard_value(a) {
                Some(b) => Ok(Slots { dll: s.dll, symbol: s.symbol, export: s.export, fallback: s.fallback, cc: s.cc, guard: Some(b) }),
                None => Err(DetourAttrError::NotBool { index: i as usize }),
            }
        }
    } else {
        Err(DetourAttrError::Unknown { index: i as usize })
    }
}

/// The slots after the first `n` arguments; the first refusal is the result.
pub open spec fn slots_after(args: Seq<ArgModel>, n: int) -> Result<Slots, DetourAttrError>
    decreases n,
{
    if n <= 0 {
        Ok(Slots { dll: None, symbol: None, export: None, fallback: None, cc: None, guard: None })
    } else {
        match slots_after(args, n - 1) {
            Ok(s) => step(s, args[n - 1], n - 1),
            Err(e) => Err(e),
        }
    }
}

/// The attribute that the arguments give: `dll` and `symbol` are required,
/// `enable_hook_guard` is `true` unless given.
pub open spec fn detour_attr_spec(args: Seq<ArgModel>) -> Result<AttrModel, DetourAttrError> {
    match slots_after(args, args.len() as int) {
        Err(e) => Err(e),
        Ok(s) => if s.dll is None {
            Err(DetourAttrError::MissingDll)
        } else if s.symbol is None {
            Err(DetourAttrError::MissingSymbol)
        } else {
            Ok(AttrModel {
                dll: s.dll->0,
                symbol: s.symbol->0,
                export: s.export,
                fallback: s.fallback,
                calling_convention: s.cc,
                enable_hook_guard: match s.guard {
                    Some(b) => b,
                    None => true,
                },
            })
        },
    }
}

fn key_is(a: &DetourArg, k: &str) -> (r: bool)
    ensures
        r == (a.key@ == k@),
{
    let x = chars_of(a.key.as_str());
    let y = chars_of(k);
    chars_eq(x.as_slice(), y.as_slice())
}

fn guard_value_exec(a: &DetourArg) -> (r: Option<bool>)
    ensures
        r == guard_value(arg_view(*a)),
{
    match &a.string {
        Some(v) => {
            let x = chars_of(v.as_str());
            let t = chars_of("true");
            let f = chars_of("false");
            if chars_eq(x.as_slice(), t.as_slice()) {
                Some(true)
            } else if chars_eq(x.as_slice(), f.as_slice()) {
                Some(false)
            } else {
                None
            }
        },
        None => a.boolean,
    }
}

fn fill_string(slot: &mut Option<String>, a: &DetourArg, i: usize) -> (r: Result<(), DetourAttrError>)
    ensures
        match string_slot(old(slot).is_some(), arg_view(*a), i as int) {
            Ok(v) => r is Ok && opt_view(*final(slot)) == Some(v),
            Err(e) => r == Err::<(), DetourAttrError>(e),
        },
{
    if slot.is_some() {
        return Err(DetourAttrError::Duplicate { index: i });
    }
    match &a.string {
        Some(v) => {
            *slot = Some(v.clone());
            Ok(())
        },
        None => Err(DetourAttrError::NotString { index: i }),
    }
}

proof fn lemma_slots_stop(args: Seq<ArgModel>, n: int)
    requires
        0 <= n <= args.len(),
        slots_after(args, n) is Err,
    ensures
        slots_after(args, args.len() as int) == slots_after(args, n),
    decreases args.len() - n,
{
    if n < args.len() {
        assert(slots_after(args, n + 1) == slots_after(args, n));
        lemma_slots_stop(args, n + 1);
    }
}

/// Reads the arguments of a `detour` attribute: see `detour_attr_spec`.
pub fn parse_detour_args(args: &[DetourArg]) -> (r: Result<DetourAttr, DetourAttrError>)
    ensures
        match detour_attr_spec(args_view(args@)) {
            Ok(m) => r matches Ok(a) && attr_view(a) == m,
            Err(e) => r == Err::<DetourAttr, DetourAttrError>(e),
        },
{
    let ghost av = args_view(args@);
    let mut dll: Option<String> = None;
    let mut symbol: Option<String> = None;
    let mut export: Option<String> = None;
    let mut fallback: Option<String> = None;
    let mut cc: Option<String> = None;
    let mut guard: Option<bool> = None;
    let mut i: usize = 0;
    while i < args.len()
        invariant
            av == args_view(args@),
            av.len() == args@.len(),
            i <= args@.len(),
            slots_after(av, i as int) == Ok::<Slots, DetourAttrError>(
                Slots {
                    dll: opt_view(dll),
                    symbol: opt_view(symbol),
                    export: opt_view(export),
                    fallback: opt_view(fallback),
                    cc: opt_view(cc),
                    guard: guard,
                },
            ),
        decreases args@.len() - i,
    {
        let a = &args[i];
        assert(av[i as int] == arg_view(*a));
        if key_is(a, "dll") {
            match fill_string(&mut dll, a, i) {
                Err(e) => {
                    proof {
                        lemma_slots_stop(av, i + 1);
                    }
                    return Err(e);
                },
                Ok(()) => {},
            }
        } else if key_is(a, "symbol") {
            match fill_string(&mut symbol, a, i) {
                Err(e) => {
                    proof {
                        lemma_slots_stop(av, i + 1);
                    }
                    return Err(e);
                },
                Ok(()) => {},
            }
        } else if key_is(a, "export") {
            match fill_string(&mut export, a, i) {
                Err(e) => {
                    proof {
                        lemma_slots_stop(av, i + 1);
                    }
                    return Err(e);
                },
                Ok(()) => {},
            }
        } else if key_is(a, "fallback") {
            if fallback.is_some() {
                proof {
                    lemma_slots_stop(av, i + 1);
                }
                return Err(DetourAttrError::Duplicate { index: i });
            }
            fallback = Some(a.text.clone());
        } else if key_is(a, "calling_convention") {
            match fill_string(&mut cc, a, i) {
                Err(e) => {
                    proof {
                        lemma_slots_stop(av, i + 1);
                    }
                    return Err(e);
                },
                Ok(()) => {},
            }
        } else if key_is(a, "enable_hook_guard") {
            if guard.is_some() {
                proof {
                    lemma_slots_stop(av, i + 1);
                }
                return Err(DetourAttrError::Duplicate { index: i });
            }
            match guard_value_exec(a) {
                Some(b) => guard = Some(b),
                None => {
                    proof {
                        lemma_slots_stop(av, i + 1);
                    }
                    return Err(DetourAttrError::NotBool { index: i });
                },
            }
        } else {
            proof {
                lemma_slots_stop(av, i + 1);
            }
            return Err(DetourAttrError::Unknown { index: i });
        }
        i = i + 1;
    }
    let d = match dll {
        None => return Err(DetourAttrError::MissingDll),
        Some(d) => d,
    };
    let s = match symbol {
        None => return Err(DetourAttrError::MissingSymbol),
        Some(s) => s,
    };
    Ok(DetourAttr {
        dll: d,
        symbol: s,
        export: export,
        fallback: fallback,
        calling_convention: cc,
        enable_hook_guard: match guard {
            Some(b) => b,
            None => true,
        },
    })
}

/// Why a `detour` attribute does not fit a plain function.
#[derive(Clone, Copy, Debug, PartialEq, Eq, Structural)]
pub enum DetourFnError {
    /// A plain function keeps its own name: `export` is refused.
    ExportNotAllowed,
    /// A plain function keeps its own ABI: `calling_convention` is refused.
    ConventionNotAllowed,
}

impl DetourAttr {
    /// The name of the generated wrapper: `export` where it is given, else the
    /// name of the method.
    pub fn export_name(&self, method: &str) -> (r: String)
        ensures
            r@ == match opt_view(self.export) {
                Some(e) => e,
                None => method@,
            },
    {
        match &self.export {
            Some(e) => e.clone(),
            None => {
                let v = chars_of(method);
                string_from_chars(v.as_slice())
            },
        }
    }

    /// The calling convention of the wrapper: the one given, else `system`.
    pub fn abi(&self) -> (r: String)
        ensures
            r@ == match opt_view(self.calling_convention) {
                Some(c) => c,
                None => "system"@,
            },
    {
        match &self.calling_convention {
            Some(c) => c.clone(),
            None => {
                let v = chars_of("system");
                string_from_chars(v.as_slice())
            },
        }
    }

    /// Whether the attribute fits a plain function rather than a method of a
    /// hook trait: neither `export` nor `calling_convention` may be given.
    pub fn check_for_fn(&self) -> (r: Result<(), DetourFnError>)
        ensures
            r == (if self.export is Some {
                Err(DetourFnError::ExportNotAllowed)
            } else if self.calling_convention is Some {
                Err(DetourFnError::ConventionNotAllowed)
            } else {
                Ok(())
            }),
    {
        if self.export.is_some() {
            Err(DetourFnError::ExportNotAllowed)
        } else if self.calling_convention.is_some() {
            Err(DetourFnError::ConventionNotAllowed)
        } else {
            Ok(())
        }
    }
}

/// The name of the static that holds the hook of function `ident`: `HOOK_`
/// and the name in snake_case, upper-cased.
pub fn detour_static_name(ident: &str) -> (r: String)
    ensures
        r@ == "HOOK_"@ + unicode_upper(snake_cased(ident@)),
{
    let snake = snake_case(ident);
    let upper = to_uppercase(snake.as_str());
    let mut out: Vec<char> = Vec::new();
    push_str_chars(&mut out, "HOOK_");
    push_str_chars(&mut out, upper.as_str());
    string_from_chars(out.as_slice())
}

} // verus!
