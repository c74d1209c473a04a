//! Reading executable images: section lookup, short-jump chains at an entry
//! point, named exports and the module-definition file that re-exports them.
use vstd::prelude::*;
use crate::constants::const_ident;
use crate::hooks::snake_case;
use crate::text::{chars_of, push_chars, push_str_chars, push_decimal, decimal, string_from_chars, last_index, lemma_last_index};

verus! {

/// A section of an image: where it lies in memory (relative to the image
/// base) and where its raw data lies in the file.
#[derive(Clone, Copy, Debug, PartialEq, Eq, Structural)]
pub struct Section {
    pub virtual_address: u32,
    pub virtual_size: u32,
    pub size_of_raw_data: u32,
    pub pointer_to_raw_data: u32,
}

impl Section {
    /// A section from its four fields.
    pub fn from_fields(virtual_address: u32, virtual_size: u32, size_of_raw_data: u32, pointer_to_raw_data: u32) -> (r: Section)
        ensures
            r == (Section { virtual_address, virtual_size, size_of_raw_data, pointer_to_raw_data }),
    {
        Section { virtual_address, virtual_size, size_of_raw_data, pointer_to_raw_data }
    }
}

/// Why an address could not be mapped to a file offset.
#[derive(Clone, Copy, Debug, PartialEq, Eq, Structural)]
pub enum RvaError {
    /// The address lies in section `index` beyond the section's raw data.
    BeyondRawData { index: usize },
    /// No section holds the address.
    NoSection,
}

/// The end of a section in memory, wrapping at 2^32.
pub open spec fn section_end(s: Section) -> int {
    (s.virtual_address + s.virtual_size) % 0x1_0000_0000
}

/// Section `s` holds address `rva`.
pub open spec fn holds(s: Section, rva: u32) -> bool {
    s.virtual_address <= rva && rva < section_end(s)
}

/// The index of the first section, from `i` on, that holds `rva`.
pub open spec fn section_of(sections: Seq<Section>, rva: u32, i: int) -> Option<int>
    decreases sections.len() - i,
{
    if i < 0 || i >= sections.len() {
        None
    } else if holds(sections[i], rva) {
        Some(i)
    } else {
        section_of(sections, rva, i + 1)
    }
}

/// The file offset of address `rva`: found in the first section that holds it.
pub open spec fn rva_offset(sections: Seq<Section>, rva: u32) -> Result<u64, RvaError> {
    match section_of(sections, rva, 0) {
        None => Err(RvaError::NoSection),
        Some(i) => {
            let s = sections[i];
            let within = rva - s.virtual_address;
            if within >= s.size_of_raw_data {
                Err(RvaError::BeyondRawData { index: i as usize })
            } else {
                Ok((s.pointer_to_raw_data + within) as u64)
            }
        },
    }
}

/// The file offset at which the data of address `rva` lies.
pub fn rva_to_file_offset(sections: &[Section], rva: u32) -> (r: Result<u64, RvaError>)
    ensures
        r == rva_offset(sections@, rva),
{
    let mut i: usize = 0;
    while i < sections.len()
        invariant
            i <= sections@.len(),
            section_of(sections@, rva, 0) == section_of(sections@, rva, i as int),
        decreases sections@.len() - i,
    {
        let s = sections[i];
        let end: u64 = (s.virtual_address as u64 + s.virtual_size as u64) % 0x1_0000_0000;
        if s.virtual_address <= rva && (rva as u64) < end {
            let within: u32 = rva - s.virtual_address;
            if within >= s.size_of_raw_data {
                return Err(RvaError::BeyondRawData { index: i });
            }
            return Ok(s.pointer_to_raw_data as u64 + within as u64);
        }
        i = i + 1;
    }
    Err(RvaError::NoSection)
}

/// Why a chain of short jumps could not be followed.
#[derive(Clone, Copy, Debug, PartialEq, Eq, Structural)]
pub enum JumpError {
    /// The address `rva` lies in no section's raw data.
    NoSection { rva: u32 },
    /// The file offset lies beyond the end of the file.
    BeyondFile { offset: u64 },
    /// The chain is longer than eight jumps.
    TooLong,
}

/// The target of a two-byte short jump at `rva` with displacement `rel`,
/// wrapping at 2^32.
pub open spec fn short_target(rva: u32, rel: i8) -> u32 {
    ((rva + 2 + rel) % 0x1_0000_0000) as u32
}

/// Follows at most `steps` short jumps (`EB rel8`) from `rva`.  `None` stands
/// for a jump whose displacement byte lies past the end of the file.
pub open spec fn follow_jumps(bytes: Seq<u8>, sections: Seq<Section>, rva: u32, steps: nat) -> Option<
    Result<u32, JumpError>,
>
    decreases steps,
{
    if steps == 0 {
        Some(Err(JumpError::TooLong))
    } else {
        match rva_offset(sections, rva) {
            Err(_) => Some(Err(JumpError::NoSection { rva })),
            Ok(off) => if off >= bytes.len() {
                Some(Err(JumpError::BeyondFile { offset: off }))
            } else if bytes[off as int] == 0xEB {
                if off + 1 >= bytes.len() {
                    None
                } else {
                    follow_jumps(
                        bytes,
                        sections,
                        short_target(rva, bytes[off + 1] as i8),
                        (steps - 1) as nat,
                    )
                }
            } else {
                Some(Ok(rva))
            },
        }
    }
}

fn jump_target(rva: u32, rel: i8) -> (r: u32)
    ensures
        r == short_target(rva, rel),
{
    let v: i64 = rva as i64 + 2 + rel as i64;
    if v < 0 {
        (v + 0x1_0000_0000) as u32
    } else if v >= 0x1_0000_0000 {
        (v - 0x1_0000_0000) as u32
    } else {
        v as u32
    }
}

/// Whether following the short jumps from `entry_rva` stays within the file:
/// no jump's displacement byte lies past its end.
pub fn short_jumps_in_file(bytes: &[u8], sections: &[Section], entry_rva: u32) -> (r: bool)
    ensures
        r == follow_jumps(bytes@, sections@, entry_rva, 8) is Some,
{
    let mut rva = entry_rva;
    let mut left: usize = 8;
    while left > 0
        invariant
            left <= 8,
            (follow_jumps(bytes@, sections@, entry_rva, 8) is Some) == (follow_jumps(
                bytes@,
                sections@,
                rva,
                left as nat,
            ) is Some),
        decreases left,
    {
        match rva_to_file_offset(sections, rva) {
            Err(_) => {
                return true;
            },
            Ok(off) => {
                if off >= bytes.len() as u64 {
                    return true;
                }
                let o = off as usize;
                if bytes[o] == 0xEB {
                    if o + 1 >= bytes.len() {
                        return false;
                    }
                    let rel = bytes[o + 1] as i8;
                    rva = jump_target(rva, rel);
                    left = left - 1;
                } else {
                    return true;
                }
            },
        }
    }
    true
}

/// The address that a chain of short jumps starting at `entry_rva` leads to:
/// at most eight jumps are followed.
pub fn resolve_short_jumps(bytes: &[u8], sections: &[Section], entry_rva: u32) -> (r: Result<u32, JumpError>)
    requires
        follow_jumps(bytes@, sections@, entry_rva, 8) is Some,
    ensures
        follow_jumps(bytes@, sections@, entry_rva, 8) == Some(r),
{
    let mut rva = entry_rva;
    let mut left: usize = 8;
    while left > 0
        invariant
            left <= 8,
            follow_jumps(bytes@, sections@, entry_rva, 8) == follow_jumps(
                bytes@,
                sections@,
                rva,
                left as nat,
            ),
            follow_jumps(bytes@, sections@, rva, left as nat) is Some,
        decreases left,
    {
        match rva_to_file_offset(sections, rva) {
            Err(_) => {
                return Err(JumpError::NoSection { rva });
            },
            Ok(off) => {
                if off >= bytes.len() as u64 {
                    return Err(JumpError::BeyondFile { offset: off });
                }
                let o = off as usize;
                if bytes[o] == 0xEB {
                    let rel = bytes[o + 1] as i8;
                    rva = jump_target(rva, rel);
                    left = left - 1;
                } else {
                    return Ok(rva);
                }
            },
        }
    }
    Err(JumpError::TooLong)
}

/// The table of exports: the ordinal base, the ordinal of each export relative
/// to it, and each export's name where it has one.
pub struct ExportTable {
    pub ordinal_base: u32,
    pub ordinals: Vec<u16>,
    pub names: Vec<Option<String>>,
}

/// Why the export table is unusable.
#[derive(Clone, Copy, Debug, PartialEq, Eq, Structural)]
pub enum ExportError {
    /// The ordinal table and the export list differ in length.
    Corrupt { ordinals: usize, exports: usize },
    /// No export has a name.
    NoNamedExports,
}

/// `base + rel`, held at `u32::MAX`.
pub open spec fn saturating_ordinal(base: u32, rel: u16) -> u32 {
    if base + rel > u32::MAX {
        u32::MAX
    } else {
        (base + rel) as u32
    }
}

/// The named exports among the first `n`, with their absolute ordinals.
pub open spec fn named_from(t_base: u32, ordinals: Seq<u16>, names: Seq<Option<String>>, n: nat) -> Seq<
    (Seq<char>, u32),
>
    decreases n,
{
    if n == 0 {
        seq![]
    } else {
        let prev = named_from(t_base, ordinals, names, (n - 1) as nat);
        match names[n - 1] {
            Some(name) => prev.push((name@, saturating_ordinal(t_base, ordinals[n - 1]))),
            None => prev,
        }
    }
}

/// The named exports among the first `n`, with their absolute ordinals, the
/// names given as plain values.
pub open spec fn named_from_views(t_base: u32, ordinals: Seq<u16>, names: Seq<Option<Seq<char>>>, n: nat) -> Seq<
    (Seq<char>, u32),
>
    decreases n,
{
    if n == 0 {
        seq![]
    } else {
        let prev = named_from_views(t_base, ordinals, names, (n - 1) as nat);
        match names[n - 1] {
            Some(name) => prev.push((name, saturating_ordinal(t_base, ordinals[n - 1]))),
            None => prev,
        }
    }
}

/// The views of (name, ordinal) pairs.
pub open spec fn pair_views(v: Seq<(String, u32)>) -> Seq<(Seq<char>, u32)> {
    v.map_values(|p: (String, u32)| (p.0@, p.1))
}

/// The named exports of an export table, in table order, each with its
/// absolute ordinal (the base plus its relative ordinal, held at `u32::MAX`).
/// A table with no named export is refused.
pub fn named_exports(table: &ExportTable) -> (r: Result<Vec<(String, u32)>, ExportError>)
    ensures
        table.ordinals@.len() != table.names@.len() ==> r == Err::<Vec<(String, u32)>, ExportError>(
            ExportError::Corrupt {
                ordinals: table.ordinals@.len() as usize,
                exports: table.names@.len() as usize,
            },
        ),
        table.ordinals@.len() == table.names@.len() ==> ({
            let named = named_from(
                table.ordinal_base,
                table.ordinals@,
                table.names@,
                table.names@.len(),
            );
            if named.len() == 0 {
                r == Err::<Vec<(String, u32)>, ExportError>(ExportError::NoNamedExports)
            } else {
                r matches Ok(v) && pair_views(v@) == named
            }
        }),
{
    if table.ordinals.len() != table.names.len() {
        return Err(
            ExportError::Corrupt { ordinals: table.ordinals.len(), exports: table.names.len() },
        );
    }
    let mut out: Vec<(String, u32)> = Vec::new();
    let mut i: usize = 0;
    assert(pair_views(out@) == Seq::<(Seq<char>, u32)>::empty());
    while i < table.names.len()
        invariant
            i <= table.names@.len(),
            table.ordinals@.len() == table.names@.len(),
            pair_views(out@) == named_from(table.ordinal_base, table.ordinals@, table.names@, i as nat),
        decreases table.names@.len() - i,
    {
        match &table.names[i] {
            Some(name) => {
                let rel = table.ordinals[i];
                let ord = table.ordinal_base.saturating_add(rel as u32);
                let ghost before = pair_views(out@);
                out.push((name.clone(), ord));
                assert(pair_views(out@) == before.push((name@, ord)));
            },
            None => {},
        }
        i = i + 1;
    }
    if out.len() == 0 {
        return Err(ExportError::NoNamedExports);
    }
    Ok(out)
}

/// The stem of a file name: the part before its last `.`, or the whole name
/// where it has no `.` after its first character.
pub open spec fn file_stem(name: Seq<char>) -> Seq<char> {
    match last_index(name, '.') {
        Some(i) => if i == 0 {
            name
        } else {
            name.take(i)
        },
        None => name,
    }
}

/// The stem of a file name.
pub fn library_name(file_name: &str) -> (r: String)
    ensures
        r@ == file_stem(file_name@),
{
    let chars = chars_of(file_name);
    proof {
        lemma_last_index(chars@, '.');
    }
    let mut i: usize = chars.len();
    while i > 0 && chars[i - 1] != '.'
        invariant
            i <= chars@.len(),
            forall|j: int| i <= j < chars@.len() ==> chars@[j] != '.',
        decreases i,
    {
        i = i - 1;
    }
    if i <= 1 {
        proof {
            if i == 1 {
                assert(last_index(chars@, '.') == Some(0int)) by {
                    lemma_last_index(chars@, '.');
                }
            } else {
                assert(last_index(chars@, '.') is None) by {
                    lemma_last_index(chars@, '.');
                }
            }
        }
        return string_from_chars(&chars);
    }
    proof {
        assert(chars@[i - 1] == '.');
        lemma_last_index(chars@, '.');
        assert(last_index(chars@, '.') == Some(i - 1));
    }
    let mut stem: Vec<char> = Vec::new();
    let mut k: usize = 0;
    while k < i - 1
        invariant
            k <= i - 1,
            i <= chars@.len(),
            stem@ == chars@.take(k as int),
        decreases i - 1 - k,
    {
        stem.push(chars[k]);
        k = k + 1;
        assert(stem@ == chars@.take(k as int));
    }
    string_from_chars(&stem)
}

/// The export lines of a module-definition file: `    name @ordinal`.
pub open spec fn def_lines(exports: Seq<(Seq<char>, u32)>) -> Seq<char>
    decreases exports.len(),
{
    if exports.len() == 0 {
        seq![]
    } else {
        let e = exports.last();
        def_lines(exports.drop_last()) + "    "@ + e.0 + " @"@ + decimal(e.1 as nat) + seq!['\n']
    }
}

/// The module-definition file that names the library and lists its exports.
pub open spec fn def_contents(library: Seq<char>, exports: Seq<(Seq<char>, u32)>) -> Seq<char> {
    "LIBRARY "@ + library + "\n\nEXPORTS\n"@ + def_lines(exports)
}

/// The text of the module-definition file for `library` with `exports`.
pub fn def_file_contents(library: &str, exports: &[(String, u32)]) -> (r: String)
    ensures
        r@ == def_contents(library@, pair_views(exports@)),
{
    let mut out: Vec<char> = Vec::new();
    push_str_chars(&mut out, "LIBRARY ");
    push_str_chars(&mut out, library);
    push_str_chars(&mut out, "\n\nEXPORTS\n");
    let ghost head = out@;
    let mut i: usize = 0;
    assert(pair_views(exports@).take(0) == Seq::<(Seq<char>, u32)>::empty());
    while i < exports.len()
        invariant
            i <= exports@.len(),
            out@ == head + def_lines(pair_views(exports@).take(i as int)),
        decreases exports@.len() - i,
    {
        let ghost before = out@;
        push_str_chars(&mut out, "    ");
        push_str_chars(&mut out, exports[i].0.as_str());
        push_str_chars(&mut out, " @");
        push_decimal(&mut out, exports[i].1 as usize);
        out.push('\n');
        let ghost pv = pair_views(exports@);
        assert(pv.take(i + 1).drop_last() == pv.take(i as int));
        assert(pv.take(i + 1).last() == (exports@[i as int].0@, exports@[i as int].1));
        assert(out@ == before + "    "@ + exports@[i as int].0@ + " @"@ + decimal(
            exports@[i as int].1 as nat,
        ) + seq!['\n']);
        i = i + 1;
    }
    assert(pair_views(exports@).take(i as int) == pair_views(exports@));
    string_from_chars(&out)
}

/// The Unicode upper-case form of a string, as `str::to_uppercase` makes it.
pub uninterp spec fn unicode_upper(s: Seq<char>) -> Seq<char>;

/// `str::to_uppercase`: the claim is only that the result is a function of the
/// string.
#[verifier::external_body]
pub(crate) fn to_uppercase(s: &str) -> (r: String)
    ensures
        r@ == unicode_upper(s@),
{
    s.to_uppercase()
}

/// The name of the static that holds the address of export `export`: `ADDR_`
/// and the export's snake_case name in upper case, with every character that
/// is not an ASCII letter or digit made `_`.
pub fn rust_static_name_from_export(export: &str) -> (r: String)
    ensures
        r@ == "ADDR_"@ + crate::constants::ident_of(unicode_upper(crate::hooks::snake_cased(export@))),
{
    let snake = snake_case(export);
    let upper = to_uppercase(snake.as_str());
    let ident = const_ident(upper.as_str());
    let mut out: Vec<char> = Vec::new();
    push_str_chars(&mut out, "ADDR_");
    push_str_chars(&mut out, ident.as_str());
    string_from_chars(&out)
}

/// What the entry-point hook reads of an executable image: its machine type,
/// its image base and entry point (where it has an optional header), and its
/// sections.
pub struct PeImage {
    pub machine: u16,
    pub optional: Option<(u64, u32)>,
    pub sections: Vec<Section>,
}

/// The machine type of 32-bit x86 images.
pub const MACHINE_X86: u16 = 0x14c;

/// The machine type of 64-bit x86 images.
pub const MACHINE_X86_64: u16 = 0x8664;

/// Decoding one 32-bit x86 instruction at the start of `code`, placed at
/// address `ip`: whether it is valid, its length, whether execution falls
/// through to the next instruction, and whether it has an instruction-pointer
/// relative memory operand.
pub uninterp spec fn x86_decoded(code: Seq<u8>, ip: u64) -> (bool, nat, bool, bool);

/// `iced_x86::Decoder::decode` in 32-bit mode: the claim is only that the four
/// answers are a function of the bytes and the address.
#[verifier::external_body]
fn decode_x86(code: &[u8], ip: u64) -> (r: (bool, usize, bool, bool))
    ensures
        (r.0, r.1 as nat, r.2, r.3) == x86_decoded(code@, ip),
{
    let instr = iced_x86::Decoder::with_ip(32, code, ip, iced_x86::DecoderOptions::NONE).decode();
    (
        !instr.is_invalid(),
        instr.len(),
        instr.flow_control() == iced_x86::FlowControl::Next,
        instr.is_ip_rel_memory_operand(),
    )
}

/// Why the entry point cannot be hooked.
#[derive(Clone, Copy, Debug, PartialEq, Eq, Structural)]
pub enum EntryHookError {
    /// The image is a 64-bit one.
    X64Unsupported,
    /// The image is for another processor.
    UnsupportedMachine { machine: u16 },
    /// The image has no optional header.
    NoOptionalHeader,
    /// The chain of short jumps at the entry point could not be followed.
    ShortJump(JumpError),
    /// The hooked address has no file offset.
    Offset(RvaError),
    /// The instruction at this offset from the hooked address is not valid.
    InvalidInstruction { offset: usize },
    /// The instruction at this offset cannot be moved elsewhere.
    NotRelocatable { offset: usize },
}

/// `a + b`, wrapping at 2^64.
pub open spec fn wrap64(a: u64, b: nat) -> u64 {
    ((a + b) % 0x1_0000_0000_0000_0000) as u64
}

/// How many bytes of whole instructions, from offset `total` of `code` on,
/// must move so that at least five bytes are freed (room for a jump); at most
/// `fuel` instructions more are read.
pub open spec fn relocate_from(code: Seq<u8>, ip: u64, total: nat, fuel: nat) -> Result<nat, EntryHookError>
    decreases fuel,
{
    if total >= 5 {
        Ok(total)
    } else if fuel == 0 {
        Err(EntryHookError::InvalidInstruction { offset: total as usize })
    } else {
        let d = x86_decoded(code.skip(total as int), wrap64(ip, total));
        if !d.0 || d.1 == 0 || total + d.1 > code.len() {
            Err(EntryHookError::InvalidInstruction { offset: total as usize })
        } else if !d.2 || d.3 {
            Err(EntryHookError::NotRelocatable { offset: total as usize })
        } else {
            relocate_from(code, ip, total + d.1, (fuel - 1) as nat)
        }
    }
}

/// The address that the hook starts from, before short jumps are followed:
/// the configured one (its low 32 bits) where there is one, else the entry
/// point.
pub open spec fn start_rva(entry_rva: u32, configured: Option<u64>) -> u32 {
    match configured {
        Some(v) => (v % 0x1_0000_0000) as u32,
        None => entry_rva,
    }
}

/// Where the entry point is hooked, and how many bytes of instructions there
/// move into the trampoline.
#[derive(Clone, Copy, Debug, PartialEq, Eq, Structural)]
pub struct EntryHook {
    pub hook_rva: u32,
    pub relocated_len: usize,
}

/// What planning the entry-point hook gives.
pub open spec fn entry_hook_spec(bytes: Seq<u8>, image: PeImage, configured: Option<u64>) -> Result<(u32, nat), EntryHookError> {
    entry_hook_parts(bytes, image.machine, image.optional, image.sections@, configured)
}

/// The entry-point hook of an image given by its machine type, its image base
/// and entry point (where it has an optional header) and its sections.
pub open spec fn entry_hook_parts(
    bytes: Seq<u8>,
    machine: u16,
    optional: Option<(u64, u32)>,
    sections: Seq<Section>,
    configured: Option<u64>,
) -> Result<(u32, nat), EntryHookError> {
    if machine == MACHINE_X86_64 {
        Err(EntryHookError::X64Unsupported)
    } else if machine != MACHINE_X86 {
        Err(EntryHookError::UnsupportedMachine { machine })
    } else {
        match optional {
            None => Err(EntryHookError::NoOptionalHeader),
            Some((base, entry)) => match follow_jumps(bytes, sections, start_rva(entry, configured), 8) {
                Some(Err(e)) => Err(EntryHookError::ShortJump(e)),
                Some(Ok(rva)) => match rva_offset(sections, rva) {
                    Err(e) => Err(EntryHookError::Offset(e)),
                    Ok(off) => {
                        let avail = if bytes.len() > off { bytes.len() - off } else { 0 };
                        let n = if avail < 128 { avail } else { 128 };
                        let code = bytes.subrange(off as int, off + n);
                        match relocate_from(code, wrap64(base, rva as nat), 0, 5) {
                            Err(e) => Err(e),
                            Ok(total) => Ok((rva, total)),
                        }
                    },
                },
                None => Err(EntryHookError::InvalidInstruction { offset: 0 }),
            },
        }
    }
}

proof fn lemma_follow_ok(bytes: Seq<u8>, sections: Seq<Section>, rva: u32, steps: nat)
    requires
        follow_jumps(bytes, sections, rva, steps) matches Some(Ok(_)),
    ensures
        ({
            let end = follow_jumps(bytes, sections, rva, steps)->Some_0->Ok_0;
            rva_offset(sections, end) matches Ok(off) && off < bytes.len()
        }),
    decreases steps,
{
    if steps > 0 {
        match rva_offset(sections, rva) {
            Ok(off) => {
                if off < bytes.len() && bytes[off as int] == 0xEB && off + 1 < bytes.len() {
                    lemma_follow_ok(bytes, sections, short_target(rva, bytes[off + 1] as i8), (steps - 1) as nat);
                }
            },
            Err(_) => {},
        }
    }
}

/// Whether the entry-point hook of `image` can be planned without reading past
/// the end of the file while following short jumps.
pub fn entry_jumps_in_file(bytes: &[u8], image: &PeImage, configured: Option<u64>) -> (r: bool)
    ensures
        r == (image.optional matches Some((base, entry)) ==> follow_jumps(bytes@, image.sections@, start_rva(entry, configured), 8) is Some),
{
    match image.optional {
        None => true,
        Some((_, entry)) => {
            let start: u32 = match configured {
                Some(v) => (v % 0x1_0000_0000) as u32,
                None => entry,
            };
            short_jumps_in_file(bytes, image.sections.as_slice(), start)
        },
    }
}

/// Plans the hook of an executable's entry point: the address hooked (after
/// short jumps) and the length of the whole instructions there that make room
/// for a five-byte jump.
pub fn plan_entry_hook(bytes: &[u8], image: &PeImage, configured: Option<u64>) -> (r: Result<EntryHook, EntryHookError>)
    requires
        image.optional matches Some((base, entry)) ==> follow_jumps(bytes@, image.sections@, start_rva(entry, configured), 8) is Some,
    ensures
        match entry_hook_spec(bytes@, *image, configured) {
            Ok((rva, total)) => r == Ok::<EntryHook, EntryHookError>(EntryHook { hook_rva: rva, relocated_len: total as usize }),
            Err(e) => r == Err::<EntryHook, EntryHookError>(e),
        },
{
    if image.machine == MACHINE_X86_64 {
        return Err(EntryHookError::X64Unsupported);
    }
    if image.machine != MACHINE_X86 {
        return Err(EntryHookError::UnsupportedMachine { machine: image.machine });
    }
    let (base, entry) = match image.optional {
        None => return Err(EntryHookError::NoOptionalHeader),
        Some(o) => o,
    };
    let start: u32 = match configured {
        Some(v) => (v % 0x1_0000_0000) as u32,
        None => entry,
    };
    let rva = match resolve_short_jumps(bytes, image.sections.as_slice(), start) {
        Err(e) => return Err(EntryHookError::ShortJump(e)),
        Ok(v) => v,
    };
    proof {
        lemma_follow_ok(bytes@, image.sections@, start, 8);
    }
    let off = match rva_to_file_offset(image.sections.as_slice(), rva) {
        Err(e) => return Err(EntryHookError::Offset(e)),
        Ok(o) => o,
    };
    assert(off < bytes@.len());
    let avail: u64 = if (bytes.len() as u64) > off { bytes.len() as u64 - off } else { 0 };
    let n: u64 = if avail < 128 { avail } else { 128 };
    let start_off: usize = off as usize;
    let end: usize = (off + n) as usize;
    let mut code: Vec<u8> = Vec::new();
    let mut k: usize = start_off;
    while k < end
        invariant
            start_off <= k <= end <= bytes@.len(),
            code@ == bytes@.subrange(start_off as int, k as int),
        decreases end - k,
    {
        code.push(bytes[k]);
        k = k + 1;
        assert(code@ == bytes@.subrange(start_off as int, k as int));
    }
    let ip: u64 = base.wrapping_add(rva as u64);
    assert(ip == wrap64(base, rva as nat));
    assert(code@ == bytes@.subrange(off as int, off + n));
    let ghost outcome = match relocate_from(code@, ip, 0, 5) {
        Err(e) => Err(e),
        Ok(t) => Ok((rva, t)),
    };
    assert(entry_hook_spec(bytes@, *image, configured) == outcome);
    let mut total: usize = 0;
    let mut fuel: usize = 5;
    while total < 5
        invariant
            entry_hook_spec(bytes@, *image, configured) == outcome,
            outcome == match relocate_from(code@, ip, 0, 5) {
                Err(e) => Err(e),
                Ok(t) => Ok((rva, t)),
            },
            fuel <= 5,
            total <= code@.len(),
            relocate_from(code@, ip, 0, 5) == relocate_from(code@, ip, total as nat, fuel as nat),
        decreases fuel,
    {
        if fuel == 0 {
            return Err(EntryHookError::InvalidInstruction { offset: total });
        }
        let rest = slice_skip(&code, total);
        let at: u64 = ip.wrapping_add(total as u64);
        assert(at == wrap64(ip, total as nat));
        let (valid, len, falls_through, ip_relative) = decode_x86(&rest, at);
        if !valid || len == 0 || len > code.len() - total {
            return Err(EntryHookError::InvalidInstruction { offset: total });
        }
        if !is_safe_to_rebase(falls_through, ip_relative) {
            return Err(EntryHookError::NotRelocatable { offset: total });
        }
        total = total + len;
        fuel = fuel - 1;
    }
    Ok(EntryHook { hook_rva: rva, relocated_len: total })
}

/// Whether an instruction can be moved to another address unchanged: it
/// falls through to the next instruction and has no instruction-pointer
/// relative operand.
pub fn is_safe_to_rebase(falls_through: bool, ip_relative: bool) -> (r: bool)
    ensures
        r == (falls_through && !ip_relative),
{
    falls_through && !ip_relative
}

fn slice_skip(v: &[u8], start: usize) -> (r: Vec<u8>)
    requires
        start <= v@.len(),
    ensures
        r@ == v@.skip(start as int),
{
    let mut r: Vec<u8> = Vec::new();
    let mut i: usize = start;
    while i < v.len()
        invariant
            start <= i <= v@.len(),
            r@ == v@.subrange(start as int, i as int),
        decreases v@.len() - i,
    {
        r.push(v[i]);
        i = i + 1;
        assert(r@ == v@.subrange(start as int, i as int));
    }
    r
}

/// The NOP bytes that stand in the trampoline for `n` relocated bytes:
/// `0x90` repeated, separated by `, `.
pub open spec fn nop_list(n: nat) -> Seq<char>
    decreases n,
{
    if n == 0 {
        seq![]
    } else if n == 1 {
        "0x90"@
    } else {
        nop_list((n - 1) as nat) + ", 0x90"@
    }
}

/// The assembly of the entry-point trampoline: save registers and flags, call
/// the handler, restore them, leave room for the relocated instructions and
/// jump back.
pub open spec fn trampoline_asm(n: nat) -> Seq<char> {
    "pushad\npushfd\ncall {0}\npopfd\npopad\n.byte "@ + nop_list(n) + "\njmp dword ptr [{1}]"@
}

/// The assembly template of the entry-point trampoline for `n` relocated bytes.
pub fn entry_trampoline_asm(n: usize) -> (r: String)
    ensures
        r@ == trampoline_asm(n as nat),
{
    let mut out: Vec<char> = Vec::new();
    push_str_chars(&mut out, "pushad\npushfd\ncall {0}\npopfd\npopad\n.byte ");
    let ghost head = out@;
    let mut i: usize = 0;
    while i < n
        invariant
            i <= n,
            out@ == head + nop_list(i as nat),
        decreases n - i,
    {
        if i == 0 {
            push_str_chars(&mut out, "0x90");
        } else {
            push_str_chars(&mut out, ", 0x90");
        }
        i = i + 1;
    }
    push_str_chars(&mut out, "\njmp dword ptr [{1}]");
    string_from_chars(&out)
}

} // verus!
