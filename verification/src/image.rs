//! Executable images read from their bytes: the header fields, sections,
//! export table and imports that the entry-point hook, the export list and
//! the hook lists work from.
use vstd::prelude::*;
use goblin::Object;
use crate::pe::{
    entry_hook_parts, entry_jumps_in_file, follow_jumps, named_exports, named_from, pair_views,
    plan_entry_hook, start_rva, EntryHook, EntryHookError, ExportError, ExportTable, PeImage, Section,
};

verus! {

/// What an image holds, as plain values: its machine type, its image base and
/// entry point (where it has an optional header), its sections, its export
/// table (ordinal base, relative ordinals, names) and its (function, library)
/// imports.
pub struct ParsedModel {
    pub machine: u16,
    pub optional: Option<(u64, u32)>,
    pub sections: Seq<Section>,
    pub exports: Option<(u32, Seq<u16>, Seq<Option<Seq<char>>>)>,
    pub imports: Seq<(Seq<char>, Seq<char>)>,
}

/// What `goblin` reads of an image: `None` where the bytes are no PE image.
pub uninterp spec fn pe_parsed(bytes: Seq<u8>) -> Option<ParsedModel>;

/// The views of optional strings.
pub open spec fn opt_views(v: Seq<Option<String>>) -> Seq<Option<Seq<char>>> {
    v.map_values(|o: Option<String>| match o {
        Some(s) => Some(s@),
        None => None,
    })
}

/// The views of string pairs.
pub open spec fn string_pair_views(v: Seq<(String, String)>) -> Seq<(Seq<char>, Seq<char>)> {
    v.map_values(|p: (String, String)| (p.0@, p.1@))
}

/// The raw fields read from an image.
pub open spec fn raw_view(
    r: (u16, Option<(u64, u32)>, Vec<Section>, Option<(u32, Vec<u16>, Vec<Option<String>>)>, Vec<(String, String)>),
) -> ParsedModel {
    ParsedModel {
        machine: r.0,
        optional: r.1,
        sections: r.2@,
        exports: match r.3 {
            Some((b, o, n)) => Some((b, o@, opt_views(n@))),
            None => None,
        },
        imports: string_pair_views(r.4@),
    }
}

/// `goblin::Object::parse` on the bytes, where it reads a PE image: the claim
/// is that the fields returned, converted one for one, are a function of the
/// bytes alone (named `pe_parsed`), and that anything else gives `None`.
/// `goblin` adds section and export fields in `usize` without checks, which
/// can overflow only where `usize` has fewer than 64 bits: such targets are
/// left out.
#[verifier::external_body]
fn goblin_pe(bytes: &[u8]) -> (r: Option<
    (u16, Option<(u64, u32)>, Vec<Section>, Option<(u32, Vec<u16>, Vec<Option<String>>)>, Vec<(String, String)>),
>)
    requires
        usize::BITS == 64,
    ensures
        match r {
            Some(p) => pe_parsed(bytes@) == Some(raw_view(p)),
            None => pe_parsed(bytes@) is None,
        },
{
    let Object::PE(pe) = Object::parse(bytes).ok()? else { return None };
    let names = pe.exports.iter().map(|e| e.name.map(String::from)).collect();
    Some((
        pe.header.coff_header.machine,
        pe.header.optional_header.map(|h| (h.windows_fields.image_base, h.standard_fields.address_of_entry_point)),
        pe.sections.iter().map(|s| Section::from_fields(s.virtual_address, s.virtual_size, s.size_of_raw_data, s.pointer_to_raw_data)).collect(),
        pe.export_data.map(|d| (d.export_directory_table.ordinal_base, d.export_ordinal_table, names)),
        pe.imports.iter().map(|i| (i.name.to_string(), i.dll.into())).collect(),
    ))
}

/// What the library reads of an image.
pub struct ParsedImage {
    pub image: PeImage,
    pub exports: Option<ExportTable>,
    pub imports: Vec<(String, String)>,
}

/// A parsed image as plain values.
pub open spec fn parsed_view(p: ParsedImage) -> ParsedModel {
    ParsedModel {
        machine: p.image.machine,
        optional: p.image.optional,
        sections: p.image.sections@,
        exports: match p.exports {
            Some(t) => Some((t.ordinal_base, t.ordinals@, opt_views(t.names@))),
            None => None,
        },
        imports: string_pair_views(p.imports@),
    }
}

/// Reads an executable image from its bytes; `None` where they are no PE
/// image.  Images are read on 64-bit targets only.
pub fn parse_pe(bytes: &[u8]) -> (r: Option<ParsedImage>)
    requires
        usize::BITS == 64,
    ensures
        match r {
            Some(p) => pe_parsed(bytes@) == Some(parsed_view(p)),
            None => pe_parsed(bytes@) is None,
        },
{
    match goblin_pe(bytes) {
        None => None,
        Some((machine, optional, sections, exports, imports)) => {
            let exports = match exports {
                Some((ordinal_base, ordinals, names)) => Some(ExportTable { ordinal_base, ordinals, names }),
                None => None,
            };
            Some(ParsedImage { image: PeImage { machine, optional, sections }, exports, imports })
        },
    }
}

/// Why the entry-point hook of an image could not be planned.
#[derive(Clone, Copy, Debug, PartialEq, Eq, Structural)]
pub enum EntryPlanError {
    /// The bytes are no PE image.
    NotPe,
    /// The image is refused: see `EntryHookError`.
    Hook(EntryHookError),
}

/// Plans the entry-point hook of the image in `bytes`, at the configured
/// entry address where there is one.  `None` where the short jumps at the
/// entry point lead out of the file (the plan would read past its end).
/// Images are read on 64-bit targets only.
pub fn entry_point_plan(bytes: &[u8], configured: Option<u64>) -> (r: Option<Result<EntryHook, EntryPlanError>>)
    requires
        usize::BITS == 64,
    ensures
        match pe_parsed(bytes@) {
            None => r == Some(Err::<EntryHook, EntryPlanError>(EntryPlanError::NotPe)),
            Some(m) => if (m.optional matches Some((base, entry)) ==> follow_jumps(
                bytes@,
                m.sections,
                start_rva(entry, configured),
                8,
            ) is Some) {
                r == Some(
                    match entry_hook_parts(bytes@, m.machine, m.optional, m.sections, configured) {
                        Ok((rva, total)) => Ok::<EntryHook, EntryPlanError>(
                            EntryHook { hook_rva: rva, relocated_len: total as usize },
                        ),
                        Err(e) => Err(EntryPlanError::Hook(e)),
                    },
                )
            } else {
                r is None
            },
        },
{
    let parsed = match parse_pe(bytes) {
        None => return Some(Err(EntryPlanError::NotPe)),
        Some(p) => p,
    };
    if !entry_jumps_in_file(bytes, &parsed.image, configured) {
        return None;
    }
    match plan_entry_hook(bytes, &parsed.image, configured) {
        Ok(h) => Some(Ok(h)),
        Err(e) => Some(Err(EntryPlanError::Hook(e))),
    }
}

/// Why the export list of a library could not be read.
#[derive(Clone, Copy, Debug, PartialEq, Eq, Structural)]
pub enum ExportListError {
    /// The bytes are no PE image.
    NotPe,
    /// The image has no export table.
    NoExportTable,
    /// The export table is refused: see `ExportError`.
    Table(ExportError),
}

proof fn lemma_named_views(base: u32, ordinals: Seq<u16>, names: Seq<Option<String>>, n: nat)
    requires
        n <= names.len(),
    ensures
        named_from(base, ordinals, names, n) == crate::pe::named_from_views(base, ordinals, opt_views(names), n),
    decreases n,
{
    if n > 0 {
        lemma_named_views(base, ordinals, names, (n - 1) as nat);
    }
}

/// The named exports of the library in `bytes`, in table order, each with its
/// absolute ordinal.  Images are read on 64-bit targets only.
pub fn export_list(bytes: &[u8]) -> (r: Result<Vec<(String, u32)>, ExportListError>)
    requires
        usize::BITS == 64,
    ensures
        match pe_parsed(bytes@) {
            None => r == Err::<Vec<(String, u32)>, ExportListError>(ExportListError::NotPe),
            Some(m) => match m.exports {
                None => r == Err::<Vec<(String, u32)>, ExportListError>(ExportListError::NoExportTable),
                Some((base, ordinals, names)) => if ordinals.len() != names.len() {
                    r == Err::<Vec<(String, u32)>, ExportListError>(
                        ExportListError::Table(
                            ExportError::Corrupt { ordinals: ordinals.len() as usize, exports: names.len() as usize },
                        ),
                    )
                } else {
                    let named = crate::pe::named_from_views(base, ordinals, names, names.len());
                    if named.len() == 0 {
                        r == Err::<Vec<(String, u32)>, ExportListError>(
                            ExportListError::Table(ExportError::NoNamedExports),
                        )
                    } else {
                        r matches Ok(v) && pair_views(v@) == named
                    }
                },
            },
        },
{
    let parsed = match parse_pe(bytes) {
        None => return Err(ExportListError::NotPe),
        Some(p) => p,
    };
    let table = match &parsed.exports {
        None => return Err(ExportListError::NoExportTable),
        Some(t) => t,
    };
    proof {
        lemma_named_views(table.ordinal_base, table.ordinals@, table.names@, table.names@.len());
    }
    match named_exports(table) {
        Ok(v) => Ok(v),
        Err(e) => Err(ExportListError::Table(e)),
    }
}

} // verus!
