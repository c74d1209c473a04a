use text_hook::codegen::{bmp_mapping, byte_slice, code_page_for, ByteSliceError, MappingError};
use text_hook::text_tables::{collect_text_tables, TextItem, TextLookup, TextPatchError};
use text_hook::font::{
    blit_atlas, glyphs_fit, GlyphBitmap, font_size, pack_glyphs, padding, texture_max_width, unique_chars, AtlasError, FontConfig,
};
use text_hook::hooks::{check_user_lists, filter_featured, HookListError, UserHookLists};
use text_hook::pe::{
    def_file_contents, library_name, named_exports, resolve_short_jumps, rva_to_file_offset,
    ExportError, ExportTable, JumpError, RvaError, Section,
};

#[test]
fn font_defaults() {
    assert_eq!(font_size(), 24);
    assert_eq!(padding(), 2);
    assert_eq!(texture_max_width(), 2048);
    let c = FontConfig::with_defaults("font.ttf".to_string(), "abc".to_string());
    assert_eq!(c.font_size, 24);
    assert_eq!(c.padding, 2);
    assert_eq!(c.texture_max_width, 2048);
}

#[test]
fn characters_deduplicated_in_order() {
    assert_eq!(unique_chars("abcab"), vec!['a', 'b', 'c']);
    assert_eq!(unique_chars("汉字汉"), vec!['汉', '字']);
    assert_eq!(unique_chars(""), Vec::<char>::new());
}

#[test]
fn glyphs_packed_in_rows() {
    let p = pack_glyphs(&[(10, 10), (10, 5), (10, 20)], 1, 25).unwrap();
    assert_eq!(p.positions, vec![(1, 0), (13, 0), (1, 12)]);
    assert_eq!(p.height, 34);
    for i in 0..3 {
        for j in (i + 1)..3 {
            let (xi, yi) = p.positions[i];
            let (xj, yj) = p.positions[j];
            let (w, h) = [(12u64, 12u32), (12, 7), (12, 22)][i];
            assert!(yi + h <= yj || (yi == yj && xi + w <= xj));
        }
    }
    assert_eq!(pack_glyphs(&[(30, 1)], 0, 25).err(), Some(AtlasError::GlyphTooWide { index: 0 }));
    assert_eq!(pack_glyphs(&[(1, 9000)], 0, 10).err(), Some(AtlasError::TooTall { height: 9000 }));
    assert_eq!(pack_glyphs(&[(25, 1)], 0, 25).err(), Some(AtlasError::GlyphTooWide { index: 0 }));
    assert_eq!(pack_glyphs(&[(2044, 1)], 2, 2048).err(), Some(AtlasError::GlyphTooWide { index: 0 }));
    let full = pack_glyphs(&[(24, 1)], 0, 25).unwrap();
    assert_eq!(full.positions, vec![(1, 0)]);
    let rows = pack_glyphs(&[(20, 1), (20, 1)], 2, 25).unwrap();
    assert_eq!(rows.positions, vec![(1, 0), (1, 5)]);
}

#[test]
fn byte_slices() {
    assert_eq!(byte_slice("0C 00 ff").unwrap(), vec![0x0C, 0x00, 0xFF]);
    assert_eq!(byte_slice("+0").err(), Some(ByteSliceError::NotHex { index: 0 }));
    assert_eq!(byte_slice("").err(), Some(ByteSliceError::Empty));
    assert_eq!(byte_slice(" 0C").err(), Some(ByteSliceError::EdgeSpace));
    assert_eq!(byte_slice("0C ").err(), Some(ByteSliceError::EdgeSpace));
    assert_eq!(byte_slice("0C  00").err(), Some(ByteSliceError::DoubleSpace));
    assert_eq!(byte_slice("0C 0").err(), Some(ByteSliceError::BadLength { index: 1 }));
    assert_eq!(byte_slice("0C 0G").err(), Some(ByteSliceError::NotHex { index: 1 }));
    assert_eq!(byte_slice("é0").err(), Some(ByteSliceError::BadLength { index: 0 }));
    assert_eq!(byte_slice("é").err(), Some(ByteSliceError::NotHex { index: 0 }));
}

#[test]
fn mapping_tables() {
    assert_eq!(code_page_for(Some(65001), Some("GBK")), Ok(65001));
    assert_eq!(code_page_for(None, Some("ShiftJIS")), Ok(932));
    assert_eq!(code_page_for(None, Some("CP932")), Ok(932));
    assert_eq!(code_page_for(None, Some("GBK")), Ok(936));
    assert_eq!(code_page_for(None, Some("UTF8")), Err(MappingError::UnknownEncoding));
    assert_eq!(code_page_for(None, None), Ok(0));
    assert_eq!(bmp_mapping(&[('b', 'B'), ('a', 'A')]).unwrap(), vec![(0x61, 0x41), (0x62, 0x42)]);
    assert_eq!(
        bmp_mapping(&[('a', 'A'), ('😀', 'a'), ('b', '😀')]).err(),
        Some(MappingError::OutsideBmp { from: '😀', to: 'a' })
    );
}

fn body(m: &str) -> TextItem {
    TextItem { message: Some(m.to_string()), is_name: false, is_dict: false }
}

fn dict(m: &str) -> TextItem {
    TextItem { message: Some(m.to_string()), is_name: false, is_dict: true }
}

fn name(m: &str) -> TextItem {
    TextItem { message: Some(m.to_string()), is_name: true, is_dict: false }
}

#[test]
fn text_tables() {
    let files = vec![
        (
            vec![name("Alice"), body("Hello"), body("m"), body(""), body("once"), dict("Yes")],
            vec![name("アリス"), body("こんにちは"), body("a"), body("x"), body("一次"), dict("はい")],
        ),
        (vec![body("m"), name("Alice")], vec![body("b"), name("アリス")]),
    ];
    let t = collect_text_tables(&files).unwrap();
    assert_eq!(
        t.dict,
        vec![("Alice".to_string(), "アリス".to_string()), ("Yes".to_string(), "はい".to_string())]
    );
    // Body texts: Hello (0), m (1), once (2), m (3).
    assert_eq!(
        t.single,
        vec![("Hello".to_string(), 0, "こんにちは".to_string()), ("once".to_string(), 2, "一次".to_string())]
    );
    assert_eq!(t.multi, vec![("m".to_string(), vec![(1, "a".to_string()), (3, "b".to_string())])]);
    let uneven = vec![(vec![body("a")], vec![])];
    assert_eq!(
        collect_text_tables(&uneven).err(),
        Some(TextPatchError::LengthMismatch { file: 0, original: 1, translated: 0 })
    );
    let conflict = vec![(vec![dict("k"), name("k")], vec![dict("v"), name("w")])];
    assert_eq!(collect_text_tables(&conflict).err(), Some(TextPatchError::DictConflict { file: 0, entry: 1 }));
}

#[test]
fn repeated_texts_keep_every_candidate() {
    let files = vec![(vec![body("m"), body("x"), body("m")], vec![body("a"), body("y"), body("b")])];
    let t = collect_text_tables(&files).unwrap();
    assert!(t.single.iter().all(|e| e.0 != "m"));
    assert_eq!(t.multi, vec![("m".to_string(), vec![(0, "a".to_string()), (2, "b".to_string())])]);
    let mut state = TextLookup::new();
    assert_eq!(state.lookup(&t, "m"), Some(("a".to_string(), Some(0))));
    assert_eq!(state.lookup(&t, "x"), Some(("y".to_string(), Some(1))));
    assert_eq!(state.last, 1);
    // Both candidates are 1 away: the first is taken.
    assert_eq!(t.lookup_result("m", 1), Some(("a".to_string(), Some(0))));
    assert_eq!(t.lookup_result("m", 2), Some(("b".to_string(), Some(2))));
    assert_eq!(t.lookup_result("zz", 2), None);
}

#[test]
fn translations_looked_up_by_original_text() {
    let files = vec![(vec![name("Alice"), body("Hello")], vec![name("アリス"), body("こんにちは")])];
    let t = collect_text_tables(&files).unwrap();
    let mut state = TextLookup::new();
    state.last = 7;
    assert_eq!(state.lookup(&t, "Alice"), Some(("アリス".to_string(), None)));
    assert_eq!(state.last, 7);
    assert_eq!(state.lookup(&t, "Hello"), Some(("こんにちは".to_string(), Some(0))));
    assert_eq!(state.last, 0);
    assert_eq!(state.lookup(&t, "Bob"), None);
}

fn text_section() -> Section {
    Section { virtual_address: 0x1000, virtual_size: 0x2000, size_of_raw_data: 0x1000, pointer_to_raw_data: 0x400 }
}

#[test]
fn sections_and_offsets() {
    let s = [text_section()];
    assert_eq!(rva_to_file_offset(&s, 0x1010), Ok(0x410));
    assert_eq!(rva_to_file_offset(&s, 0x2500), Err(RvaError::BeyondRawData { index: 0 }));
    assert_eq!(rva_to_file_offset(&s, 0x5000), Err(RvaError::NoSection));
    assert_eq!(rva_to_file_offset(&[], 0x1000), Err(RvaError::NoSection));
}

#[test]
fn short_jump_chains() {
    let s = [text_section()];
    let mut bytes = vec![0u8; 0x600];
    bytes[0x400] = 0xEB;
    bytes[0x401] = 0x02;
    bytes[0x404] = 0x90;
    assert_eq!(resolve_short_jumps(&bytes, &s, 0x1000), Ok(0x1004));
    assert_eq!(resolve_short_jumps(&bytes, &s, 0x1004), Ok(0x1004));
    bytes[0x410] = 0xEB;
    bytes[0x411] = 0xFE;
    assert_eq!(resolve_short_jumps(&bytes, &s, 0x1010), Err(JumpError::TooLong));
    assert_eq!(resolve_short_jumps(&bytes, &s, 0x9000), Err(JumpError::NoSection { rva: 0x9000 }));
    let short = vec![0u8; 0x100];
    assert_eq!(resolve_short_jumps(&short, &s, 0x1000), Err(JumpError::BeyondFile { offset: 0x400 }));
}

#[test]
fn exports_and_definition_files() {
    let t = ExportTable {
        ordinal_base: 1,
        ordinals: vec![0, 1, 2],
        names: vec![Some("A".to_string()), None, Some("C".to_string())],
    };
    assert_eq!(named_exports(&t).unwrap(), vec![("A".to_string(), 1), ("C".to_string(), 3)]);
    let bad = ExportTable { ordinal_base: 1, ordinals: vec![0], names: vec![] };
    assert_eq!(named_exports(&bad).err(), Some(ExportError::Corrupt { ordinals: 1, exports: 0 }));
    let none = ExportTable { ordinal_base: 1, ordinals: vec![0], names: vec![None] };
    assert_eq!(named_exports(&none).err(), Some(ExportError::NoNamedExports));
    let sat = ExportTable { ordinal_base: u32::MAX, ordinals: vec![5], names: vec![Some("Z".to_string())] };
    assert_eq!(named_exports(&sat).unwrap(), vec![("Z".to_string(), u32::MAX)]);

    assert_eq!(library_name("version.dll"), "version");
    assert_eq!(library_name(".hidden"), ".hidden");
    assert_eq!(library_name("a.b.c"), "a.b");
    assert_eq!(library_name("noext"), "noext");
    assert_eq!(
        def_file_contents("version", &[("GetFileVersionInfoA".to_string(), 1), ("B".to_string(), 20)]),
        "LIBRARY version\n\nEXPORTS\n    GetFileVersionInfoA @1\n    B @20\n"
    );
}

fn lists(enable: &[&str], disable: &[&str]) -> UserHookLists {
    UserHookLists {
        enable: enable.iter().map(|s| s.to_string()).collect(),
        disable: disable.iter().map(|s| s.to_string()).collect(),
    }
}

#[test]
fn user_hook_lists() {
    assert_eq!(check_user_lists(&lists(&["A", "B"], &["C"])), Ok(()));
    assert_eq!(check_user_lists(&lists(&["A", "A"], &[])), Err(HookListError::DuplicateEnable { index: 1 }));
    assert_eq!(check_user_lists(&lists(&["A"], &["B", "A"])), Err(HookListError::DuplicateDisable { index: 1 }));
    assert_eq!(check_user_lists(&lists(&[], &["B", "B"])), Err(HookListError::DuplicateDisable { index: 1 }));
    let hooks = vec!["A".to_string(), "X".to_string(), "B".to_string()];
    assert_eq!(filter_featured(&hooks, &lists(&["A"], &["B"])), vec!["X".to_string()]);
    let d = UserHookLists::default();
    assert!(d.enable.is_empty() && d.disable.is_empty());
    assert_eq!(filter_featured(&hooks, &d), hooks);
}

#[test]
fn atlas_pixels() {
    let glyphs = vec![
        GlyphBitmap { width: 2, height: 1, pixels: vec![7, 8] },
        GlyphBitmap { width: 1, height: 2, pixels: vec![9, 10] },
        GlyphBitmap { width: 0, height: 0, pixels: vec![] },
    ];
    let atlas = blit_atlas(4, 3, &glyphs, &[(1, 0), (0, 1), (3, 2)], 0);
    assert_eq!(atlas, vec![255, 7, 8, 0, 9, 0, 0, 0, 10, 0, 0, 0]);
    let padded = blit_atlas(4, 3, &glyphs[..1], &[(0, 0)], 1);
    assert_eq!(padded, vec![255, 0, 0, 0, 0, 7, 8, 0, 0, 0, 0, 0]);
}


#[test]
fn glyphs_fit_checks_every_placement() {
    let glyph = || GlyphBitmap { width: 2, height: 2, pixels: vec![1, 2, 3, 4] };
    assert!(glyphs_fit(4, 4, &[glyph()], &[(0, 0)], 1));
    assert!(!glyphs_fit(4, 4, &[glyph()], &[(2, 2)], 1));
    assert!(!glyphs_fit(4, 4, &[glyph()], &[], 1));
    assert!(!glyphs_fit(0, 4, &[], &[], 0));
    let wide = GlyphBitmap { width: 5, height: 1, pixels: vec![0; 5] };
    assert!(!glyphs_fit(4, 4, &[wide], &[(0, 0)], 0));
    let short = GlyphBitmap { width: 2, height: 2, pixels: vec![0; 3] };
    assert!(!glyphs_fit(4, 4, &[short], &[(0, 0)], 0));
}
