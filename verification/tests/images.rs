use text_hook::hooks::{
    import_sets, is_import_compatible, plan_hook_blocks, split_by_compat, ImportInfo,
    UserHookLists,
};
use text_hook::pe::{
    entry_jumps_in_file, entry_trampoline_asm, plan_entry_hook, EntryHook, EntryHookError,
    PeImage, Section, MACHINE_X86, MACHINE_X86_64,
};
use text_hook::veh::{
    after_hit, classify_exception, clear_hits, decode_request, encode_request, first_hit, needs_resume_flag,
    with_resume_flag, HwRequest, VehEvent, EXCEPTION_SET_HW_BREAK, EXCEPTION_SINGLE_STEP,
};
use text_hook::hwbp::{HwBreakpointLen, HwBreakpointType, HwReg};

fn image(machine: u16) -> PeImage {
    PeImage {
        machine,
        optional: Some((0x40_0000, 0x1000)),
        sections: vec![Section { virtual_address: 0x1000, virtual_size: 0x2000, size_of_raw_data: 0x1000, pointer_to_raw_data: 0x400 }],
    }
}

fn exe_with(code_at_entry: &[u8]) -> Vec<u8> {
    let mut bytes = vec![0u8; 0x800];
    bytes[0x400..0x400 + code_at_entry.len()].copy_from_slice(code_at_entry);
    bytes
}

#[test]
fn entry_hook_relocates_whole_instructions() {
    let bytes = exe_with(&[0x55, 0x8B, 0xEC, 0x83, 0xEC, 0x10]);
    let img = image(MACHINE_X86);
    assert!(entry_jumps_in_file(&bytes, &img, None));
    assert_eq!(plan_entry_hook(&bytes, &img, None), Ok(EntryHook { hook_rva: 0x1000, relocated_len: 6 }));
}

#[test]
fn entry_hook_follows_short_jumps() {
    let bytes = exe_with(&[0xEB, 0x02, 0x90, 0x90, 0x55, 0x8B, 0xEC, 0x83, 0xEC, 0x10]);
    let img = image(MACHINE_X86);
    assert_eq!(plan_entry_hook(&bytes, &img, None), Ok(EntryHook { hook_rva: 0x1004, relocated_len: 6 }));
    assert_eq!(plan_entry_hook(&bytes, &img, Some(0x1_0000_1004)), Ok(EntryHook { hook_rva: 0x1004, relocated_len: 6 }));
}

#[test]
fn entry_hook_refusals() {
    let call = exe_with(&[0xE8, 0, 0, 0, 0]);
    assert_eq!(plan_entry_hook(&call, &image(MACHINE_X86), None), Err(EntryHookError::NotRelocatable { offset: 0 }));
    let bad = exe_with(&[0x90, 0xFF, 0xFF]);
    assert_eq!(plan_entry_hook(&bad, &image(MACHINE_X86), None), Err(EntryHookError::InvalidInstruction { offset: 1 }));
    assert_eq!(plan_entry_hook(&call, &image(MACHINE_X86_64), None), Err(EntryHookError::X64Unsupported));
    assert_eq!(plan_entry_hook(&call, &image(0x1c0), None), Err(EntryHookError::UnsupportedMachine { machine: 0x1c0 }));
    let mut none = image(MACHINE_X86);
    none.optional = None;
    assert_eq!(plan_entry_hook(&call, &none, None), Err(EntryHookError::NoOptionalHeader));
    assert_eq!(
        entry_trampoline_asm(2),
        "pushad\npushfd\ncall {0}\npopfd\npopad\n.byte 0x90, 0x90\njmp dword ptr [{1}]"
    );
}

fn strings(v: &[&str]) -> Vec<String> {
    v.iter().map(|s| s.to_string()).collect()
}

#[test]
fn import_compatibility() {
    let map = vec![("create_font_a".to_string(), "GDI32.dll".to_string())];
    let (fns, dlls) = import_sets(&[
        ("CreateFontA".to_string(), "GDI32.dll".to_string()),
        ("ORDINAL 12".to_string(), "WS2_32.dll".to_string()),
    ]);
    assert_eq!(fns, strings(&["createfonta"]));
    assert_eq!(dlls, strings(&["gdi32.dll", "ws2_32.dll"]));
    assert!(is_import_compatible("CreateFontA", &map, &fns, &dlls));
    assert!(!is_import_compatible("TextOutA", &map, &fns, &dlls));
    assert!(!is_import_compatible("CreateFontA", &map, &fns, &strings(&["user32.dll"])));
    let (yes, no) = split_by_compat(&strings(&["TextOutA", "CreateFontA"]), &map, &fns, &dlls);
    assert_eq!(yes, strings(&["CreateFontA"]));
    assert_eq!(no, strings(&["TextOutA"]));
}

#[test]
fn hook_blocks() {
    let user = UserHookLists { enable: strings(&["TextOutA"]), disable: strings(&["ExtTextOutA"]) };
    let featured = vec![
        ("feature = \"text_hook\"".to_string(), strings(&["CreateFontA", "ExtTextOutA", "TextOutA"])),
        ("feature = \"none\"".to_string(), strings(&["ExtTextOutA"])),
    ];
    let blocks = plan_hook_blocks(&user, &featured, &None);
    assert_eq!(blocks.len(), 2);
    assert_eq!(blocks[0].cfg, None);
    assert_eq!(blocks[0].hooks, strings(&["TextOutA"]));
    assert_eq!(blocks[1].cfg.as_deref(), Some("feature = \"text_hook\""));
    assert_eq!(blocks[1].hooks, strings(&["CreateFontA"]));

    let info = ImportInfo { dll_map: vec![], fns: strings(&["textouta"]), dlls: vec![] };
    let featured = vec![("x".to_string(), strings(&["CreateFontA", "TextOutA"]))];
    let blocks = plan_hook_blocks(&UserHookLists::default(), &featured, &Some(info));
    assert_eq!(blocks.len(), 2);
    assert!(!blocks[0].without_iat);
    assert_eq!(blocks[0].hooks, strings(&["TextOutA"]));
    assert!(blocks[1].without_iat);
    assert_eq!(blocks[1].hooks, strings(&["CreateFontA"]));
}

#[test]
fn breakpoint_requests_round_trip() {
    let req = HwRequest { addr: 0x401000, kind: HwBreakpointType::Write, len: HwBreakpointLen::Byte4, reg: HwReg::Dr2 };
    let p = encode_request(req);
    assert_eq!(p, [0x401000, 1, 2, 2]);
    assert_eq!(decode_request(p, false), Some(req));
    let wide = HwRequest { len: HwBreakpointLen::Byte8, ..req };
    assert_eq!(decode_request(encode_request(wide), true), Some(wide));
    assert_eq!(decode_request(encode_request(wide), false), None);
    assert_eq!(decode_request([0, 3, 0, 0], true), None);
    assert_eq!(decode_request([0, 0, 0, 4], true), None);
}

#[test]
fn breakpoint_hits() {
    assert_eq!(first_hit(0b0100), Some(HwReg::Dr2));
    assert_eq!(first_hit(0b1010), Some(HwReg::Dr1));
    assert_eq!(first_hit(0b1_0000), None);
    assert_eq!(clear_hits(0x4_00F), 0x4_000);
    assert!(needs_resume_flag(0, HwReg::Dr0));
    assert!(!needs_resume_flag(0b01 << 16, HwReg::Dr0));
    assert!(needs_resume_flag(0b01 << 16, HwReg::Dr1));
    assert_eq!(with_resume_flag(0x202), 0x1_0202);
}

#[test]
fn export_statics_named_in_upper_snake_case() {
    assert_eq!(text_hook::pe::rust_static_name_from_export("GetFileVersionInfoA"), "ADDR_GET_FILE_VERSION_INFO_A");
    assert_eq!(text_hook::pe::rust_static_name_from_export("lstrlenW"), "ADDR_LSTRLEN_W");
}

#[test]
fn only_plain_fall_through_instructions_move() {
    assert!(text_hook::pe::is_safe_to_rebase(true, false));
    assert!(!text_hook::pe::is_safe_to_rebase(false, false));
    assert!(!text_hook::pe::is_safe_to_rebase(true, true));
}

#[test]
fn exceptions_are_classified() {
    let params = [0x1000usize, 1, 2, 3];
    match classify_exception(EXCEPTION_SET_HW_BREAK, 4, params, 0, true) {
        VehEvent::Arm(q) => {
            assert_eq!(q.addr, 0x1000);
            assert_eq!(q.kind, HwBreakpointType::Write);
            assert_eq!(q.len, HwBreakpointLen::Byte4);
            assert_eq!(q.reg, HwReg::Dr3);
        },
        other => panic!("unexpected {other:?}"),
    }
    assert_eq!(classify_exception(EXCEPTION_SET_HW_BREAK, 4, [0, 7, 0, 0], 0, true), VehEvent::Pass);
    assert_eq!(classify_exception(EXCEPTION_SET_HW_BREAK, 4, [0, 0, 3, 0], 0, false), VehEvent::Pass);
    assert_eq!(classify_exception(EXCEPTION_SET_HW_BREAK, 3, params, 0, true), VehEvent::Resume);
    assert_eq!(classify_exception(EXCEPTION_SINGLE_STEP, 0, params, 0b0110, true), VehEvent::Hit(HwReg::Dr1));
    assert_eq!(classify_exception(EXCEPTION_SINGLE_STEP, 0, params, 0b1_0000, true), VehEvent::Pass);
    assert_eq!(classify_exception(0xC000_0005, 4, params, 0b1, true), VehEvent::Pass);
}

#[test]
fn state_after_a_hit() {
    assert_eq!(after_hit(0xFF, 0, 0x202, HwReg::Dr0), (0xF0, 0x1_0202));
    let dr7_write_dr1 = 0b01usize << 20;
    assert_eq!(after_hit(0b10, dr7_write_dr1, 0x202, HwReg::Dr1), (0, 0x202));
}
