use text_hook::hwbp::{
    clear_dr7_slot, clear_hw_break_in_context, context_debug_flag, set_dr7_slot,
    set_hw_break_in_context, DebugContext, HwBreakpointLen, HwBreakpointType, HwReg,
};
use text_hook::mem::{
    follow_short_jump, generate_trampoline_stub_32, plan_pages, quick_memory_check,
    quick_memory_check_win32, rel32_instruction, protect_outcome, check_buffer, BufferError, IatHook, ProtectGuard, ProtectOutcome,
};
use text_hook::slices::{contains_slice, u16_with_null, PathExt};

#[test]
fn win32_range_checks() {
    assert!(quick_memory_check_win32(0, 0));
    assert!(!quick_memory_check_win32(0x1000, 4));
    assert!(quick_memory_check_win32(0x10000, 4));
    assert!(quick_memory_check_win32(0x7FFE_FFFF, 1));
    assert!(!quick_memory_check_win32(0x7FFE_FFFF, 2));
    assert!(!quick_memory_check_win32(0x8000_0000, 1));
}

#[test]
fn user_space_range_checks() {
    assert!(quick_memory_check(0, 0).is_ok());
    assert!(quick_memory_check(0x20000, 16).is_ok());
    assert!(quick_memory_check(0xFFFF, 1).is_err());
    assert!(quick_memory_check(usize::MAX - 1, 4).is_err());
}

#[test]
fn slice_search() {
    assert!(contains_slice(&[1u8, 2, 3, 4], &[2, 3]));
    assert!(!contains_slice(&[1u8, 2, 3, 4], &[3, 2]));
    assert!(contains_slice(&[1u8, 2], &[]));
    assert!(!contains_slice(&[1u8], &[1, 1]));
    assert!(contains_slice(&[5u16, 6, 7], &[7]));
}

#[test]
fn wide_strings() {
    assert_eq!(u16_with_null(&[0x41, 0x42]), vec![0x41, 0x42, 0]);
    assert_eq!(u16_with_null(&[]), vec![0]);
    assert_eq!("Ab".to_wide(), vec![0x41, 0x62]);
    assert_eq!("é".to_wide_null(), vec![0xE9, 0]);
    assert_eq!("😀".to_wide(), vec![0xD83D, 0xDE00]);
}

#[test]
fn dr7_slots() {
    let mut dr7: usize = 0;
    set_dr7_slot(&mut dr7, HwReg::Dr1, HwBreakpointType::Write, HwBreakpointLen::Byte4);
    assert_eq!(dr7, (1 << 2) | (0b1101 << 20));
    clear_dr7_slot(&mut dr7, HwReg::Dr1);
    assert_eq!(dr7, 0);
    let mut other: usize = 0b11;
    set_dr7_slot(&mut other, HwReg::Dr2, HwBreakpointType::Access, HwBreakpointLen::Byte8);
    assert_eq!(other & 0b11, 0b11);
    assert_eq!(HwBreakpointLen::Byte8.bytes(), 8);
    assert_eq!(HwBreakpointLen::Byte8.len_bits(), 0b10);
    assert_eq!(HwBreakpointType::Access.rw_bits(), 0b11);
}

fn empty_context() -> DebugContext {
    DebugContext { context_flags: 0, dr0: 0, dr1: 0, dr2: 0, dr3: 0, dr7: 0 }
}

#[test]
fn breakpoints_in_context() {
    let mut ctx = empty_context();
    assert!(set_hw_break_in_context(&mut ctx, 0x401000, HwBreakpointType::Execute, HwBreakpointLen::Byte1, HwReg::Dr0).is_ok());
    assert_eq!(ctx.dr0, 0x401000);
    assert_eq!(ctx.dr7, 1);
    assert_eq!(ctx.context_flags, context_debug_flag());
    clear_hw_break_in_context(&mut ctx, HwReg::Dr0);
    assert_eq!(ctx.dr0, 0);
    assert_eq!(ctx.dr7, 0);

    let mut ctx = empty_context();
    assert!(set_hw_break_in_context(&mut ctx, 0, HwBreakpointType::Write, HwBreakpointLen::Byte1, HwReg::Dr0).is_err());
    assert!(set_hw_break_in_context(&mut ctx, 0x1000, HwBreakpointType::Execute, HwBreakpointLen::Byte2, HwReg::Dr0).is_err());
    assert!(set_hw_break_in_context(&mut ctx, 0x1001, HwBreakpointType::Write, HwBreakpointLen::Byte2, HwReg::Dr0).is_err());
    assert_eq!(ctx, empty_context());
}

#[test]
fn trampoline_stub() {
    let code = generate_trampoline_stub_32(0x1234_5678, &[0x90], &[0xC3]);
    let mut expected = vec![0x60, 0x9C, 0x90, 0xBB];
    expected.extend_from_slice(&0x1234_5678usize.to_le_bytes());
    expected.extend_from_slice(&[0xFF, 0xD3, 0x9D, 0x61, 0xC3]);
    assert_eq!(code, expected);
}

#[test]
fn relative_instructions() {
    let v = rel32_instruction(0xE9, 0x1000, 0x2000).unwrap();
    assert_eq!(v, vec![0xE9, 0xFB, 0x0F, 0x00, 0x00]);
    let back = rel32_instruction(0xE8, 0x2000, 0x1000).unwrap();
    assert_eq!(back, vec![0xE8, 0xFB, 0xEF, 0xFF, 0xFF]);
    assert_eq!(follow_short_jump(0x1000, 0xEB, 0x10), Some(0x1012));
    assert_eq!(follow_short_jump(0x1000, 0xEB, -2), Some(0x1000));
    assert_eq!(follow_short_jump(0x1000, 0x90, 0x10), None);
}

#[test]
fn page_plans_and_guards() {
    let pages = plan_pages(0x1_1FF0, 0x20, 0x1000).unwrap();
    assert_eq!(pages, vec![0x1_1000, 0x1_2000]);
    assert!(plan_pages(0x1_1FF0, 0, 0x1000).is_err());
    assert!(plan_pages(0x1_1FF0, 0x20, 0).is_err());
    let guard = ProtectGuard::from_parts(0x1FF0, 0x20, Vec::new());
    assert_eq!(guard.address(), 0x1FF0);
    assert_eq!(guard.size(), 0x20);
    assert!(guard.is_in_bound(0, 0x20));
    assert!(!guard.is_in_bound(0x10, 0x11));
}

#[test]
fn iat_hook_state() {
    let mut hook: IatHook<u32> = IatHook::new(0x1000, 0x2000);
    assert!(!hook.is_enabled());
    assert_eq!(hook.swap_for(true), Some((0x1000, 0x2000)));
    hook.set_enabled(true);
    assert!(hook.is_enabled());
    assert_eq!(hook.swap_for(true), None);
    assert_eq!(hook.swap_for(false), Some((0x2000, 0x1000)));
    assert_eq!(hook.orig_addr(), 0x1000);
    assert_eq!(hook.hook_addr(), 0x2000);
}

#[test]
fn wide_text_with_replacement_characters_refused() {
    assert_eq!(text_hook::slices::valid(&[0x41u16, 0x42]), Ok(&[0x41u16, 0x42][..]));
    assert!(text_hook::slices::valid(&[0x41u16, 0xFFFD]).is_err());
    assert!(text_hook::slices::valid(&[]).is_ok());
}

#[test]
fn failed_protection_rolls_back_changed_pages() {
    let pages = [0x1000usize, 0x2000, 0x3000];
    match protect_outcome(0x1800, 0x2000, 0x1000, &pages, &[Some(4), Some(2), Some(32)]) {
        ProtectOutcome::Guarded(g) => {
            assert_eq!(g.address(), 0x1800);
            assert_eq!(g.size(), 0x2000);
            let saved: Vec<(usize, usize, u32)> = g.pages().iter().map(|p| (p.base, p.size, p.protect)).collect();
            assert_eq!(saved, vec![(0x1000, 0x1000, 4), (0x2000, 0x1000, 2), (0x3000, 0x1000, 32)]);
        },
        ProtectOutcome::Failed { .. } => panic!("no change failed"),
    }
    match protect_outcome(0x1800, 0x2000, 0x1000, &pages, &[Some(4), Some(2), None]) {
        ProtectOutcome::Failed { page, restore } => {
            assert_eq!(page, 0x3000);
            let back: Vec<(usize, u32)> = restore.iter().map(|p| (p.base, p.protect)).collect();
            assert_eq!(back, vec![(0x1000, 4), (0x2000, 2)]);
        },
        ProtectOutcome::Guarded(_) => panic!("the last change failed"),
    }
    match protect_outcome(0, 1, 0x1000, &pages, &[None, None, None]) {
        ProtectOutcome::Failed { page, restore } => {
            assert_eq!(page, 0x1000);
            assert!(restore.is_empty());
        },
        ProtectOutcome::Guarded(_) => panic!("the first change failed"),
    }
}

#[test]
fn buffer_layouts() {
    assert_eq!(check_buffer(0, 8), Err(BufferError::ZeroSize));
    assert_eq!(check_buffer(16, 3), Err(BufferError::BadLayout));
    assert_eq!(check_buffer(16, 0), Err(BufferError::BadLayout));
    assert_eq!(check_buffer(16, 8), Ok(()));
    assert_eq!(check_buffer(usize::MAX, 1), Err(BufferError::BadLayout));
    assert_eq!(check_buffer(isize::MAX as usize, 1), Ok(()));
    assert_eq!(check_buffer(isize::MAX as usize, 2), Err(BufferError::BadLayout));
}
