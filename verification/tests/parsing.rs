use text_hook::image::{entry_point_plan, export_list, parse_pe, EntryPlanError, ExportListError};

fn put16(b: &mut Vec<u8>, at: usize, v: u16) {
    b[at..at + 2].copy_from_slice(&v.to_le_bytes());
}

fn put32(b: &mut Vec<u8>, at: usize, v: u32) {
    b[at..at + 4].copy_from_slice(&v.to_le_bytes());
}

/// A small 32-bit x86 image with one section of code at RVA 0x1000 (file
/// offset 0x200) and its entry point at the section's start.
fn tiny_image(code: &[u8]) -> Vec<u8> {
    let mut b = vec![0u8; 0x400];
    b[0] = b'M';
    b[1] = b'Z';
    put32(&mut b, 0x3c, 0x40);
    b[0x40..0x44].copy_from_slice(b"PE\0\0");
    let coff = 0x44;
    put16(&mut b, coff, 0x14c);
    put16(&mut b, coff + 2, 1);
    put16(&mut b, coff + 16, 0xE0);
    put16(&mut b, coff + 18, 0x0102);
    let opt = coff + 20;
    put16(&mut b, opt, 0x10b);
    put32(&mut b, opt + 16, 0x1000);
    put32(&mut b, opt + 28, 0x400000);
    put32(&mut b, opt + 32, 0x1000);
    put32(&mut b, opt + 36, 0x200);
    put16(&mut b, opt + 40, 4);
    put16(&mut b, opt + 48, 4);
    put32(&mut b, opt + 56, 0x2000);
    put32(&mut b, opt + 60, 0x200);
    put16(&mut b, opt + 68, 3);
    put32(&mut b, opt + 92, 16);
    let sec = opt + 0xE0;
    b[sec..sec + 5].copy_from_slice(b".text");
    put32(&mut b, sec + 8, 0x1000);
    put32(&mut b, sec + 12, 0x1000);
    put32(&mut b, sec + 16, 0x200);
    put32(&mut b, sec + 20, 0x200);
    put32(&mut b, sec + 36, 0x60000020);
    b[0x200..0x200 + code.len()].copy_from_slice(code);
    b
}

#[test]
fn images_read_from_bytes() {
    assert!(parse_pe(b"not an image").is_none());
    assert_eq!(entry_point_plan(b"not an image", None), Some(Err(EntryPlanError::NotPe)));
    assert_eq!(export_list(b"not an image"), Err(ExportListError::NotPe));
    // push ebp; mov ebp, esp; sub esp, 8; ...
    let code = [0x55u8, 0x8B, 0xEC, 0x83, 0xEC, 0x08, 0x90, 0x90, 0xC3];
    let bytes = tiny_image(&code);
    let p = parse_pe(&bytes).expect("a PE image");
    assert_eq!(p.image.machine, 0x14c);
    assert_eq!(p.image.optional, Some((0x400000, 0x1000)));
    assert_eq!(p.image.sections.len(), 1);
    assert_eq!(p.image.sections[0].pointer_to_raw_data, 0x200);
    assert!(p.imports.is_empty());
    let plan = entry_point_plan(&bytes, None).unwrap().unwrap();
    assert_eq!(plan.hook_rva, 0x1000);
    assert_eq!(plan.relocated_len, 6);
    assert_eq!(export_list(&bytes), Err(ExportListError::NoExportTable));
}
