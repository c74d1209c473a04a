use text_hook::patch1337::{apply, handle_name, plan_patches, ApplyError, Patch1337Error};
use text_hook::patch_data::{
    check_patch_sources, escaped_byte_string, patch_name, sha256_of_bytes, sorted_unique,
    PatchIssue, PatchSource, TranslatedFile,
};
use text_hook::resource::{build_cat_data, decompress_zstd, pack_resources, should_compress};

fn runs_of(p: &text_hook::patch1337::ModulePatch) -> Vec<(u64, Vec<u8>)> {
    p.runs.iter().map(|r| (r.offset, r.bytes.clone())).collect()
}

#[test]
fn plan_merges_consecutive_offsets() {
    let file = "// comment\n# another\n\n>game.EXE\n1000:90->EB\n1001:00->02\n 1003 : 00 -> ff \n>other.dll\n10:AA->bb\n".to_string();
    let plan = plan_patches(&[file]).unwrap();
    assert_eq!(plan.len(), 2);
    assert_eq!(plan[0].module, "game.EXE");
    assert!(plan[0].is_main);
    assert_eq!(runs_of(&plan[0]), vec![(0x1000, vec![0xEB, 0x02]), (0x1003, vec![0xFF])]);
    assert_eq!(plan[1].module, "other.dll");
    assert!(!plan[1].is_main);
    assert_eq!(runs_of(&plan[1]), vec![(0x10, vec![0xBB])]);
    assert_eq!(handle_name(&plan[0]), "");
    assert_eq!(handle_name(&plan[1]), "other.dll");
}

#[test]
fn plan_sorts_stably() {
    let file = ">m.dll\n3:0->03\n1:0->01\n2:0->02\n5:0->0A\n5:0->0B\n+6:0->+c".to_string();
    let plan = plan_patches(&[file]).unwrap();
    assert_eq!(
        runs_of(&plan[0]),
        vec![(1, vec![1, 2, 3]), (5, vec![0x0A]), (5, vec![0x0B, 0x0C])]
    );
}

#[test]
fn plan_groups_modules_across_files() {
    let a = ">x.dll\n1:0->01\n".to_string();
    let b = ">y.dll\n1:0->02\n>x.dll\n2:0->03\n".to_string();
    let plan = plan_patches(&[a, b]).unwrap();
    assert_eq!(plan.len(), 2);
    assert_eq!(plan[0].module, "x.dll");
    assert_eq!(runs_of(&plan[0]), vec![(1, vec![1, 3])]);
    assert_eq!(plan[1].module, "y.dll");
}

#[test]
fn plan_errors() {
    let r = plan_patches(&[">m.dll\n1000:90".to_string()]);
    assert!(matches!(r, Err(Patch1337Error::BadFormat { file: 0, line: 1 })));
    let r = plan_patches(&["zz:00->01".to_string()]);
    assert!(matches!(r, Err(Patch1337Error::BadAddress { file: 0, line: 0 })));
    let r = plan_patches(&["10000000000000000:00->01".to_string()]);
    assert!(matches!(r, Err(Patch1337Error::BadAddress { file: 0, line: 0 })));
    let r = plan_patches(&[">m.dll\n10:00->1FF".to_string()]);
    assert!(matches!(r, Err(Patch1337Error::BadByte { file: 0, line: 1 })));
    let r = plan_patches(&[">m.dll\n".to_string(), "10:00->01".to_string()]);
    assert!(matches!(r, Err(Patch1337Error::MissingModule { file: 1, line: 0 })));
    let r = plan_patches(&[">a.exe\n".to_string(), ">b.Exe\n".to_string()]);
    assert!(matches!(r, Err(Patch1337Error::TooManyMainModules { count: 2 })));
}

#[test]
fn apply_computes_writes() {
    let file = ">game.exe\n1000:90->EB\n1001:00->02\n>other.dll\n10:AA->BB\n".to_string();
    let plan = plan_patches(&[file]).unwrap();
    let writes = apply(&plan, &[Some(0x40_0000), Some(0x1000_0000)]).unwrap();
    let w: Vec<(usize, Vec<u8>)> = writes.iter().map(|w| (w.address, w.bytes.clone())).collect();
    assert_eq!(w, vec![(0x40_1000, vec![0xEB, 0x02]), (0x1000_0010, vec![0xBB])]);
    assert!(matches!(apply(&plan, &[Some(0x40_0000), None]), Err(ApplyError::MissingModule { index: 1 })));
    assert!(matches!(apply(&plan, &[Some(0x40_0000)]), Err(ApplyError::MissingModule { index: 1 })));
}

#[test]
fn sha256_known_values() {
    let abc = sha256_of_bytes(b"abc");
    assert_eq!(
        escaped_byte_string(&abc),
        "\\xBA\\x78\\x16\\xBF\\x8F\\x01\\xCF\\xEA\\x41\\x41\\x40\\xDE\\x5D\\xAE\\x22\\x23\\xB0\\x03\\x61\\xA3\\x96\\x17\\x7A\\x9C\\xB4\\x10\\xFF\\x61\\xF2\\x00\\x15\\xAD"
    );
    let empty = sha256_of_bytes(b"");
    assert_eq!(empty[0], 0xE3);
    assert_eq!(empty[31], 0x55);
}

#[test]
fn patch_sources_checked() {
    let ok = vec![
        PatchSource { translated: TranslatedFile::Read { len: 3 }, raw: Some(b"abc".to_vec()) },
        PatchSource { translated: TranslatedFile::Read { len: 2 }, raw: Some(b"xy".to_vec()) },
    ];
    let entries = check_patch_sources(&ok).unwrap();
    assert_eq!(entries.len(), 2);
    assert_eq!(entries[0].index, 0);
    assert_eq!(entries[0].len, 3);
    assert_eq!(entries[0].hash, sha256_of_bytes(b"abc"));
    assert_eq!(entries[1].index, 1);

    let bad = vec![
        PatchSource { translated: TranslatedFile::Read { len: 3 }, raw: Some(b"abc".to_vec()) },
        PatchSource { translated: TranslatedFile::Missing, raw: Some(b"abc".to_vec()) },
        PatchSource { translated: TranslatedFile::Read { len: 2 }, raw: Some(b"xyz".to_vec()) },
        PatchSource { translated: TranslatedFile::Unreadable, raw: Some(b"q".to_vec()) },
        PatchSource { translated: TranslatedFile::Read { len: 3 }, raw: None },
        PatchSource { translated: TranslatedFile::Read { len: 3 }, raw: Some(b"abc".to_vec()) },
    ];
    let issues = check_patch_sources(&bad).err().unwrap();
    assert_eq!(
        issues,
        vec![
            PatchIssue::MissingTranslation { index: 1 },
            PatchIssue::LengthMismatch { index: 2, raw_len: 3, translated_len: 2 },
            PatchIssue::UnreadableTranslation { index: 3 },
            PatchIssue::UnreadableRaw { index: 4 },
            PatchIssue::DuplicateRaw { index: 5, earlier: 0 },
        ]
    );
}

#[test]
fn length_filter_and_names() {
    assert_eq!(sorted_unique(&[3, 1, 3, 2]), vec![1, 2, 3]);
    assert_eq!(sorted_unique(&[]), Vec::<usize>::new());
    assert_eq!(patch_name(1), "PATCH_0001");
    assert_eq!(patch_name(42), "PATCH_0042");
    assert_eq!(patch_name(12345), "PATCH_12345");
    assert_eq!(escaped_byte_string(&[0x0A, 0xFF]), "\\x0A\\xFF");
}

#[test]
fn cat_data_layout() {
    let files = vec![("a/b.txt".to_string(), b"hi".to_vec()), ("é".to_string(), vec![])];
    let data = build_cat_data(&files);
    let mut expected = vec![7, 0, 0, 0];
    expected.extend_from_slice(b"a/b.txt");
    expected.extend_from_slice(&[2, 0, 0, 0, 0, 0, 0, 0]);
    expected.extend_from_slice(b"hi");
    expected.extend_from_slice(&[2, 0, 0, 0]);
    expected.extend_from_slice("é".as_bytes());
    expected.extend_from_slice(&[0; 8]);
    assert_eq!(data, expected);
}

#[test]
fn packs_compress_when_large() {
    assert!(should_compress(false, 80 * 1024 + 1));
    assert!(!should_compress(false, 80 * 1024));
    assert!(!should_compress(true, 1 << 20));

    let small = vec![("x".to_string(), vec![1, 2, 3])];
    let p = pack_resources(&small, false).unwrap();
    assert!(!p.compressed);
    assert_eq!(p.data, build_cat_data(&small));

    let big = vec![("big.bin".to_string(), vec![7u8; 100 * 1024])];
    let p = pack_resources(&big, false).unwrap();
    assert!(p.compressed);
    assert!(p.data.len() < p.original_len);
    let back = decompress_zstd(&p.data, p.original_len).unwrap();
    assert_eq!(back, build_cat_data(&big));
    assert!(decompress_zstd(&p.data, 10).is_none());

    let kept = pack_resources(&big, true).unwrap();
    assert!(!kept.compressed);
}

#[test]
fn documented_patch_file() {
    let file = ">MyGame.exe\n0x140001000: 0x74 -> 0xEB  # je becomes jmp\n0x140001001: 0x3C -> 0x90  # nop\n0x140001002: 0x07 -> 0x90\n"
        .to_string();
    let plan = plan_patches(&[file]).unwrap();
    assert_eq!(plan.len(), 1);
    assert!(plan[0].is_main);
    assert_eq!(plan[0].module, "MyGame.exe");
    assert_eq!(runs_of(&plan[0]), vec![(0x140001000, vec![0xEB, 0x90, 0x90])]);
    let commented = ">engine.dll            # another module\n0X180204A90: 0xE8 -> 0XC3\n# a comment line\n".to_string();
    let plan = plan_patches(&[commented]).unwrap();
    assert_eq!(plan[0].module, "engine.dll");
    assert!(!plan[0].is_main);
    assert_eq!(runs_of(&plan[0]), vec![(0x180204A90, vec![0xC3])]);
}
