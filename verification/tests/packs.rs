use text_hook::resource::{build_cat_data, load_pack, pack_resources, unpack_files, UnpackError};

fn files() -> Vec<(String, Vec<u8>)> {
    vec![
        ("a.txt".to_string(), b"hello".to_vec()),
        ("dir/é.bin".to_string(), vec![0u8, 1, 2]),
        ("empty".to_string(), Vec::new()),
    ]
}

#[test]
fn unpacking_gives_back_the_files() {
    let data = build_cat_data(&files());
    assert_eq!(unpack_files(&data).unwrap(), files());
    assert_eq!(unpack_files(&[]).unwrap(), Vec::new());
}

#[test]
fn truncated_packs_refused() {
    let data = build_cat_data(&files());
    for cut in [1usize, 3, 4, 8, 12, 16, data.len() - 1] {
        assert_eq!(unpack_files(&data[..cut]), Err(UnpackError::Truncated), "cut at {cut}");
    }
}

#[test]
fn non_utf8_paths_refused() {
    let mut data = vec![1u8, 0, 0, 0, 0xff];
    data.extend_from_slice(&[0u8; 8]);
    assert_eq!(unpack_files(&data), Err(UnpackError::InvalidPath));
    // A bad path is reported before a later truncation.
    data.push(1);
    assert_eq!(unpack_files(&data), Err(UnpackError::InvalidPath));
}

#[test]
fn loading_a_built_pack_gives_back_its_files() {
    let small = files();
    let p = pack_resources(&small, false).unwrap();
    assert!(!p.compressed);
    assert_eq!(load_pack(&p.data, p.compressed, p.original_len).unwrap(), small);

    let big = vec![("big.dat".to_string(), vec![7u8; 100 * 1024]), ("x".to_string(), b"y".to_vec())];
    let p = pack_resources(&big, false).unwrap();
    assert!(p.compressed);
    assert_eq!(load_pack(&p.data, p.compressed, p.original_len).unwrap(), big);
    assert_eq!(load_pack(&p.data, true, 10), Err(UnpackError::DecompressFailed));
}

#[test]
fn resource_files_renamed_and_sorted_stably() {
    let found = vec![
        ("B\\x.txt".to_string(), vec![1u8]),
        ("a.txt".to_string(), vec![2u8]),
        ("A.TXT".to_string(), vec![3u8]),
        ("Ä.bin".to_string(), vec![4u8]),
    ];
    let files = text_hook::resource::resource_files(found);
    assert_eq!(
        files,
        vec![
            ("a.txt".to_string(), vec![2u8]),
            ("a.txt".to_string(), vec![3u8]),
            ("b/x.txt".to_string(), vec![1u8]),
            ("ä.bin".to_string(), vec![4u8]),
        ]
    );
}

#[test]
fn flated_bytes_come_back() {
    let data: Vec<u8> = (0..5000u32).map(|i| (i % 7) as u8).collect();
    for level in [0, 3] {
        let packed = text_hook::resource::flate_bytes(&data, level).unwrap();
        assert_ne!(packed, data);
        assert_eq!(text_hook::resource::decompress_zstd(&packed, data.len()).unwrap(), data);
    }
}
