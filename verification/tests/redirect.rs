use text_hook::vfs::{
    default_vars, expand_vars, merge_listing, normalize_path_to_string, resolve_redirect,
    resolve_rule, to_unix_clean_path_string, to_windows_path, try_redirect, windows_path_from,
    enum_plan, EnumPlan, RedirectResult,
};
use text_hook::vfs_rules::{RawVfsRule, VfsMode};

#[test]
fn unix_clean_forms() {
    assert_eq!(to_unix_clean_path_string(r"\\?\C:\Games\Foo\"), "c:/games/foo");
    assert_eq!(to_unix_clean_path_string(r"\\?\UNC\Server\Share\X"), "server/share/x");
    assert_eq!(to_unix_clean_path_string(r"\\.\COM1"), "com1");
    assert_eq!(to_unix_clean_path_string("C:/A//"), "c:/a");
    assert_eq!(to_unix_clean_path_string("///"), "");
}

#[test]
fn unix_clean_is_idempotent() {
    for s in [r"\\?\C:\Games\Foo\", r"\\?\UNC\\?\x", "ÄB\\C/", r"\\.\\\?\d"] {
        let once = to_unix_clean_path_string(s);
        assert_eq!(to_unix_clean_path_string(&once), once);
    }
}

#[test]
fn windows_forms() {
    assert_eq!(windows_path_from("c:/a/b", true), r"\\?\c:\a\b");
    assert_eq!(windows_path_from("//server/share", true), r"\\?\UNC\server\share");
    assert_eq!(windows_path_from(r"\\?\c:\x", true), r"\\?\c:\x");
    assert_eq!(windows_path_from("rel/x", false), r"rel\x");
    let w = to_windows_path("c:/a/b");
    assert!(w == r"\\?\c:\a\b" || w == r"c:\a\b");
}

#[test]
fn variables_expand() {
    let vars = vec![("{cwd}".to_string(), "c:/w".to_string())];
    assert_eq!(expand_vars("{cwd}/x", &vars), "c:/w/x");
    assert_eq!(expand_vars("a{cwd}b{cwd}", &vars), "ac:/wbc:/w");
    assert_eq!(expand_vars("none", &vars), "none");
    let empty = vec![(String::new(), "-".to_string())];
    assert_eq!(expand_vars("ab", &empty), "-a-b-");
    let d = default_vars("C:\\Work\\", "C:\\Temp", "C:\\Game", Some("C:\\Pack"));
    assert_eq!(d.len(), 4);
    assert_eq!(d[0], ("{cwd}".to_string(), "c:/work".to_string()));
    assert_eq!(d[1], ("{temp_dir}".to_string(), "c:/temp".to_string()));
    assert_eq!(d[2], ("{exe_dir}".to_string(), "c:/game".to_string()));
    assert_eq!(d[3], ("{resource_pack_dir}".to_string(), "c:/pack".to_string()));
    assert_eq!(default_vars(".", ".", ".", None).len(), 3);
}

#[test]
fn redirect_decisions() {
    let vars = vec![("{cwd}".to_string(), "c:/game".to_string())];
    let rules = vec![
        resolve_rule(
            &RawVfsRule {
                source: "{cwd}/data/*.bin".to_string(),
                target: "{cwd}/patch/*.bin".to_string(),
                mode: VfsMode::Force,
                cfg: None,
            },
            &vars,
        ),
        resolve_rule(
            &RawVfsRule {
                source: "{cwd}/**".to_string(),
                target: "{cwd}/other/**".to_string(),
                mode: VfsMode::Fallback,
                cfg: None,
            },
            &vars,
        ),
    ];
    let hit = resolve_redirect("c:/game/data/a.bin", &rules).unwrap();
    assert_eq!(hit.mode, VfsMode::Force);
    assert!(hit.target_path == r"\\?\c:\game\patch\a.bin" || hit.target_path == r"c:\game\patch\a.bin");
    assert_eq!(try_redirect(Some(hit), false).is_some(), true);

    let fb = resolve_redirect("c:/game/save/x.dat", &rules).unwrap();
    assert_eq!(fb.mode, VfsMode::Fallback);
    assert!(fb.target_path.ends_with(r"other\save\x.dat"));
    let copy = RedirectResult { target_path: fb.target_path.clone(), mode: fb.mode };
    assert_eq!(try_redirect(Some(fb), false), None);
    assert_eq!(try_redirect(Some(copy), true).is_some(), true);

    assert!(resolve_redirect("d:/elsewhere", &rules).is_none());
    assert_eq!(try_redirect(None, true), None);
}

#[test]
fn listings_merge() {
    let red = vec!["A.txt".to_string(), "b.txt".to_string()];
    let orig = vec!["a.TXT".to_string(), "c.txt".to_string(), "C.TXT".to_string()];
    assert_eq!(merge_listing(&red, &orig), vec![false, true, false]);
    assert_eq!(merge_listing(&[], &orig), vec![true, true, false]);
}

#[test]
fn normalised_paths_are_clean() {
    let n = normalize_path_to_string("/Tmp/./X/../y/");
    assert_eq!(to_unix_clean_path_string(&n), n);
    assert!(!n.ends_with('/'));
}

#[test]
fn single_elements_only_normalised() {
    assert_eq!(normalize_path_to_string("Game.EXE"), "game.exe");
    assert_eq!(normalize_path_to_string(""), ".");
    assert_eq!(normalize_path_to_string("."), ".");
    assert_eq!(normalize_path_to_string(".."), "..");
}

#[test]
fn relative_paths_stay_relative() {
    assert_eq!(to_windows_path("foo/bar"), r"foo\bar");
    assert_eq!(to_windows_path(""), "");
    assert_eq!(to_windows_path("a"), "a");
}

#[test]
fn unix_clean_form() {
    for s in [r"\\?\C:\Games\Foo\", "A\\B/C//", r"\\.\X\", "MiXeD/Path/"] {
        let r = to_unix_clean_path_string(s);
        assert!(!r.contains('\\'));
        assert_eq!(r, r.to_ascii_lowercase());
        assert!(!r.ends_with('/'));
    }
}

#[test]
fn enumeration_plans() {
    assert!(matches!(enum_plan(None), EnumPlan::Unchanged));
    let forced = RedirectResult { target_path: "t".to_string(), mode: VfsMode::Force };
    assert!(matches!(enum_plan(Some(forced)), EnumPlan::TargetOnly(t) if t == "t"));
    let fallback = RedirectResult { target_path: "u".to_string(), mode: VfsMode::Fallback };
    assert!(matches!(enum_plan(Some(fallback)), EnumPlan::Merge(t) if t == "u"));
}
