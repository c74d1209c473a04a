use text_hook::vfs_rules::{
    collect_create_dirs, count_pattern_captures, make_rule_entries, resolve_vfs_mode,
    validate_dir_path, validate_path_vars, validate_pattern, VfsMode, VfsRuleEntry,
};

#[test]
fn test_count_pattern_captures() {
    assert_eq!(count_pattern_captures("abc/def"), 0);
    assert_eq!(count_pattern_captures(""), 0);

    assert_eq!(count_pattern_captures("abc/*"), 1);
    assert_eq!(count_pattern_captures("*.ext"), 1);
    assert_eq!(count_pattern_captures("abc*def"), 1);
    assert_eq!(count_pattern_captures("**"), 1);
    assert_eq!(count_pattern_captures("a/**/b"), 1);

    assert_eq!(count_pattern_captures("*.*"), 2);
    assert_eq!(count_pattern_captures("a/*.*"), 2);
    assert_eq!(count_pattern_captures("a/*/*"), 2);

    assert_eq!(count_pattern_captures("a/**/b/*.json"), 2);
}

#[test]
fn test_validate_path_vars_success() {
    assert!(validate_path_vars("foo/{cwd}/bar", "test").is_ok());
    assert!(validate_path_vars("{temp_dir}/myapp", "test").is_ok());
    assert!(validate_path_vars("path/to/{exe_dir}", "test").is_ok());
    assert!(validate_path_vars("{resource_pack_dir}/assets", "test").is_ok());
    assert!(validate_path_vars("no_vars_at_all", "test").is_ok());
}

#[test]
fn test_validate_path_vars_failures() {
    let res = validate_path_vars("{unknown_var}/foo", "test");
    assert!(res.is_err());
    assert!(res.unwrap_err().message().contains("包含未知变量"));

    let res = validate_path_vars("foo/{}/bar", "test");
    assert!(res.is_err());
    assert!(res.unwrap_err().message().contains("包含空变量"));

    let res = validate_path_vars("foo/{cwd", "test");
    assert!(res.is_err());
    assert!(res.unwrap_err().message().contains("中的变量未闭合"));

    let res = validate_path_vars("foo/{a{b}}bar", "test");
    assert!(res.is_err());
    assert!(res.unwrap_err().message().contains("包含非法嵌套"));

    let res = validate_path_vars("foo/cwd}", "test");
    assert!(res.is_err());
    assert!(res.unwrap_err().message().contains("包含未匹配的"));
}

#[test]
fn test_validate_dir_path() {
    assert!(validate_dir_path("{cwd}/my_dir").is_ok());

    let res = validate_dir_path("");
    assert!(res.is_err());
    assert!(res.unwrap_err().message().contains("路径不能为空"));

    let res = validate_dir_path("foo\\bar");
    assert!(res.is_err());
    assert!(res.unwrap_err().message().contains("包含非法分隔符"));

    let res = validate_dir_path("foo/*/bar");
    assert!(res.is_err());
    assert!(res.unwrap_err().message().contains("包含非法通配符"));
}

#[test]
fn test_validate_pattern_success() {
    assert!(validate_pattern("abc/def", "source").is_ok());
    assert!(validate_pattern("abc/*.ext", "source").is_ok());
    assert!(validate_pattern("abc/name.*", "source").is_ok());
    assert!(validate_pattern("abc/*.*", "source").is_ok());
    assert!(validate_pattern("abc/**/def", "source").is_ok());
}

#[test]
fn test_validate_pattern_failures() {
    assert!(validate_pattern("", "source").is_err());

    assert!(validate_pattern("foo\\*", "source").is_err());

    let res = validate_pattern("a/**/**/b", "source");
    assert!(res.is_err());
    assert!(res.unwrap_err().message().contains("最多允许一个"));

    let res = validate_pattern("abc/a*b*c", "source");
    assert!(res.is_err());
    assert!(res.unwrap_err().message().contains("包含 2 个 `*`"));

    let res = validate_pattern("abc/**a/def", "source");
    assert!(res.is_err());
}

#[test]
fn test_resolve_vfs_mode_success() {
    let result = resolve_vfs_mode("fallback");
    assert!(result.is_ok());
    assert_eq!(result.ok(), Some(VfsMode::Fallback));

    let result = resolve_vfs_mode("force");
    assert!(result.is_ok());
    assert_eq!(result.ok(), Some(VfsMode::Force));
}

#[test]
fn test_resolve_vfs_mode_failures() {
    let result = resolve_vfs_mode("invalid");
    assert!(result.is_err());
    let err = result.err().unwrap().message();
    assert!(err.contains("非法的 VfsMode"));

    let result = resolve_vfs_mode("");
    assert!(result.is_err());
    assert!(result.err().unwrap().message().contains("非法的 VfsMode"));

    let result = resolve_vfs_mode("FALLBACK");
    assert!(result.is_err());
    assert!(result.err().unwrap().message().contains("非法的 VfsMode"));
}

fn entry(source: &str, target: &str, mode: &str, cfg: Option<&str>, dirs: Option<Vec<&str>>) -> VfsRuleEntry {
    VfsRuleEntry {
        source: source.to_string(),
        target: target.to_string(),
        mode: mode.to_string(),
        cfg: cfg.map(|c| c.to_string()),
        create_dirs: dirs.map(|d| d.into_iter().map(|s| s.to_string()).collect()),
    }
}

#[test]
fn make_rule_entries_accepts_matching_captures() {
    let rules = vec![
        entry("{cwd}/data/*.*", "{cwd}/patch/*.*", "fallback", None, None),
        entry("a/**/b", "c/**/d", "force", Some("feature = \"x\""), None),
    ];
    let out = make_rule_entries(&rules).ok().unwrap();
    assert_eq!(out.len(), 2);
    assert_eq!(out[0].source, "{cwd}/data/*.*");
    assert_eq!(out[0].mode, VfsMode::Fallback);
    assert_eq!(out[1].mode, VfsMode::Force);
    assert_eq!(out[1].cfg.as_deref(), Some("feature = \"x\""));
}

#[test]
fn make_rule_entries_reports_first_error() {
    let rules = vec![
        entry("a/*", "b/*", "force", None, None),
        entry("a/*", "b/c", "force", None, None),
        entry("a", "b", "bogus", None, None),
    ];
    let err = make_rule_entries(&rules).err().unwrap().message();
    assert!(err.contains("capture 数量不匹配"));
    assert!(err.contains("(1 captures)"));
    assert!(err.contains("(0 captures)"));

    let rules = vec![entry("a", "b", "bogus", None, None)];
    let err = make_rule_entries(&rules).err().unwrap().message();
    assert_eq!(err, "非法的 VfsMode: `bogus`, 期望 `fallback` 或 `force`");

    let rules = vec![entry("a/{nope}", "b", "force", None, None)];
    let err = make_rule_entries(&rules).err().unwrap().message();
    assert!(err.starts_with("source 路径 `a/{nope}`"));
}

#[test]
fn collect_create_dirs_dedups_and_prefers_unconditional() {
    let rules = vec![
        entry("a", "b", "force", Some("c1"), Some(vec!["x", "y"])),
        entry("a", "b", "force", None, Some(vec!["y", "z"])),
        entry("a", "b", "force", Some("c1"), Some(vec!["x", "w"])),
        entry("a", "b", "force", Some("c2"), Some(vec!["x", "z"])),
        entry("a", "b", "force", None, Some(vec!["z"])),
    ];
    let dirs = collect_create_dirs(&rules).ok().unwrap();
    let got: Vec<(Option<String>, String)> = dirs.into_iter().map(|d| (d.cfg, d.path)).collect();
    assert_eq!(
        got,
        vec![
            (Some("c1".to_string()), "x".to_string()),
            (None, "y".to_string()),
            (None, "z".to_string()),
            (Some("c1".to_string()), "w".to_string()),
            (Some("c2".to_string()), "x".to_string()),
        ]
    );
}

#[test]
fn collect_create_dirs_checks_every_path_first() {
    let rules = vec![
        entry("a", "b", "force", None, Some(vec!["ok"])),
        entry("a", "b", "force", None, Some(vec!["bad/*"])),
    ];
    let err = collect_create_dirs(&rules).err().unwrap().message();
    assert_eq!(err, "create_dirs 路径 `bad/*` 包含非法通配符 `*`, 目录路径不支持 glob");
}

#[test]
fn pattern_error_texts_carry_counts() {
    let err = validate_pattern("a/**/x/**", "target").err().unwrap().message();
    assert_eq!(err, "target 路径 `a/**/x/**` 包含 2 个 `**`, 最多允许一个");
    let err = validate_pattern("a/b/x*y*z*", "source").err().unwrap().message();
    assert!(err.contains("第 3 段 `x*y*z*` 包含 3 个 `*`"));
}

#[test]
fn capture_counts_add_over_a_join() {
    let a = "a/*/b";
    let b = "**/*.*";
    assert_eq!(count_pattern_captures(a), 1);
    assert_eq!(count_pattern_captures(b), 3);
    assert_eq!(count_pattern_captures(&format!("{a}/{b}")), 4);
    assert_eq!(count_pattern_captures(&format!("{b}/{a}")), 4);
}
