use text_hook::pattern::{PatternMatcher, PatternTemplate};

#[test]
fn test_case_insensitive_literal_match() {
    let matcher = PatternMatcher::compile("Src/Main.rs");

    let caps = matcher.match_path("src/main.rs").unwrap();
    assert!(caps.is_empty());

    assert!(matcher.match_path("src/main.rs.bak").is_none());
}

#[test]
fn test_wildcard_boundary_and_empty_capture() {
    let matcher = PatternMatcher::compile("logs/err*");

    let caps_empty = matcher.match_path("logs/err").unwrap();
    assert_eq!(caps_empty, vec![""]);

    let caps_normal = matcher.match_path("logs/err_404").unwrap();
    assert_eq!(caps_normal, vec!["_404"]);
}

#[test]
fn test_star_dot_star_multi_dots() {
    let matcher = PatternMatcher::compile("assets/*.*");

    let caps = matcher.match_path("assets/archive.tar.gz").unwrap();
    assert_eq!(caps, vec!["archive.tar", "gz"]);
}

#[test]
fn test_recursive_wildcard_levels() {
    let matcher = PatternMatcher::compile("static/**/index.html");

    let caps_zero = matcher.match_path("static/index.html").unwrap();
    assert_eq!(caps_zero, vec![""]);

    let caps_one = matcher.match_path("static/assets/index.html").unwrap();
    assert_eq!(caps_one, vec!["assets"]);

    let caps_multi = matcher
        .match_path("static/assets/js/chunks/index.html")
        .unwrap();
    assert_eq!(caps_multi, vec!["assets/js/chunks"]);
}

#[test]
fn test_deep_backtracking_with_recursive() {
    let matcher = PatternMatcher::compile("a/**/b/c.txt");

    let caps = matcher.match_path("a/b/x/b/c.txt").unwrap();
    assert_eq!(caps, vec!["b/x"]);
}

#[test]
fn test_fill_template_with_empty_recursive() {
    let matcher = PatternMatcher::compile("src/**/main.rs");
    let template = PatternTemplate::compile("target/**/main.rs");

    let caps = matcher.match_path("src/main.rs").unwrap();
    assert_eq!(caps, vec![""]);

    let filled = template.fill(&caps);
    assert_eq!(filled, "target/main.rs");
}

#[test]
fn test_comprehensive_composition() {
    let matcher = PatternMatcher::compile("api/**/v1/*/*.*");
    let template = PatternTemplate::compile("backup/**/v1/*/*.*");

    let path = "api/users/roles/v1/fetch/avatar.png";
    let caps = matcher.match_path(path).unwrap();

    assert_eq!(caps, vec!["users/roles", "fetch", "avatar", "png"]);

    let filled = template.fill(&caps);
    assert_eq!(filled, "backup/users/roles/v1/fetch/avatar.png");
}

#[test]
fn test_utf8_char_boundary_safety() {
    let matcher = PatternMatcher::compile("目录/*.jpg");

    let caps = matcher.match_path("目录/中文.jpg").unwrap();
    assert_eq!(caps, vec!["中文"]);

    let matcher_macro = PatternMatcher::compile("prefix_*/file.txt");
    let caps_macro = matcher_macro.match_path("PREFIX_ß/file.txt").unwrap();
    assert_eq!(caps_macro, vec!["ß"]);
}

#[test]
fn test_multi_single_wildcard_backtracking() {
    let matcher = PatternMatcher::compile("a/*/b/*.txt");

    let caps = matcher.match_path("a/b/b/apple.txt").unwrap();
    assert_eq!(caps, vec!["b", "apple"]);
}

#[test]
fn matching_ignores_letter_case_of_path() {
    let matcher = PatternMatcher::compile("data/*.txt");
    assert!(matcher.match_path("data/file.txt").is_some());
    assert!(matcher.match_path("DATA/File.TXT").is_some());
    assert!(matcher.match_path("data/file.bin").is_none());
    assert!(matcher.match_path("DATA/FILE.BIN").is_none());
}

#[test]
fn matching_ignores_runs_of_slashes() {
    let matcher = PatternMatcher::compile("data/*.txt");
    let plain = matcher.match_path("data/file.txt");
    assert_eq!(plain, Some(vec!["file".to_string()]));
    assert_eq!(matcher.match_path("/data/file.txt"), plain);
    assert_eq!(matcher.match_path("data/file.txt/"), plain);
    assert_eq!(matcher.match_path("data//file.txt"), plain);
    assert!(matcher.match_path("/DATA//File.TXT/").is_some());
}

#[test]
fn fill_restores_matched_path() {
    for (pat, path) in [
        ("data/**/*.txt", "data/a/b/file.txt"),
        ("data/**/*.txt", "data/file.txt"),
        ("img/*.*", "img/title.png"),
        ("a/pre_*_post/c", "a/pre_x_post/c"),
    ] {
        let caps = PatternMatcher::compile(pat).match_path(path).unwrap();
        assert_eq!(PatternTemplate::compile(pat).fill(&caps), path);
    }
}
