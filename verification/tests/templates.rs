use text_hook::template_tokens::{expand_template, replace_placeholders, Delim, TemplateError, Tok};
use text_hook::templates::{expanded_files, has_extension, ExpandedFile};

fn strings(v: &[&str]) -> Vec<String> {
    v.iter().map(|s| s.to_string()).collect()
}

#[test]
fn rust_mode_takes_rs_files_but_mod_and_lib() {
    let names = strings(&["a.rs", "mod.rs", "lib.rs", "b.txt", "my_file.rs", "skip_me.rs", ".rs"]);
    let exprs = vec![("a.rs".to_string(), "1 + 1".to_string())];
    let files = expanded_files(&names, true, &strings(&["skip_me.rs"]), &exprs);
    let stems: Vec<&str> = files.iter().map(|f| f.stem.as_str()).collect();
    assert_eq!(stems, vec!["a", "my_file"]);
    assert_eq!(files[0].pascal, "A");
    assert_eq!(files[1].pascal, "MyFile");
    assert_eq!(files[0].expr.as_deref(), Some("1 + 1"));
    assert_eq!(files[1].expr, None);
    assert_eq!(files[0].name, "a.rs");
    assert_eq!(files[1].name, "my_file.rs");
}

#[test]
fn plain_mode_takes_every_file_not_excluded() {
    let names = strings(&["notes.txt", "mod.rs", "data.bin.gz", "other"]);
    let files = expanded_files(&names, false, &strings(&["other"]), &[]);
    let stems: Vec<&str> = files.iter().map(|f| f.stem.as_str()).collect();
    assert_eq!(stems, vec!["notes", "mod", "data.bin"]);
    assert_eq!(files[2].pascal, "Data.bin");
}

#[test]
fn extensions_follow_the_last_dot() {
    assert!(has_extension("game.1337", "1337"));
    assert!(has_extension("a.b.1337", "1337"));
    assert!(!has_extension(".1337", "1337"));
    assert!(!has_extension("game.1337.bak", "1337"));
    assert!(!has_extension("game1337", "1337"));
    assert!(has_extension("x.", ""));
}

fn id(s: &str) -> Tok {
    Tok::Ident(s.to_string())
}

fn file() -> ExpandedFile {
    ExpandedFile {
        name: "my_module.rs".to_string(),
        stem: "my_module".to_string(),
        pascal: "MyModule".to_string(),
        expr: Some("1 + 2".to_string()),
    }
}

fn same(a: &[Tok], b: &[Tok]) -> bool {
    a.len() == b.len()
        && a.iter().zip(b.iter()).all(|(x, y)| match (x, y) {
            (Tok::Ident(p), Tok::Ident(q)) | (Tok::Str(p), Tok::Str(q)) | (Tok::Lit(p), Tok::Lit(q)) | (Tok::Expr(p), Tok::Expr(q)) => p == q,
            (Tok::Punct(p), Tok::Punct(q)) => p == q,
            (Tok::Group(d, p), Tok::Group(e, q)) => d == e && same(p, q),
            _ => false,
        })
}

#[test]
fn placeholders_filled_in() {
    let template = vec![
        id("pub"),
        id("mod"),
        id("__file_stem_ident__"),
        Tok::Punct(';'),
        Tok::Group(Delim::Brace, vec![id("__file_stem_pascal_ident__"), id("__file_str__"), id("__file_json_value__")]),
        id("__concat__"),
        Tok::Group(Delim::Paren, vec![Tok::Str("enable_".to_string()), Tok::Punct(','), id("__file_stem_str__")]),
        Tok::Punct(';'),
        Tok::Lit("3".to_string()),
    ];
    let out = replace_placeholders(template, &file()).ok().expect("filled in");
    let expected = vec![
        id("pub"),
        id("mod"),
        id("my_module"),
        Tok::Punct(';'),
        Tok::Group(Delim::Brace, vec![id("MyModule"), Tok::Str("my_module.rs".to_string()), Tok::Expr("1 + 2".to_string())]),
        Tok::Str("enable_my_module".to_string()),
        Tok::Lit("3".to_string()),
    ];
    assert!(same(&out, &expected));
}

#[test]
fn placeholder_errors() {
    let err = |t: Vec<Tok>, f: &ExpandedFile| replace_placeholders(t, f).err();
    assert_eq!(err(vec![id("__concat__")], &file()), Some(TemplateError::ConcatNeedsParens));
    assert_eq!(err(vec![id("__concat__"), Tok::Group(Delim::Brace, vec![])], &file()), Some(TemplateError::ConcatNeedsParens));
    assert_eq!(err(vec![id("__concat__"), Tok::Group(Delim::Paren, vec![id("a")])], &file()), Some(TemplateError::ConcatTooFewArgs));
    assert_eq!(err(vec![id("__concat__"), Tok::Group(Delim::Paren, vec![])], &file()), Some(TemplateError::ConcatTooFewArgs));
    assert_eq!(
        err(vec![id("__concat__"), Tok::Group(Delim::Paren, vec![id("a"), Tok::Punct(','), Tok::Punct(',')])], &file()),
        Some(TemplateError::EmptyConcatArg)
    );
    assert_eq!(
        err(vec![id("__concat__"), Tok::Group(Delim::Paren, vec![id("a"), Tok::Punct(','), Tok::Lit("1".to_string())])], &file()),
        Some(TemplateError::BadConcatArg)
    );
    assert_eq!(
        err(vec![id("__concat__"), Tok::Group(Delim::Paren, vec![id("a"), Tok::Punct(','), Tok::Str(String::new())])], &file()),
        Some(TemplateError::EmptyConcatPart)
    );
    let mut no_expr = file();
    no_expr.expr = None;
    assert_eq!(err(vec![Tok::Group(Delim::Bracket, vec![id("__file_json_value__")])], &no_expr), Some(TemplateError::JsonValueMissing));
}

fn named(stem: &str, expr: Option<&str>) -> ExpandedFile {
    ExpandedFile {
        name: format!("{stem}.rs"),
        stem: stem.to_string(),
        pascal: stem.to_uppercase(),
        expr: expr.map(|e| e.to_string()),
    }
}

#[test]
fn template_without_repeat_is_written_per_file() {
    let files = vec![named("a", None), named("b", None)];
    let template = vec![id("pub"), id("mod"), id("__file_stem_ident__"), Tok::Punct(';')];
    let out = expand_template(template, &files).ok().expect("expanded");
    let expected = vec![
        id("pub"),
        id("mod"),
        id("a"),
        Tok::Punct(';'),
        id("pub"),
        id("mod"),
        id("b"),
        Tok::Punct(';'),
    ];
    assert!(same(&out, &expected));
}

#[test]
fn only_repeat_parts_are_written_per_file() {
    let files = vec![named("a", Some("true")), named("b", Some("false"))];
    let body = vec![id("__file_stem_str__"), Tok::Punct('='), Tok::Punct('>'), id("__file_json_value__"), Tok::Punct(',')];
    let template = vec![
        id("static"),
        id("__file_stem_ident__"),
        Tok::Group(Delim::Brace, vec![id("__repeat__"), Tok::Group(Delim::Paren, body), Tok::Punct(';'), id("end")]),
    ];
    let out = expand_template(template, &files).ok().expect("expanded");
    let expected = vec![
        id("static"),
        id("__file_stem_ident__"),
        Tok::Group(
            Delim::Brace,
            vec![
                Tok::Str("a".to_string()),
                Tok::Punct('='),
                Tok::Punct('>'),
                Tok::Expr("true".to_string()),
                Tok::Punct(','),
                Tok::Str("b".to_string()),
                Tok::Punct('='),
                Tok::Punct('>'),
                Tok::Expr("false".to_string()),
                Tok::Punct(','),
                id("end"),
            ],
        ),
    ];
    assert!(same(&out, &expected));
}

#[test]
fn repeat_errors() {
    let files = vec![named("a", None)];
    let bad = vec![id("__repeat__"), id("x")];
    assert!(matches!(expand_template(bad, &files), Err(TemplateError::RepeatNeedsParens)));
    let last = vec![id("x"), id("__repeat__")];
    assert!(matches!(expand_template(last, &files), Err(TemplateError::RepeatNeedsParens)));
    let no_json = vec![id("__repeat__"), Tok::Group(Delim::Paren, vec![id("__file_json_value__")])];
    assert!(matches!(expand_template(no_json, &files), Err(TemplateError::JsonValueMissing)));
    let empty = expand_template(vec![id("x")], &[]).ok().expect("no files");
    assert!(empty.is_empty());
}
