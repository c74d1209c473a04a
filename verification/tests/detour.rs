use text_hook::detour::{detour_static_name, parse_detour_args, DetourArg, DetourAttrError, DetourFnError};

fn string_arg(key: &str, value: &str) -> DetourArg {
    DetourArg {
        key: key.to_string(),
        text: format!("{value:?}"),
        string: Some(value.to_string()),
        boolean: None,
    }
}

fn expr_arg(key: &str, text: &str) -> DetourArg {
    DetourArg { key: key.to_string(), text: text.to_string(), string: None, boolean: None }
}

fn bool_arg(key: &str, b: bool) -> DetourArg {
    DetourArg { key: key.to_string(), text: b.to_string(), string: None, boolean: Some(b) }
}

#[test]
fn detour_attr_defaults() {
    let args = vec![string_arg("dll", "gdi32.dll"), string_arg("symbol", "TextOutA"), expr_arg("fallback", "FALSE")];
    let attr = parse_detour_args(&args).ok().expect("parsed");
    assert_eq!(attr.dll, "gdi32.dll");
    assert_eq!(attr.symbol, "TextOutA");
    assert_eq!(attr.fallback.as_deref(), Some("FALSE"));
    assert!(attr.enable_hook_guard);
    assert_eq!(attr.export_name("text_out"), "text_out");
    assert_eq!(attr.abi(), "system");
    assert_eq!(attr.check_for_fn(), Ok(()));
}

#[test]
fn detour_attr_given_values() {
    let args = vec![
        string_arg("symbol", "TextOutA"),
        string_arg("dll", "gdi32.dll"),
        string_arg("export", "my_text_out"),
        string_arg("calling_convention", "C"),
        bool_arg("enable_hook_guard", false),
    ];
    let attr = parse_detour_args(&args).ok().expect("parsed");
    assert_eq!(attr.export_name("text_out"), "my_text_out");
    assert_eq!(attr.abi(), "C");
    assert!(!attr.enable_hook_guard);
    assert_eq!(attr.fallback, None);
    assert_eq!(attr.check_for_fn(), Err(DetourFnError::ExportNotAllowed));
}

#[test]
fn detour_attr_refusals() {
    let dup = vec![string_arg("dll", "a.dll"), string_arg("dll", "b.dll")];
    assert_eq!(parse_detour_args(&dup).err(), Some(DetourAttrError::Duplicate { index: 1 }));
    let unknown = vec![string_arg("dll", "a.dll"), string_arg("sym", "x")];
    assert_eq!(parse_detour_args(&unknown).err(), Some(DetourAttrError::Unknown { index: 1 }));
    let not_string = vec![expr_arg("dll", "DLL_NAME")];
    assert_eq!(parse_detour_args(&not_string).err(), Some(DetourAttrError::NotString { index: 0 }));
    let not_bool = vec![string_arg("enable_hook_guard", "yes")];
    assert_eq!(parse_detour_args(&not_bool).err(), Some(DetourAttrError::NotBool { index: 0 }));
    let not_bool = vec![expr_arg("enable_hook_guard", "GUARD")];
    assert_eq!(parse_detour_args(&not_bool).err(), Some(DetourAttrError::NotBool { index: 0 }));
    assert_eq!(parse_detour_args(&[string_arg("symbol", "X")]).err(), Some(DetourAttrError::MissingDll));
    assert_eq!(parse_detour_args(&[string_arg("dll", "a.dll")]).err(), Some(DetourAttrError::MissingSymbol));
    let conv = vec![string_arg("dll", "a.dll"), string_arg("symbol", "X"), string_arg("calling_convention", "C")];
    let attr = parse_detour_args(&conv).ok().expect("parsed");
    assert_eq!(attr.check_for_fn(), Err(DetourFnError::ConventionNotAllowed));
}

#[test]
fn detour_static_names() {
    assert_eq!(detour_static_name("TextOutA"), "HOOK_TEXT_OUT_A");
    assert_eq!(detour_static_name("create_file_w"), "HOOK_CREATE_FILE_W");
}

#[test]
fn hook_guard_given_as_string() {
    let args = vec![string_arg("dll", "gdi32.dll"), string_arg("symbol", "TextOutA"), string_arg("enable_hook_guard", "false")];
    let attr = parse_detour_args(&args).ok().expect("parsed");
    assert_eq!(attr.dll, "gdi32.dll");
    assert_eq!(attr.symbol, "TextOutA");
    assert!(!attr.enable_hook_guard);
    let args = vec![string_arg("dll", "gdi32.dll"), string_arg("symbol", "TextOutA"), string_arg("enable_hook_guard", "true")];
    assert!(parse_detour_args(&args).ok().expect("parsed").enable_hook_guard);
}
