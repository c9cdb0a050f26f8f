use chumod_loader::config_toml::{
    api_toml_get_bool, api_toml_get_int, api_toml_get_number, api_toml_get_string,
    api_toml_section_exists, parse_toml_document, TomlNumber,
};
use chumod_loader::dependency::{mod_key, normalize_name, parse_dependency_list, sort_mods, PendingMod};

fn pending(file: &str, display: &str, deps: &[&str]) -> PendingMod {
    PendingMod {
        file_name: file.to_string(),
        path: format!("C:\\mods\\{file}"),
        handle: 0,
        display_name: display.to_string(),
        dependencies: deps.iter().map(|d| d.to_string()).collect(),
    }
}

#[test]
fn dependency_keys() {
    assert_eq!(normalize_name("  Core.DLL "), "core");
    assert_eq!(normalize_name("a.dll.dll"), "a.dll");
    assert_eq!(mod_key("core.dll", "Core Lib"), "core lib");
    assert_eq!(mod_key("core.dll", "   "), "core");
    assert_eq!(parse_dependency_list(" Core.dll, ,ui ,"), vec!["core".to_string(), "ui".to_string()]);
    assert_eq!(parse_dependency_list(""), Vec::<String>::new());
}

#[test]
fn dependencies_load_first() {
    let mods = vec![
        pending("a.dll", "A", &["b"]),
        pending("b.dll", "B", &[]),
        pending("c.dll", "C", &["a", "missing"]),
    ];
    let order: Vec<String> = sort_mods(mods).into_iter().map(|m| m.file_name).collect();
    assert_eq!(order, vec!["b.dll", "a.dll", "c.dll"]);
}

#[test]
fn ready_mods_load_first_in_first_out() {
    let mods = vec![
        pending("a.dll", "A", &["c"]),
        pending("b.dll", "B", &["c"]),
        pending("c.dll", "C", &[]),
        pending("d.dll", "D", &[]),
    ];
    let order: Vec<String> = sort_mods(mods).into_iter().map(|m| m.file_name).collect();
    assert_eq!(order, vec!["c.dll", "d.dll", "a.dll", "b.dll"]);
    let mods = vec![
        pending("late.dll", "Late", &["base", "mid"]),
        pending("mid.dll", "Mid", &["base"]),
        pending("base.dll", "Base", &[]),
        pending("free.dll", "Free", &[]),
    ];
    let order: Vec<String> = sort_mods(mods).into_iter().map(|m| m.file_name).collect();
    assert_eq!(order, vec!["base.dll", "free.dll", "mid.dll", "late.dll"]);
}

#[test]
fn cycles_are_left_out() {
    let mods = vec![
        pending("x.dll", "X", &["y"]),
        pending("y.dll", "Y", &["x"]),
        pending("z.dll", "Z", &["z"]),
        pending("w.dll", "W", &["x"]),
    ];
    let order: Vec<String> = sort_mods(mods).into_iter().map(|m| m.file_name).collect();
    assert_eq!(order, vec!["z.dll"]);
}

#[test]
fn toml_lookups() {
    let doc = parse_toml_document(
        "[a]\nflag = true\nn = 42\nbig = 9999999999\nf = 1.5\ns = \"hello\"\n[a.b]\nx = 1\n",
    );
    assert!(doc.is_some());
    assert_eq!(api_toml_section_exists(&doc, Some("a")), 1);
    assert_eq!(api_toml_section_exists(&doc, Some("a.b")), 1);
    assert_eq!(api_toml_section_exists(&doc, Some("a.n")), 0);
    assert_eq!(api_toml_section_exists(&doc, Some("zzz")), 0);
    assert_eq!(api_toml_section_exists(&doc, None), 0);
    assert_eq!(api_toml_get_bool(&doc, Some("a"), Some("flag"), 0), 1);
    assert_eq!(api_toml_get_bool(&doc, Some("a"), Some("n"), 5), 5);
    assert_eq!(api_toml_get_int(&doc, Some("a"), Some("n"), 0), 42);
    assert_eq!(api_toml_get_int(&doc, Some("a"), Some("big"), -1), -1);
    assert_eq!(api_toml_get_int(&doc, Some("a.b"), Some("x"), 0), 1);
    match api_toml_get_number(&doc, Some("a"), Some("f")) {
        Some(TomlNumber::Float(bits)) => assert_eq!(f64::from_bits(bits), 1.5),
        _ => panic!("expected a float"),
    }
    assert!(matches!(api_toml_get_number(&doc, Some("a"), Some("n")), Some(TomlNumber::Integer(42))));
    assert!(api_toml_get_number(&doc, Some("a"), Some("s")).is_none());
    assert_eq!(api_toml_get_string(&doc, Some("a"), Some("s"), 64, None), Some(b"hello".to_vec()));
    assert_eq!(api_toml_get_string(&doc, Some("a"), Some("s"), 3, None), Some(b"he".to_vec()));
    assert_eq!(api_toml_get_string(&doc, Some("a"), Some("zz"), 64, Some("dflt")), Some(b"dflt".to_vec()));
    assert_eq!(api_toml_get_string(&doc, Some("a"), Some("s"), 0, None), None);
    assert_eq!(api_toml_get_string(&doc, None, Some("s"), 8, None), None);
}

#[test]
fn invalid_toml_gives_no_document() {
    assert!(parse_toml_document("not toml").is_none());
    let none = None;
    assert_eq!(api_toml_get_int(&none, Some("a"), Some("n"), 7), 7);
    assert_eq!(api_toml_get_string(&none, Some("a"), Some("n"), 8, Some("d")), Some(b"d".to_vec()));
}
