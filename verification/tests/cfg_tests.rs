use firedbg_rust_debugger::cfg::{Config, Member, Trace, Workspace, name_less, trace_packages};
use std::collections::BTreeMap;

/// Reads `firedbg.toml` into a `Config`, naming trace levels as `Trace::from_name` does.
fn read_config(text: &str) -> Config {
    let table: toml::Table = text.parse().unwrap();
    let mut members = BTreeMap::new();
    if let Some(ws) = table.get("workspace").and_then(|w| w.as_table()) {
        if let Some(ms) = ws.get("members").and_then(|m| m.as_table()) {
            for (name, value) in ms.iter() {
                let trace = match value.get("trace").and_then(|t| t.as_str()) {
                    Some(s) => Trace::from_name(s).expect("a trace level"),
                    None => Trace::default(),
                };
                members.insert(name.clone(), Member { trace });
            }
        }
    }
    Config { workspace: Workspace { members }, targets: Vec::new() }
}

#[test]
fn firedbg_toml_parsing() {
    let config: Config = read_config(
        r#"
            [workspace.members]
            sea-query = { trace = "full" }
            main-one = { trace = "call-only" } 
            main-two = { trace = "none" } 
            shared = {}
        "#,
    );

    assert_eq!(config.workspace.members["sea-query"].trace, Trace::Full);
    assert_eq!(config.workspace.members["main-one"].trace, Trace::CallOnly);
    assert_eq!(config.workspace.members["main-two"].trace, Trace::Off);
    assert_eq!(config.workspace.members["shared"].trace, Trace::Off);
}

#[test]
fn trace_names_round_trip() {
    for t in [Trace::Off, Trace::CallOnly, Trace::Full] {
        assert_eq!(Trace::from_name(t.to_str()), Some(t));
    }
    assert_eq!(Trace::Full.to_str(), "full");
    assert_eq!(Trace::CallOnly.to_str(), "call-only");
    assert_eq!(Trace::Off.to_str(), "none");
    assert_eq!(Trace::from_name("Full"), None);
    assert_eq!(Trace::from_name(""), None);
}

fn names(v: &[&str]) -> Vec<String> {
    v.iter().map(|s| s.to_string()).collect()
}

#[test]
fn trace_levels_of_packages() {
    let packages = names(&["shared", "main-two", "main-one", "shared"]);
    let members = vec![
        ("shared".to_owned(), Trace::CallOnly),
        ("elsewhere".to_owned(), Trace::Full),
    ];
    assert_eq!(
        trace_packages(&packages, "main-one", &members),
        vec![
            ("main-one".to_owned(), Trace::Full),
            ("main-two".to_owned(), Trace::Off),
            ("shared".to_owned(), Trace::CallOnly),
        ]
    );
    // the last setting of a name wins, also over the executable's default
    let members = vec![
        ("main-one".to_owned(), Trace::CallOnly),
        ("main-one".to_owned(), Trace::Off),
    ];
    assert_eq!(
        trace_packages(&names(&["main-one"]), "main-one", &members),
        vec![("main-one".to_owned(), Trace::Off)]
    );
    assert!(trace_packages(&names(&[]), "x", &members).is_empty());
}

#[test]
fn names_in_string_order() {
    assert!(name_less("a", "b"));
    assert!(name_less("ab", "abc"));
    assert!(!name_less("abc", "ab"));
    assert!(!name_less("same", "same"));
    assert!(name_less("Z", "a"));
    assert!(name_less("z", "é"));
    assert_eq!(name_less("z", "é"), "z" < "é");
}
