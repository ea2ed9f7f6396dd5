use aegiscore::registry::{load_skills_registry, RegistryError, SkillRegistry, SkillRegistryEntry, Tool, ToolRegistry};
use aegiscore::skills::{SkillSpec, SkillStoreItem};

fn spec(name: &str) -> SkillSpec {
    SkillSpec {
        name: name.to_string(),
        version: "0.1.0".to_string(),
        description: "d".to_string(),
        author: "a".to_string(),
        license: "MIT".to_string(),
        system_prompt: "p".to_string(),
        allowed_tools: vec!["read_file".to_string()],
    }
}

fn entry(name: &str) -> SkillRegistryEntry {
    SkillRegistryEntry { spec: spec(name), source_path: None }
}

#[test]
fn register_get_list_in_name_order() {
    let mut reg = SkillRegistry::new();
    reg.register(entry("zeta")).unwrap();
    reg.register(entry("alpha")).unwrap();
    reg.register(entry("mid")).unwrap();
    assert_eq!(reg.get("alpha").unwrap().spec.name, "alpha");
    assert!(reg.get("beta").is_none());
    let names: Vec<&str> = reg.list().iter().map(|e| e.spec.name.as_str()).collect();
    assert_eq!(names, vec!["alpha", "mid", "zeta"]);
}

#[test]
fn duplicate_skill_is_refused() {
    let mut reg = SkillRegistry::new();
    reg.register(entry("x")).unwrap();
    let err = reg.register(entry("x")).unwrap_err();
    assert_eq!(err.message(), "skill already registered: x");
    assert_eq!(reg.list().len(), 1);
}

#[test]
fn unregister_returns_entry_and_removes_it() {
    let mut reg = SkillRegistry::new();
    reg.register(entry("a")).unwrap();
    reg.register(entry("b")).unwrap();
    let e = reg.unregister("a").unwrap();
    assert_eq!(e.spec.name, "a");
    assert!(reg.get("a").is_none());
    assert!(reg.unregister("a").is_none());
    assert_eq!(reg.list().len(), 1);
}

#[test]
fn load_registry_keeps_paths_and_refuses_duplicates() {
    let items = vec![
        SkillStoreItem { path: "skills/b.toml".to_string(), spec: spec("b") },
        SkillStoreItem { path: "skills/a.md".to_string(), spec: spec("a") },
    ];
    let reg = load_skills_registry(items).unwrap();
    assert_eq!(reg.get("a").unwrap().source_path.as_deref(), Some("skills/a.md"));
    let dup = vec![
        SkillStoreItem { path: "1".to_string(), spec: spec("same") },
        SkillStoreItem { path: "2".to_string(), spec: spec("same") },
    ];
    match load_skills_registry(dup) {
        Err(RegistryError::SkillAlreadyRegistered { name }) => assert_eq!(name, "same"),
        _ => panic!("duplicate accepted"),
    }
}

fn tool(name: &str) -> Tool<u32> {
    Tool {
        name: name.to_string(),
        description: format!("{name} tool"),
        parameters: serde_json::Value::Null,
        handler: 7,
    }
}

#[test]
fn tool_registry_exports_only_allowed_tools_in_order() {
    let mut reg: ToolRegistry<u32> = ToolRegistry::new();
    for n in ["write_file", "read_file", "http_get", "text_summarize"] {
        reg.register(tool(n)).unwrap();
    }
    let err = reg.register(tool("http_get")).unwrap_err();
    assert_eq!(err.message(), "tool already registered: http_get");
    let allow = vec!["text_summarize".to_string(), "read_file".to_string(), "nope".to_string()];
    let names: Vec<&str> = reg.export_openai_tools(&allow).iter().map(|t| t.name.as_str()).collect();
    assert_eq!(names, vec!["read_file", "text_summarize"]);
    assert_eq!(reg.list().len(), 4);
    assert_eq!(reg.get("http_get").unwrap().handler, 7);
    assert!(reg.unregister("http_get").is_some());
    assert!(reg.get("http_get").is_none());
}

#[test]
fn names_order_by_code_point() {
    let mut reg = SkillRegistry::new();
    for n in ["b", "B", "ab", "a", "é"] {
        reg.register(entry(n)).unwrap();
    }
    let names: Vec<&str> = reg.list().iter().map(|e| e.spec.name.as_str()).collect();
    let mut sorted = names.clone();
    sorted.sort();
    assert_eq!(names, sorted);
}

#[test]
fn register_then_unregister_restores_the_listing() {
    let mut reg = SkillRegistry::new();
    reg.register(entry("m")).unwrap();
    reg.register(entry("c")).unwrap();
    let before: Vec<String> = reg.list().iter().map(|e| e.spec.name.clone()).collect();
    reg.register(entry("f")).unwrap();
    assert_eq!(reg.get("f").unwrap().spec.name, "f");
    reg.unregister("f").unwrap();
    let after: Vec<String> = reg.list().iter().map(|e| e.spec.name.clone()).collect();
    assert_eq!(before, after);
    assert_eq!(after, vec!["c", "m"]);
}
