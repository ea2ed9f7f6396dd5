use aegiscore::frontmatter::{decode_fields, decode_frontmatter, FieldEntry, FieldValue, Scalar};
use aegiscore::markdown::{parse_markdown_skill, split_frontmatter, Delimiter, SkillError};

#[test]
fn parses_markdown_skill_frontmatter_and_body() {
    let raw = r#"+++
name = "pdf_summarizer"
version = "0.1.0"
description = "Summarize a PDF into a short brief."
author = "Your Name"
license = "Apache-2.0"
allowed_tools = ["read_file", "text_summarize"]
+++
You are a helpful summarizer."#;
    let spec = parse_markdown_skill(raw, "skills/pdf_summarizer.md").unwrap();
    assert_eq!(spec.name, "pdf_summarizer");
    assert_eq!(spec.allowed_tools, vec!["read_file", "text_summarize"]);
    assert_eq!(spec.system_prompt, "You are a helpful summarizer.");
}

#[test]
fn markdown_skill_can_use_system_prompt_from_frontmatter_when_body_empty() {
    let raw = r#"+++
name = "hello"
version = "0.1.0"
description = "Say hello."
author = "Your Name"
license = "Apache-2.0"
allowed_tools = ["text_summarize"]
system_prompt = "Hello from frontmatter."
+++
"#;
    let spec = parse_markdown_skill(raw, "skills/hello.md").unwrap();
    assert_eq!(spec.system_prompt, "Hello from frontmatter.");
}

#[test]
fn rejects_markdown_without_frontmatter_delimiters() {
    let raw = "name = \"x\"";
    let err = parse_markdown_skill(raw, "skills/x.md").unwrap_err();
    assert!(err
        .message()
        .contains("must start with frontmatter delimiter"));
}

#[test]
fn parses_yaml_frontmatter_and_body() {
    let raw = r#"---
name: discussion
version: 0.1.0
description: Have an interactive discussion about a topic.
author: AegisCore
license: Apache-2.0
allowed-tools:
  - read_file
---
You are a discussion agent."#;
    let spec = parse_markdown_skill(raw, "skills/discussion.md").unwrap();
    assert_eq!(spec.name, "discussion");
    assert_eq!(spec.allowed_tools, vec!["read_file"]);
    assert_eq!(spec.system_prompt, "You are a discussion agent.");
}

#[test]
fn empty_markdown_is_refused_with_quoted_path() {
    let err = parse_markdown_skill("", "skills/e.md").unwrap_err();
    assert!(matches!(err, SkillError::EmptyMarkdown { .. }));
    assert_eq!(err.message(), "empty markdown skill: \"skills/e.md\"");
}

#[test]
fn unclosed_frontmatter_is_refused() {
    let err = parse_markdown_skill("---\nname: x\n", "skills/u.md").unwrap_err();
    assert_eq!(
        err.message(),
        "markdown skill missing closing frontmatter delimiter (---): \"skills/u.md\""
    );
}

#[test]
fn blank_body_without_frontmatter_prompt_is_refused() {
    let raw = "+++\nname = \"a\"\nversion = \"1\"\ndescription = \"d\"\nauthor = \"x\"\nlicense = \"MIT\"\nallowed_tools = []\n+++\n   \n";
    let err = parse_markdown_skill(raw, "s.md").unwrap_err();
    assert_eq!(err.message(), "markdown skill missing system prompt body: \"s.md\"");
}

#[test]
fn bad_toml_frontmatter_is_a_syntax_error() {
    let raw = "+++\nname = \n+++\nbody";
    let err = parse_markdown_skill(raw, "b.md").unwrap_err();
    assert_eq!(err.message(), "parse TOML frontmatter: \"b.md\"");
}

#[test]
fn missing_field_is_a_syntax_error() {
    let raw = "---\nname: a\n---\nbody";
    let err = parse_markdown_skill(raw, "m.md").unwrap_err();
    match err {
        SkillError::FrontmatterSyntax { format, detail, .. } => {
            assert_eq!(format, Delimiter::Yaml);
            assert_eq!(detail, "missing field `version`");
        }
        other => panic!("unexpected {other:?}"),
    }
}

#[test]
fn both_tool_spellings_are_a_duplicate() {
    let raw = "---\nname: a\nversion: '1'\ndescription: d\nauthor: x\nlicense: MIT\nallowed_tools: [a]\nallowed-tools: [b]\n---\nbody";
    let err = parse_markdown_skill(raw, "m.md").unwrap_err();
    match err {
        SkillError::FrontmatterSyntax { detail, .. } => {
            assert_eq!(detail, "duplicate field `allowed_tools`")
        }
        other => panic!("unexpected {other:?}"),
    }
}

#[test]
fn bom_and_crlf_are_handled_in_framing() {
    let raw = "\u{feff}+++ \r\nname = \"n\"\r\n+++\r\nline one\r\nline two\r\n";
    let parts = split_frontmatter(raw, "p.md").unwrap();
    assert_eq!(parts.delimiter, Delimiter::Toml);
    assert_eq!(parts.frontmatter, "name = \"n\"\n");
    assert_eq!(parts.body, "line one\nline two");
}

#[test]
fn body_prompt_is_trimmed_and_wins_over_frontmatter() {
    let raw = "---\nname: a\nversion: '1'\ndescription: d\nauthor: x\nlicense: MIT\nallowed_tools: []\nsystem_prompt: from fm\n---\n\n  from body  \n\n";
    let spec = parse_markdown_skill(raw, "m.md").unwrap();
    assert_eq!(spec.system_prompt, "from body");
    assert!(spec.allowed_tools.is_empty());
}

fn text(key: &str, value: &str) -> FieldEntry {
    FieldEntry { key: Some(key.to_string()), value: FieldValue::One(Scalar::Text(value.to_string())) }
}

fn base_entries() -> Vec<FieldEntry> {
    vec![
        text("name", "n"),
        text("version", "1"),
        text("description", "d"),
        text("author", "a"),
        text("license", "MIT"),
    ]
}

#[test]
fn decode_fields_reads_aliases_and_null_prompt() {
    let mut es = base_entries();
    es.push(FieldEntry {
        key: Some("allowed-tools".to_string()),
        value: FieldValue::List(vec![Scalar::Text("read_file".to_string()), Scalar::Text("http_get".to_string())]),
    });
    es.push(FieldEntry { key: Some("system-prompt".to_string()), value: FieldValue::One(Scalar::Null) });
    es.push(FieldEntry { key: None, value: FieldValue::One(Scalar::Other) });
    let fm = decode_fields(&es).unwrap();
    assert_eq!(fm.name, "n");
    assert_eq!(fm.license, "MIT");
    assert_eq!(fm.allowed_tools, vec!["read_file", "http_get"]);
    assert_eq!(fm.system_prompt, None);
}

#[test]
fn decode_fields_reports_the_first_broken_rule() {
    let mut es = base_entries();
    es[1] = FieldEntry { key: Some("version".to_string()), value: FieldValue::One(Scalar::Null) };
    assert_eq!(
        decode_fields(&es).unwrap_err(),
        "invalid type for field `version`, expected a string"
    );

    let mut es = base_entries();
    assert_eq!(decode_fields(&es).unwrap_err(), "missing field `allowed_tools`");
    es.push(FieldEntry { key: Some("allowed_tools".to_string()), value: FieldValue::One(Scalar::Text("x".to_string())) });
    assert_eq!(
        decode_fields(&es).unwrap_err(),
        "invalid type for field `allowed_tools`, expected a sequence"
    );

    let mut es = base_entries();
    es.push(FieldEntry {
        key: Some("allowed_tools".to_string()),
        value: FieldValue::List(vec![Scalar::Text("a".to_string()), Scalar::Other]),
    });
    assert_eq!(
        decode_fields(&es).unwrap_err(),
        "invalid element in field `allowed_tools`, expected a string"
    );

    let mut es = base_entries();
    es.push(FieldEntry { key: Some("allowed_tools".to_string()), value: FieldValue::List(vec![]) });
    es.push(FieldEntry { key: Some("system_prompt".to_string()), value: FieldValue::List(vec![]) });
    assert_eq!(
        decode_fields(&es).unwrap_err(),
        "invalid type for field `system_prompt`, expected a string"
    );
}

#[test]
fn decode_frontmatter_uses_the_parsers() {
    let fm = decode_frontmatter(
        &Delimiter::Toml,
        "name = \"n\"\nversion = \"1\"\ndescription = \"d\"\nauthor = \"a\"\nlicense = \"L\"\nallowed_tools = [\"x\", 3]\n",
    )
    .unwrap_err();
    assert_eq!(fm, "invalid element in field `allowed_tools`, expected a string");

    let fm = decode_frontmatter(
        &Delimiter::Yaml,
        "name: n\nversion: '1'\ndescription: d\nauthor: a\nlicense: L\nallowed_tools: [x]\nsystem_prompt: p\n",
    )
    .unwrap();
    assert_eq!(fm.allowed_tools, vec!["x"]);
    assert_eq!(fm.system_prompt, Some("p".to_string()));

    assert_eq!(decode_frontmatter(&Delimiter::Yaml, "just text\n").unwrap_err(), "missing field `name`");
    assert!(decode_frontmatter(&Delimiter::Toml, "name = \n").is_err());
}

#[test]
fn yaml_number_and_boolean_scalars_read_as_text() {
    let raw = "---\nname: true\nversion: 1.0\ndescription: d\nauthor: a\nlicense: 2\nallowed_tools:\n  - 123\n  - read_file\nsystem_prompt: 7\n---\n";
    let spec = parse_markdown_skill(raw, "s.md").unwrap();
    assert_eq!(spec.name, "true");
    assert_eq!(spec.version, "1.0");
    assert_eq!(spec.license, "2");
    assert_eq!(spec.allowed_tools, vec!["123", "read_file"]);
    assert_eq!(spec.system_prompt, "7");
}

#[test]
fn decode_fields_reads_numbers_and_booleans_as_text() {
    let mut es = base_entries();
    es[1] = FieldEntry { key: Some("version".to_string()), value: FieldValue::One(Scalar::Number("2".to_string())) };
    es.push(FieldEntry {
        key: Some("allowed_tools".to_string()),
        value: FieldValue::List(vec![Scalar::Bool(false), Scalar::Number("7".to_string())]),
    });
    es.push(FieldEntry { key: Some("system_prompt".to_string()), value: FieldValue::One(Scalar::Bool(true)) });
    let fm = decode_fields(&es).unwrap();
    assert_eq!(fm.version, "2");
    assert_eq!(fm.allowed_tools, vec!["false", "7"]);
    assert_eq!(fm.system_prompt, Some("true".to_string()));
}

#[test]
fn paths_are_quoted_as_paths() {
    let err = parse_markdown_skill("", "skills/it's.md").unwrap_err();
    assert_eq!(err.message(), format!("empty markdown skill: {:?}", std::path::Path::new("skills/it's.md")));
}
