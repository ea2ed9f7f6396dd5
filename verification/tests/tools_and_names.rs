use aegiscore::modules::{AegisModule, CoreModule};
use aegiscore::registry::SkillRegistry;
use aegiscore::naming::{infer_skill_name, skill_spec_from_prompt};
use aegiscore::skills::{
    file_extension, select_skill_files, skill_schema, skill_source, validate_skill, validation_outcome, SkillFormat, SkillSource, SkillStore,
};
use aegiscore::tools::net::{
    check_resolved, check_url_target, is_blocked_ip, parse_http_url, resolve_location, FetchStep, HttpFetch,
    HttpPolicyError, HttpUrl, IpAddress, RedirectError, Redirects, UrlTarget,
};
use aegiscore::tools::sandbox::{
    capped_limit, check_overwrite, check_write_size, confirm_in_sandbox, list_limit, sandbox_join,
    truncate_bytes, ListWalk, ListedEntry, SandboxError,
};
use aegiscore::tools::query::{query_answer, query_json, JsonQueryError};
use aegiscore::tools::shell::{plan_shell_command, ShellError};
use aegiscore::tools::summarize::{summarize_text, summary_fits};

#[test]
fn blocks_private_ipv4() {
    assert!(is_blocked_ip(&IpAddress::V4([10, 0, 0, 1])));
    assert!(is_blocked_ip(&IpAddress::V4([127, 0, 0, 1])));
    assert!(is_blocked_ip(&IpAddress::V4([169, 254, 1, 2])));
}

#[test]
fn allows_public_addresses() {
    assert!(!is_blocked_ip(&IpAddress::V4([8, 8, 8, 8])));
    assert!(!is_blocked_ip(&IpAddress::V4([172, 32, 0, 1])));
    assert!(is_blocked_ip(&IpAddress::V4([172, 31, 0, 1])));
    assert!(is_blocked_ip(&IpAddress::V4([255, 255, 255, 255])));
    assert!(is_blocked_ip(&IpAddress::V6([0, 0, 0, 0, 0, 0, 0, 1])));
    assert!(is_blocked_ip(&IpAddress::V6([0xfd00, 0, 0, 0, 0, 0, 0, 1])));
    assert!(is_blocked_ip(&IpAddress::V6([0xfe80, 0, 0, 0, 0, 0, 0, 1])));
    assert!(!is_blocked_ip(&IpAddress::V6([0x2001, 0xdb8, 0, 0, 0, 0, 0, 1])));
}

#[test]
fn blocks_localhost_domain() {
    let url = parse_http_url("http://localhost:1234/").unwrap();
    let err = check_url_target(&url, None).unwrap_err();
    assert!(err.message().contains("localhost domains are blocked"));
}

#[test]
fn blocks_loopback_ip() {
    let url = parse_http_url("http://127.0.0.1:1234/").unwrap();
    assert_eq!(url.host.as_deref(), Some("127.0.0.1"));
    let err = check_url_target(&url, Some(IpAddress::V4([127, 0, 0, 1]))).unwrap_err();
    assert!(err.message().contains("private/loopback/link-local IPs are blocked"));
}

fn parts(scheme: &str, host: Option<&str>, port: Option<u16>) -> HttpUrl {
    HttpUrl {
        href: String::new(),
        scheme: scheme.to_string(),
        host: host.map(|h| h.to_string()),
        port,
    }
}

#[test]
fn url_policy_order_and_resolution() {
    assert_eq!(check_url_target(&parts("ftp", Some("x"), Some(21)), None).unwrap_err(), HttpPolicyError::UnsupportedScheme);
    assert_eq!(check_url_target(&parts("https", None, Some(1)), None).unwrap_err(), HttpPolicyError::MissingHost);
    assert_eq!(check_url_target(&parts("https", Some("Printer.LOCAL"), Some(1)), None).unwrap_err(), HttpPolicyError::LocalhostBlocked);
    assert_eq!(check_url_target(&parts("https", Some("example.com"), None), None).unwrap_err(), HttpPolicyError::MissingPort);
    match check_url_target(&parse_http_url("https://example.com/x").unwrap(), None).unwrap() {
        UrlTarget::Resolve { host, port } => {
            assert_eq!(host, "example.com");
            assert_eq!(port, 443);
        }
        other => panic!("{other:?}"),
    }
    assert!(matches!(
        check_url_target(&parse_http_url("http://1.1.1.1/").unwrap(), Some(IpAddress::V4([1, 1, 1, 1]))),
        Ok(UrlTarget::Literal)
    ));
    assert_eq!(check_resolved(&vec![]).unwrap_err().message(), "host did not resolve to any IPs");
    assert_eq!(check_resolved(&vec![IpAddress::V4([1, 1, 1, 1]), IpAddress::V4([10, 1, 1, 1])]).unwrap_err(), HttpPolicyError::BlockedIp);
    assert!(check_resolved(&vec![IpAddress::V4([1, 1, 1, 1])]).is_ok());
}

#[test]
fn urls_are_parsed_and_joined() {
    let u = parse_http_url("HTTP://Example.COM/a/b?q=1").unwrap();
    assert_eq!(u.scheme, "http");
    assert_eq!(u.host.as_deref(), Some("example.com"));
    assert_eq!(u.port, Some(80));
    assert_eq!(u.href, "http://example.com/a/b?q=1");
    let j = resolve_location(&u, "../c").unwrap();
    assert_eq!(j.href, "http://example.com/c");
    let k = resolve_location(&u, "https://other.example:8443/x").unwrap();
    assert_eq!(k.port, Some(8443));
    assert_eq!(k.scheme, "https");
    assert!(parse_http_url("not a url").is_err());
    assert_eq!(parse_http_url("file:///etc/passwd").unwrap().host, None);
}

#[test]
fn redirects_are_bounded() {
    let mut r = Redirects::new();
    for _ in 0..5 {
        assert_eq!(r.follow(Some("/next".to_string())).unwrap(), "/next");
    }
    assert_eq!(r.follow(Some("/next".to_string())).unwrap_err().message(), "too many redirects");
    let mut fresh = Redirects::new();
    assert_eq!(fresh.follow(None).unwrap_err().message(), "redirect missing Location header");
}

#[test]
fn sandbox_refuses_escapes() {
    assert_eq!(sandbox_join("/root", "   ").unwrap_err(), SandboxError::EmptyPath);
    assert_eq!(sandbox_join("/root", "/etc/passwd").unwrap_err(), SandboxError::AbsolutePath);
    assert_eq!(sandbox_join("/root", "a/../../b").unwrap_err().message(), "parent directory components ('..') are not allowed");
    assert_eq!(sandbox_join("/root", "a/b.txt").unwrap(), "/root/a/b.txt");
    assert_eq!(sandbox_join("/root/", "a..b").unwrap(), "/root/a..b");
    assert_eq!(confirm_in_sandbox("/root/a".to_string(), "/root").unwrap(), "/root/a");
    assert_eq!(confirm_in_sandbox("/rootx/a".to_string(), "/root").unwrap_err(), SandboxError::EscapesRoot);
    assert!(confirm_in_sandbox("/root//./a/".to_string(), "/root/").is_ok());
}

#[test]
fn read_write_limits() {
    assert_eq!(capped_limit(Some(10), 100), 10);
    assert_eq!(capped_limit(Some(1000), 100), 100);
    assert_eq!(capped_limit(None, 100), 100);
    assert_eq!(truncate_bytes(vec![1, 2, 3, 4], 2), (vec![1, 2], true));
    assert_eq!(truncate_bytes(vec![1, 2], 2), (vec![1, 2], false));
    assert!(check_write_size("héllo", 6).is_ok());
    assert_eq!(check_write_size("héllo", 5).unwrap_err().message(), "content exceeds max_write_bytes");
    assert!(check_overwrite(true, true, "x").is_ok());
    assert_eq!(check_overwrite(true, false, "a.txt").unwrap_err().message(), "file exists (set overwrite=true): a.txt");
    assert_eq!(list_limit(None), 1000);
    assert_eq!(list_limit(Some(9000)), 5000);
}

#[test]
fn list_walk_descends_and_stops_at_limit() {
    let mut w = ListWalk::new("root".into(), true, 2);
    assert_eq!(w.next_dir().as_deref(), Some("root"));
    assert!(!w.is_full());
    w.record(ListedEntry { path: "root/d".into(), is_dir: true, size_bytes: None });
    w.record(ListedEntry { path: "root/f".into(), is_dir: false, size_bytes: Some(3) });
    assert!(w.is_full());
    assert_eq!(w.next_dir().as_deref(), Some("root/d"));
    assert!(w.next_dir().is_none());
    assert_eq!(w.into_entries().len(), 2);
}

#[test]
fn shell_checks() {
    assert_eq!(plan_shell_command(false, Some("ls"), None, 10).unwrap_err().message(), "shell_command is disabled by default (set runtime.allow_dangerous_tools=true)");
    assert_eq!(plan_shell_command(true, None, None, 10).unwrap_err(), ShellError::MissingCommand);
    assert_eq!(plan_shell_command(true, Some("/bin/ls"), None, 10).unwrap_err(), ShellError::PathInCommand);
    assert_eq!(plan_shell_command(true, Some("a\\b"), None, 10).unwrap_err(), ShellError::PathInCommand);
    let p = plan_shell_command(true, Some("ls"), Some(9_999_999), 10).unwrap();
    assert_eq!(p.command, "ls");
    assert_eq!(p.timeout_ms, 600000);
    assert_eq!(plan_shell_command(true, Some("ls"), None, 10).unwrap().timeout_ms, 10);
}

#[test]
fn summarize_takes_three_nonblank_lines() {
    let s = summarize_text("\r\n  one  \r\n\r\ntwo\n\n three\nfour", None);
    assert_eq!(s.summary, "one\ntwo\nthree");
    assert_eq!(s.summary_chars, 13);
    assert_eq!(s.input_chars, "\n  one  \n\ntwo\n\n three\nfour".chars().count());
    let cut = summarize_text("abcdefghij", Some(4));
    assert_eq!(cut.summary, "abcd");
    assert!(summary_fits("ééé", Some(4)));
    assert!(!summary_fits("ééé", Some(3)));
    assert_eq!(summarize_text("", None).summary, "");
}

#[test]
fn infers_skill_names() {
    assert_eq!(infer_skill_name("Create a PDF summarizer"), "pdf_summarizer");
    assert_eq!(infer_skill_name("  Draft a GitHub PR!! "), "draft_a_github_pr");
    assert_eq!(infer_skill_name("???"), "new_skill");
    assert_eq!(infer_skill_name("héllo wörld"), "h_llo_w_rld");
    let s = skill_spec_from_prompt("Make tea");
    assert_eq!(s.name, "make_tea");
    assert_eq!(s.version, "0.1.0");
    assert_eq!(s.system_prompt, "Make tea");
    assert_eq!(s.author, "Eduardo J. Barrios");
    assert_eq!(s.allowed_tools, vec!["read_file", "text_summarize"]);
}

#[test]
fn skill_files_are_selected_and_sorted() {
    assert_eq!(file_extension("a.toml").as_deref(), Some("toml"));
    assert_eq!(file_extension(".gitkeep"), None);
    assert_eq!(file_extension("noext"), None);
    assert_eq!(file_extension("a."), Some(String::new()));
    assert_eq!(file_extension(".."), None);
    assert_eq!(skill_source("x.md"), Some(SkillSource::Markdown));
    assert_eq!(skill_source("x.yaml"), None);
    let got = select_skill_files(vec!["b.md".into(), ".gitkeep".into(), "a.json".into(), "c.txt".into(), "A.toml".into()]);
    assert_eq!(got, vec!["A.toml", "a.json", "b.md"]);
}

#[test]
fn store_paths() {
    let store = SkillStore::new("skills".to_string());
    assert_eq!(store.candidate_paths("x"), vec!["skills/x.toml", "skills/x.json", "skills/x.md"]);
    assert_eq!(store.save_path("x", &SkillFormat::Json), "skills/x.json");
    let slash = SkillStore::new("skills/".to_string());
    assert_eq!(slash.save_path("y", &SkillFormat::Toml), "skills/y.toml");
}

#[test]
fn core_module_identity() {
    assert_eq!(CoreModule.name(), "core");
    assert_eq!(CoreModule.description(), "Built-in registries, tools, and runtime wiring");
    assert_eq!(CoreModule.version(), "0.1.0");
    let mut reg = SkillRegistry::new();
    assert!(CoreModule.register_skills(&mut reg).is_ok());
    assert!(reg.list().is_empty());
}

#[test]
fn accepted_paths_stay_under_root() {
    for (root, input) in [
        ("/srv/root", "docs/a.txt"),
        ("/srv/root/", "./notes/b.md"),
        (".", "x"),
        ("", "a/./b"),
        ("/", "etc"),
    ] {
        let joined = sandbox_join(root, input).unwrap();
        assert_eq!(confirm_in_sandbox(joined.clone(), root), Ok(joined));
    }
    assert_eq!(sandbox_join("/srv/root", "docs/a.txt").unwrap(), "/srv/root/docs/a.txt");
    assert_eq!(sandbox_join("/srv/root/", "./notes").unwrap(), "/srv/root/./notes");
}

#[test]
fn listing_ignores_directory_order() {
    let names = ["b.md", "a.toml", ".gitkeep", "c.json", "notes.txt", "a.json", "Z.md"];
    let expected = vec!["Z.md", "a.json", "a.toml", "b.md", "c.json"];
    let forward: Vec<String> = names.iter().map(|s| s.to_string()).collect();
    let backward: Vec<String> = names.iter().rev().map(|s| s.to_string()).collect();
    assert_eq!(select_skill_files(forward), expected);
    assert_eq!(select_skill_files(backward), expected);
}

#[test]
fn blocks_ipv4_mapped_addresses() {
    assert!(is_blocked_ip(&IpAddress::V6([0, 0, 0, 0, 0, 0xffff, 0x7f00, 0x0001])));
    assert!(is_blocked_ip(&IpAddress::V6([0, 0, 0, 0, 0, 0xffff, 0x0a00, 0x0001])));
    assert!(is_blocked_ip(&IpAddress::V6([0, 0, 0, 0, 0, 0xffff, 0xa9fe, 0x0102])));
    assert!(!is_blocked_ip(&IpAddress::V6([0, 0, 0, 0, 0, 0xffff, 0x0808, 0x0808])));
    assert!(!is_blocked_ip(&IpAddress::V6([0, 0, 0, 0, 0, 0xfffe, 0x7f00, 0x0001])));
}

fn valid_spec() -> aegiscore::skills::SkillSpec {
    skill_spec_from_prompt("Create a PDF summarizer")
}

#[test]
fn skills_are_validated_against_the_schema() {
    assert!(validate_skill(&valid_spec()).is_ok());

    let mut s = valid_spec();
    s.name = String::new();
    assert!(validate_skill(&s).is_err());

    let mut s = valid_spec();
    s.name = "é".repeat(128);
    assert!(validate_skill(&s).is_ok());
    s.name = "é".repeat(129);
    assert!(validate_skill(&s).is_err());

    let mut s = valid_spec();
    s.version = "v".repeat(33);
    assert!(validate_skill(&s).is_err());

    let mut s = valid_spec();
    s.allowed_tools = (0..128).map(|i| format!("t{i}")).collect();
    assert!(validate_skill(&s).is_ok());
    s.allowed_tools.push("one_more".to_string());
    assert!(validate_skill(&s).is_err());

    let mut s = valid_spec();
    s.allowed_tools = vec!["read_file".to_string(), String::new()];
    let msg = validate_skill(&s).unwrap_err();
    assert!(!msg.is_empty());

    let mut s = valid_spec();
    s.name = String::new();
    s.license = String::new();
    assert!(validate_skill(&s).unwrap_err().contains("; "));

    let mut s = valid_spec();
    s.name = String::new();
    assert_eq!(validate_skill(&s).unwrap_err(), "\"\" is shorter than 1 character");
}

#[test]
fn validation_outcome_joins_the_messages() {
    assert_eq!(validation_outcome(Some(vec![])), Ok(()));
    assert_eq!(validation_outcome(Some(vec!["a".to_string()])), Err("a".to_string()));
    assert_eq!(
        validation_outcome(Some(vec!["a".to_string(), "b".to_string(), "c".to_string()])),
        Err("a; b; c".to_string())
    );
    assert_eq!(validation_outcome(None), Err("the skill schema does not compile".to_string()));
}

#[test]
fn inferred_names_are_stable() {
    for prompt in ["Create a PDF summarizer", "  ---  ", "Hello, World! 42", "__x__y__", "Ünïcode only", "pdf"] {
        let once = infer_skill_name(prompt);
        assert_eq!(infer_skill_name(&once), once);
    }
}

#[test]
fn fetch_checks_every_url_before_sending() {
    let public = vec![IpAddress::V4([93, 184, 216, 34])];
    let mut f = HttpFetch::new(parse_http_url("https://example.com/a/b").unwrap());
    assert!(matches!(f.step(), FetchStep::Check(u) if u.href == "https://example.com/a/b"));
    assert_eq!(f.approve(None, &public), Ok(()));
    assert!(matches!(f.step(), FetchStep::Send(u) if u.href == "https://example.com/a/b"));
    f.redirect(Some("../c".to_string())).unwrap();
    assert!(matches!(f.step(), FetchStep::Check(u) if u.href == "https://example.com/c"));
    for _ in 0..4 {
        assert_eq!(f.approve(None, &public), Ok(()));
        f.redirect(Some("/next".to_string())).unwrap();
    }
    assert_eq!(f.approve(None, &public), Ok(()));
    match f.redirect(Some("/again".to_string())).unwrap_err() {
        RedirectError::Policy(e) => assert_eq!(e, HttpPolicyError::TooManyRedirects),
        other => panic!("{other:?}"),
    }
    assert!(matches!(f.step(), FetchStep::Check(_)));
    let mut g = HttpFetch::new(parse_http_url("https://example.com/").unwrap());
    assert_eq!(g.redirect(None).unwrap_err().message(), "redirect missing Location header");
    let mut h = HttpFetch::new(parse_http_url("https://example.com/").unwrap());
    assert!(matches!(h.redirect(Some("http://[::1".to_string())), Err(RedirectError::InvalidLocation(_))));
}

#[test]
fn fetch_never_sends_a_refused_url() {
    let none: Vec<IpAddress> = Vec::new();
    let public = vec![IpAddress::V4([93, 184, 216, 34])];
    let mut f = HttpFetch::new(parse_http_url("ftp://example.com/").unwrap());
    assert_eq!(f.approve(None, &public), Err(HttpPolicyError::UnsupportedScheme));
    assert!(matches!(f.step(), FetchStep::Check(_)));
    let mut f = HttpFetch::new(parse_http_url("http://localhost:1234/").unwrap());
    assert_eq!(f.approve(None, &public), Err(HttpPolicyError::LocalhostBlocked));
    assert!(matches!(f.step(), FetchStep::Check(_)));
    let mut f = HttpFetch::new(parse_http_url("http://127.0.0.1:1234/").unwrap());
    assert_eq!(f.approve(Some(IpAddress::V4([127, 0, 0, 1])), &none), Err(HttpPolicyError::BlockedIp));
    assert!(matches!(f.step(), FetchStep::Check(_)));
    let mut f = HttpFetch::new(parse_http_url("https://example.com/").unwrap());
    assert_eq!(f.approve(None, &none), Err(HttpPolicyError::NoAddresses));
    let private = vec![IpAddress::V4([93, 184, 216, 34]), IpAddress::V4([10, 0, 0, 1])];
    assert_eq!(f.approve(None, &private), Err(HttpPolicyError::BlockedIp));
    assert!(matches!(f.step(), FetchStep::Check(_)));
    let mut f = HttpFetch::new(parse_http_url("http://1.1.1.1/").unwrap());
    assert_eq!(f.approve(Some(IpAddress::V4([1, 1, 1, 1])), &none), Ok(()));
    assert!(matches!(f.step(), FetchStep::Send(u) if u.href == "http://1.1.1.1/"));
    // A redirect to a local name must pass again, and does not.
    f.redirect(Some("http://localhost/".to_string())).unwrap();
    assert_eq!(f.approve(None, &public), Err(HttpPolicyError::LocalhostBlocked));
    assert!(matches!(f.step(), FetchStep::Check(_)));
}

#[test]
fn json_query_finds_a_pointer() {
    let answer = query_json(Some("{\"a\":{\"b\":[1,\"x\"]}}".to_string()), Some("/a/b/1".to_string())).unwrap();
    assert_eq!(answer.pointer, "/a/b/1");
    assert_eq!(answer.found, Some("\"x\"".to_string()));
    let answer = query_json(Some("{\"a\":1}".to_string()), Some("/z".to_string())).unwrap();
    assert_eq!(answer.found, None);
    let answer = query_json(Some("{\"a\":{\"c\":true}}".to_string()), Some("".to_string())).unwrap();
    assert_eq!(answer.found, Some("{\"a\":{\"c\":true}}".to_string()));
}

#[test]
fn json_query_reports_missing_arguments() {
    assert_eq!(query_json(None, Some("/a".to_string())).unwrap_err().message(), "missing json");
    assert_eq!(query_json(None, None).unwrap_err().message(), "missing json");
    assert_eq!(query_json(Some("1".to_string()), None).unwrap_err().message(), "missing pointer");
    assert!(matches!(query_json(Some("{".to_string()), Some("".to_string())), Err(JsonQueryError::InvalidJson(_))));
    match query_answer("/p".to_string(), Err("bad".to_string())) {
        Err(JsonQueryError::InvalidJson(m)) => assert_eq!(m, "bad"),
        other => panic!("{other:?}"),
    }
    let a = query_answer("/p".to_string(), Ok(Some("3".to_string()))).unwrap();
    assert_eq!((a.pointer.as_str(), a.found.as_deref()), ("/p", Some("3")));
}

#[test]
fn saved_skills_are_found_in_their_format() {
    let store = SkillStore::new("skills".to_string());
    let candidates = store.candidate_paths("pdf_summarizer");
    assert_eq!(store.save_path("pdf_summarizer", &SkillFormat::Toml), candidates[0]);
    assert_eq!(store.save_path("pdf_summarizer", &SkillFormat::Json), candidates[1]);
    assert_eq!(skill_source("pdf_summarizer.toml"), Some(SkillSource::Toml));
    assert_eq!(skill_source("pdf_summarizer.json"), Some(SkillSource::Json));
    assert_eq!(skill_source(".toml"), None);
}

#[test]
fn the_skill_schema_reads_as_json() {
    let schema: serde_json::Value = serde_json::from_str(skill_schema()).unwrap();
    assert_eq!(schema["required"].as_array().unwrap().len(), 7);
    assert_eq!(schema["properties"]["name"]["maxLength"], 128);
    assert_eq!(schema["additionalProperties"], false);
}
