use aegiscore::config::{tool_ctx_from_config, AegisConfig, ToolContext};
use aegiscore::ratelimit::RateLimiter;
use aegiscore::runtime::{
    chat_completions_url, ChatMessage, FunctionCall, LocalProvider, McpProvider, NextCall,
    ReplyOutcome, RunOutcome, SkillRun, ToolCall,
};

fn call(id: &str, name: &str) -> ToolCall {
    ToolCall {
        id: id.to_string(),
        kind: "function".to_string(),
        function: FunctionCall { name: name.to_string(), arguments: "{}".to_string() },
    }
}

fn reply(content: Option<&str>, calls: Option<Vec<ToolCall>>) -> ChatMessage {
    ChatMessage {
        role: "assistant".to_string(),
        content: content.map(|s| s.to_string()),
        tool_call_id: None,
        tool_calls: calls,
    }
}

#[test]
fn run_without_tool_calls_returns_output() {
    let mut run = SkillRun::start("s".into(), "sys".into(), "{}".into(), vec![], 8);
    assert_eq!(run.messages().len(), 2);
    assert_eq!(run.messages()[0].role, "system");
    assert_eq!(run.messages()[1].content.as_deref(), Some("{}"));
    match run.on_reply(reply(Some("done"), None)) {
        ReplyOutcome::Finished(RunOutcome::Output(t)) => assert_eq!(t, "done"),
        other => panic!("{other:?}"),
    }
}

#[test]
fn run_executes_allowed_tools_and_refuses_others() {
    let mut run = SkillRun::start("s".into(), "sys".into(), "in".into(), vec!["read_file".into()], 8);
    let r = run.on_reply(reply(None, Some(vec![call("1", "read_file"), call("2", "shell_command")])));
    assert!(matches!(r, ReplyOutcome::ToolsRequested));
    assert_eq!(run.messages().len(), 3);
    assert!(run.messages()[2].tool_calls.is_none());
    match run.next_tool_call() {
        NextCall::Run(c) => {
            assert_eq!(c.id, "1");
            run.record_tool_output(c.id, "out".into());
        }
        other => panic!("{other:?}"),
    }
    assert_eq!(run.messages()[3].role, "tool");
    assert_eq!(run.messages()[3].tool_call_id.as_deref(), Some("1"));
    match run.next_tool_call() {
        NextCall::Refused(e) => {
            assert_eq!(e.message(), "skill s attempted disallowed tool: shell_command")
        }
        other => panic!("{other:?}"),
    }
}

#[test]
fn run_stops_after_max_rounds() {
    let mut run = SkillRun::start("s".into(), "sys".into(), "in".into(), vec!["t".into()], 1);
    assert!(matches!(run.on_reply(reply(None, Some(vec![call("1", "t")]))), ReplyOutcome::ToolsRequested));
    assert!(matches!(run.next_tool_call(), NextCall::Run(_)));
    run.record_tool_output("1".into(), "x".into());
    assert!(matches!(run.next_tool_call(), NextCall::RoundDone));
    assert_eq!(run.current_round(), 1);
    match run.on_reply(reply(None, Some(vec![call("2", "t")]))) {
        ReplyOutcome::Finished(RunOutcome::MaxRoundsReached) => {}
        other => panic!("{other:?}"),
    }
}

#[test]
fn empty_tool_call_list_counts_as_final_answer() {
    let mut run = SkillRun::start("s".into(), "sys".into(), "in".into(), vec![], 0);
    match run.on_reply(reply(None, Some(vec![]))) {
        ReplyOutcome::Finished(RunOutcome::Output(t)) => assert_eq!(t, ""),
        other => panic!("{other:?}"),
    }
}

#[test]
fn local_provider_echoes_last_user_message() {
    let msgs = vec![
        ChatMessage { role: "user".into(), content: Some("first".into()), tool_call_id: None, tool_calls: None },
        ChatMessage { role: "user".into(), content: Some("second".into()), tool_call_id: None, tool_calls: None },
        ChatMessage { role: "tool".into(), content: Some("t".into()), tool_call_id: None, tool_calls: None },
    ];
    let m = LocalProvider.respond(&msgs);
    assert_eq!(m.role, "assistant");
    assert_eq!(m.content.as_deref(), Some("LocalProvider (no LLM configured). Received: second"));
    let none = LocalProvider.respond(&vec![]);
    assert_eq!(none.content.as_deref(), Some("LocalProvider (no LLM configured). Received: "));
}

#[test]
fn mcp_provider_is_not_configured() {
    let e = McpProvider.respond(&vec![]).unwrap_err();
    assert_eq!(e.message(), "McpProvider is not configured in this build");
}

#[test]
fn completions_url_normalizes_base() {
    assert_eq!(chat_completions_url("https://api.openai.com/v1"), "https://api.openai.com/v1/chat/completions");
    assert_eq!(chat_completions_url("https://host/v1//"), "https://host/v1/chat/completions");
    assert_eq!(chat_completions_url("http://localhost:8080"), "http://localhost:8080/v1/chat/completions");
}

#[test]
fn default_config_values() {
    let c = AegisConfig::default();
    assert_eq!(c.llm.base_url, "https://api.openai.com/v1");
    assert_eq!(c.llm.model, "gpt-4.1-mini");
    assert_eq!(c.llm.api_key_env, "OPENAI_API_KEY");
    assert_eq!(c.runtime.max_tool_rounds, 8);
    assert!(!c.runtime.allow_dangerous_tools);
    assert_eq!(c.runtime.fs_root, ".");
    assert_eq!(c.runtime.max_read_bytes, 1048576);
    assert_eq!(c.runtime.http_max_bytes, 2097152);
    assert_eq!(c.server.host, "127.0.0.1");
    assert_eq!(c.server.port, 8787);
}

#[test]
fn tool_context_copies_config() {
    let mut c = AegisConfig::default();
    c.runtime.allow_dangerous_tools = true;
    c.runtime.shell_timeout_ms = 5;
    let ctx = tool_ctx_from_config(&c, "/root".to_string());
    assert_eq!(ctx.fs_root, "/root");
    assert!(ctx.allow_dangerous_tools);
    assert_eq!(ctx.shell_timeout_ms, 5);
    let d = ToolContext::default_for_repo("/w".into());
    assert_eq!(d.http_timeout_ms, 15000);
    assert!(!d.allow_dangerous_tools);
}

#[test]
fn rate_limiter_window() {
    let mut rl = RateLimiter::new(1_000, 2);
    assert!(rl.allow_at(0));
    assert!(rl.allow_at(10));
    assert!(!rl.allow_at(20));
    assert!(!rl.allow_at(1_000));
    assert!(rl.allow_at(1_005));
    assert!(rl.allow_at(2_500));
    assert!(rl.allow_at(2_600));
    assert!(!rl.allow_at(2_700));
}

#[test]
fn rate_limiter_with_zero_capacity_refuses() {
    let mut rl = RateLimiter::new(1_000_000_000, 0);
    assert!(!rl.allow());
    let mut open = RateLimiter::new(1_000_000_000, 50);
    assert!(open.allow());
}

#[test]
fn never_more_than_the_limit_within_a_window() {
    let window: u128 = 100;
    let max = 3;
    let mut rl = RateLimiter::new(window, max);
    let times: Vec<u128> = (0..400).map(|i| i * 7 / 3).collect();
    let mut accepted: Vec<u128> = Vec::new();
    for &t in &times {
        let within = accepted.iter().filter(|&&a| t - a <= window).count();
        let ok = rl.allow_at(t);
        assert_eq!(ok, within < max);
        if ok {
            assert!(within + 1 <= max);
            accepted.push(t);
        }
    }
    assert!(!accepted.is_empty());
}

#[test]
fn first_requests_within_one_window_pass() {
    let mut rl = RateLimiter::new(100, 3);
    let got: Vec<bool> = [0u128, 10, 20, 30, 40, 100].iter().map(|&t| rl.allow_at(t)).collect();
    assert_eq!(got, vec![true, true, true, false, false, false]);
}
