//! Runtime configuration and the context handed to tools.
use vstd::prelude::*;
use crate::text::owned;

verus! {

/// Where and how to reach the chat-completions provider.
#[derive(Debug, Clone)]
pub struct LlmConfig {
    pub base_url: String,
    pub model: String,
    pub api_key_env: String,
}

/// Limits and switches of the agent runtime and its tools.
#[derive(Debug, Clone)]
pub struct RuntimeConfig {
    pub max_tool_rounds: usize,
    pub allow_dangerous_tools: bool,
    pub fs_root: String,
    pub max_read_bytes: u64,
    pub max_write_bytes: u64,
    pub http_max_bytes: u64,
    pub http_timeout_ms: u64,
    pub shell_timeout_ms: u64,
}

/// Where the HTTP server listens.
#[derive(Debug, Clone)]
pub struct ServerConfig {
    pub host: String,
    pub port: u16,
}

/// The whole configuration.
#[derive(Debug, Clone)]
pub struct AegisConfig {
    pub llm: LlmConfig,
    pub runtime: RuntimeConfig,
    pub server: ServerConfig,
}

/// The built-in defaults: the OpenAI endpoint and a small model, eight tool rounds,
/// dangerous tools off, the current directory as sandbox root, 1 MiB read and write
/// limits, a 2 MiB HTTP body limit, 15 s timeouts, and a server on 127.0.0.1:8787.
pub open spec fn is_default_config(c: AegisConfig) -> bool {
    &&& c.llm.base_url@ == "https://api.openai.com/v1"@
    &&& c.llm.model@ == "gpt-4.1-mini"@
    &&& c.llm.api_key_env@ == "OPENAI_API_KEY"@
    &&& c.runtime.max_tool_rounds == 8
    &&& !c.runtime.allow_dangerous_tools
    &&& c.runtime.fs_root@ == "."@
    &&& c.runtime.max_read_bytes == 1024 * 1024
    &&& c.runtime.max_write_bytes == 1024 * 1024
    &&& c.runtime.http_max_bytes == 2 * 1024 * 1024
    &&& c.runtime.http_timeout_ms == 15_000
    &&& c.runtime.shell_timeout_ms == 15_000
    &&& c.server.host@ == "127.0.0.1"@
    &&& c.server.port == 8787
}

impl Default for AegisConfig {
    fn default() -> (r: Self)
        ensures
            is_default_config(r),
    {
        AegisConfig {
            llm: LlmConfig {
                base_url: owned("https://api.openai.com/v1"),
                model: owned("gpt-4.1-mini"),
                api_key_env: owned("OPENAI_API_KEY"),
            },
            runtime: RuntimeConfig {
                max_tool_rounds: 8,
                allow_dangerous_tools: false,
                fs_root: owned("."),
                max_read_bytes: 1024 * 1024,
                max_write_bytes: 1024 * 1024,
                http_max_bytes: 2 * 1024 * 1024,
                http_timeout_ms: 15_000,
                shell_timeout_ms: 15_000,
            },
            server: ServerConfig { host: owned("127.0.0.1"), port: 8787 },
        }
    }
}

/// What a tool may do and how far it may go.
#[derive(Debug, Clone)]
pub struct ToolContext {
    pub fs_root: String,
    pub allow_dangerous_tools: bool,
    pub max_read_bytes: u64,
    pub max_write_bytes: u64,
    pub http_max_bytes: u64,
    pub http_timeout_ms: u64,
    pub shell_timeout_ms: u64,
}

impl ToolContext {
    /// The default context for a sandbox rooted at `fs_root` (the working directory):
    /// dangerous tools off, 1 MiB read and write limits, a 2 MiB HTTP body limit and
    /// 15 s timeouts.
    pub fn default_for_repo(fs_root: String) -> (c: ToolContext)
        ensures
            c.fs_root == fs_root,
            !c.allow_dangerous_tools,
            c.max_read_bytes == 1024 * 1024,
            c.max_write_bytes == 1024 * 1024,
            c.http_max_bytes == 2 * 1024 * 1024,
            c.http_timeout_ms == 15_000,
            c.shell_timeout_ms == 15_000,
    {
        ToolContext {
            fs_root,
            allow_dangerous_tools: false,
            max_read_bytes: 1024 * 1024,
            max_write_bytes: 1024 * 1024,
            http_max_bytes: 2 * 1024 * 1024,
            http_timeout_ms: 15_000,
            shell_timeout_ms: 15_000,
        }
    }
}

/// The tool context a configuration asks for, with the sandbox rooted at `fs_root` (the
/// configured root, made absolute by the caller).
pub fn tool_ctx_from_config(cfg: &AegisConfig, fs_root: String) -> (c: ToolContext)
    ensures
        c.fs_root == fs_root,
        c.allow_dangerous_tools == cfg.runtime.allow_dangerous_tools,
        c.max_read_bytes == cfg.runtime.max_read_bytes,
        c.max_write_bytes == cfg.runtime.max_write_bytes,
        c.http_max_bytes == cfg.runtime.http_max_bytes,
        c.http_timeout_ms == cfg.runtime.http_timeout_ms,
        c.shell_timeout_ms == cfg.runtime.shell_timeout_ms,
{
    let mut ctx = ToolContext::default_for_repo(fs_root);
    ctx.allow_dangerous_tools = cfg.runtime.allow_dangerous_tools;
    ctx.max_read_bytes = cfg.runtime.max_read_bytes;
    ctx.max_write_bytes = cfg.runtime.max_write_bytes;
    ctx.http_max_bytes = cfg.runtime.http_max_bytes;
    ctx.http_timeout_ms = cfg.runtime.http_timeout_ms;
    ctx.shell_timeout_ms = cfg.runtime.shell_timeout_ms;
    ctx
}

} // verus!
