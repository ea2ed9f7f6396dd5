//! Running a skill: the conversation with the provider and the tool calls it asks for.
//!
//! A run alternates outside work (asking the provider, running a tool) and decisions;
//! [`SkillRun`] holds the decisions, the caller performs the work and reports back.
use vstd::prelude::*;
use crate::registry::allowed_name;
use crate::text::{chars_of, concat_chars, string_from_chars, strip_trailing, strip_trailing_chars,
    has_suffix, ends_with_chars, owned, CharClass};

verus! {

/// The function a tool call invokes: the tool's name and its JSON-encoded arguments.
#[derive(Debug, Clone)]
pub struct FunctionCall {
    pub name: String,
    pub arguments: String,
}

/// A tool call requested by the provider.
#[derive(Debug, Clone)]
pub struct ToolCall {
    pub id: String,
    pub kind: String,
    pub function: FunctionCall,
}

/// A message of the conversation.
#[derive(Debug, Clone)]
pub struct ChatMessage {
    pub role: String,
    pub content: Option<String>,
    pub tool_call_id: Option<String>,
    pub tool_calls: Option<Vec<ToolCall>>,
}

/// The text of an optional string; absent text is empty.
pub open spec fn text_or_empty(o: Option<String>) -> Seq<char> {
    match o {
        Some(s) => s@,
        None => Seq::empty(),
    }
}

/// `m` has role `role`, content `content`, and no tool call fields.
pub open spec fn plain_message(m: ChatMessage, role: Seq<char>, content: Seq<char>) -> bool {
    &&& m.role@ == role
    &&& m.content matches Some(c) && c@ == content
    &&& m.tool_call_id is None
    &&& m.tool_calls is None
}

/// How a run ended.
#[derive(Debug, Clone)]
pub enum RunOutcome {
    /// The provider answered without tool calls; its text, or empty text.
    Output(String),
    /// The provider still asked for tools when the last round was reached.
    MaxRoundsReached,
}

/// Why a run was aborted.
#[derive(Debug, Clone)]
pub enum RunError {
    /// The provider asked for a tool outside the skill's allowlist.
    DisallowedTool { skill: String, tool: String },
}

/// The message of a [`RunError`].
pub open spec fn run_error_text(e: RunError) -> Seq<char> {
    match e {
        RunError::DisallowedTool { skill, tool } => "skill "@ + skill@
            + " attempted disallowed tool: "@ + tool@,
    }
}

impl RunError {
    /// The error's message.
    pub fn message(&self) -> (m: String)
        ensures
            m@ == run_error_text(*self),
    {
        match self {
            RunError::DisallowedTool { skill, tool } => {
                let a = concat_chars(&chars_of("skill "), &chars_of(skill.as_str()));
                let b = concat_chars(&a, &chars_of(" attempted disallowed tool: "));
                string_from_chars(&concat_chars(&b, &chars_of(tool.as_str())))
            },
        }
    }
}

/// What the provider's reply leads to.
#[derive(Debug, Clone)]
pub enum ReplyOutcome {
    /// The run is over.
    Finished(RunOutcome),
    /// The reply's tool calls are pending; take them with [`SkillRun::next_tool_call`].
    ToolsRequested,
}

/// The next step within a round of tool calls.
#[derive(Debug, Clone)]
pub enum NextCall {
    /// Run this tool call, then report its output with [`SkillRun::record_tool_output`].
    Run(ToolCall),
    /// The call asks for a tool the skill may not use: the run is aborted.
    Refused(RunError),
    /// The round's calls are done; ask the provider again.
    RoundDone,
}

/// The state of a skill run.
pub struct SkillRun {
    skill: String,
    allowed_tools: Vec<String>,
    messages: Vec<ChatMessage>,
    round: usize,
    max_rounds: usize,
    pending: Vec<ToolCall>,
}

impl SkillRun {
    /// The skill's name.
    pub closed spec fn skill(&self) -> Seq<char> {
        self.skill@
    }

    /// The tools the skill may call.
    pub closed spec fn allowed(&self) -> Seq<String> {
        self.allowed_tools@
    }

    /// The conversation so far.
    pub closed spec fn transcript(&self) -> Seq<ChatMessage> {
        self.messages@
    }

    /// The number of completed tool rounds.
    pub closed spec fn round(&self) -> usize {
        self.round
    }

    /// The most tool rounds the run allows.
    pub closed spec fn max_rounds(&self) -> usize {
        self.max_rounds
    }

    /// The tool calls of the current round not yet taken.
    pub closed spec fn pending(&self) -> Seq<ToolCall> {
        self.pending@
    }

    /// The run never goes past its last round.
    pub open spec fn wf(&self) -> bool {
        self.round() <= self.max_rounds()
    }

    /// A run of skill `skill` with the given system prompt and user input: the
    /// conversation starts with the system message, then the user message.
    pub fn start(
        skill: String,
        system_prompt: String,
        input: String,
        allowed_tools: Vec<String>,
        max_rounds: usize,
    ) -> (r: SkillRun)
        ensures
            r.wf(),
            r.skill() == skill@,
            r.allowed() == allowed_tools@,
            r.round() == 0,
            r.max_rounds() == max_rounds,
            r.pending().len() == 0,
            r.transcript().len() == 2,
            plain_message(r.transcript()[0], "system"@, system_prompt@),
            plain_message(r.transcript()[1], "user"@, input@),
    {
        let mut messages: Vec<ChatMessage> = Vec::new();
        messages.push(
            ChatMessage {
                role: owned("system"),
                content: Some(system_prompt),
                tool_call_id: None,
                tool_calls: None,
            },
        );
        messages.push(
            ChatMessage { role: owned("user"), content: Some(input), tool_call_id: None, tool_calls: None },
        );
        SkillRun { skill, allowed_tools, messages, round: 0, max_rounds, pending: Vec::new() }
    }

    /// The conversation to send to the provider.
    pub fn messages(&self) -> (r: &Vec<ChatMessage>)
        ensures
            r@ == self.transcript(),
    {
        &self.messages
    }

    /// The number of completed tool rounds.
    pub fn current_round(&self) -> (r: usize)
        ensures
            r == self.round(),
    {
        self.round
    }

    /// Takes the provider's reply. A reply without tool calls ends the run with its text.
    /// A reply with tool calls in the last round ends the run as out of rounds; otherwise
    /// the reply joins the conversation (without its tool calls) and its calls become
    /// pending, in order.
    pub fn on_reply(&mut self, reply: ChatMessage) -> (r: ReplyOutcome)
        requires
            old(self).wf(),
            old(self).pending().len() == 0,
        ensures
            final(self).wf(),
            final(self).skill() == old(self).skill(),
            final(self).allowed() == old(self).allowed(),
            final(self).round() == old(self).round(),
            final(self).max_rounds() == old(self).max_rounds(),
            match reply.tool_calls {
                Some(calls) if calls@.len() > 0 => if old(self).round() == old(self).max_rounds() {
                    r matches ReplyOutcome::Finished(RunOutcome::MaxRoundsReached)
                        && final(self).transcript() == old(self).transcript()
                        && final(self).pending().len() == 0
                } else {
                    &&& r is ToolsRequested
                    &&& final(self).pending() == calls@
                    &&& final(self).transcript().len() == old(self).transcript().len() + 1
                    &&& final(self).transcript().drop_last() == old(self).transcript()
                    &&& final(self).transcript().last().role == reply.role
                    &&& final(self).transcript().last().content == reply.content
                    &&& final(self).transcript().last().tool_call_id == reply.tool_call_id
                    &&& final(self).transcript().last().tool_calls is None
                },
                _ => r matches ReplyOutcome::Finished(RunOutcome::Output(text)) && text@
                    == text_or_empty(reply.content) && final(self).transcript()
                    == old(self).transcript() && final(self).pending().len() == 0,
            },
    {
        let ChatMessage { role, content, tool_call_id, tool_calls } = reply;
        let calls = match tool_calls {
            Some(c) => c,
            None => Vec::new(),
        };
        if calls.len() == 0 {
            let text = match content {
                Some(c) => c,
                None => String::new(),
            };
            return ReplyOutcome::Finished(RunOutcome::Output(text));
        }
        if self.round == self.max_rounds {
            return ReplyOutcome::Finished(RunOutcome::MaxRoundsReached);
        }
        self.messages.push(ChatMessage { role, content, tool_call_id, tool_calls: None });
        self.pending = calls;
        ReplyOutcome::ToolsRequested
    }

    /// Takes the next pending tool call of the round. A call to a tool outside the
    /// skill's allowlist is refused; when none is pending, the round is complete.
    pub fn next_tool_call(&mut self) -> (r: NextCall)
        requires
            old(self).wf(),
        ensures
            final(self).wf(),
            final(self).skill() == old(self).skill(),
            final(self).allowed() == old(self).allowed(),
            final(self).max_rounds() == old(self).max_rounds(),
            final(self).transcript() == old(self).transcript(),
            old(self).pending().len() == 0 ==> {
                &&& r is RoundDone
                &&& old(self).round() < old(self).max_rounds() ==> final(self).round() == old(
                    self,
                ).round() + 1
                &&& old(self).round() == old(self).max_rounds() ==> final(self).round() == old(
                    self,
                ).round()
                &&& final(self).pending().len() == 0
            },
            old(self).pending().len() > 0 ==> {
                let call = old(self).pending()[0];
                &&& final(self).round() == old(self).round()
                &&& final(self).pending() == old(self).pending().drop_first()
                &&& allowed_name(old(self).allowed(), call.function.name@) ==> r == NextCall::Run(call)
                &&& !allowed_name(old(self).allowed(), call.function.name@) ==> (r matches NextCall::Refused(
                    RunError::DisallowedTool { skill, tool },
                ) && skill@ == old(self).skill() && tool@ == call.function.name@)
            },
    {
        if self.pending.len() == 0 {
            if self.round < self.max_rounds {
                self.round = self.round + 1;
            }
            return NextCall::RoundDone;
        }
        let call = self.pending.remove(0);
        let name = chars_of(call.function.name.as_str());
        if crate::registry::allowed_tool_name(self.allowed_tools.as_slice(), &name) {
            NextCall::Run(call)
        } else {
            NextCall::Refused(
                RunError::DisallowedTool { skill: owned(self.skill.as_str()), tool: call.function.name },
            )
        }
    }

    /// Adds a tool's output to the conversation, as a `tool` message answering `call_id`.
    pub fn record_tool_output(&mut self, call_id: String, output: String)
        requires
            old(self).wf(),
        ensures
            final(self).wf(),
            final(self).skill() == old(self).skill(),
            final(self).allowed() == old(self).allowed(),
            final(self).round() == old(self).round(),
            final(self).max_rounds() == old(self).max_rounds(),
            final(self).pending() == old(self).pending(),
            final(self).transcript().len() == old(self).transcript().len() + 1,
            final(self).transcript().drop_last() == old(self).transcript(),
            final(self).transcript().last().role@ == "tool"@,
            final(self).transcript().last().content == Some(output),
            final(self).transcript().last().tool_call_id == Some(call_id),
            final(self).transcript().last().tool_calls is None,
    {
        self.messages.push(
            ChatMessage {
                role: owned("tool"),
                content: Some(output),
                tool_call_id: Some(call_id),
                tool_calls: None,
            },
        );
    }
}

/// The content of the last user message (empty when there is none or it has no content).
pub open spec fn last_user_text(ms: Seq<ChatMessage>) -> Seq<char>
    decreases ms.len(),
{
    if ms.len() == 0 {
        Seq::empty()
    } else if ms.last().role@ == "user"@ {
        text_or_empty(ms.last().content)
    } else {
        last_user_text(ms.drop_last())
    }
}

/// The provider used when no LLM is configured: it echoes the last user message.
#[derive(Debug, Clone, Copy, Default)]
pub struct LocalProvider;

impl LocalProvider {
    /// The assistant's answer to `messages`.
    pub fn respond(&self, messages: &Vec<ChatMessage>) -> (r: ChatMessage)
        ensures
            plain_message(
                r,
                "assistant"@,
                "LocalProvider (no LLM configured). Received: "@ + last_user_text(messages@),
            ),
    {
        let user = chars_of("user");
        let mut i = messages.len();
        let mut found: Vec<char> = Vec::new();
        let mut done = false;
        assert(messages@.take(i as int) =~= messages@);
        while i > 0 && !done
            invariant
                i <= messages@.len(),
                user@ == "user"@,
                done ==> found@ == last_user_text(messages@),
                !done ==> last_user_text(messages@) == last_user_text(messages@.take(i as int)),
                !done ==> found@ == Seq::<char>::empty(),
            decreases i + (if done {
                0int
            } else {
                1int
            }),
        {
            let m = &messages[i - 1];
            assert(messages@.take(i as int).last() == messages@[i - 1]);
            assert(messages@.take(i as int).drop_last() =~= messages@.take(i - 1));
            let is_user = crate::text::chars_eq(&chars_of(m.role.as_str()), &user);
            assert(is_user == (messages@[i - 1].role@ == "user"@));
            if is_user {
                assert(last_user_text(messages@.take(i as int)) == text_or_empty(
                    messages@[i - 1].content,
                ));
                found = match &m.content {
                    Some(c) => chars_of(c.as_str()),
                    None => Vec::new(),
                };
                done = true;
            } else {
                assert(last_user_text(messages@.take(i as int)) == last_user_text(
                    messages@.take(i - 1),
                ));
                i -= 1;
            }
        }
        assert(!done ==> messages@.take(i as int) =~= Seq::<ChatMessage>::empty());
        let text = concat_chars(&chars_of("LocalProvider (no LLM configured). Received: "), &found);
        ChatMessage {
            role: owned("assistant"),
            content: Some(string_from_chars(&text)),
            tool_call_id: None,
            tool_calls: None,
        }
    }
}

/// Why a provider gave no answer.
#[derive(Debug, Clone)]
pub enum ProviderError {
    /// The provider is not available in this build.
    NotConfigured,
}

/// The message of a [`ProviderError`].
pub open spec fn provider_error_text(e: ProviderError) -> Seq<char> {
    match e {
        ProviderError::NotConfigured => "McpProvider is not configured in this build"@,
    }
}

impl ProviderError {
    /// The error's message.
    pub fn message(&self) -> (m: String)
        ensures
            m@ == provider_error_text(*self),
    {
        owned("McpProvider is not configured in this build")
    }
}

/// The Model Context Protocol provider, which this build does not configure.
#[derive(Debug, Clone, Copy, Default)]
pub struct McpProvider;

impl McpProvider {
    /// Always refuses: the provider is not configured in this build.
    pub fn respond(&self, messages: &Vec<ChatMessage>) -> (r: Result<ChatMessage, ProviderError>)
        ensures
            r matches Err(ProviderError::NotConfigured),
    {
        Err(ProviderError::NotConfigured)
    }
}

/// The chat-completions endpoint for a base URL: trailing slashes removed, `/v1`
/// appended unless the base already ends with it, then `/chat/completions`.
pub open spec fn completions_url_text(base: Seq<char>) -> Seq<char> {
    let t = strip_trailing(base, CharClass::Slash);
    let v = if has_suffix(t, "/v1"@) {
        t
    } else {
        t + "/v1"@
    };
    v + "/chat/completions"@
}

/// The chat-completions endpoint for `base_url`, as text.
pub fn chat_completions_url(base_url: &str) -> (r: String)
    ensures
        r@ == completions_url_text(base_url@),
{
    let t = strip_trailing_chars(&chars_of(base_url), &CharClass::Slash);
    let v1 = chars_of("/v1");
    let v = if ends_with_chars(&t, &v1) {
        t
    } else {
        concat_chars(&t, &v1)
    };
    string_from_chars(&concat_chars(&v, &chars_of("/chat/completions")))
}

} // verus!
