//! Chat message and provider types shared by the chat pipeline.
use vstd::prelude::*;
use vstd::string::*;

verus! {

/// One message of a conversation: its role (`user`, `assistant`, `system`) and text.
pub struct ChatMessage {
    pub role: String,
    pub content: String,
}

impl ChatMessage {
    /// A message written by the user.
    pub fn user(content: &str) -> (m: Self)
        ensures
            m.role@ == "user"@,
            m.content@ == content@,
    {
        ChatMessage { role: String::from_str("user"), content: String::from_str(content) }
    }

    /// A message written by the assistant.
    pub fn assistant(content: &str) -> (m: Self)
        ensures
            m.role@ == "assistant"@,
            m.content@ == content@,
    {
        ChatMessage { role: String::from_str("assistant"), content: String::from_str(content) }
    }

    /// A system instruction.
    pub fn system(content: &str) -> (m: Self)
        ensures
            m.role@ == "system"@,
            m.content@ == content@,
    {
        ChatMessage { role: String::from_str("system"), content: String::from_str(content) }
    }

    /// An identical copy of this message.
    pub fn duplicate(&self) -> (m: Self)
        ensures
            m == *self,
    {
        ChatMessage { role: self.role.clone(), content: self.content.clone() }
    }
}

/// Copies every message of a list, in order.
pub fn duplicate_messages(v: &Vec<ChatMessage>) -> (r: Vec<ChatMessage>)
    ensures
        r@ == v@,
{
    let mut r: Vec<ChatMessage> = Vec::new();
    let mut i: usize = 0;
    while i < v.len()
        invariant
            i <= v.len(),
            r@ == v@.take(i as int),
        decreases v.len() - i,
    {
        r.push(v[i].duplicate());
        assert(v@.take(i + 1) =~= v@.take(i as int).push(v@[i as int]));
        i = i + 1;
    }
    assert(v@.take(v.len() as int) =~= v@);
    r
}

/// A model's answer to a chat request.
pub struct ChatResponse {
    pub content: String,
    pub model: String,
}

/// The chat services the application can talk to.
#[derive(Clone, Copy, Debug, PartialEq, Eq, Structural)]
pub enum LLMProvider {
    DeepSeek,
    Minimax,
    Kimi,
    LlamaCpp,
}

/// The name under which a provider is shown and written in configuration.
pub open spec fn provider_name(p: LLMProvider) -> Seq<char> {
    match p {
        LLMProvider::DeepSeek => "deepseek"@,
        LLMProvider::Minimax => "minimax"@,
        LLMProvider::Kimi => "kimi"@,
        LLMProvider::LlamaCpp => "llama.cpp"@,
    }
}

impl LLMProvider {
    /// The provider's display name (`deepseek`, `minimax`, `kimi`, `llama.cpp`).
    pub fn to_display_string(&self) -> (s: String)
        ensures
            s@ == provider_name(*self),
    {
        match self {
            LLMProvider::DeepSeek => String::from_str("deepseek"),
            LLMProvider::Minimax => String::from_str("minimax"),
            LLMProvider::Kimi => String::from_str("kimi"),
            LLMProvider::LlamaCpp => String::from_str("llama.cpp"),
        }
    }
}

/// The chat completion address of a provider: Minimax's and DeepSeek's fixed addresses,
/// and the OpenAI-style path under the configured server for llama.cpp (any other
/// provider uses DeepSeek's address).
pub open spec fn endpoint(p: LLMProvider, base_url: Seq<char>) -> Seq<char> {
    match p {
        LLMProvider::Minimax => "https://api.minimaxi.com/v1/text/chatcompletion_v2"@,
        LLMProvider::LlamaCpp => base_url + "/v1/chat/completions"@,
        _ => "https://api.deepseek.com/v1/chat/completions"@,
    }
}

/// The chat completion address of a provider (see [`endpoint`]).
pub fn chat_endpoint(p: LLMProvider, base_url: &str) -> (r: String)
    ensures
        r@ == endpoint(p, base_url@),
{
    match p {
        LLMProvider::Minimax => String::from_str("https://api.minimaxi.com/v1/text/chatcompletion_v2"),
        LLMProvider::LlamaCpp => {
            let mut r = String::from_str(base_url);
            r.append("/v1/chat/completions");
            r
        },
        _ => String::from_str("https://api.deepseek.com/v1/chat/completions"),
    }
}

impl Default for LLMProvider {
    /// DeepSeek is the provider used when none is chosen.
    fn default() -> (p: Self)
        ensures
            p == LLMProvider::DeepSeek,
    {
        LLMProvider::DeepSeek
    }
}

/// What the chat front end sends: the user's text and an optional extra system prompt.
pub struct ChatRequestInput {
    pub message: String,
    pub system_prompt: Option<String>,
}

/// What the chat front end receives back.
pub struct ChatResponseOutput {
    pub content: String,
    pub model: String,
}

impl From<ChatResponse> for ChatResponseOutput {
    fn from(resp: ChatResponse) -> (out: Self) {
        ChatResponseOutput { content: resp.content, model: resp.model }
    }
}

impl vstd::std_specs::convert::FromSpecImpl<ChatResponse> for ChatResponseOutput {
    open spec fn obeys_from_spec() -> bool {
        true
    }

    open spec fn from_spec(resp: ChatResponse) -> Self {
        ChatResponseOutput { content: resp.content, model: resp.model }
    }
}

/// The conversation kept for the chat window: its messages and its system prompt.
pub struct ChatState {
    pub messages: Vec<ChatMessage>,
    pub system_prompt: String,
}

impl Default for ChatState {
    /// An empty conversation with an empty system prompt.
    fn default() -> (s: Self)
        ensures
            s.messages@.len() == 0,
            s.system_prompt@.len() == 0,
    {
        ChatState { messages: Vec::new(), system_prompt: String::new() }
    }
}

impl ChatState {
    /// Records one exchange: the user's message followed by the assistant's answer.
    pub fn record_exchange(&mut self, user_text: &str, answer: &str)
        ensures
            final(self).system_prompt == old(self).system_prompt,
            final(self).messages@.len() == old(self).messages@.len() + 2,
            final(self).messages@.take(old(self).messages@.len() as int) == old(self).messages@,
            final(self).messages@[old(self).messages@.len() as int].role@ == "user"@,
            final(self).messages@[old(self).messages@.len() as int].content@ == user_text@,
            final(self).messages@[old(self).messages@.len() as int + 1].role@ == "assistant"@,
            final(self).messages@[old(self).messages@.len() as int + 1].content@ == answer@,
    {
        self.messages.push(ChatMessage::user(user_text));
        self.messages.push(ChatMessage::assistant(answer));
    }

    /// Appends one message.
    pub fn push_message(&mut self, m: ChatMessage)
        ensures
            final(self).system_prompt == old(self).system_prompt,
            final(self).messages@ == old(self).messages@.push(m),
    {
        self.messages.push(m);
    }

    /// Forgets all messages; the system prompt stays.
    pub fn clear_messages(&mut self)
        ensures
            final(self).system_prompt == old(self).system_prompt,
            final(self).messages@.len() == 0,
    {
        self.messages.clear();
    }

    /// Replaces the system prompt; the messages stay.
    pub fn set_system_prompt(&mut self, prompt: String)
        ensures
            final(self).system_prompt == prompt,
            final(self).messages@ == old(self).messages@,
    {
        self.system_prompt = prompt;
    }

    /// A copy of the messages.
    pub fn history(&self) -> (r: Vec<ChatMessage>)
        ensures
            r@ == self.messages@,
    {
        duplicate_messages(&self.messages)
    }
}

} // verus!
