//! Chat messages and requests for the local chat-completion server, and the
//! fixed conversation used to explain a position.
use vstd::prelude::*;

verus! {

/// Base address of the local chat server.
pub const CHAT_SERVER_URL: &'static str = "http://localhost:11434";

/// Path of the chat endpoint on the server.
pub const CHAT_PATH: &'static str = "/api/chat";

/// Model used when the caller names none, and for position explanations.
pub const DEFAULT_CHAT_MODEL: &'static str = "qwen2.5:14b";

/// Instructions that make the model act as a chess teacher for beginners.
pub const TEACHER_PROMPT: &'static str = "あなたはチェスの先生です。局面の評価と最善手を日本語で解説してください。初心者にもわかりやすく、戦略的なポイントを含めてください。";

/// One chat message: a role ("system", "user" or "assistant") and its text.
pub struct Message {
    pub role: String,
    pub content: String,
}

/// Body of a chat request. Streaming is never asked for.
pub struct ChatRequest {
    pub model: String,
    pub messages: Vec<Message>,
    pub stream: bool,
}

/// Body of a chat reply.
pub struct ChatResponse {
    pub message: Message,
    pub done: bool,
}

impl Clone for Message {
    fn clone(&self) -> (r: Self)
        ensures
            r == *self,
    {
        Message { role: self.role.clone(), content: self.content.clone() }
    }
}

impl ChatRequest {
    /// A request for `model` over `messages`, with streaming switched off.
    pub fn new(model: &str, messages: Vec<Message>) -> (r: ChatRequest)
        ensures
            r.model@ == model@,
            r.messages@ == messages@,
            !r.stream,
    {
        ChatRequest { model: String::from_str(model), messages, stream: false }
    }
}

impl ChatResponse {
    /// The reply text; the rest of the response is not used.
    pub fn into_content(self) -> (r: String)
        ensures
            r == self.message.content,
    {
        self.message.content
    }
}

/// Address of the chat endpoint on a server at `base_url`.
pub fn chat_url(base_url: &str) -> (r: String)
    ensures
        r@ == base_url@ + CHAT_PATH@,
{
    String::from_str(base_url).concat(CHAT_PATH)
}

/// The request to explain a position, given the position, the evaluation
/// already written with two decimals, and the best move.
pub open spec fn analysis_prompt_text(
    fen: Seq<char>,
    evaluation: Seq<char>,
    best_move: Seq<char>,
) -> Seq<char> {
    "局面（FEN）: "@ + fen + "\n評価値: "@ + evaluation + "\n最善手: "@ + best_move
        + "\n\nこの局面について解説してください。"@
}

/// The user prompt that asks for an explanation of a position.
pub fn analysis_prompt(fen: &str, evaluation: &str, best_move: &str) -> (r: String)
    ensures
        r@ == analysis_prompt_text(fen@, evaluation@, best_move@),
{
    let mut s = String::from_str("局面（FEN）: ");
    s.append(fen);
    s.append("\n評価値: ");
    s.append(evaluation);
    s.append("\n最善手: ");
    s.append(best_move);
    s.append("\n\nこの局面について解説してください。");
    s
}

/// The two-message conversation that asks the model to explain a position:
/// the teacher instructions as the system message, then the prompt.
pub fn analysis_messages(fen: &str, evaluation: &str, best_move: &str) -> (r: Vec<Message>)
    ensures
        r@.len() == 2,
        r@[0].role@ == "system"@,
        r@[0].content@ == TEACHER_PROMPT@,
        r@[1].role@ == "user"@,
        r@[1].content@ == analysis_prompt_text(fen@, evaluation@, best_move@),
{
    let mut messages: Vec<Message> = Vec::new();
    messages.push(
        Message { role: String::from_str("system"), content: String::from_str(TEACHER_PROMPT) },
    );
    messages.push(
        Message {
            role: String::from_str("user"),
            content: analysis_prompt(fen, evaluation, best_move),
        },
    );
    messages
}

/// The request that asks the default model to explain a position.
pub fn analysis_request(fen: &str, evaluation: &str, best_move: &str) -> (r: ChatRequest)
    ensures
        r.model@ == DEFAULT_CHAT_MODEL@,
        !r.stream,
        r.messages@.len() == 2,
        r.messages@[0].role@ == "system"@,
        r.messages@[0].content@ == TEACHER_PROMPT@,
        r.messages@[1].role@ == "user"@,
        r.messages@[1].content@ == analysis_prompt_text(fen@, evaluation@, best_move@),
{
    ChatRequest::new(DEFAULT_CHAT_MODEL, analysis_messages(fen, evaluation, best_move))
}

/// The model to use: the one named, or the default.
pub fn resolve_model(model: Option<String>) -> (r: String)
    ensures
        model is Some ==> r == model->Some_0,
        model is None ==> r@ == DEFAULT_CHAT_MODEL@,
{
    match model {
        Some(m) => m,
        None => String::from_str(DEFAULT_CHAT_MODEL),
    }
}

} // verus!
