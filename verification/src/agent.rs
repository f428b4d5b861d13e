//! the agent loop: what a turn needs, how it goes on with each thing that is
//! streamed, and what it leaves behind. streaming is reported through the
//! caller-supplied [`Observer`] rather than printed directly, so the same loop
//! drives every consumer.

use crate::config::ToolsConfig;
use crate::json;
use crate::json::Json;
use crate::permission::PermissionsConfig;
use crate::text;
use crate::tools;
use crate::tools::Builtin;
use vstd::prelude::*;

verus! {

/// how the loop reports what the model streams. the CLI renders to stdout/stderr
/// (text to stdout, reasoning/tools to stderr); an embedding host maps each call
/// to an event of its own. one run uses one observer.
pub trait Observer: Send {
    fn text(&mut self, delta: &str);

    fn reasoning(&mut self, delta: &str);

    fn tool_call(&mut self, name: &str, args: &str);

    fn tool_result(&mut self, result: &str);

    fn error(&mut self, message: &str);

    /// a steer restarted the turn: close the current message so the continuation
    /// opens a fresh one (a no-op for a renderer that streams continuously).
    fn restart(&mut self);

    /// the stream ended (naturally or on error); flush any pending state.
    fn end_stream(&mut self);
}

// --- messages ---

/// a part of a message: a text, or anything else.
#[derive(Debug)]
pub enum ContentPart {
    Text(String),
    Other,
}

/// a message of a conversation.
#[derive(Debug)]
pub enum ChatMessage {
    User(Vec<ContentPart>),
    Assistant(Vec<ContentPart>),
    System,
}

/// the texts of the parts, one behind the other.
pub open spec fn content_text(parts: Seq<ContentPart>) -> Seq<char>
    decreases parts.len(),
{
    if parts.len() == 0 {
        Seq::empty()
    } else {
        content_text(parts.drop_last()) + match parts.last() {
            ContentPart::Text(s) => s@,
            ContentPart::Other => Seq::empty(),
        }
    }
}

/// the role and the text of a message; none for a message without text, and none
/// for the system prompt, which is applied separately.
pub open spec fn message_text(m: ChatMessage) -> Option<(Seq<char>, Seq<char>)> {
    match m {
        ChatMessage::User(parts) => if content_text(parts@).len() == 0 {
            None
        } else {
            Some(("user"@, content_text(parts@)))
        },
        ChatMessage::Assistant(parts) => if content_text(parts@).len() == 0 {
            None
        } else {
            Some(("assistant"@, content_text(parts@)))
        },
        ChatMessage::System => None,
    }
}

/// the roles and texts of the messages that have any.
pub open spec fn message_texts(history: Seq<ChatMessage>) -> Seq<(Seq<char>, Seq<char>)>
    decreases history.len(),
{
    if history.len() == 0 {
        Seq::empty()
    } else {
        let rest = message_texts(history.drop_last());
        match message_text(history.last()) {
            Some(t) => rest.push(t),
            None => rest,
        }
    }
}

/// what a list of pairs of texts stands for.
pub open spec fn pair_models(s: Seq<(String, String)>) -> Seq<(Seq<char>, Seq<char>)> {
    Seq::new(s.len(), |i: int| (s[i].0@, s[i].1@))
}

/// the texts of the parts, one behind the other.
pub fn text_of_parts(parts: &Vec<ContentPart>) -> (r: String)
    ensures
        r@ == content_text(parts@),
{
    let mut s = String::new();
    let mut i: usize = 0;
    assert(parts@.take(0) =~= Seq::empty());
    while i < parts.len()
        invariant
            i <= parts@.len(),
            s@ == content_text(parts@.take(i as int)),
        decreases parts@.len() - i,
    {
        let ghost t = parts@.take(i + 1);
        assert(t.drop_last() =~= parts@.take(i as int));
        match &parts[i] {
            ContentPart::Text(part) => {
                s.append(part.as_str());
            },
            ContentPart::Other => {
                assert(s@ + Seq::<char>::empty() =~= s@);
            },
        }
        i += 1;
    }
    assert(parts@.take(parts@.len() as int) =~= parts@);
    s
}

/// (role, text) for each message in a history, so a consumer can re-seed a
/// forked/reverted session as normalized events. non-text content is dropped and
/// empty messages are skipped.
pub fn history_texts(history: &Vec<ChatMessage>) -> (r: Vec<(String, String)>)
    ensures
        pair_models(r@) == message_texts(history@),
{
    let mut out: Vec<(String, String)> = Vec::new();
    let mut i: usize = 0;
    assert(history@.take(0) =~= Seq::empty());
    assert(pair_models(out@) =~= Seq::empty());
    while i < history.len()
        invariant
            i <= history@.len(),
            pair_models(out@) == message_texts(history@.take(i as int)),
        decreases history@.len() - i,
    {
        let ghost t = history@.take(i + 1);
        assert(t.drop_last() =~= history@.take(i as int));
        let ghost list = pair_models(out@);
        match &history[i] {
            ChatMessage::User(parts) => {
                let s = text_of_parts(parts);
                if !s.as_str().is_empty() {
                    out.push(("user".to_owned(), s));
                    assert(pair_models(out@) =~= list.push(("user"@, s@)));
                }
            },
            ChatMessage::Assistant(parts) => {
                let s = text_of_parts(parts);
                if !s.as_str().is_empty() {
                    out.push(("assistant".to_owned(), s));
                    assert(pair_models(out@) =~= list.push(("assistant"@, s@)));
                }
            },
            ChatMessage::System => {},
        }
        i += 1;
    }
    assert(history@.take(history@.len() as int) =~= history@);
    out
}

// --- prompts ---

/// an image attachment for a prompt: base64 data + its mime type. images only.
#[derive(Debug)]
pub struct Attachment {
    pub mime: String,
    pub base64: String,
}

/// the kinds of images that providers accept.
#[derive(Debug, Clone, Copy, PartialEq, Eq, Structural)]
pub enum ImageMediaType {
    Jpeg,
    Png,
    Gif,
    Webp,
}

/// the kind of image that a mime type stands for.
pub open spec fn media_type_of(mime: Seq<char>) -> Option<ImageMediaType> {
    if mime == "image/jpeg"@ || mime == "image/jpg"@ {
        Some(ImageMediaType::Jpeg)
    } else if mime == "image/png"@ {
        Some(ImageMediaType::Png)
    } else if mime == "image/gif"@ {
        Some(ImageMediaType::Gif)
    } else if mime == "image/webp"@ {
        Some(ImageMediaType::Webp)
    } else {
        None
    }
}

/// map a mime type to an image media type (the kinds providers accept).
pub fn image_media_type(mime: &str) -> (r: Option<ImageMediaType>)
    ensures
        r == media_type_of(mime@),
{
    if text::str_eq(mime, "image/jpeg") || text::str_eq(mime, "image/jpg") {
        Some(ImageMediaType::Jpeg)
    } else if text::str_eq(mime, "image/png") {
        Some(ImageMediaType::Png)
    } else if text::str_eq(mime, "image/gif") {
        Some(ImageMediaType::Gif)
    } else if text::str_eq(mime, "image/webp") {
        Some(ImageMediaType::Webp)
    } else {
        None
    }
}

/// an image of a prompt.
#[derive(Debug)]
pub struct ImagePart {
    pub base64: String,
    pub media_type: Option<ImageMediaType>,
}

/// what an image of a prompt stands for.
pub struct ImageModel {
    pub base64: Seq<char>,
    pub media_type: Option<ImageMediaType>,
}

/// a prompt: its text and its images.
#[derive(Debug)]
pub struct Prompt {
    pub text: String,
    pub images: Vec<ImagePart>,
}

/// what a prompt stands for.
pub struct PromptModel {
    pub text: Seq<char>,
    pub images: Seq<ImageModel>,
}

impl View for Prompt {
    type V = PromptModel;

    open spec fn view(&self) -> PromptModel {
        PromptModel {
            text: self.text@,
            images: Seq::new(
                self.images@.len(),
                |i: int|
                    ImageModel {
                        base64: self.images@[i].base64@,
                        media_type: self.images@[i].media_type,
                    },
            ),
        }
    }
}

/// a prompt of the user's text with the attachments as images.
pub open spec fn user_turn(text: Seq<char>, attachments: Seq<Attachment>) -> PromptModel {
    PromptModel {
        text,
        images: Seq::new(
            attachments.len(),
            |i: int|
                ImageModel {
                    base64: attachments[i].base64@,
                    media_type: media_type_of(attachments[i].mime@),
                },
        ),
    }
}

/// build the user turn: the prompt text plus any image attachments.
pub fn build_prompt(user_prompt: &str, attachments: &Vec<Attachment>) -> (r: Prompt)
    ensures
        r@ == user_turn(user_prompt@, attachments@),
{
    let mut images: Vec<ImagePart> = Vec::new();
    let mut i: usize = 0;
    while i < attachments.len()
        invariant
            i <= attachments@.len(),
            images@.len() == i,
            forall|j: int|
                0 <= j < i ==> (#[trigger] images@[j]).base64@ == attachments@[j].base64@
                    && images@[j].media_type == media_type_of(attachments@[j].mime@),
        decreases attachments@.len() - i,
    {
        let a = &attachments[i];
        images.push(
            ImagePart {
                base64: a.base64.clone(),
                media_type: image_media_type(a.mime.as_str()),
            },
        );
        i += 1;
    }
    let r = Prompt { text: user_prompt.to_owned(), images };
    assert(r@.images =~= user_turn(user_prompt@, attachments@).images);
    r
}

// --- what a turn needs ---

/// everything a single turn needs.
#[derive(Debug)]
pub struct RunConfig<'a> {
    pub client_type: &'a str,
    pub model_name: &'a str,
    pub api_key: &'a str,
    pub base_url: Option<&'a str>,
    pub max_tokens: u64,
    pub max_turns: usize,
    pub tools: &'a ToolsConfig,
    pub tools_override: &'a Option<Vec<String>>,
    pub permissions: &'a PermissionsConfig,
    pub system_prompt: &'a str,
    pub user_prompt: &'a str,
    pub attachments: &'a Vec<Attachment>,
    /// extra provider request params merged into the body (e.g. openai
    /// `{"reasoning_effort": "high"}`); the caller maps a reasoning level to it.
    pub additional_params: Option<Json>,
}

/// the clients that a turn can be streamed through.
#[derive(Debug, Clone, Copy, PartialEq, Eq, Structural)]
pub enum ClientKind {
    OpenaiCompletions,
    OpenaiResponses,
    Anthropic,
    Gemini,
    Cohere,
    Xai,
}

/// the client that a client type stands for.
pub open spec fn client_named(s: Seq<char>) -> Option<ClientKind> {
    if s == "openai_completions"@ {
        Some(ClientKind::OpenaiCompletions)
    } else if s == "openai"@ || s == "openai_responses"@ {
        Some(ClientKind::OpenaiResponses)
    } else if s == "anthropic"@ {
        Some(ClientKind::Anthropic)
    } else if s == "gemini"@ {
        Some(ClientKind::Gemini)
    } else if s == "cohere"@ {
        Some(ClientKind::Cohere)
    } else if s == "xai"@ {
        Some(ClientKind::Xai)
    } else {
        None
    }
}

/// how a turn is set up.
#[derive(Debug)]
pub struct RunPlan {
    pub client: ClientKind,
    /// the key; a placeholder where none is configured.
    pub api_key: String,
    /// the system prompt, if there is one.
    pub preamble: Option<String>,
    /// the built-in tools that are active.
    pub builtins: Vec<Builtin>,
    pub prompt: Prompt,
}

/// what a plan stands for.
pub struct PlanModel {
    pub client: ClientKind,
    pub api_key: Seq<char>,
    pub preamble: Option<Seq<char>>,
    pub builtins: Seq<Builtin>,
    pub prompt: PromptModel,
}

impl View for RunPlan {
    type V = PlanModel;

    open spec fn view(&self) -> PlanModel {
        PlanModel {
            client: self.client,
            api_key: self.api_key@,
            preamble: text::text_opt(self.preamble),
            builtins: self.builtins@,
            prompt: self.prompt@,
        }
    }
}

/// how a turn with a known client is set up.
pub open spec fn planned(client: ClientKind, cfg: RunConfig<'_>) -> PlanModel {
    PlanModel {
        client,
        api_key: if cfg.api_key@.len() == 0 {
            "none"@
        } else {
            cfg.api_key@
        },
        preamble: if cfg.system_prompt@.len() == 0 {
            None
        } else {
            Some(cfg.system_prompt@)
        },
        builtins: tools::active_builtins(cfg.tools@, *cfg.tools_override),
        prompt: user_turn(cfg.user_prompt@, cfg.attachments@),
    }
}

/// the client that a client type stands for.
pub fn client_kind(s: &str) -> (r: Option<ClientKind>)
    ensures
        r == client_named(s@),
{
    if text::str_eq(s, "openai_completions") {
        Some(ClientKind::OpenaiCompletions)
    } else if text::str_eq(s, "openai") || text::str_eq(s, "openai_responses") {
        Some(ClientKind::OpenaiResponses)
    } else if text::str_eq(s, "anthropic") {
        Some(ClientKind::Anthropic)
    } else if text::str_eq(s, "gemini") {
        Some(ClientKind::Gemini)
    } else if text::str_eq(s, "cohere") {
        Some(ClientKind::Cohere)
    } else if text::str_eq(s, "xai") {
        Some(ClientKind::Xai)
    } else {
        None
    }
}

/// sets up a turn. when no key is configured, a placeholder stands for it so
/// local openai-compatible servers (which ignore the auth header) still work;
/// hosted providers return a clear auth error from upstream at request time.
pub fn plan_run(cfg: &RunConfig<'_>) -> (r: Result<RunPlan, String>)
    ensures
        match client_named(cfg.client_type@) {
            None => r is Err && r->Err_0@ == "unsupported client type: "@ + cfg.client_type@,
            Some(client) => {
                &&& r is Ok
                &&& r->Ok_0.client == client
                &&& r->Ok_0.api_key@ == if cfg.api_key@.len() == 0 {
                    "none"@
                } else {
                    cfg.api_key@
                }
                &&& text::text_opt(r->Ok_0.preamble) == if cfg.system_prompt@.len() == 0 {
                    None
                } else {
                    Some(cfg.system_prompt@)
                }
                &&& r->Ok_0.builtins@ == tools::active_builtins(cfg.tools@, *cfg.tools_override)
                &&& r->Ok_0.prompt@ == user_turn(cfg.user_prompt@, cfg.attachments@)
                &&& r->Ok_0@ == planned(client, *cfg)
            },
        },
{
    match client_kind(cfg.client_type) {
        None => Err(text::concat2("unsupported client type: ", cfg.client_type)),
        Some(client) => {
            let api_key = if cfg.api_key.is_empty() {
                "none".to_owned()
            } else {
                cfg.api_key.to_owned()
            };
            let preamble = if cfg.system_prompt.is_empty() {
                None
            } else {
                Some(cfg.system_prompt.to_owned())
            };
            let builtins = tools::builtin_tools(cfg.tools, cfg.tools_override);
            let prompt = build_prompt(cfg.user_prompt, cfg.attachments);
            Ok(RunPlan { client, api_key, preamble, builtins, prompt })
        },
    }
}

// --- the loop ---

/// an item of the history. `M` is how the messages of the streaming client are
/// kept; the loop never looks into them.
#[derive(Debug)]
pub enum HistoryItem<M> {
    /// a message of the client's.
    Message(M),
    /// a prompt that a steer has cut short.
    Prompt(Prompt),
    /// what the assistant had said until then.
    Assistant(String),
}

/// what an item of the history stands for.
pub enum ItemModel<M> {
    Message(M),
    Prompt(PromptModel),
    Assistant(Seq<char>),
}

impl<M> View for HistoryItem<M> {
    type V = ItemModel<M>;

    open spec fn view(&self) -> ItemModel<M> {
        match *self {
            HistoryItem::Message(m) => ItemModel::Message(m),
            HistoryItem::Prompt(p) => ItemModel::Prompt(p@),
            HistoryItem::Assistant(s) => ItemModel::Assistant(s@),
        }
    }
}

/// what a history stands for.
pub open spec fn items_of<M>(s: Seq<HistoryItem<M>>) -> Seq<ItemModel<M>> {
    Seq::new(s.len(), |i: int| s[i]@)
}

/// messages of the client's as items of the history.
pub open spec fn messages<M>(s: Seq<M>) -> Seq<ItemModel<M>> {
    Seq::new(s.len(), |i: int| ItemModel::Message(s[i]))
}

/// where a run stands.
#[derive(Debug)]
pub struct RunState<M> {
    pub history: Vec<HistoryItem<M>>,
    /// the prompt of the turn that is being streamed.
    pub prompt: Prompt,
    /// what the assistant has said in this turn.
    pub partial: String,
}

/// what the state of a run stands for.
pub struct RunModel<M> {
    pub history: Seq<ItemModel<M>>,
    pub prompt: PromptModel,
    pub partial: Seq<char>,
}

impl<M> View for RunState<M> {
    type V = RunModel<M>;

    open spec fn view(&self) -> RunModel<M> {
        RunModel {
            history: items_of(self.history@),
            prompt: self.prompt@,
            partial: self.partial@,
        }
    }
}

/// what happens to a run.
#[derive(Debug)]
pub enum RunEvent<M> {
    /// the caller has cancelled the run.
    Cancelled,
    /// the caller redirects the assistant.
    Steer(String),
    Text(String),
    Reasoning(String),
    ToolCall { name: String, args: Json },
    ToolResult(Vec<ContentPart>),
    /// the turn is complete; these are its messages.
    FinalResponse(Vec<M>),
    /// anything else that is streamed.
    Other,
    Failed(String),
    /// the stream has ended.
    Ended,
}

/// what the observer is told.
#[derive(Debug)]
pub enum Report {
    Text(String),
    Reasoning(String),
    ToolCall { name: String, args: String },
    ToolResult(String),
    Error(String),
    Restart,
    EndStream,
}

/// what a report stands for.
pub enum ReportModel {
    Text(Seq<char>),
    Reasoning(Seq<char>),
    ToolCall { name: Seq<char>, args: Seq<char> },
    ToolResult(Seq<char>),
    Error(Seq<char>),
    Restart,
    EndStream,
}

impl View for Report {
    type V = ReportModel;

    open spec fn view(&self) -> ReportModel {
        match *self {
            Report::Text(s) => ReportModel::Text(s@),
            Report::Reasoning(s) => ReportModel::Reasoning(s@),
            Report::ToolCall { name, args } => ReportModel::ToolCall { name: name@, args: args@ },
            Report::ToolResult(s) => ReportModel::ToolResult(s@),
            Report::Error(s) => ReportModel::Error(s@),
            Report::Restart => ReportModel::Restart,
            Report::EndStream => ReportModel::EndStream,
        }
    }
}

/// what a list of reports stands for.
pub open spec fn reports_of(s: Seq<Report>) -> Seq<ReportModel> {
    Seq::new(s.len(), |i: int| s[i]@)
}

/// why a run has ended.
#[derive(Debug, Clone, Copy, PartialEq, Eq, Structural)]
pub enum ExitReason {
    Stop,
    Aborted,
    Error,
}

/// the word for a reason to end.
pub open spec fn exit_word(reason: ExitReason) -> Seq<char> {
    match reason {
        ExitReason::Stop => "stop"@,
        ExitReason::Aborted => "aborted"@,
        ExitReason::Error => "error"@,
    }
}

impl ExitReason {
    /// the word for the reason.
    pub fn as_str(&self) -> (r: &'static str)
        ensures
            r@ == exit_word(*self),
    {
        match self {
            ExitReason::Stop => "stop",
            ExitReason::Aborted => "aborted",
            ExitReason::Error => "error",
        }
    }
}

/// what a run does next.
#[derive(Debug)]
pub enum RunNext {
    /// wait for what is streamed next.
    Wait,
    /// open a new stream with the state's prompt and history.
    Restart,
    /// end, for a reason and perhaps with an error.
    Stop { reason: ExitReason, error: Option<String> },
}

/// what the next thing of a run stands for.
pub enum NextModel {
    Wait,
    Restart,
    Stop { reason: ExitReason, error: Option<Seq<char>> },
}

impl View for RunNext {
    type V = NextModel;

    open spec fn view(&self) -> NextModel {
        match *self {
            RunNext::Wait => NextModel::Wait,
            RunNext::Restart => NextModel::Restart,
            RunNext::Stop { reason, error } => NextModel::Stop {
                reason,
                error: text::text_opt(error),
            },
        }
    }
}

/// what a turn produced: the loop exit cause (for before-stop handling) and the
/// updated conversation history (the prior history plus this turn's messages), so
/// the caller can drive the next turn with context.
#[derive(Debug)]
pub struct RunOutcome<M> {
    pub exit_reason: &'static str,
    pub exit_error: Option<String>,
    pub history: Vec<HistoryItem<M>>,
}

/// a prompt of text alone.
pub open spec fn text_prompt(s: Seq<char>) -> PromptModel {
    PromptModel { text: s, images: Seq::empty() }
}

/// the history with the turn that a steer cuts short: its prompt, and what the
/// assistant has said, if anything.
pub open spec fn with_interrupted<M>(state: RunModel<M>) -> Seq<ItemModel<M>> {
    let h = state.history.push(ItemModel::Prompt(state.prompt));
    if state.partial.len() == 0 {
        h
    } else {
        h.push(ItemModel::Assistant(state.partial))
    }
}

/// where a run goes by an event.
pub open spec fn run_state_after<M>(state: RunModel<M>, event: RunEvent<M>) -> RunModel<M> {
    match event {
        RunEvent::Steer(s) => RunModel {
            history: with_interrupted(state),
            prompt: text_prompt(s@),
            partial: Seq::empty(),
        },
        RunEvent::Text(s) => RunModel {
            history: state.history,
            prompt: state.prompt,
            partial: state.partial + s@,
        },
        RunEvent::FinalResponse(list) => RunModel {
            history: state.history + messages(list@),
            prompt: state.prompt,
            partial: state.partial,
        },
        _ => state,
    }
}

/// what the observer is told of an event.
pub open spec fn reports_after<M>(event: RunEvent<M>) -> Seq<ReportModel> {
    match event {
        RunEvent::Cancelled => seq![ReportModel::EndStream],
        RunEvent::Steer(_) => seq![ReportModel::Restart],
        RunEvent::Text(s) => seq![ReportModel::Text(s@)],
        RunEvent::Reasoning(s) => seq![ReportModel::Reasoning(s@)],
        RunEvent::ToolCall { name, args } => seq![
            ReportModel::ToolCall { name: name@, args: json::rendered(args@) },
        ],
        RunEvent::ToolResult(parts) => seq![ReportModel::ToolResult(content_text(parts@))],
        RunEvent::FinalResponse(_) => Seq::empty(),
        RunEvent::Other => Seq::empty(),
        RunEvent::Failed(e) => seq![ReportModel::Error(e@), ReportModel::EndStream],
        RunEvent::Ended => seq![ReportModel::EndStream],
    }
}

/// what a run does after an event.
pub open spec fn next_after<M>(event: RunEvent<M>) -> NextModel {
    match event {
        RunEvent::Cancelled => NextModel::Stop { reason: ExitReason::Aborted, error: None },
        RunEvent::Steer(_) => NextModel::Restart,
        RunEvent::Failed(e) => NextModel::Stop { reason: ExitReason::Error, error: Some(e@) },
        RunEvent::Ended => NextModel::Stop { reason: ExitReason::Stop, error: None },
        _ => NextModel::Wait,
    }
}

/// a list of one report.
fn single(report: Report) -> (r: Vec<Report>)
    ensures
        reports_of(r@) == seq![report@],
{
    let mut r: Vec<Report> = Vec::new();
    r.push(report);
    assert(reports_of(r@) =~= seq![report@]);
    r
}

/// no reports.
fn silent() -> (r: Vec<Report>)
    ensures
        reports_of(r@) == Seq::<ReportModel>::empty(),
{
    let r: Vec<Report> = Vec::new();
    assert(reports_of(r@) =~= Seq::empty());
    r
}

/// preserves the interrupted turn (its prompt and partial reply) in the history,
/// and takes the steer text as the prompt of a new turn.
fn steer_run<M>(state: RunState<M>, s: String) -> (r: RunState<M>)
    ensures
        r@ == (RunModel {
            history: with_interrupted(state@),
            prompt: text_prompt(s@),
            partial: Seq::empty(),
        }),
{
    let ghost old = state@;
    let mut history = state.history;
    let ghost first = history@;
    history.push(HistoryItem::Prompt(state.prompt));
    assert(items_of(history@) =~= items_of(first).push(ItemModel::Prompt(old.prompt)));
    if !state.partial.as_str().is_empty() {
        let ghost second = history@;
        history.push(HistoryItem::Assistant(state.partial));
        assert(items_of(history@) =~= items_of(second).push(ItemModel::Assistant(old.partial)));
    }
    let r = RunState {
        history,
        prompt: Prompt { text: s, images: Vec::new() },
        partial: String::new(),
    };
    assert(r@.prompt.images =~= text_prompt(s@).images);
    assert(r@.partial =~= Seq::empty());
    r
}

/// adds messages of the client's to the history.
fn add_messages<M>(history: &mut Vec<HistoryItem<M>>, list: Vec<M>)
    ensures
        items_of(final(history)@) == items_of(old(history)@) + messages(list@),
{
    let ghost before = items_of(history@);
    let ghost all = list@;
    let mut rest = list;
    let ghost mut i: int = 0;
    proof {
        assert(all.skip(0) =~= all);
        assert(before + messages(all.take(0)) =~= before);
    }
    while rest.len() > 0
        invariant
            0 <= i <= all.len(),
            rest@ == all.skip(i),
            items_of(history@) == before + messages(all.take(i)),
        decreases rest@.len(),
    {
        let m = rest.remove(0);
        let ghost list = history@;
        history.push(HistoryItem::Message(m));
        proof {
            assert(m == all[i]);
            assert(rest@ =~= all.skip(i + 1));
            assert(items_of(history@) =~= items_of(list).push(ItemModel::Message(m)));
            assert(messages(all.take(i + 1)) =~= messages(all.take(i)).push(
                ItemModel::Message(m),
            ));
            assert(items_of(history@) =~= before + messages(all.take(i + 1)));
            i = i + 1;
        }
    }
    assert(all.take(all.len() as int) =~= all);
}

/// begins a run with the prior history.
pub fn start_run<M>(history: Vec<M>, prompt: Prompt) -> (r: RunState<M>)
    ensures
        r@ == (RunModel {
            history: messages(history@),
            prompt: prompt@,
            partial: Seq::empty(),
        }),
{
    let mut items: Vec<HistoryItem<M>> = Vec::new();
    assert(items_of(items@) =~= Seq::empty());
    let ghost all = history@;
    add_messages(&mut items, history);
    assert(items_of(items@) =~= messages(all));
    let r = RunState { history: items, prompt, partial: String::new() };
    assert(r@.partial =~= Seq::empty());
    r
}

/// moves a run on by what happens to it: what is streamed is reported, a steer
/// restarts the turn with the interrupted one preserved, and a cancel, an error
/// or the end of the stream ends the run.
pub fn advance_run<M>(state: RunState<M>, event: RunEvent<M>) -> (r: (
    RunState<M>,
    Vec<Report>,
    RunNext,
))
    ensures
        r.0@ == run_state_after(state@, event),
        reports_of(r.1@) == reports_after(event),
        r.2@ == next_after(event),
{
    let mut state = state;
    match event {
        RunEvent::Cancelled => (
            state,
            single(Report::EndStream),
            RunNext::Stop { reason: ExitReason::Aborted, error: None },
        ),
        RunEvent::Steer(s) => (steer_run(state, s), single(Report::Restart), RunNext::Restart),
        RunEvent::Text(s) => {
            state.partial.append(s.as_str());
            (state, single(Report::Text(s)), RunNext::Wait)
        },
        RunEvent::Reasoning(s) => (state, single(Report::Reasoning(s)), RunNext::Wait),
        RunEvent::ToolCall { name, args } => {
            let args = args.render();
            (state, single(Report::ToolCall { name, args }), RunNext::Wait)
        },
        RunEvent::ToolResult(parts) => {
            let s = text_of_parts(&parts);
            (state, single(Report::ToolResult(s)), RunNext::Wait)
        },
        RunEvent::FinalResponse(list) => {
            add_messages(&mut state.history, list);
            (state, silent(), RunNext::Wait)
        },
        RunEvent::Other => (state, silent(), RunNext::Wait),
        RunEvent::Failed(e) => {
            let mut reports = single(Report::Error(e.clone()));
            let ghost list = reports@;
            reports.push(Report::EndStream);
            proof {
                assert(reports_of(reports@) =~= reports_of(list).push(ReportModel::EndStream));
                assert(reports_of(reports@) =~= seq![
                    ReportModel::Error(e@),
                    ReportModel::EndStream,
                ]);
            }
            (state, reports, RunNext::Stop { reason: ExitReason::Error, error: Some(e) })
        },
        RunEvent::Ended => (
            state,
            single(Report::EndStream),
            RunNext::Stop { reason: ExitReason::Stop, error: None },
        ),
    }
}

/// what a run that ends leaves behind.
pub fn finish_run<M>(state: RunState<M>, reason: ExitReason, error: Option<String>) -> (r:
    RunOutcome<M>)
    ensures
        r.exit_reason@ == exit_word(reason),
        r.exit_error == error,
        items_of(r.history@) == state@.history,
{
    RunOutcome { exit_reason: reason.as_str(), exit_error: error, history: state.history }
}

// --- laws ---

/// no message of the history is lost: whatever happens, the history grows at its
/// end.
pub proof fn law_history_grows<M>(state: RunModel<M>, event: RunEvent<M>)
    ensures
        state.history.is_prefix_of(run_state_after(state, event).history),
{
    let h = run_state_after(state, event).history;
    assert(h.subrange(0, state.history.len() as int) =~= state.history);
}

/// a steer preserves the turn that it cuts short, and the next turn begins with
/// the steer's text and nothing said.
pub proof fn law_steer_preserves_turn<M>(state: RunModel<M>, s: String)
    ensures
        run_state_after(state, RunEvent::Steer(s)).history[state.history.len() as int]
            == ItemModel::<M>::Prompt(state.prompt),
        state.partial.len() > 0 ==> run_state_after(state, RunEvent::Steer(s)).history.last()
            == ItemModel::<M>::Assistant(state.partial),
        run_state_after(state, RunEvent::Steer(s)).prompt == text_prompt(s@),
        run_state_after(state, RunEvent::Steer(s)).partial.len() == 0,
{
}

/// the observer is told that the stream ends exactly where the run ends, and it
/// is told so last.
pub proof fn law_end_is_reported_last<M>(event: RunEvent<M>)
    ensures
        next_after(event) is Stop <==> reports_after(event).contains(ReportModel::EndStream),
        next_after(event) is Stop ==> reports_after(event).last() == ReportModel::EndStream,
{
    let r = reports_after(event);
    if next_after(event) is Stop {
        assert(r[r.len() - 1] == ReportModel::EndStream);
    }
}

/// where a run goes by several events.
pub open spec fn run_course<M>(state: RunModel<M>, events: Seq<RunEvent<M>>) -> RunModel<M>
    decreases events.len(),
{
    if events.len() == 0 {
        state
    } else {
        run_state_after(run_course(state, events.drop_last()), events.last())
    }
}

/// what the observer is told of several events.
pub open spec fn course_reports<M>(events: Seq<RunEvent<M>>) -> Seq<ReportModel>
    decreases events.len(),
{
    if events.len() == 0 {
        Seq::empty()
    } else {
        course_reports(events.drop_last()) + reports_after(events.last())
    }
}

/// none of the events ends the run.
pub open spec fn goes_on<M>(events: Seq<RunEvent<M>>) -> bool {
    forall|i: int| 0 <= i < events.len() ==> !(next_after(#[trigger] events[i]) is Stop)
}

/// while a run goes on the observer is not told of an end.
proof fn lemma_no_end<M>(events: Seq<RunEvent<M>>)
    requires
        goes_on(events),
    ensures
        !course_reports(events).contains(ReportModel::EndStream),
    decreases events.len(),
{
    if events.len() > 0 {
        let t = events.drop_last();
        assert forall|i: int| 0 <= i < t.len() implies !(next_after(#[trigger] t[i]) is Stop) by {
            assert(t[i] == events[i]);
        }
        lemma_no_end(t);
        let e = events.last();
        assert(e == events[events.len() - 1]);
        law_end_is_reported_last(e);
        let a = course_reports(t);
        let b = reports_after(e);
        assert forall|i: int| 0 <= i < (a + b).len() implies (a + b)[i]
            != ReportModel::EndStream by {
            if i < a.len() {
                assert(a.contains(a[i]));
            } else {
                assert(b.contains(b[i - a.len()]));
            }
        }
    }
}

/// in a whole run, whatever happens in it, the earlier history stays in front, and
/// the observer is told exactly once that the stream ends, and told so last.
pub proof fn law_whole_run<M>(state: RunModel<M>, events: Seq<RunEvent<M>>, event: RunEvent<M>)
    requires
        goes_on(events),
        next_after(event) is Stop,
    ensures
        state.history.is_prefix_of(run_course(state, events.push(event)).history),
        course_reports(events.push(event)).last() == ReportModel::EndStream,
        !course_reports(events.push(event)).drop_last().contains(ReportModel::EndStream),
{
    let all = events.push(event);
    assert(all.drop_last() =~= events);
    lemma_history_stays(state, all);
    lemma_no_end(events);
    let a = course_reports(events);
    let b = reports_after(event);
    let r = course_reports(all);
    assert(r == a + b);
    assert forall|i: int| 0 <= i < r.drop_last().len() implies r.drop_last()[i]
        != ReportModel::EndStream by {
        if i < a.len() {
            assert(a.contains(a[i]));
        }
    }
}

/// the earlier history stays in front.
proof fn lemma_history_stays<M>(state: RunModel<M>, events: Seq<RunEvent<M>>)
    ensures
        state.history.is_prefix_of(run_course(state, events).history),
    decreases events.len(),
{
    if events.len() > 0 {
        let t = run_course(state, events.drop_last());
        lemma_history_stays(state, events.drop_last());
        law_history_grows(t, events.last());
        let h = run_course(state, events).history;
        let n = state.history.len() as int;
        assert(h.subrange(0, n) =~= h.subrange(0, t.history.len() as int).subrange(0, n));
    }
}

/// an error ends the run with that error, and no other event ends it with one.
pub proof fn law_only_errors_end_with_errors<M>(event: RunEvent<M>)
    ensures
        match next_after(event) {
            NextModel::Stop { reason, error } => (reason == ExitReason::Error <==> error is Some)
                && (error is Some <==> event is Failed),
            _ => !(event is Failed),
        },
{
}

/// the texts of a history are never empty, and never those of a system prompt.
pub proof fn law_history_texts_are_said(history: Seq<ChatMessage>)
    ensures
        forall|i: int|
            0 <= i < message_texts(history).len() ==> {
                &&& (#[trigger] message_texts(history)[i]).1.len() > 0
                &&& message_texts(history)[i].0 == "user"@ || message_texts(history)[i].0
                    == "assistant"@
            },
    decreases history.len(),
{
    if history.len() > 0 {
        law_history_texts_are_said(history.drop_last());
        let rest = message_texts(history.drop_last());
        let all = message_texts(history);
        assert forall|i: int| 0 <= i < all.len() implies {
            &&& (#[trigger] all[i]).1.len() > 0
            &&& all[i].0 == "user"@ || all[i].0 == "assistant"@
        } by {
            if i < rest.len() {
                assert(all[i] == rest[i]);
            }
        }
    }
}

/// the text of a message is that of its text parts, one behind the other.
pub proof fn law_content_text(parts: Seq<ContentPart>, s: String)
    ensures
        content_text(Seq::empty()) == Seq::<char>::empty(),
        content_text(parts.push(ContentPart::Text(s))) == content_text(parts) + s@,
        content_text(parts.push(ContentPart::Other)) == content_text(parts),
{
    assert(parts.push(ContentPart::Text(s)).drop_last() =~= parts);
    assert(parts.push(ContentPart::Other).drop_last() =~= parts);
    assert(content_text(parts) + Seq::<char>::empty() =~= content_text(parts));
}

/// a history is told message by message, in order: those of the user and of the
/// assistant that have text, each with its role, and no others.
pub proof fn law_history_is_told(history: Seq<ChatMessage>, m: ChatMessage)
    ensures
        message_texts(Seq::empty()) == Seq::<(Seq<char>, Seq<char>)>::empty(),
        match m {
            ChatMessage::User(parts) => message_texts(history.push(m)) == if content_text(
                parts@,
            ).len() > 0 {
                message_texts(history).push(("user"@, content_text(parts@)))
            } else {
                message_texts(history)
            },
            ChatMessage::Assistant(parts) => message_texts(history.push(m)) == if content_text(
                parts@,
            ).len() > 0 {
                message_texts(history).push(("assistant"@, content_text(parts@)))
            } else {
                message_texts(history)
            },
            ChatMessage::System => message_texts(history.push(m)) == message_texts(history),
        },
{
    assert(history.push(m).drop_last() =~= history);
}

/// the kinds of images go by their mime types; jpeg goes by two.
pub proof fn law_media_types(mime: Seq<char>)
    ensures
        media_type_of(mime) == Some(ImageMediaType::Jpeg) <==> mime == "image/jpeg"@ || mime
            == "image/jpg"@,
        media_type_of(mime) == Some(ImageMediaType::Png) <==> mime == "image/png"@,
        media_type_of(mime) == Some(ImageMediaType::Gif) <==> mime == "image/gif"@,
        media_type_of(mime) == Some(ImageMediaType::Webp) <==> mime == "image/webp"@,
        mime != "image/jpeg"@ && mime != "image/jpg"@ && mime != "image/png"@ && mime
            != "image/gif"@ && mime != "image/webp"@ ==> media_type_of(mime) is None,
{
    reveal_strlit("image/jpeg");
    reveal_strlit("image/jpg");
    reveal_strlit("image/png");
    reveal_strlit("image/gif");
    reveal_strlit("image/webp");
    assert("image/jpeg"@[6] == 'j' && "image/jpg"@[6] == 'j' && "image/png"@[6] == 'p'
        && "image/gif"@[6] == 'g' && "image/webp"@[6] == 'w');
}

/// a turn has the user's text, and one image for each attachment, in order, with its
/// data and its kind.
pub proof fn law_user_turn(text: Seq<char>, attachments: Seq<Attachment>, i: int)
    ensures
        user_turn(text, attachments).text == text,
        user_turn(text, attachments).images.len() == attachments.len(),
        0 <= i < attachments.len() ==> user_turn(text, attachments).images[i].base64
            == attachments[i].base64@ && user_turn(text, attachments).images[i].media_type
            == media_type_of(attachments[i].mime@),
{
}

/// the clients go by their types; openai goes by two.
pub proof fn law_clients(s: Seq<char>)
    ensures
        client_named(s) == Some(ClientKind::OpenaiCompletions) <==> s == "openai_completions"@,
        client_named(s) == Some(ClientKind::OpenaiResponses) <==> s == "openai"@ || s
            == "openai_responses"@,
        client_named(s) == Some(ClientKind::Anthropic) <==> s == "anthropic"@,
        client_named(s) == Some(ClientKind::Gemini) <==> s == "gemini"@,
        client_named(s) == Some(ClientKind::Cohere) <==> s == "cohere"@,
        client_named(s) == Some(ClientKind::Xai) <==> s == "xai"@,
        s != "openai_completions"@ && s != "openai"@ && s != "openai_responses"@ && s
            != "anthropic"@ && s != "gemini"@ && s != "cohere"@ && s != "xai"@ ==> client_named(s)
            is None,
{
    reveal_strlit("openai_completions");
    reveal_strlit("openai");
    reveal_strlit("openai_responses");
    reveal_strlit("anthropic");
    reveal_strlit("gemini");
    reveal_strlit("cohere");
    reveal_strlit("xai");
    assert("openai_completions"@.len() == 18 && "openai"@.len() == 6 && "openai_responses"@.len()
        == 16);
    assert("openai_completions"@[0] == 'o' && "openai"@[0] == 'o' && "openai_responses"@[0] == 'o'
        && "anthropic"@[0] == 'a' && "gemini"@[0] == 'g' && "cohere"@[0] == 'c' && "xai"@[0]
        == 'x');
}

/// what is streamed as text is added to what the assistant has said, and reported as
/// it is; the history and the prompt stay.
pub proof fn law_text_is_kept<M>(state: RunModel<M>, s: String)
    ensures
        run_state_after(state, RunEvent::Text(s)).partial == state.partial + s@,
        run_state_after(state, RunEvent::Text(s)).history == state.history,
        run_state_after(state, RunEvent::Text(s)).prompt == state.prompt,
        reports_after(RunEvent::<M>::Text(s)) == seq![ReportModel::Text(s@)],
        next_after(RunEvent::<M>::Text(s)) == NextModel::Wait,
{
}

/// the messages of a complete turn are added to the history, in order, and nothing
/// is reported.
pub proof fn law_final_response_is_kept<M>(state: RunModel<M>, list: Vec<M>, i: int)
    ensures
        ({
            let after = run_state_after(state, RunEvent::FinalResponse(list));
            &&& after.history.len() == state.history.len() + list@.len()
            &&& 0 <= i < list@.len() ==> after.history[state.history.len() + i]
                == ItemModel::Message(list@[i])
            &&& after.prompt == state.prompt
            &&& reports_after(RunEvent::FinalResponse(list)).len() == 0
            &&& next_after(RunEvent::FinalResponse(list)) == NextModel::Wait
        }),
{
}

/// a steer adds the prompt that it cuts short and, where the assistant had said
/// something, that, and no more; the turn is restarted, and that is reported.
pub proof fn law_steer<M>(state: RunModel<M>, s: String)
    ensures
        ({
            let after = run_state_after(state, RunEvent::Steer(s));
            &&& after.history.len() == state.history.len() + if state.partial.len() == 0 {
                1int
            } else {
                2
            }
            &&& after.prompt.text == s@
            &&& after.prompt.images.len() == 0
            &&& reports_after(RunEvent::<M>::Steer(s)) == seq![ReportModel::Restart]
            &&& next_after(RunEvent::<M>::Steer(s)) == NextModel::Restart
        }),
{
}

/// reasoning, calls and their results are reported as they are and leave the state
/// alone, and the run waits for more.
pub proof fn law_activity_is_reported<M>(
    state: RunModel<M>,
    s: String,
    args: Json,
    parts: Vec<ContentPart>,
)
    ensures
        reports_after(RunEvent::<M>::Reasoning(s)) == seq![ReportModel::Reasoning(s@)],
        reports_after(RunEvent::<M>::ToolResult(parts)) == seq![
            ReportModel::ToolResult(content_text(parts@)),
        ],
        ({
            let call = RunEvent::<M>::ToolCall { name: s, args };
            &&& reports_after(call) == seq![
                ReportModel::ToolCall { name: s@, args: json::rendered(args@) },
            ]
            &&& run_state_after(state, call) == state
            &&& next_after(call) == NextModel::Wait
        }),
        reports_after(RunEvent::<M>::Other).len() == 0,
        run_state_after(state, RunEvent::Reasoning(s)) == state,
        run_state_after(state, RunEvent::ToolResult(parts)) == state,
        run_state_after(state, RunEvent::Other) == state,
        next_after(RunEvent::<M>::Reasoning(s)) == NextModel::Wait,
        next_after(RunEvent::<M>::ToolResult(parts)) == NextModel::Wait,
        next_after(RunEvent::<M>::Other) == NextModel::Wait,
{
}

/// a run is aborted by a cancel, fails by an error, which is reported before the end,
/// and stops with the stream; none of these changes what it leaves behind.
pub proof fn law_endings<M>(state: RunModel<M>, e: String)
    ensures
        next_after(RunEvent::<M>::Cancelled) is Stop,
        next_after(RunEvent::<M>::Cancelled)->reason == ExitReason::Aborted,
        next_after(RunEvent::<M>::Ended) is Stop,
        next_after(RunEvent::<M>::Ended)->reason == ExitReason::Stop,
        next_after(RunEvent::<M>::Failed(e)) is Stop,
        next_after(RunEvent::<M>::Failed(e))->reason == ExitReason::Error,
        next_after(RunEvent::<M>::Failed(e))->error == Some(e@),
        reports_after(RunEvent::<M>::Failed(e)) == seq![
            ReportModel::Error(e@),
            ReportModel::EndStream,
        ],
        run_state_after(state, RunEvent::Cancelled) == state,
        run_state_after(state, RunEvent::Failed(e)) == state,
        run_state_after(state, RunEvent::Ended) == state,
        exit_word(ExitReason::Stop) == "stop"@,
        exit_word(ExitReason::Aborted) == "aborted"@,
        exit_word(ExitReason::Error) == "error"@,
{
}

/// the models of prompts, items and states tell what the values hold.
pub proof fn law_run_models<M>(p: Prompt, i: int, item: HistoryItem<M>, state: RunState<M>)
    ensures
        p@.text == p.text@,
        p@.images.len() == p.images@.len(),
        0 <= i < p.images@.len() ==> p@.images[i].base64 == p.images@[i].base64@
            && p@.images[i].media_type == p.images@[i].media_type,
        match item {
            HistoryItem::Message(m) => item@ == ItemModel::Message(m),
            HistoryItem::Prompt(q) => item@ == ItemModel::<M>::Prompt(q@),
            HistoryItem::Assistant(s) => item@ == ItemModel::<M>::Assistant(s@),
        },
        state@.prompt == state.prompt@,
        state@.partial == state.partial@,
        state@.history.len() == state.history@.len(),
        0 <= i < state.history@.len() ==> state@.history[i] == state.history@[i]@,
{
}

/// the models of reports and of what comes next tell what the values hold.
pub proof fn law_report_models(report: Report, next: RunNext, list: Seq<Report>, i: int)
    ensures
        ({
            match report {
                Report::Text(s) => report@ == ReportModel::Text(s@),
                Report::Reasoning(s) => report@ == ReportModel::Reasoning(s@),
                Report::ToolCall { name, args } => report@ == ReportModel::ToolCall {
                    name: name@,
                    args: args@,
                },
                Report::ToolResult(s) => report@ == ReportModel::ToolResult(s@),
                Report::Error(s) => report@ == ReportModel::Error(s@),
                Report::Restart => report@ == ReportModel::Restart,
                Report::EndStream => report@ == ReportModel::EndStream,
            }
        }),
        ({
            match next {
                RunNext::Wait => next@ == NextModel::Wait,
                RunNext::Restart => next@ == NextModel::Restart,
                RunNext::Stop { reason, error } => next@ == NextModel::Stop {
                    reason,
                    error: text::text_opt(error),
                },
            }
        }),
        reports_of(list).len() == list.len(),
        0 <= i < list.len() ==> reports_of(list)[i] == list[i]@,
{
}

/// a turn is set up with the key that is given, or a placeholder for none; with the
/// system prompt, if there is one; with the active built-in tools; and with the
/// user's prompt and images.
pub proof fn law_plan(client: ClientKind, cfg: RunConfig<'_>, i: int)
    ensures
        ({
            let plan = planned(client, cfg);
            &&& plan.client == client
            &&& cfg.api_key@.len() > 0 ==> plan.api_key == cfg.api_key@
            &&& cfg.api_key@.len() == 0 ==> plan.api_key == "none"@
            &&& cfg.system_prompt@.len() > 0 ==> plan.preamble == Some(cfg.system_prompt@)
            &&& cfg.system_prompt@.len() == 0 ==> plan.preamble is None
            &&& plan.builtins.contains(Builtin::Read) <==> crate::config::active(
                cfg.tools@,
                "read"@,
                *cfg.tools_override,
            )
            &&& plan.builtins.contains(Builtin::Bash) <==> crate::config::active(
                cfg.tools@,
                "bash"@,
                *cfg.tools_override,
            )
            &&& plan.prompt.text == cfg.user_prompt@
            &&& plan.prompt.images.len() == cfg.attachments@.len()
            &&& 0 <= i < cfg.attachments@.len() ==> plan.prompt.images[i].base64
                == cfg.attachments@[i].base64@
        }),
{
    tools::law_active_builtins(cfg.tools@, *cfg.tools_override);
}

} // verus!
