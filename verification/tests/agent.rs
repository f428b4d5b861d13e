use hrns::agent::{
    advance_run, build_prompt, client_kind, finish_run, history_texts, image_media_type, plan_run,
    start_run, text_of_parts, Attachment, ChatMessage, ClientKind, ContentPart, ExitReason,
    HistoryItem, ImageMediaType, Prompt, Report, RunConfig, RunEvent, RunNext,
};
use hrns::config::ToolsConfig;
use hrns::json::parse_json;
use hrns::permission::PermissionsConfig;
use hrns::table::Table;
use hrns::tools::Builtin;

fn prompt(text: &str) -> Prompt {
    Prompt { text: text.to_string(), images: Vec::new() }
}

fn text(s: &str) -> ContentPart {
    ContentPart::Text(s.to_string())
}

fn item(i: &HistoryItem<u32>) -> String {
    match i {
        HistoryItem::Message(m) => format!("message {}", m),
        HistoryItem::Prompt(p) => format!("prompt {}", p.text),
        HistoryItem::Assistant(s) => format!("assistant {}", s),
    }
}

fn items(h: &Vec<HistoryItem<u32>>) -> Vec<String> {
    h.iter().map(item).collect()
}

#[test]
fn what_was_said_is_text() {
    let history = vec![
        ChatMessage::System,
        ChatMessage::User(vec![text("a"), ContentPart::Other, text("b")]),
        ChatMessage::Assistant(vec![ContentPart::Other]),
        ChatMessage::Assistant(vec![text("c")]),
        ChatMessage::User(vec![text("")]),
    ];
    assert_eq!(
        history_texts(&history),
        [
            ("user".to_string(), "ab".to_string()),
            ("assistant".to_string(), "c".to_string())
        ]
    );
    assert_eq!(text_of_parts(&vec![]), "");
}

#[test]
fn attachments_become_images() {
    let p = build_prompt(
        "look",
        &vec![
            Attachment { mime: "image/jpg".to_string(), base64: "AA".to_string() },
            Attachment { mime: "text/plain".to_string(), base64: "BB".to_string() },
        ],
    );
    assert_eq!(p.text, "look");
    assert_eq!(p.images.len(), 2);
    assert_eq!(p.images[0].base64, "AA");
    assert_eq!(p.images[0].media_type, Some(ImageMediaType::Jpeg));
    assert_eq!(p.images[1].media_type, None);
    assert_eq!(image_media_type("image/jpeg"), Some(ImageMediaType::Jpeg));
    assert_eq!(image_media_type("image/png"), Some(ImageMediaType::Png));
    assert_eq!(image_media_type("image/gif"), Some(ImageMediaType::Gif));
    assert_eq!(image_media_type("image/webp"), Some(ImageMediaType::Webp));
    assert_eq!(image_media_type("image/bmp"), None);
}

fn plan(client: &str, key: &str, system: &str) -> Result<hrns::agent::RunPlan, String> {
    let mut gates = Table::new();
    gates.insert("read".to_string(), true);
    plan_run(&RunConfig {
        client_type: client,
        model_name: "m",
        api_key: key,
        base_url: None,
        max_tokens: 1,
        max_turns: 1,
        tools: &ToolsConfig { tools: gates },
        tools_override: &None,
        permissions: &PermissionsConfig { tools: Table::new() },
        system_prompt: system,
        user_prompt: "u",
        attachments: &Vec::new(),
        additional_params: None,
    })
}

#[test]
fn a_run_is_planned() {
    let p = plan("anthropic", "", "").unwrap();
    assert_eq!(p.client, ClientKind::Anthropic);
    assert_eq!(p.api_key, "none");
    assert_eq!(p.preamble, None);
    assert_eq!(p.builtins, [Builtin::Read]);
    assert_eq!(p.prompt.text, "u");
    let p = plan("openai", "k", "be brief").unwrap();
    assert_eq!(p.client, ClientKind::OpenaiResponses);
    assert_eq!(p.api_key, "k");
    assert_eq!(p.preamble.as_deref(), Some("be brief"));
    assert_eq!(plan("local", "k", "").unwrap_err(), "unsupported client type: local");
}

#[test]
fn client_types_are_known_by_name() {
    for (name, kind) in [
        ("openai_completions", ClientKind::OpenaiCompletions),
        ("openai", ClientKind::OpenaiResponses),
        ("openai_responses", ClientKind::OpenaiResponses),
        ("anthropic", ClientKind::Anthropic),
        ("gemini", ClientKind::Gemini),
        ("cohere", ClientKind::Cohere),
        ("xai", ClientKind::Xai),
    ] {
        assert_eq!(client_kind(name), Some(kind));
    }
    assert_eq!(client_kind("OpenAI"), None);
}

#[test]
fn what_is_streamed_is_reported() {
    let s = start_run(vec![1u32], prompt("p"));
    assert_eq!(items(&s.history), ["message 1"]);
    let (s, r, n) = advance_run(s, RunEvent::Text("he".to_string()));
    assert!(matches!(&r[..], [Report::Text(t)] if t == "he"));
    assert!(matches!(n, RunNext::Wait));
    let (s, _, _) = advance_run(s, RunEvent::Text("llo".to_string()));
    assert_eq!(s.partial, "hello");
    let (s, r, _) = advance_run(s, RunEvent::Reasoning("hm".to_string()));
    assert!(matches!(&r[..], [Report::Reasoning(t)] if t == "hm"));
    let args = parse_json("{\"b\": 1, \"a\": [2]}").unwrap();
    let (s, r, _) = advance_run(s, RunEvent::ToolCall { name: "read".to_string(), args });
    assert!(matches!(&r[..], [Report::ToolCall { name, args }]
        if name == "read" && args == "{\"a\":[2],\"b\":1}"));
    let parts = vec![text("x"), ContentPart::Other, text("y")];
    let (s, r, _) = advance_run(s, RunEvent::ToolResult(parts));
    assert!(matches!(&r[..], [Report::ToolResult(t)] if t == "xy"));
    let (s, r, n) = advance_run(s, RunEvent::Other);
    assert!(r.is_empty());
    assert!(matches!(n, RunNext::Wait));
    let (s, r, _) = advance_run(s, RunEvent::FinalResponse(vec![2, 3]));
    assert!(r.is_empty());
    let (s, r, n) = advance_run(s, RunEvent::Ended);
    assert!(matches!(&r[..], [Report::EndStream]));
    match n {
        RunNext::Stop { reason, error } => {
            let o = finish_run(s, reason, error);
            assert_eq!(o.exit_reason, "stop");
            assert_eq!(o.exit_error, None);
            assert_eq!(items(&o.history), ["message 1", "message 2", "message 3"]);
        }
        other => panic!("{:?}", other),
    }
}

#[test]
fn steering_keeps_the_interrupted_turn() {
    let s = start_run(vec![1u32], prompt("p"));
    let (s, _, _) = advance_run(s, RunEvent::Text("part".to_string()));
    let (s, r, n) = advance_run(s, RunEvent::Steer("left".to_string()));
    assert!(matches!(&r[..], [Report::Restart]));
    assert!(matches!(n, RunNext::Restart));
    assert_eq!(items(&s.history), ["message 1", "prompt p", "assistant part"]);
    assert_eq!(s.prompt.text, "left");
    assert_eq!(s.partial, "");
    let (s, _, _) = advance_run(s, RunEvent::Steer("right".to_string()));
    assert_eq!(items(&s.history), ["message 1", "prompt p", "assistant part", "prompt left"]);
    assert_eq!(s.prompt.text, "right");
}

#[test]
fn a_run_ends_by_error_or_cancellation() {
    let s = start_run(Vec::<u32>::new(), prompt("p"));
    let (s, r, n) = advance_run(s, RunEvent::Failed("broke".to_string()));
    assert!(matches!(&r[..], [Report::Error(e), Report::EndStream] if e == "broke"));
    assert!(matches!(&n, RunNext::Stop { reason: ExitReason::Error, error: Some(e) } if e == "broke"));
    assert!(s.history.is_empty());
    let s = start_run(Vec::<u32>::new(), prompt("p"));
    let (_, r, n) = advance_run(s, RunEvent::Cancelled);
    assert!(matches!(&r[..], [Report::EndStream]));
    assert!(matches!(n, RunNext::Stop { reason: ExitReason::Aborted, error: None }));
}

#[test]
fn exit_reasons_have_names() {
    assert_eq!(ExitReason::Stop.as_str(), "stop");
    assert_eq!(ExitReason::Aborted.as_str(), "aborted");
    assert_eq!(ExitReason::Error.as_str(), "error");
}
