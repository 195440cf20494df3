use codex_proxy::chat_completion::{
    build_completion, chat_error_reply, completion_reply, is_streamed, stream_error_data,
    stream_error_reply, Answer,
};
use codex_proxy::chat_events::{
    event_to_piece, extract_content_from_chatgpt_response, parse_sse_event,
};
use codex_proxy::chat_request::{
    build_chat_payload, map_model, message_content_to_text, refuse_model, route_model,
};
use codex_proxy::chat_stream::{
    broken_stream_event, error_event, refusal_event, refusal_text, ChatStream, StreamStep,
};
use codex_proxy::json::Json;
use codex_proxy::models::{ChatMessage, ChatRequest, ResponseEvent};

const UUID: &str = "01234567-89ab-4cde-8f01-23456789abcd";
const OTHER: &str = "fedcba98-7654-4321-8fed-cba987654321";

fn parse(text: &str) -> Json {
    Json::parse(text).unwrap()
}

fn value(text: &str) -> serde_json::Value {
    serde_json::from_str(text).unwrap()
}

fn message(role: &str, content: &str) -> ChatMessage {
    ChatMessage { role: role.to_string(), content: parse(content) }
}

fn request(model: &str, messages: Vec<ChatMessage>, tools: Vec<Json>) -> ChatRequest {
    ChatRequest { model: model.to_string(), messages, tools, stream: false }
}

#[test]
fn contents_become_text() {
    assert_eq!(message_content_to_text(&parse("\"hi\"")), "hi");
    assert_eq!(
        message_content_to_text(&parse(
            "[{\"text\":\"a\"},{\"content\":\"b\"},{\"text\":1,\"content\":\"c\"},{\"x\":\"d\"},\"e\"]"
        )),
        "a\nb\nc"
    );
    assert_eq!(message_content_to_text(&parse("[{\"x\":1}]")), "[{\"x\":1}]");
    assert_eq!(message_content_to_text(&parse("[]")), "[]");
    assert_eq!(message_content_to_text(&parse("null")), "null");
    assert_eq!(message_content_to_text(&parse("{\"b\":1,\"a\":[true]}")), "{\"a\":[true],\"b\":1}");
}

#[test]
fn chat_payload_without_tools() {
    let payload = build_chat_payload(
        "BASE",
        &Some("MINE".to_string()),
        &request(
            "gpt-5-mini",
            vec![
                message("system", "\"s\""),
                message("tool", "\"t\""),
                message("assistant", "\"a\""),
                message("user", "\"u\""),
                message("developer", "\"d\""),
                message("critic", "\"c\""),
            ],
            vec![parse("{\"function\":{\"name\":\" \"}}")],
        ),
    );
    assert_eq!(
        payload.to_value(),
        value(
            "{\"model\":\"gpt-5\",\"instructions\":\"BASE\\n\\n<user_instructions>\\n\\nMINE\\n\\n</user_instructions>\",\"input\":[{\"role\":\"user\",\"content\":\"<system>\\ns\\n</system>\"},{\"role\":\"assistant\",\"content\":\"<tool_response>\\nt\\n</tool_response>\"},{\"role\":\"assistant\",\"content\":\"a\"},{\"role\":\"user\",\"content\":\"u\"},{\"role\":\"developer\",\"content\":\"d\"},{\"role\":\"user\",\"content\":\"<critic>\\nc\\n</critic>\"}],\"store\":false,\"stream\":true}"
        )
    );
}

#[test]
fn chat_payload_with_tools() {
    let payload = build_chat_payload(
        "BASE",
        &None,
        &request("gpt-5.5", vec![], vec![parse("{\"name\":\"f\"}")]),
    );
    assert_eq!(
        payload.to_value(),
        value(
            "{\"model\":\"gpt-5.5\",\"instructions\":\"BASE\",\"input\":[],\"store\":false,\"stream\":true,\"tools\":[{\"type\":\"function\",\"name\":\"f\",\"parameters\":{\"type\":\"object\",\"properties\":{},\"additionalProperties\":false},\"strict\":true}],\"tool_choice\":\"auto\",\"parallel_tool_calls\":false}"
        )
    );
}

#[test]
fn raycast_requests_get_short_instructions() {
    let payload = build_chat_payload(
        "BASE",
        &None,
        &request("gpt-5", vec![message("user", "\"x <user-preferences> y\"")], vec![]),
    );
    assert_eq!(
        payload.get_str("instructions"),
        Some("You are a concise, helpful assistant. Answer the user's request directly.")
    );
}

#[test]
fn models_are_mapped_and_routed() {
    for same in ["gpt-5.5", "gpt-5.4", "gpt-5.4-mini", "gpt-5.3-codex-spark", "o3", "gpt-4"] {
        assert_eq!(map_model(same), same);
    }
    for five in ["gpt-5", "gpt-5-nano", "gpt-5.9", "gpt-55"] {
        assert_eq!(map_model(five), "gpt-5");
    }
    assert_eq!(route_model("custom-router-codex-proxy/x/gpt-5"), "gpt-5");
    assert_eq!(route_model("custom-router-codex-proxy/"), "");
    assert_eq!(route_model("other/gpt-5"), "other/gpt-5");
    assert!(refuse_model("gpt-5-mini").is_none());
    let reply = refuse_model("gpt-4").unwrap();
    assert_eq!(reply.status, 404);
    assert_eq!(
        reply.body.to_value(),
        value("{\"error\":{\"message\":\"Model not found. Verify the slug starts with 'gpt-5' (e.g. 'gpt-5', 'gpt-5-mini', 'gpt-5-nano') and try again. Requested: gpt-4\",\"type\":\"model_not_found\",\"code\":\"model_not_found\"}}")
    );
}

fn content(event: &str) -> Option<String> {
    extract_content_from_chatgpt_response(&parse(event))
}

#[test]
fn content_is_found_wherever_it_stands() {
    for event in [
        "{\"response\":{\"output\":[{\"type\":\"message\",\"content\":[{\"text\":\"x\"}]}]}}",
        "{\"choices\":[{\"delta\":{\"content\":\"x\"}}]}",
        "{\"choices\":[{\"delta\":{},\"message\":{\"content\":\"x\"}}]}",
        "{\"content\":\"x\"}",
        "{\"message\":{\"content\":\"x\"}}",
        "{\"message\":\"x\"}",
        "{\"response\":{\"content\":\"x\"}}",
        "{\"response\":\"x\"}",
        "{\"text\":\"x\"}",
        "{\"delta\":\"x\"}",
        "{\"delta\":{\"content\":\"x\"}}",
        "{\"delta\":{\"text\":\"x\"}}",
    ] {
        assert_eq!(content(event), Some("x".to_string()), "{}", event);
    }
    assert_eq!(content("{}"), None);
    assert_eq!(content("[\"x\"]"), None);
    assert_eq!(
        content("{\"response\":{\"output\":[{\"type\":\"function_call\"}]},\"text\":\"x\"}"),
        None
    );
    assert_eq!(
        content("{\"response\":{\"output\":[{\"type\":\"message\",\"content\":[]},{\"type\":\"message\",\"content\":[{\"text\":\"y\"}]}]},\"text\":\"x\"}"),
        Some("y".to_string())
    );
}

fn piece(event: &str) -> Option<ResponseEvent> {
    event_to_piece(&parse(event), 99, UUID, OTHER)
}

#[test]
fn argument_events_are_left_out() {
    assert!(piece("{\"type\":\"response.function_call_arguments.delta\",\"delta\":\"x\"}").is_none());
    assert!(piece("{\"type\":\"response.function_call_arguments.done\"}").is_none());
}

#[test]
fn completed_calls_are_passed_on() {
    let p = piece(
        "{\"type\":\"response.output_item.done\",\"output_index\":2,\"item\":{\"type\":\"function_call\",\"name\":\"f\",\"arguments\":\"{}\",\"id\":\"i\"},\"created\":5}",
    )
    .unwrap();
    assert_eq!(p.id, "chatcmpl-01234567");
    assert_eq!(p.object, "chat.completion.chunk");
    assert_eq!(p.created, 99);
    assert_eq!(p.model, "gpt-5");
    assert_eq!(p.choices.len(), 1);
    let choice = &p.choices[0];
    assert_eq!(choice.index, 0);
    assert_eq!(choice.finish_reason, Some("tool_calls".to_string()));
    assert_eq!(choice.delta.role, Some("assistant".to_string()));
    assert_eq!(choice.delta.content, None);
    assert_eq!(
        choice.delta.tool_calls.as_ref().unwrap().to_value(),
        value("[{\"id\":\"i\",\"type\":\"function\",\"index\":2,\"function\":{\"name\":\"f\",\"arguments\":\"{}\"}}]")
    );
    let bare = piece(
        "{\"type\":\"response.output_item.done\",\"item\":{\"type\":\"function_call\"},\"id\":\"e\",\"model\":\"m\"}",
    )
    .unwrap();
    assert_eq!(bare.id, "e");
    assert_eq!(bare.model, "m");
    assert_eq!(
        bare.choices[0].delta.tool_calls.as_ref().unwrap().to_value(),
        value("[{\"id\":\"call_fedcba98-7654-4321-8fed-cba987654321\",\"type\":\"function\",\"index\":0,\"function\":{\"name\":\"\",\"arguments\":\"\"}}]")
    );
}

#[test]
fn calls_in_a_response_are_passed_on() {
    let p = piece(
        "{\"created\":5,\"response\":{\"output\":[{\"type\":\"message\"},{\"type\":\"function_call\",\"name\":\"f\",\"call_id\":\"c\",\"id\":\"i\"}]}}",
    )
    .unwrap();
    assert_eq!(p.created, 5);
    assert_eq!(p.model, "gpt-4");
    assert_eq!(p.choices[0].finish_reason, None);
    assert_eq!(
        p.choices[0].delta.tool_calls.as_ref().unwrap().to_value(),
        value("[{\"id\":\"c\",\"type\":\"function\",\"index\":0,\"function\":{\"name\":\"f\",\"arguments\":\"\"}}]")
    );
}

#[test]
fn texts_and_ends_are_passed_on() {
    let said = piece("{\"delta\":\"hello\",\"finish_reason\":\"stop\",\"created\":-7}").unwrap();
    assert_eq!(said.created, -7);
    assert_eq!(said.choices[0].delta.content, Some("hello".to_string()));
    assert_eq!(said.choices[0].finish_reason, Some("stop".to_string()));
    let end = piece("{\"finish_reason\":null}").unwrap();
    assert_eq!(end.choices.len(), 1);
    assert_eq!(end.choices[0].delta.role, None);
    assert_eq!(end.choices[0].finish_reason, None);
    let empty = piece("{\"type\":\"response.created\"}").unwrap();
    assert!(empty.choices.is_empty());
    assert!(!is_streamed(&empty));
    assert!(is_streamed(&said));
}

#[test]
fn fresh_identifiers_are_given_out() {
    let a = parse_sse_event(&parse("{\"delta\":\"x\"}"), 1).unwrap();
    let b = parse_sse_event(&parse("{\"delta\":\"x\"}"), 1).unwrap();
    assert!(a.id.starts_with("chatcmpl-"));
    assert_eq!(a.id.len(), "chatcmpl-".len() + 8);
    assert_ne!(a.id, b.id);
    assert!(parse_sse_event(&parse("{\"type\":\"response.function_call_arguments.done\"}"), 1).is_none());
}

fn sent(step: StreamStep) -> ResponseEvent {
    match step {
        StreamStep::Send(event) => event,
        other => panic!("{:?}", other),
    }
}

#[test]
fn streams_are_taken_line_by_line() {
    let mut stream = ChatStream::new("gpt-5-mini");
    assert!(matches!(stream.step(1), StreamStep::NeedMore));
    stream.feed(b"event: x\ndata: {\"delta\":\"a\"}\r\n\nda");
    assert!(matches!(stream.step(1), StreamStep::Nothing));
    assert_eq!(sent(stream.step(1)).choices[0].delta.content, Some("a".to_string()));
    assert!(matches!(stream.step(1), StreamStep::Nothing));
    assert!(matches!(stream.step(1), StreamStep::NeedMore));
    stream.feed(b"ta: {bad\n");
    let error = sent(stream.step(42));
    assert!(error.id.starts_with("error-"));
    assert_eq!(error.model, "gpt-5-mini");
    assert_eq!(error.created, 42);
    assert_eq!(error.choices[0].finish_reason, Some("error".to_string()));
    let said = error.choices[0].delta.content.clone().unwrap();
    let why = serde_json::from_str::<serde_json::Value>("{bad").unwrap_err().to_string();
    assert_eq!(said, format!("JSON parse error: {}", why));
    stream.feed(b"data: [DONE]\n");
    assert!(matches!(stream.step(1), StreamStep::Done));
}

#[test]
fn repeated_texts_are_not_sent_again() {
    let mut stream = ChatStream::new("m");
    let mut take = |line: &str| stream.take_line(line, 1, UUID, OTHER);
    assert!(matches!(take("data: {\"delta\":\"a\"}"), StreamStep::Send(_)));
    assert!(matches!(take("data: {\"delta\":\" a \"}"), StreamStep::Nothing));
    assert!(matches!(take("data: {\"delta\":\"  \"}"), StreamStep::Send(_)));
    assert!(matches!(take("data: {\"delta\":\"a\"}"), StreamStep::Nothing));
    assert!(matches!(take("data: {\"finish_reason\":\"stop\"}"), StreamStep::Send(_)));
    assert!(matches!(take("data: {\"delta\":\"b\"}"), StreamStep::Send(_)));
    assert!(matches!(take("data: {\"delta\":\"a\"}"), StreamStep::Send(_)));
    assert!(matches!(take("id: 4"), StreamStep::Nothing));
}

#[test]
fn bytes_that_are_no_text_are_replaced() {
    let mut stream = ChatStream::new("m");
    stream.feed(b"data: {\"delta\":\"a\xff\"}\n");
    assert_eq!(sent(stream.step(1)).choices[0].delta.content, Some("a\u{fffd}".to_string()));
}

#[test]
fn refusals_are_told() {
    assert_eq!(refusal_text(400, "400 Bad Request", "no"), "Error: 400 Bad Request - no");
    assert_eq!(
        refusal_text(429, "429 Too Many Requests", "{\"e\":\"usage_limit_reached\"}"),
        "You've hit your usage limit. Upgrade to Pro (https://openai.com/chatgpt/pricing), or wait for limits to reset (every 5h and every week.)."
    );
    assert_eq!(refusal_text(429, "429", "slow"), "Error: 429 - slow");
    assert_eq!(refusal_text(400, "400", "usage_limit_reached"), "Error: 400 - usage_limit_reached");
    let unread = refusal_event(3, "m", 500, "500 X", &None);
    assert_eq!(
        unread.choices[0].delta.content,
        Some("Error: 500 X - Failed to read response body".to_string())
    );
    assert_eq!(unread.created, 3);
    let broken = broken_stream_event(4, "m", "reset");
    assert_eq!(broken.choices[0].delta.content, Some("Stream error: reset".to_string()));
    assert_ne!(unread.id, broken.id);
    let fixed = error_event(UUID, 5, "m", "x".to_string());
    assert_eq!(fixed.id, format!("error-{}", UUID));
}

#[test]
fn answers_are_put_together() {
    let mut answer = Answer::new();
    for event in [
        "{\"delta\":\"Hel\"}",
        "{\"type\":\"response.created\"}",
        "{\"delta\":\"lo\",\"finish_reason\":\"length\"}",
        "{\"delta\":\"!\"}",
    ] {
        answer.take(&piece(event).unwrap());
    }
    assert_eq!(answer.content, "Hello!");
    assert_eq!(answer.finish_reason, "length");
    assert_eq!(
        build_completion(UUID, 8, "gpt-5", &answer).to_value(),
        value(
            "{\"id\":\"chatcmpl-01234567\",\"object\":\"chat.completion\",\"created\":8,\"model\":\"gpt-5\",\"choices\":[{\"index\":0,\"message\":{\"role\":\"assistant\",\"content\":\"Hello!\"},\"finish_reason\":\"length\"}],\"usage\":{\"prompt_tokens\":0,\"completion_tokens\":0,\"total_tokens\":0}}"
        )
    );
    let reply = completion_reply(8, "gpt-5", &Answer::new());
    assert_eq!(reply.status, 200);
    assert_eq!(
        reply.body.get_array("choices").unwrap()[0].get_str("finish_reason"),
        Some("stop")
    );
}

#[test]
fn chat_failures_are_answered() {
    let failed = stream_error_reply("e");
    assert_eq!(failed.status, 500);
    let body = "{\"error\":{\"message\":\"Stream error: e\",\"type\":\"stream_error\",\"code\":\"stream_error\"}}";
    assert_eq!(failed.body.to_value(), value(body));
    assert_eq!(value(&stream_error_data("e")), value(body));
    let chat = chat_error_reply("e");
    assert_eq!(chat.status, 500);
    assert_eq!(
        chat.body.to_value(),
        value("{\"error\":{\"message\":\"Failed to process chat completion: e\",\"type\":\"server_error\",\"code\":\"internal_error\"}}")
    );
}
