use codex_proxy::config::Config;
use codex_proxy::json::Json;
use codex_proxy::response_store::{response_from_sse_bytes, StoreError, StoredResponse};
use codex_proxy::responses::{
    build_responses_request, collect_response, delete_response_reply, get_response_reply,
    history_error_reply, is_success, patch_responses_sse_line, proxy_error_reply, CollectedReply,
    RelayEnd, ResponsesRelay,
};
use std::path::PathBuf;

fn config() -> Config {
    Config {
        codex_home: PathBuf::from("/h"),
        chatgpt_base_url: "https://chatgpt.com/backend-api/codex".to_string(),
        model: "gpt-5".to_string(),
        user_instructions: Some("Be kind.".to_string()),
        request_log_dir: PathBuf::from("/l"),
        response_store_dir: PathBuf::from("/s"),
        response_store_max_age_secs: 0,
        request_log_max_bytes: 0,
        app_log_max_bytes: 0,
    }
}

fn parse(text: &str) -> Json {
    Json::parse(text).unwrap()
}

fn value(text: &str) -> serde_json::Value {
    serde_json::from_str(text).unwrap()
}

const ITEM: &str = "data: {\"type\":\"response.output_item.done\",\"output_index\":0,\"item\":{\"type\":\"message\"}}\n";
const COMPLETED: &str = "data: {\"type\":\"response.completed\",\"response\":{\"id\":\"resp_9\",\"output\":[]}}\n";

#[test]
fn requests_are_completed() {
    let request = build_responses_request(&config(), "BASE", &parse("{\"input\":\"hi\"}"), &vec![]);
    assert!(!request.should_store);
    assert!(!request.stream_requested);
    assert_eq!(
        request.payload.to_value(),
        value(
            "{\"model\":\"gpt-5\",\"instructions\":\"BASE\\n\\n<user_instructions>\\n\\nBe kind.\\n\\n</user_instructions>\",\"input\":[{\"role\":\"user\",\"content\":\"hi\"}],\"store\":false,\"stream\":true}"
        )
    );
}

#[test]
fn what_a_request_brings_is_kept() {
    let original = parse(
        "{\"model\":\"m\",\"instructions\":null,\"input\":{\"type\":\"reasoning\"},\"stream\":true,\"store\":true,\"x\":[1.5]}",
    );
    let request = build_responses_request(&config(), "BASE", &original, &vec![]);
    assert!(request.should_store);
    assert!(request.stream_requested);
    assert_eq!(
        request.payload.to_value(),
        value(
            "{\"model\":\"m\",\"instructions\":null,\"input\":[{\"type\":\"reasoning\"}],\"stream\":true,\"store\":false,\"x\":[1.5]}"
        )
    );
}

#[test]
fn other_inputs_become_lists() {
    for (input, listed) in [
        ("{}", "[]"),
        ("{\"input\":null}", "[]"),
        ("{\"input\":7}", "[7]"),
        ("{\"input\":[1,2]}", "[1,2]"),
    ] {
        let request = build_responses_request(&config(), "B", &parse(input), &vec![]);
        assert_eq!(request.payload.get("input").unwrap().to_value(), value(listed));
    }
}

#[test]
fn histories_are_sent_on() {
    let chain = vec![StoredResponse {
        request: parse("{\"input\":\"one\"}"),
        response: parse("{\"output\":[{\"type\":\"reasoning\"},\"two\"]}"),
    }];
    let original = parse("{\"previous_response_id\":\"r\",\"input\":\"three\"}");
    let request = build_responses_request(&config(), "B", &original, &chain);
    assert_eq!(
        request.payload.get("input").unwrap().to_value(),
        value("[{\"role\":\"user\",\"content\":\"one\"},\"two\",{\"role\":\"user\",\"content\":\"three\"}]")
    );
    assert!(request.payload.get("previous_response_id").is_none());
}

#[test]
fn completed_lines_get_their_output() {
    let mut items = Vec::new();
    let first = patch_responses_sse_line(ITEM.as_bytes().to_vec(), &mut items);
    assert_eq!(first, ITEM.as_bytes());
    assert_eq!(items.len(), 1);
    let last = patch_responses_sse_line(COMPLETED.as_bytes().to_vec(), &mut items);
    let text = String::from_utf8(last).unwrap();
    assert_eq!(
        text,
        "data: {\"response\":{\"id\":\"resp_9\",\"output\":[{\"type\":\"message\"}]},\"type\":\"response.completed\"}\n"
    );
    assert_eq!(items.len(), 1);
}

#[test]
fn all_clients_get_the_same_response() {
    let other = "data: {\"type\":\"response.output_item.done\",\"output_index\":1,\"item\":\"caf\u{e9}\"}\r\n";
    let bytes = format!("event: x\n{}\n{}{}data: [DONE]", other, ITEM, COMPLETED).into_bytes();
    let (out, end) = relay_all(&[&bytes], true, 200);
    let streamed: Vec<serde_json::Value> = String::from_utf8(out)
        .unwrap()
        .lines()
        .filter(|line| line.contains("response.completed"))
        .map(|line| value(&line["data: ".len()..])["response"].clone())
        .collect();
    assert_eq!(streamed.len(), 1);
    let whole = response_from_sse_bytes(&bytes).unwrap().to_value();
    assert_eq!(whole, value("{\"id\":\"resp_9\",\"output\":[{\"type\":\"message\"},\"caf\u{e9}\"]}"));
    assert_eq!(streamed[0], whole);
    match end {
        RelayEnd::Store(Ok(write)) => {
            let kept: serde_json::Value = serde_json::from_slice(&write.bytes).unwrap();
            assert_eq!(kept["response"], whole);
        }
        other => panic!("{:?}", other),
    }
}

#[test]
fn other_lines_pass_as_they_came() {
    let mut items = vec![(0, Json::text("x"))];
    for line in [
        "\n",
        "event: response.completed\n",
        "data: [DONE]\n",
        "data:  \n",
        "data: {bad}\n",
        "data: {\"type\":\"response.created\", \"response\": {}}\r\n",
        " data: {\"type\":\"response.completed\"}\n",
    ] {
        assert_eq!(patch_responses_sse_line(line.as_bytes().to_vec(), &mut items), line.as_bytes());
    }
    let binary = vec![b'd', 0xff, b'\n'];
    assert_eq!(patch_responses_sse_line(binary.clone(), &mut items), binary);
    assert_eq!(items.len(), 1);
    let bare = b"data: {\"type\":\"response.completed\"}  \n".to_vec();
    assert_eq!(
        patch_responses_sse_line(bare, &mut items),
        b"data: {\"type\":\"response.completed\"}\n".to_vec()
    );
}

fn relay_all(chunks: &[&[u8]], should_store: bool, status: u16) -> (Vec<u8>, RelayEnd) {
    let mut relay = ResponsesRelay::new(should_store, status);
    let mut out = Vec::new();
    for chunk in chunks {
        relay.feed(chunk);
        while let Some(line) = relay.next_line() {
            out.extend_from_slice(&line);
        }
    }
    if let Some(line) = relay.last_line() {
        out.extend_from_slice(&line);
    }
    assert!(relay.last_line().is_none());
    (out, relay.finish(&config(), parse("{\"store\":true}")))
}

#[test]
fn chunks_make_no_difference_to_the_client() {
    let whole = format!("{}\n{}\ndata: [DONE]", ITEM, COMPLETED);
    let bytes = whole.as_bytes();
    let (expected, _) = relay_all(&[bytes], false, 200);
    assert!(String::from_utf8(expected.clone()).unwrap().ends_with("\n\ndata: [DONE]"));
    for cut in 0..bytes.len() {
        let (out, _) = relay_all(&[&bytes[..cut], &bytes[cut..]], false, 200);
        assert_eq!(out, expected);
    }
    let single: Vec<&[u8]> = bytes.chunks(1).collect();
    assert_eq!(relay_all(&single, false, 200).0, expected);
}

#[test]
fn streamed_responses_are_kept_where_they_should_be() {
    let whole = format!("{}{}", ITEM, COMPLETED);
    match relay_all(&[whole.as_bytes()], true, 200).1 {
        RelayEnd::Store(Ok(write)) => {
            assert_eq!(write.path, PathBuf::from("/s/resp_9.json"));
            let kept: serde_json::Value = serde_json::from_slice(&write.bytes).unwrap();
            assert_eq!(
                kept,
                value("{\"request\":{\"store\":true},\"response\":{\"id\":\"resp_9\",\"output\":[{\"type\":\"message\"}]}}")
            );
        }
        other => panic!("{:?}", other),
    }
    assert!(matches!(relay_all(&[whole.as_bytes()], false, 200).1, RelayEnd::Nothing));
    assert!(matches!(relay_all(&[whole.as_bytes()], true, 500).1, RelayEnd::Nothing));
    assert!(matches!(relay_all(&[ITEM.as_bytes()], true, 200).1, RelayEnd::NoResponse));
    let no_id = b"data: {\"type\":\"response.completed\",\"response\":{}}\n";
    assert!(matches!(
        relay_all(&[no_id], true, 299).1,
        RelayEnd::Store(Err(StoreError::NoId))
    ));
}

#[test]
fn collected_responses_are_sent_whole() {
    let body = format!("{}{}", ITEM, COMPLETED).into_bytes();
    let collected = collect_response(&config(), 201, body.clone(), true, Json::Null);
    match collected.reply {
        CollectedReply::Bytes { status, body } => {
            assert_eq!(status, 201);
            assert_eq!(body, b"{\"id\":\"resp_9\",\"output\":[{\"type\":\"message\"}]}".to_vec());
        }
        other => panic!("{:?}", other),
    }
    assert_eq!(collected.store.unwrap().unwrap().path, PathBuf::from("/s/resp_9.json"));
    assert!(collect_response(&config(), 200, body, false, Json::Null).store.is_none());
}

#[test]
fn refusals_and_broken_streams_are_collected() {
    let refused = collect_response(&config(), 429, b"{\"e\":1}".to_vec(), true, Json::Null);
    assert!(refused.store.is_none());
    match refused.reply {
        CollectedReply::Bytes { status, body } => {
            assert_eq!(status, 429);
            assert_eq!(body, b"{\"e\":1}".to_vec());
        }
        other => panic!("{:?}", other),
    }
    let broken = collect_response(&config(), 200, ITEM.as_bytes().to_vec(), true, Json::Null);
    assert!(broken.store.is_none());
    match broken.reply {
        CollectedReply::Own(reply) => {
            assert_eq!(reply.status, 502);
            assert_eq!(
                reply.body.to_value(),
                value("{\"error\":{\"message\":\"Upstream stream ended without response.completed\",\"type\":\"server_error\",\"code\":\"missing_response_completed\"}}")
            );
        }
        other => panic!("{:?}", other),
    }
}

#[test]
fn statuses_of_success() {
    assert!(is_success(200));
    assert!(is_success(299));
    assert!(!is_success(199));
    assert!(!is_success(300));
}

#[test]
fn kept_responses_are_answered() {
    let found = get_response_reply("r", Ok(Some(parse("{\"id\":\"r\"}"))));
    assert_eq!(found.status, 200);
    assert_eq!(found.body.to_value(), value("{\"id\":\"r\"}"));
    let absent = get_response_reply("r", Ok(None));
    assert_eq!(absent.status, 404);
    assert_eq!(
        absent.body.to_value(),
        value("{\"error\":{\"message\":\"Stored response not found: r\",\"type\":\"invalid_request_error\",\"code\":\"response_not_found\"}}")
    );
    let refused = get_response_reply("r/", Err(StoreError::InvalidId));
    assert_eq!(refused.status, 400);
    assert_eq!(
        refused.body.to_value(),
        value("{\"error\":{\"message\":\"invalid response id\",\"type\":\"invalid_request_error\",\"code\":\"invalid_response_id\"}}")
    );
}

#[test]
fn removals_are_answered() {
    let done = delete_response_reply("r", Ok(true));
    assert_eq!(done.status, 200);
    assert_eq!(
        done.body.to_value(),
        value("{\"id\":\"r\",\"object\":\"response.deleted\",\"deleted\":true}")
    );
    assert_eq!(delete_response_reply("r", Ok(false)).status, 404);
    let stuck = delete_response_reply("r", Err(StoreError::Undeletable(PathBuf::from("/s/r.json"))));
    assert_eq!(stuck.status, 400);
    assert_eq!(
        stuck.body.get("error").unwrap().get_str("message"),
        Some("failed to delete \"/s/r.json\"")
    );
}

#[test]
fn failures_are_answered() {
    let lost = history_error_reply(&StoreError::NotFound("r".to_string()));
    assert_eq!(lost.status, 404);
    assert_eq!(
        lost.body.to_value(),
        value("{\"error\":{\"message\":\"stored response not found: r\",\"type\":\"invalid_request_error\",\"code\":\"previous_response_not_found\"}}")
    );
    let failed = proxy_error_reply("no route");
    assert_eq!(failed.status, 500);
    assert_eq!(
        failed.body.to_value(),
        value("{\"error\":{\"message\":\"Failed to proxy Responses request: no route\",\"type\":\"server_error\",\"code\":\"internal_error\"}}")
    );
}
