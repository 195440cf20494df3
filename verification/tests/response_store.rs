use codex_proxy::config::Config;
use codex_proxy::history::{prepare_responses_payload, previous_response_id, ChainStep, ChainWalk};
use codex_proxy::json::Json;
use codex_proxy::response_store::{
    delete_response, expiry_cutoff, fill_output_from_items, load_response, output_item_done_entry, prune_expired,
    read_own_file, read_stored_response, response_from_sse_bytes, response_path, store_response,
    validate_response_id, FileRead, StoreError, StoreFile, StoredResponse,
};
use std::collections::HashMap;
use std::path::PathBuf;

type Disk = HashMap<PathBuf, Vec<u8>>;

fn test_config(dir: PathBuf) -> Config {
    Config {
        codex_home: dir.clone(),
        chatgpt_base_url: "https://chatgpt.com/backend-api/codex".to_string(),
        model: "gpt-5.5".to_string(),
        user_instructions: None,
        request_log_dir: dir.clone(),
        response_store_dir: dir,
        response_store_max_age_secs: 0,
        request_log_max_bytes: 0,
        app_log_max_bytes: 0,
    }
}

fn parse(text: &str) -> Json {
    Json::parse(text).unwrap()
}

fn value(text: &str) -> serde_json::Value {
    serde_json::from_str(text).unwrap()
}

fn read(disk: &Disk, path: &PathBuf) -> FileRead {
    match disk.get(path) {
        Some(bytes) => FileRead::Bytes { bytes: bytes.clone(), read: None },
        None => FileRead::Missing,
    }
}

fn store(config: &Config, disk: &mut Disk, request: Json, response: Json) -> Result<(), StoreError> {
    let write = store_response(config, request, response)?;
    disk.insert(write.path, write.bytes);
    Ok(())
}

fn load(config: &Config, disk: &Disk, id: &str) -> Result<Option<Json>, StoreError> {
    let path = response_path(config, id)?;
    load_response(config, id, &read(disk, &path))
}

fn delete(config: &Config, disk: &mut Disk, id: &str) -> Result<bool, StoreError> {
    let path = response_path(config, id)?;
    match delete_response(config, id, disk.contains_key(&path))? {
        Some(path) => Ok(disk.remove(&path).is_some()),
        None => Ok(false),
    }
}

fn chain(config: &Config, disk: &Disk, id: &str) -> Result<Vec<StoredResponse>, StoreError> {
    let mut walk = ChainWalk::start(id.to_string());
    loop {
        let path = walk.path(config)?;
        match walk.advance(config, &read(disk, &path)) {
            ChainStep::More(next) => walk = next,
            ChainStep::Complete(chain) => return Ok(chain),
            ChainStep::Failed(e) => return Err(e),
        }
    }
}

fn prepare(config: &Config, disk: &Disk, payload: &Json) -> Result<(Json, bool), StoreError> {
    let history = match previous_response_id(payload) {
        Some(id) => chain(config, disk, &id)?,
        None => Vec::new(),
    };
    Ok(prepare_responses_payload(payload, &history))
}

fn said(role: &str, content: &str) -> Json {
    Json::object().with("role", Json::text(role)).with("content", Json::text(content))
}

#[test]
fn prepare_forces_upstream_store_false() {
    let config = test_config(PathBuf::from("/tmp/store"));
    let payload = Json::object().with("store", Json::Bool(true)).with("input", Json::text("hello"));

    let (upstream, should_store) = prepare(&config, &Disk::new(), &payload).unwrap();

    assert!(should_store);
    assert_eq!(upstream.get("store").unwrap().as_bool(), Some(false));
}

#[test]
fn previous_response_id_expands_local_history() {
    let config = test_config(PathBuf::from("/tmp/store"));
    let mut disk = Disk::new();
    store(
        &config,
        &mut disk,
        Json::object()
            .with("input", Json::array(vec![said("user", "first")]))
            .with("store", Json::Bool(true)),
        Json::object().with("id", Json::text("resp_1")).with(
            "output",
            Json::array(vec![Json::object()
                .with("type", Json::text("message"))
                .with("role", Json::text("assistant"))
                .with(
                    "content",
                    Json::array(vec![Json::object()
                        .with("type", Json::text("output_text"))
                        .with("text", Json::text("second"))]),
                )]),
        ),
    )
    .unwrap();

    let (upstream, _) = prepare(
        &config,
        &disk,
        &Json::object()
            .with("previous_response_id", Json::text("resp_1"))
            .with("input", Json::array(vec![said("user", "third")]))
            .with("store", Json::Bool(true)),
    )
    .unwrap();

    let input = upstream.get_array("input").unwrap();
    assert_eq!(input.len(), 3);
    assert!(upstream.get("previous_response_id").is_none());
    assert_eq!(upstream.get("store").unwrap().as_bool(), Some(false));
    assert_eq!(input[0].get_str("content"), Some("first"));
    assert_eq!(input[1].get_str("role"), Some("assistant"));
    assert_eq!(input[2].get_str("content"), Some("third"));
}

#[test]
fn delete_removes_stored_response() {
    let config = test_config(PathBuf::from("/tmp/store"));
    let mut disk = Disk::new();
    store(
        &config,
        &mut disk,
        Json::object().with("input", Json::text("hi")).with("store", Json::Bool(true)),
        Json::object().with("id", Json::text("resp_del")).with("output", Json::array(vec![])),
    )
    .unwrap();

    assert!(delete(&config, &mut disk, "resp_del").unwrap());
    assert!(load(&config, &disk, "resp_del").unwrap().is_none());
    assert!(!delete(&config, &mut disk, "resp_del").unwrap());
    assert!(delete(&config, &mut disk, "../escape").is_err());
}

#[test]
fn sse_reconstructs_output_from_output_item_done() {
    let sse = [
        "data: {\"type\":\"response.output_item.done\",\"output_index\":1,",
        "\"item\":{\"type\":\"message\",\"role\":\"assistant\",",
        "\"content\":[{\"type\":\"output_text\",\"text\":\"hello\"}]}}\n\n",
        "data: {\"type\":\"response.output_item.done\",\"output_index\":0,",
        "\"item\":{\"type\":\"reasoning\",\"summary\":[]}}\n\n",
        "data: {\"type\":\"response.completed\",\"response\":{\"id\":\"resp_x\",\"output\":[]}}\n\n",
        "data: [DONE]\n\n",
    ]
    .concat();

    let response = response_from_sse_bytes(sse.as_bytes()).expect("should parse");
    let output = response.get_array("output").expect("output array");
    assert_eq!(output.len(), 2);
    assert_eq!(output[0].get_str("type"), Some("reasoning"));
    assert_eq!(output[1].get_str("type"), Some("message"));
}

#[test]
fn ids_are_checked() {
    for good in ["a", "resp_1", "A-b.C_9", ".", ".."] {
        assert!(validate_response_id(good).is_ok(), "{}", good);
    }
    for bad in ["", "a/b", "../escape", "a b", "a\\b", "caf\u{e9}", "a:b", "a\n"] {
        assert_eq!(validate_response_id(bad), Err(StoreError::InvalidId));
    }
}

#[test]
fn responses_are_files_of_one_directory() {
    let config = test_config(PathBuf::from("/var/store"));
    assert_eq!(response_path(&config, "resp_1").unwrap(), PathBuf::from("/var/store/resp_1.json"));
    let dots = response_path(&config, "..").unwrap();
    assert_eq!(dots, PathBuf::from("/var/store/...json"));
    assert_eq!(dots.parent().unwrap(), PathBuf::from("/var/store"));
    assert_eq!(response_path(&config, "a/b"), Err(StoreError::InvalidId));
}

#[test]
fn what_is_stored_is_loaded_again() {
    let config = test_config(PathBuf::from("/s"));
    let mut disk = Disk::new();
    let request = parse("{\"input\":\"hi\",\"store\":true}");
    let response = parse("{\"id\":\"r\",\"output\":[{\"n\":-3}],\"big\":18446744073709551615}");
    store(&config, &mut disk, request.clone(), response.clone()).unwrap();
    let loaded = load(&config, &disk, "r").unwrap().unwrap();
    assert_eq!(loaded.to_value(), response.to_value());
    assert!(load(&config, &disk, "other").unwrap().is_none());
    let decimals = parse("{\"id\":\"d\",\"t\":[0.1,1e100,-2.5]}");
    store(&config, &mut disk, Json::Null, decimals.clone()).unwrap();
    assert_eq!(load(&config, &disk, "d").unwrap().unwrap().to_value(), decimals.to_value());
    let bytes = &disk[&PathBuf::from("/s/r.json")];
    assert_eq!(
        String::from_utf8(bytes.clone()).unwrap(),
        serde_json::to_string_pretty(&value(
            "{\"request\":{\"input\":\"hi\",\"store\":true},\"response\":{\"id\":\"r\",\"output\":[{\"n\":-3}],\"big\":18446744073709551615}}"
        ))
        .unwrap()
    );
}

#[test]
fn files_as_they_were_written_are_read() {
    let config = test_config(PathBuf::from("/s"));
    let write = store_response(&config, Json::unsigned(1), parse("{\"id\":\"r\"}")).unwrap();
    let stored = read_own_file(&write.bytes).unwrap();
    assert_eq!(stored.request.as_u64(), Some(1));
    assert_eq!(stored.response.get_str("id"), Some("r"));
    let mut longer = write.bytes.clone();
    longer.push(10);
    assert!(read_own_file(&longer).is_none());
    for text in [
        "{\"request\":1,\"response\":{\"id\":\"r\"}}",
        "{\n  \"request\": 0,\n  \"request\": 1,\n  \"response\": {\n    \"id\": \"r\"\n  }\n}",
        "{\n  \"more\": 1e999,\n  \"request\": 1,\n  \"response\": {\n    \"id\": \"r\"\n  }\n}",
        "[1, {\"id\":\"r\"}]",
        "{\n  \"request\": 1\n}",
        "not json",
    ] {
        assert!(read_own_file(text.as_bytes()).is_none());
    }
}

#[test]
fn files_that_were_changed_are_read_as_serde_reads_them() {
    let config = test_config(PathBuf::from("/s"));
    let bytes = b"{\"request\":1,\"more\":1e999,\"response\":2}".to_vec();
    let read = Some(StoredResponse { request: Json::unsigned(1), response: Json::unsigned(2) });
    let changed = FileRead::Bytes { bytes: bytes.clone(), read };
    let loaded = load_response(&config, "r", &changed).unwrap().unwrap();
    assert_eq!(loaded.as_u64(), Some(2));
    let refused = FileRead::Bytes { bytes, read: None };
    assert_eq!(
        load_response(&config, "r", &refused).err(),
        Some(StoreError::Unparsable(PathBuf::from("/s/r.json")))
    );
}

#[test]
fn responses_without_a_fit_id_are_not_stored() {
    let config = test_config(PathBuf::from("/s"));
    let none = store_response(&config, Json::Null, parse("{\"output\":[]}"));
    assert_eq!(none.err(), Some(StoreError::NoId));
    let number = store_response(&config, Json::Null, parse("{\"id\":7}"));
    assert_eq!(number.err(), Some(StoreError::NoId));
    let bad = store_response(&config, Json::Null, parse("{\"id\":\"a/b\"}"));
    assert_eq!(bad.err(), Some(StoreError::InvalidId));
}

#[test]
fn files_that_hold_no_response_are_reported() {
    let config = test_config(PathBuf::from("/s"));
    let path = PathBuf::from("/s/r.json");
    assert_eq!(
        load_response(&config, "r", &FileRead::Unreadable).err(),
        Some(StoreError::Unreadable(path.clone()))
    );
    assert!(load_response(&config, "r", &FileRead::Missing).unwrap().is_none());
    for text in ["not json", "{}", "{\"request\":1}", "[1]", "3"] {
        let file = FileRead::Bytes { bytes: text.as_bytes().to_vec(), read: None };
        assert_eq!(
            load_response(&config, "r", &file).err(),
            Some(StoreError::Unparsable(path.clone()))
        );
    }
    for file in [FileRead::Missing, FileRead::Unreadable] {
        assert_eq!(
            read_stored_response(&path, &file).err(),
            Some(StoreError::Unreadable(path.clone()))
        );
    }
}

#[test]
fn errors_say_what_is_wrong() {
    assert_eq!(StoreError::NoId.message(), "response has no string id");
    assert_eq!(StoreError::InvalidId.message(), "invalid response id");
    assert_eq!(
        StoreError::Cycle("a".to_string()).message(),
        "cycle in previous_response_id chain at a"
    );
    assert_eq!(StoreError::NotFound("a".to_string()).message(), "stored response not found: a");
    let path = PathBuf::from("/s/a.json");
    assert_eq!(StoreError::Unreadable(path.clone()).message(), "failed to read \"/s/a.json\"");
    assert_eq!(
        StoreError::Unparsable(path.clone()).message(),
        "failed to parse stored response \"/s/a.json\""
    );
    assert_eq!(StoreError::Undeletable(path).message(), "failed to delete \"/s/a.json\"");
}

#[test]
fn expired_responses_are_found() {
    let mut config = test_config(PathBuf::from("/s"));
    let file = |extension: Option<&str>, modified: Option<i128>| StoreFile {
        extension: extension.map(|e| e.to_string()),
        modified,
    };
    let second = 1_000_000_000;
    let files = vec![
        file(Some("json"), Some(40 * second - 1)),
        file(Some("json"), Some(40 * second)),
        file(Some("yml"), Some(1)),
        file(None, Some(1)),
        file(Some("json"), None),
        file(Some("json"), Some(-5)),
    ];
    assert!(prune_expired(&config, 100 * second, &files).is_empty());
    config.response_store_max_age_secs = 60;
    assert_eq!(prune_expired(&config, 100 * second, &files), vec![0, 5]);
    config.response_store_max_age_secs = u64::MAX;
    assert!(prune_expired(&config, 100 * second, &files).is_empty());
    assert_eq!(expiry_cutoff(100 * second, 60), Some(40 * second));
    assert_eq!(expiry_cutoff(i128::MIN, 0), Some(i128::MIN));
    assert_eq!(expiry_cutoff(i128::MIN, 1), None);
}

#[test]
fn done_entries_are_read_out_of_events() {
    let event = parse("{\"type\":\"response.output_item.done\",\"output_index\":4,\"item\":{\"a\":1}}");
    let (index, item) = output_item_done_entry(&event).unwrap();
    assert_eq!(index, 4);
    assert_eq!(item.get("a").unwrap().as_u64(), Some(1));
    let no_index = parse("{\"type\":\"response.output_item.done\",\"output_index\":-1,\"item\":2}");
    assert_eq!(output_item_done_entry(&no_index).unwrap().0, 0);
    assert!(output_item_done_entry(&parse("{\"type\":\"response.output_item.done\"}")).is_none());
    assert!(output_item_done_entry(&parse("{\"type\":\"x\",\"item\":1}")).is_none());
}

#[test]
fn output_is_filled_in_by_place() {
    let items = vec![
        (2, Json::text("c")),
        (0, Json::text("a")),
        (2, Json::text("d")),
        (1, Json::text("b")),
    ];
    let mut response = parse("{\"id\":\"r\",\"output\":[]}");
    fill_output_from_items(&mut response, &items);
    assert_eq!(response.to_value(), value("{\"id\":\"r\",\"output\":[\"a\",\"b\",\"c\",\"d\"]}"));
    fill_output_from_items(&mut response, &items);
    assert_eq!(response.to_value(), value("{\"id\":\"r\",\"output\":[\"a\",\"b\",\"c\",\"d\"]}"));

    let mut full = parse("{\"output\":[1]}");
    fill_output_from_items(&mut full, &items);
    assert_eq!(full.to_value(), value("{\"output\":[1]}"));
    let mut text = Json::text("x");
    fill_output_from_items(&mut text, &items);
    assert_eq!(text.to_value(), value("\"x\""));
    let mut bare = parse("{}");
    fill_output_from_items(&mut bare, &vec![]);
    assert_eq!(bare.to_value(), value("{}"));
}

#[test]
fn streams_without_completion_bring_no_response() {
    assert!(response_from_sse_bytes(b"").is_none());
    assert!(response_from_sse_bytes(b"data: [DONE]\n").is_none());
    assert!(response_from_sse_bytes(b"data: {\"type\":\"response.completed\"}\n").is_none());
    assert!(response_from_sse_bytes(b"data: {bad\r\n\r\n").is_none());
    assert!(response_from_sse_bytes(&[0xff, 0xfe]).is_none());
    let two = b"data: {\"type\":\"response.completed\",\"response\":1}\r\ndata: {\"type\":\"response.completed\",\"response\":2}";
    assert_eq!(response_from_sse_bytes(two).unwrap().as_u64(), Some(2));
}

#[test]
fn histories_are_walked_to_their_start() {
    let config = test_config(PathBuf::from("/s"));
    let mut disk = Disk::new();
    for (id, previous) in [("a", ""), ("b", "a"), ("c", "b")] {
        let request = Json::object()
            .with("input", Json::text(id))
            .with("previous_response_id", Json::text(previous));
        let response = Json::object().with("id", Json::text(id));
        store(&config, &mut disk, request, response).unwrap();
    }
    let ids: Vec<String> = chain(&config, &disk, "c")
        .unwrap()
        .iter()
        .map(|s| s.response.get_str("id").unwrap().to_string())
        .collect();
    assert_eq!(ids, vec!["a", "b", "c"]);
    assert_eq!(chain(&config, &disk, "a").unwrap().len(), 1);
}

#[test]
fn broken_histories_are_reported() {
    let config = test_config(PathBuf::from("/s"));
    let mut disk = Disk::new();
    for (id, previous) in [("a", "b"), ("b", "a"), ("c", "gone"), ("d", "no/good")] {
        let request = Json::object().with("previous_response_id", Json::text(previous));
        let response = Json::object().with("id", Json::text(id));
        store(&config, &mut disk, request, response).unwrap();
    }
    assert_eq!(chain(&config, &disk, "a").err(), Some(StoreError::Cycle("a".to_string())));
    assert_eq!(chain(&config, &disk, "c").err(), Some(StoreError::NotFound("gone".to_string())));
    assert_eq!(chain(&config, &disk, "d").err(), Some(StoreError::InvalidId));
    assert_eq!(chain(&config, &disk, "x y").err(), Some(StoreError::InvalidId));
    let file = FileRead::Bytes { bytes: vec![1], read: None };
    let garbled = ChainWalk::start("a".to_string()).advance(&config, &file);
    match garbled {
        ChainStep::Failed(e) => assert_eq!(e, StoreError::Unparsable(PathBuf::from("/s/a.json"))),
        other => panic!("{:?}", other),
    }
    let unread = ChainWalk::start("a".to_string()).advance(&config, &FileRead::Unreadable);
    match unread {
        ChainStep::Failed(e) => assert_eq!(e, StoreError::Unreadable(PathBuf::from("/s/a.json"))),
        other => panic!("{:?}", other),
    }
    let invalid = ChainWalk::start("a/".to_string()).advance(&config, &FileRead::Missing);
    match invalid {
        ChainStep::Failed(e) => assert_eq!(e, StoreError::InvalidId),
        other => panic!("{:?}", other),
    }
}

#[test]
fn reasoning_is_left_out_of_what_is_sent() {
    let payload = parse(
        "{\"input\":[{\"type\":\"reasoning\"},{\"type\":\"message\"},3],\"previous_response_id\":\"  \",\"model\":\"m\"}",
    );
    let (upstream, should_store) = prepare_responses_payload(&payload, &vec![]);
    assert!(!should_store);
    assert_eq!(
        upstream.to_value(),
        value("{\"input\":[{\"type\":\"message\"},3],\"previous_response_id\":\"  \",\"model\":\"m\",\"store\":false}")
    );
}

#[test]
fn every_form_of_input_joins_the_history() {
    let stored = |input: &str| StoredResponse {
        request: parse(input),
        response: parse("{\"output\":[{\"type\":\"reasoning\"},{\"said\":1}]}"),
    };
    let chain = vec![
        stored("{\"input\":\"text\"}"),
        stored("{\"input\":{\"k\":1}}"),
        stored("{\"input\":null}"),
        stored("{}"),
        stored("{\"input\":[4,5]}"),
        StoredResponse { request: parse("{\"input\":true}"), response: Json::Null },
    ];
    let payload = parse("{\"previous_response_id\":\"r\",\"input\":12}");
    let (upstream, _) = prepare_responses_payload(&payload, &chain);
    assert_eq!(
        upstream.to_value(),
        value(
            "{\"store\":false,\"input\":[{\"role\":\"user\",\"content\":\"text\"},{\"said\":1},{\"k\":1},{\"said\":1},{\"said\":1},{\"said\":1},4,5,{\"said\":1},{\"role\":\"user\",\"content\":\"true\"},{\"role\":\"user\",\"content\":\"12\"}]}"
        )
    );
}

#[test]
fn null_is_prepared_as_an_object() {
    let (upstream, should_store) = prepare_responses_payload(&Json::Null, &vec![]);
    assert!(!should_store);
    assert_eq!(upstream.to_value(), value("{\"store\":false}"));
}
