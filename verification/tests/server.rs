use axum::http::{HeaderMap, HeaderValue};
use codex_proxy::auth::{
    auth_file_path, check_authentication, get_access_token, get_account_id, is_in_home, login_dir, next_login,
    refresh_outcome, resolve_openai_api_key, AuthError, AuthFile, AuthMode, AuthState, LoginPlace,
    LoginStep, Refreshed, StoredKey, TokenData,
};
use codex_proxy::chat_request::refuse_model;
use codex_proxy::passthrough::{
    api_key_header, needs_api_key, pass_headers, passed_status, unbuildable_reply,
    unreachable_reply, unsupported_method_reply, upstream_url, Side,
};
use codex_proxy::server::{
    health_body, lsof_processes, models_body, netstat_processes, read_menu_choice, shows_port,
    starts_directly, MenuChoice,
};
use codex_proxy::upstream::{
    fresh_request_headers, request_headers, send_failure_text, SendStage,
};
use std::path::PathBuf;

fn value(text: &str) -> serde_json::Value {
    serde_json::from_str(text).unwrap()
}

fn pairs(list: &[(&str, &str)]) -> Vec<(String, String)> {
    list.iter().map(|(a, b)| (a.to_string(), b.to_string())).collect()
}

#[test]
fn listed_models() {
    let body = models_body(17).to_value();
    assert_eq!(body["object"], value("\"list\""));
    let ids: Vec<&str> =
        body["data"].as_array().unwrap().iter().map(|m| m["id"].as_str().unwrap()).collect();
    assert_eq!(
        ids,
        vec![
            "gpt-5.5",
            "gpt-5.4",
            "gpt-5.4-mini",
            "gpt-5.3-codex-spark",
            "gpt-5",
            "gpt-5-mini",
            "gpt-5-nano"
        ]
    );
    assert_eq!(
        body["data"][3],
        value("{\"id\":\"gpt-5.3-codex-spark\",\"object\":\"model\",\"created\":17,\"owned_by\":\"chatgpt\"}")
    );
    for id in ids {
        assert!(refuse_model(id).is_none());
    }
}

#[test]
fn health() {
    assert_eq!(
        health_body("2026-01-01T00:00:00+00:00", "1.2.3").to_value(),
        value("{\"status\":\"healthy\",\"timestamp\":\"2026-01-01T00:00:00+00:00\",\"service\":\"codex-proxy-server\",\"version\":\"1.2.3\"}")
    );
}

#[test]
fn menu() {
    assert_eq!(read_menu_choice("1\n"), MenuChoice::RunServer);
    assert_eq!(read_menu_choice(" 2 \r\n"), MenuChoice::CloseServers);
    assert_eq!(read_menu_choice("3"), MenuChoice::Login);
    assert_eq!(read_menu_choice("4"), MenuChoice::RefreshToken);
    assert_eq!(read_menu_choice("5"), MenuChoice::Exit);
    assert_eq!(read_menu_choice("6"), MenuChoice::ListServers);
    assert_eq!(read_menu_choice("7"), MenuChoice::Invalid);
    assert_eq!(read_menu_choice(""), MenuChoice::Invalid);
    assert_eq!(read_menu_choice("11"), MenuChoice::Invalid);
}

#[test]
fn arguments() {
    assert!(starts_directly(&vec!["proxy".to_string(), "--server".to_string()]));
    assert!(!starts_directly(&vec!["proxy".to_string(), "--servers".to_string()]));
    assert!(!starts_directly(&vec![]));
}

#[test]
fn processes_and_ports() {
    assert_eq!(lsof_processes("12\n 34 \nx\n+5\n\n4294967295\n4294967296"), vec![12, 34, 5, 4294967295]);
    let netstat = "  TCP  127.0.0.1:5011  0.0.0.0:0  LISTENING  77\n  TCP  127.0.0.1:5012  0.0.0.0:0  LISTENING  78\n  TCP :5011 abc\n:5011 9  \n";
    assert_eq!(netstat_processes(netstat, 5011), vec![77, 9]);
    assert_eq!(netstat_processes(netstat, 5012), vec![78]);
    assert!(shows_port("x:5011 y", 5011));
    assert!(shows_port("x:50110", 5011));
    assert!(!shows_port("x:501", 5011));
    assert!(!shows_port("", 5011));
}

fn token(token: &str, account: Option<&str>) -> TokenData {
    TokenData { access_token: token.to_string(), account_id: account.map(|a| a.to_string()) }
}

#[test]
fn authentication_is_checked() {
    let state = |mode, token| Some(AuthState { mode, token });
    let fine = state(AuthMode::ChatGpt, Some(token("t", Some("a"))));
    assert_eq!(check_authentication(&AuthFile::Readable, &fine), Ok(()));
    assert_eq!(check_authentication(&AuthFile::Absent, &fine), Ok(()));
    assert_eq!(
        check_authentication(&AuthFile::Unreadable("why".to_string()), &fine),
        Err(AuthError::FileUnreadable("why".to_string()))
    );
    assert_eq!(check_authentication(&AuthFile::Readable, &state(AuthMode::ApiKey, None)), Ok(()));
    for bad in [
        None,
        state(AuthMode::ChatGpt, None),
        state(AuthMode::ChatGpt, Some(token("", Some("a")))),
        state(AuthMode::ApiKey, Some(token("t", None))),
    ] {
        assert_eq!(check_authentication(&AuthFile::Readable, &bad), Err(AuthError::LoginNeeded));
    }
}

#[test]
fn tokens_are_refreshed() {
    let state = |mode, token| Some(AuthState { mode, token });
    assert_eq!(
        refresh_outcome(&state(AuthMode::ChatGpt, Some(token("t", Some("a"))))),
        Ok(Refreshed::Token(Some("a".to_string())))
    );
    assert_eq!(
        refresh_outcome(&state(AuthMode::ChatGpt, Some(token("", None)))),
        Ok(Refreshed::Token(None))
    );
    assert_eq!(refresh_outcome(&state(AuthMode::ApiKey, None)), Ok(Refreshed::ApiKey));
    assert_eq!(refresh_outcome(&state(AuthMode::ChatGpt, None)), Err(AuthError::LoginNeeded));
    assert_eq!(refresh_outcome(&None), Err(AuthError::LoginNeeded));
}

#[test]
fn tokens_and_accounts_are_read() {
    let both = Some(token("t", Some("a")));
    assert_eq!(get_access_token(&both), Ok("t".to_string()));
    assert_eq!(get_account_id(&both), Ok("a".to_string()));
    assert_eq!(get_access_token(&None), Err(AuthError::NotFound));
    assert_eq!(get_account_id(&None), Err(AuthError::NotFound));
    assert_eq!(get_account_id(&Some(token("t", None))), Err(AuthError::NoAccountId));
}

#[test]
fn authentication_errors_say_what_is_wrong() {
    assert_eq!(
        AuthError::FileUnreadable("denied".to_string()).message(),
        "Failed to read auth file: denied"
    );
    assert_eq!(AuthError::NotFound.message(), "No authentication found");
    assert_eq!(AuthError::NoAccountId.message(), "No account ID found");
    assert_eq!(
        AuthError::LoginNeeded.message(),
        "No authentication found. Please use the 'Login' option in the CLI menu. This enables Opencode and other integrations."
    );
}

#[test]
fn api_keys_are_resolved() {
    let key = |mode, token: Option<&str>| {
        Some(StoredKey { mode, token: token.map(|t| t.to_string()) })
    };
    let env = Some("env".to_string());
    let stored = key(AuthMode::ApiKey, Some("kept"));
    assert_eq!(resolve_openai_api_key(&env, &stored).unwrap(), "env");
    assert_eq!(resolve_openai_api_key(&Some(String::new()), &stored).unwrap(), "kept");
    assert_eq!(resolve_openai_api_key(&None, &stored).unwrap(), "kept");
    for none in [
        None,
        key(AuthMode::ChatGpt, Some("kept")),
        key(AuthMode::ApiKey, None),
        key(AuthMode::ApiKey, Some("")),
    ] {
        let reply = resolve_openai_api_key(&None, &none).unwrap_err();
        assert_eq!(reply.status, 401);
        assert_eq!(
            reply.body.to_value(),
            value("{\"error\":{\"message\":\"This OpenAI API endpoint requires an API key. Provide an Authorization header or set OPENAI_API_KEY.\",\"type\":\"authentication_error\",\"code\":\"missing_api_key\"}}")
        );
    }
}

#[test]
fn login_goes_from_place_to_place() {
    assert_eq!(next_login(LoginPlace::Codex, true), LoginStep::Done(LoginPlace::Codex));
    assert_eq!(next_login(LoginPlace::Codex, false), LoginStep::Try(LoginPlace::Opencode));
    assert_eq!(next_login(LoginPlace::Opencode, false), LoginStep::Try(LoginPlace::Local));
    assert_eq!(next_login(LoginPlace::Local, true), LoginStep::Done(LoginPlace::Local));
    assert_eq!(next_login(LoginPlace::Local, false), LoginStep::Failed);
    let home = PathBuf::from("/home/u");
    assert!(is_in_home(LoginPlace::Codex) && is_in_home(LoginPlace::Opencode));
    assert!(!is_in_home(LoginPlace::Local));
    assert_eq!(login_dir(&home, LoginPlace::Codex), PathBuf::from("/home/u/.codex"));
    assert_eq!(login_dir(&home, LoginPlace::Opencode), PathBuf::from("/home/u/.opencode"));
    assert_eq!(
        login_dir(&PathBuf::from("/work"), LoginPlace::Local),
        PathBuf::from("/work/local_auth")
    );
    assert_eq!(auth_file_path(&home), PathBuf::from("/home/u/auth.json"));
}

#[test]
fn passthrough_urls() {
    assert_eq!(upstream_url("files", None), "https://api.openai.com/v1/files");
    assert_eq!(upstream_url("files/a", Some("b=c")), "https://api.openai.com/v1/files/a?b=c");
    assert_eq!(upstream_url("", Some("")), "https://api.openai.com/v1/?");
}

#[test]
fn headers_are_passed_on() {
    let mut headers = HeaderMap::new();
    headers.insert("host", HeaderValue::from_static("h"));
    headers.insert("content-length", HeaderValue::from_static("3"));
    headers.insert("connection", HeaderValue::from_static("close"));
    headers.insert("transfer-encoding", HeaderValue::from_static("chunked"));
    headers.insert("x-one", HeaderValue::from_static("1"));
    headers.append("x-one", HeaderValue::from_static("2"));
    headers.insert("x-odd", HeaderValue::from_bytes(&[0xff]).unwrap());
    let mut request = pass_headers(Side::Request, &headers);
    request.sort();
    assert_eq!(request, pairs(&[("transfer-encoding", "chunked"), ("x-one", "1"), ("x-one", "2")]));
    let mut reply = pass_headers(Side::Reply, &headers);
    reply.sort();
    assert_eq!(reply, pairs(&[("host", "h"), ("x-one", "1"), ("x-one", "2")]));
    assert!(needs_api_key(&headers));
    headers.insert("Authorization", HeaderValue::from_static("Bearer x"));
    assert!(!needs_api_key(&headers));
    assert_eq!(api_key_header("k"), ("Authorization".to_string(), "Bearer k".to_string()));
}

#[test]
fn passthrough_failures_are_answered() {
    assert_eq!(passed_status(418, 502), 418);
    assert_eq!(passed_status(99, 502), 502);
    assert_eq!(passed_status(1000, 502), 502);
    let method = unsupported_method_reply("bad");
    assert_eq!(method.status, 405);
    assert_eq!(
        method.body.to_value(),
        value("{\"error\":{\"message\":\"Unsupported HTTP method: bad\",\"type\":\"invalid_request_error\",\"code\":\"unsupported_method\"}}")
    );
    let lost = unreachable_reply("down");
    assert_eq!(lost.status, 502);
    assert_eq!(
        lost.body.to_value(),
        value("{\"error\":{\"message\":\"Failed to reach OpenAI API: down\",\"type\":\"server_error\",\"code\":\"upstream_error\"}}")
    );
    let unbuilt = unbuildable_reply("odd");
    assert_eq!(unbuilt.status, 502);
    assert_eq!(
        unbuilt.body.to_value(),
        value("{\"error\":{\"message\":\"Failed to build proxied response: odd\",\"type\":\"server_error\",\"code\":\"response_build_error\"}}")
    );
}

#[test]
fn upstream_requests_bring_their_headers() {
    assert_eq!(
        request_headers("tok", "acc", "ses"),
        pairs(&[
            ("Authorization", "Bearer tok"),
            ("chatgpt-account-id", "acc"),
            ("Content-Type", "application/json"),
            ("Accept", "text/event-stream"),
            ("OpenAI-Beta", "responses=experimental"),
            ("session_id", "ses"),
            ("originator", "codex_cli_rs"),
        ])
    );
    let a = fresh_request_headers("t", "a");
    let b = fresh_request_headers("t", "a");
    assert_eq!(a[5].0, "session_id");
    assert_eq!(a[5].1.len(), 36);
    assert_ne!(a[5].1, b[5].1);
    assert_eq!(
        send_failure_text(SendStage::AccessToken, "e"),
        "Access token retrieval failed: e"
    );
    assert_eq!(send_failure_text(SendStage::AccountId, "e"), "Account ID retrieval failed: e");
    assert_eq!(send_failure_text(SendStage::Request, "e"), "Request failed: e");
}
