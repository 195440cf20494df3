use axum::http::{HeaderMap, HeaderValue};
use codex_proxy::headers::HeaderField;
use codex_proxy::log_rotation::{app_log_file, request_log_file, FoundEntry, LogFile, PrunePlan};
use codex_proxy::order::sort_positions;
use codex_proxy::request_logger::{
    body_to_value, headers_to_map, is_sensitive, log_day_dir, log_file_path, other_log_file_path,
    record_headers, LocalTime,
};
use std::path::PathBuf;

fn field(name: &str, value: Option<&str>) -> HeaderField {
    HeaderField { name: name.to_string(), value: value.map(|v| v.to_string()) }
}

fn lookup<'a>(pairs: &'a Vec<(String, String)>, name: &str) -> Option<&'a str> {
    let found: Vec<&'a str> =
        pairs.iter().filter(|(n, _)| n == name).map(|(_, v)| v.as_str()).collect();
    assert!(found.len() <= 1);
    found.first().copied()
}

#[test]
fn headers_are_logged_without_secrets() {
    let mut headers = HeaderMap::new();
    headers.insert("content-type", HeaderValue::from_static("application/json"));
    headers.insert("authorization", HeaderValue::from_static("Bearer abc"));
    headers.append("accept", HeaderValue::from_static("a"));
    headers.append("accept", HeaderValue::from_static("b"));
    headers.insert("x-odd", HeaderValue::from_bytes(&[0xe9]).unwrap());
    let logged = headers_to_map(&headers);
    assert_eq!(logged.len(), 4);
    assert_eq!(lookup(&logged, "content-type"), Some("application/json"));
    assert_eq!(lookup(&logged, "authorization"), Some("***REDACTED***"));
    assert_eq!(lookup(&logged, "accept"), Some("a, b"));
    assert_eq!(lookup(&logged, "x-odd"), Some("<non-utf8>"));
}

#[test]
fn secrets_make_no_difference_to_what_is_logged() {
    let with = |secret: Option<&str>| {
        record_headers(&vec![
            field("Set-Cookie", secret),
            field("Host", Some("h")),
            field("Set-Cookie", Some("more")),
        ])
    };
    assert_eq!(with(Some("one")), with(Some("two")));
    assert_eq!(with(Some("one")), with(None));
    assert_eq!(lookup(&with(None), "Set-Cookie"), Some("***REDACTED***, ***REDACTED***"));
}

#[test]
fn sensitive_headers_are_known_in_any_case() {
    for name in [
        "authorization",
        "COOKIE",
        "Set-Cookie",
        "x-api-key",
        "Api-Key",
        "openai-api-key",
        "proxy-authorization",
    ] {
        assert!(is_sensitive(name));
    }
    assert!(!is_sensitive("authorization2"));
    assert!(!is_sensitive("host"));
}

#[test]
fn bodies_are_logged_by_what_they_hold() {
    assert_eq!(body_to_value(b""), serde_yaml::Value::Null);
    let json = body_to_value(b"{\"a\":[1,\"!x\",null],\"!t\":true}");
    assert_eq!(json["a"][0].as_u64(), Some(1));
    assert_eq!(json["a"][1].as_str(), Some("!x"));
    assert!(json["a"][2].is_null());
    assert_eq!(json["!t"].as_bool(), Some(true));
    let single = body_to_value(b"{\"!t\":1}");
    assert_eq!(single["!t"].as_u64(), Some(1));
    assert_eq!(body_to_value(b"plain text").as_str(), Some("plain text"));
    assert_eq!(body_to_value(&[0xff, 0xfe, 0x00]).as_str(), Some("<3 bytes of binary data>"));
}

fn noon() -> LocalTime {
    LocalTime { year: 2026, month: 3, day: 9, hour: 12, minute: 4, second: 5, nano: 67_899_999 }
}

#[test]
fn logs_are_named_after_their_time() {
    let base = PathBuf::from("/logs");
    let day = log_day_dir(&base, noon()).unwrap();
    assert_eq!(day, PathBuf::from("/logs/2026-03-09"));
    assert_eq!(
        log_file_path(&day, noon(), None).unwrap(),
        PathBuf::from("/logs/2026-03-09/120405-067.yml")
    );
    assert_eq!(
        log_file_path(&day, noon(), Some("01234567-89ab-4cde-8f01-23456789abcd")).unwrap(),
        PathBuf::from("/logs/2026-03-09/120405-067-01234567.yml")
    );
    let other = other_log_file_path(&day, noon()).unwrap();
    let name = other.file_name().unwrap().to_str().unwrap().to_string();
    assert!(name.starts_with("120405-067-") && name.ends_with(".yml"));
    assert_eq!(name.len(), "120405-067-01234567.yml".len());
}

#[test]
fn times_that_are_none_give_no_log() {
    let base = PathBuf::from("/logs");
    let mut when = noon();
    when.month = 2;
    when.day = 29;
    assert!(log_day_dir(&base, when).is_none());
    when.year = 2028;
    assert_eq!(log_day_dir(&base, when).unwrap(), PathBuf::from("/logs/2028-02-29"));
    when.year = 12028;
    assert_eq!(log_day_dir(&base, when).unwrap(), PathBuf::from("/logs/+12028-02-29"));
    when.year = -4;
    assert_eq!(log_day_dir(&base, when).unwrap(), PathBuf::from("/logs/-0004-02-29"));
    when.year = 262142;
    when.day = 28;
    assert!(log_day_dir(&base, when).is_some());
    when.year = 262143;
    assert!(log_day_dir(&base, when).is_none());
    when.year = -262143;
    assert!(log_day_dir(&base, when).is_some());
    when.year = -262144;
    assert!(log_day_dir(&base, when).is_none());
    when.second = 59;
    when.nano = 1_250_000_000;
    assert_eq!(
        log_file_path(&base, when, None).unwrap(),
        PathBuf::from("/logs/120460-250.yml")
    );
    when.second = 58;
    assert!(log_file_path(&base, when, None).is_none());
    assert!(other_log_file_path(&base, when).is_none());
    when.nano = 0;
    when.hour = 24;
    assert!(log_file_path(&base, when, None).is_none());
}

fn entry(name: &str, extension: &str, is_dir: bool) -> FoundEntry {
    FoundEntry {
        name: Some(name.to_string()),
        extension: Some(extension.to_string()),
        is_dir,
        is_file: !is_dir,
        size: 10,
        modified: Some(3),
    }
}

#[test]
fn log_files_are_told_apart() {
    let expected = Some(LogFile { size: 10, modified: 3 });
    assert_eq!(request_log_file(&entry("a.yml", "yml", false)), expected);
    assert_eq!(request_log_file(&entry("a.yml", "yml", true)), None);
    assert_eq!(request_log_file(&entry("a.txt", "txt", false)), None);
    assert_eq!(app_log_file(&entry("codex-proxy.log.2026-01-01", "2026-01-01", false)), expected);
    assert_eq!(app_log_file(&entry("other.log", "log", false)), None);
    assert_eq!(app_log_file(&entry("codex-proxy.log", "log", true)), None);
    let mut unknown = entry("codex-proxy.log", "log", false);
    unknown.modified = None;
    assert_eq!(app_log_file(&unknown), Some(LogFile { size: 10, modified: 0 }));
    unknown.name = None;
    unknown.extension = None;
    assert_eq!(app_log_file(&unknown), None);
    assert_eq!(request_log_file(&unknown), None);
}

fn files() -> Vec<LogFile> {
    vec![
        LogFile { size: 30, modified: 5 },
        LogFile { size: 10, modified: 1 },
        LogFile { size: 20, modified: 5 },
        LogFile { size: 40, modified: 9 },
    ]
}

fn prune(cap: u64, spare: bool, fails: &[usize]) -> (Vec<usize>, usize) {
    let mut plan = PrunePlan::new(&files(), cap, spare);
    let mut tried = Vec::new();
    while let Some(k) = plan.victim() {
        tried.push(k);
        plan.report(!fails.contains(&k));
    }
    (tried, plan.removed())
}

#[test]
fn the_oldest_logs_go_until_the_cap_is_met() {
    assert_eq!(prune(100, false, &[]), (vec![], 0));
    assert_eq!(prune(0, false, &[]), (vec![], 0));
    assert_eq!(prune(99, false, &[]), (vec![1], 1));
    assert_eq!(prune(60, false, &[]), (vec![1, 0], 2));
    assert_eq!(prune(1, false, &[]), (vec![1, 0, 2, 3], 4));
    assert_eq!(prune(60, false, &[1]), (vec![1, 0, 2], 2));
}

#[test]
fn the_newest_log_is_spared() {
    assert_eq!(prune(1, true, &[]), (vec![1, 0, 2], 3));
    assert_eq!(prune(1, true, &[0, 1, 2, 3]), (vec![1, 0, 2], 0));
    assert_eq!(prune(40, true, &[]), (vec![1, 0, 2], 3));
    let mut none = PrunePlan::new(&vec![], 1, true);
    assert_eq!(none.victim(), None);
    none = PrunePlan::new(&vec![LogFile { size: u64::MAX, modified: -1 }], 1, true);
    assert_eq!(none.victim(), None);
}

#[test]
fn sizes_beyond_the_largest_number_add_up() {
    let huge = vec![LogFile { size: u64::MAX, modified: 2 }, LogFile { size: u64::MAX, modified: 1 }];
    let mut plan = PrunePlan::new(&huge, u64::MAX, false);
    assert_eq!(plan.victim(), Some(1));
    plan.report(true);
    assert_eq!(plan.victim(), None);
}

#[test]
fn equal_keys_stay_as_they_came() {
    assert_eq!(sort_positions(&vec![]), Vec::<usize>::new());
    assert_eq!(sort_positions(&vec![3, 1, 2, 1, 3]), vec![1, 3, 2, 0, 4]);
    let keys: Vec<i128> = (0..1000).map(|i| (i * 7919 % 101) as i128).collect();
    let mut expected: Vec<usize> = (0..1000).collect();
    expected.sort_by_key(|&i| keys[i]);
    assert_eq!(sort_positions(&keys), expected);
    assert_eq!(sort_positions(&vec![i128::MAX, i128::MIN, 0]), vec![1, 2, 0]);
}
