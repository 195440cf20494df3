use codex_proxy::config::{
    default_log_base_dir, default_request_log_dir, default_response_store_dir, env_days_to_secs,
    env_mb_to_bytes, find_codex_home, find_instructions_home, Config, ConfigError, HomeFindings, Surroundings,
};
use std::path::PathBuf;

fn some(s: &str) -> Option<String> {
    Some(s.to_string())
}

fn path(s: &str) -> PathBuf {
    PathBuf::from(s)
}

fn around() -> Surroundings {
    Surroundings {
        home: Some(path("/home/u")),
        current: Some(path("/work")),
        codex_home: path("/home/u/.codex"),
        local_auth: false,
        current_auth: false,
        request_log_dir: None,
        store_dir: None,
        store_max_age_days: None,
        request_log_max_mb: None,
        app_log_max_mb: None,
        agents: None,
    }
}

#[test]
fn sizes_and_ages_are_read() {
    assert_eq!(env_mb_to_bytes(&None, 500), 524_288_000);
    assert_eq!(env_mb_to_bytes(&some(" 2 "), 500), 2_097_152);
    assert_eq!(env_mb_to_bytes(&some("0"), 500), 0);
    assert_eq!(env_mb_to_bytes(&some("+3"), 500), 3_145_728);
    assert_eq!(env_mb_to_bytes(&some("-1"), 1), 1_048_576);
    assert_eq!(env_mb_to_bytes(&some("x"), 1), 1_048_576);
    assert_eq!(env_mb_to_bytes(&some(""), 1), 1_048_576);
    assert_eq!(env_mb_to_bytes(&some("18446744073709551615"), 1), u64::MAX);
    assert_eq!(env_mb_to_bytes(&some("18446744073709551616"), 1), 1_048_576);
    assert_eq!(env_days_to_secs(&None, 30), 2_592_000);
    assert_eq!(env_days_to_secs(&some("1"), 30), 86_400);
    assert_eq!(env_days_to_secs(&some("213503982334602"), 30), u64::MAX);
}

#[test]
fn directories_have_defaults() {
    let home = Some(path("/home/u"));
    let current = Some(path("/work"));
    assert_eq!(default_log_base_dir(&home, &current), path("/home/u/.codex-proxy/logs"));
    assert_eq!(default_log_base_dir(&None, &current), path("/work/.codex-proxy/logs"));
    assert_eq!(default_log_base_dir(&None, &None), path("./.codex-proxy/logs"));
    assert_eq!(default_request_log_dir(&some(" /a b "), &home, &current), path("/a b"));
    assert_eq!(
        default_request_log_dir(&some("  "), &home, &current),
        path("/home/u/.codex-proxy/logs")
    );
    assert_eq!(
        default_response_store_dir(&None, &home, &current),
        path("/home/u/.codex-proxy/store")
    );
    assert_eq!(default_response_store_dir(&some("s"), &home, &current), path("s"));
}

#[test]
fn credentials_are_looked_for_in_order() {
    let home = Some(path("/home/u"));
    let current = Some(path("/work"));
    let found = |codex_auth, opencode_auth, codex_dir, opencode_dir| HomeFindings {
        codex_auth,
        opencode_auth,
        codex_dir,
        opencode_dir,
    };
    let codex = path("/home/u/.codex");
    let opencode = path("/home/u/.opencode");
    assert_eq!(find_codex_home(&home, found(true, true, true, true), &current), codex);
    assert_eq!(find_codex_home(&home, found(false, true, true, true), &current), opencode);
    assert_eq!(find_codex_home(&home, found(false, false, true, true), &current), codex);
    assert_eq!(find_codex_home(&home, found(false, false, false, true), &current), opencode);
    assert_eq!(find_codex_home(&home, found(false, false, false, false), &current), path("/work"));
    assert_eq!(find_codex_home(&None, found(true, true, true, true), &current), path("/work"));
    assert_eq!(find_codex_home(&None, found(true, true, true, true), &None), path("."));
}

#[test]
fn instructions_do_not_follow_the_credentials() {
    let home = Some(path("/home/u"));
    let current = Some(path("/work"));
    let found = |codex_dir, opencode_dir| HomeFindings {
        codex_auth: false,
        opencode_auth: true,
        codex_dir,
        opencode_dir,
    };
    let codex = path("/home/u/.codex");
    let opencode = path("/home/u/.opencode");
    assert_eq!(find_codex_home(&home, found(true, true), &current), opencode);
    assert_eq!(find_instructions_home(&home, found(true, true), &current), codex);
    assert_eq!(find_instructions_home(&home, found(false, true), &current), opencode);
    assert_eq!(find_instructions_home(&home, found(false, false), &current), path("/work"));
    assert_eq!(find_instructions_home(&None, found(true, true), &current), path("/work"));
    assert_eq!(find_instructions_home(&None, found(true, true), &None), path("."));
}

#[test]
fn configurations_are_loaded() {
    let config = Config::load(around()).unwrap();
    assert_eq!(
        config,
        Config {
            codex_home: path("/home/u/.codex"),
            chatgpt_base_url: "https://chatgpt.com/backend-api/codex".to_string(),
            model: "gpt-5".to_string(),
            user_instructions: None,
            request_log_dir: path("/home/u/.codex-proxy/logs"),
            response_store_dir: path("/home/u/.codex-proxy/store"),
            response_store_max_age_secs: 2_592_000,
            request_log_max_bytes: 524_288_000,
            app_log_max_bytes: 104_857_600,
        }
    );
}

#[test]
fn surroundings_are_heeded() {
    let mut here = around();
    here.local_auth = true;
    here.current_auth = true;
    here.agents = some("\n be kind \n");
    here.store_max_age_days = some("0");
    let config = Config::load(here).unwrap();
    assert_eq!(config.codex_home, path("/work/local_auth"));
    assert_eq!(config.user_instructions, some("be kind"));
    assert_eq!(config.response_store_max_age_secs, 0);
    let mut legacy = around();
    legacy.current_auth = true;
    legacy.agents = some(" \n");
    let config = Config::load(legacy).unwrap();
    assert_eq!(config.codex_home, path("/work"));
    assert_eq!(config.user_instructions, None);
    let mut nowhere = around();
    nowhere.current = None;
    assert_eq!(Config::load(nowhere).unwrap_err(), ConfigError::NoCurrentDir);
}
