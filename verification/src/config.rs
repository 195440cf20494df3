//! What the proxy is told by its surroundings.
use crate::json;
use crate::paths;
use crate::text;
use std::path::PathBuf;
use vstd::prelude::*;

verus! {

/// The proxy's configuration.
#[derive(Debug, Clone, PartialEq)]
pub struct Config {
    pub codex_home: PathBuf,
    pub chatgpt_base_url: String,
    pub model: String,
    pub user_instructions: Option<String>,
    pub request_log_dir: PathBuf,
    pub response_store_dir: PathBuf,
    pub response_store_max_age_secs: u64,
    pub request_log_max_bytes: u64,
    pub app_log_max_bytes: u64,
}

/// What is found in the home directory.
#[derive(Debug, Clone, Copy)]
pub struct HomeFindings {
    /// `~/.codex/auth.json` is there.
    pub codex_auth: bool,
    /// `~/.opencode/auth.json` is there.
    pub opencode_auth: bool,
    /// `~/.codex` is there.
    pub codex_dir: bool,
    /// `~/.opencode` is there.
    pub opencode_dir: bool,
}

/// What the proxy finds around it when it starts.
#[derive(Debug)]
pub struct Surroundings {
    /// The user's home directory.
    pub home: Option<PathBuf>,
    /// The directory that the proxy was started in.
    pub current: Option<PathBuf>,
    /// Where credentials are looked for last.
    pub codex_home: PathBuf,
    /// `./local_auth/auth.json` is there.
    pub local_auth: bool,
    /// `./auth.json` is there.
    pub current_auth: bool,
    /// `CODEX_PROXY_REQUEST_LOG_DIR`.
    pub request_log_dir: Option<String>,
    /// `CODEX_PROXY_STORE_DIR`.
    pub store_dir: Option<String>,
    /// `CODEX_PROXY_STORE_MAX_AGE_DAYS`.
    pub store_max_age_days: Option<String>,
    /// `CODEX_PROXY_REQUEST_LOG_MAX_MB`.
    pub request_log_max_mb: Option<String>,
    /// `CODEX_PROXY_APP_LOG_MAX_MB`.
    pub app_log_max_mb: Option<String>,
    /// The text of `AGENTS.md` in the directory that instructions are taken from.
    pub agents: Option<String>,
}

/// Why there is no configuration.
#[derive(Debug, Clone, Copy, PartialEq, Eq, Structural)]
pub enum ConfigError {
    /// The current directory is not known.
    NoCurrentDir,
}

/// The product of two numbers, or the largest number below it.
pub open spec fn saturated_product(a: int, b: int) -> u64 {
    if a * b <= u64::MAX {
        (a * b) as u64
    } else {
        u64::MAX
    }
}

/// A setting in some unit, or its default, as a number of a smaller unit.
pub open spec fn scaled_setting(value: Option<Seq<char>>, default: u64, scale: u64) -> u64 {
    let n = match value {
        Some(s) => match text::parsed_number(text::trimmed(s), u64::MAX) {
            Some(n) => n,
            None => default,
        },
        None => default,
    };
    saturated_product(n as int, scale as int)
}

fn scale_setting(value: &Option<String>, default: u64, scale: u64) -> (r: u64)
    ensures
        r == scaled_setting(json::option_text(*value), default, scale),
{
    let n: u64 = match value {
        Some(s) => match text::parse_number(text::trim(s.as_str()), u64::MAX) {
            Some(n) => n,
            None => default,
        },
        None => default,
    };
    match n.checked_mul(scale) {
        Some(p) => p,
        None => u64::MAX,
    }
}

/// A size in megabytes that a setting gives, or its default, in bytes.
pub fn env_mb_to_bytes(value: &Option<String>, default_mb: u64) -> (r: u64)
    ensures
        r == scaled_setting(json::option_text(*value), default_mb, 1048576),
{
    scale_setting(value, default_mb, 1048576)
}

/// An age in days that a setting gives, or its default, in seconds.
pub fn env_days_to_secs(value: &Option<String>, default_days: u64) -> (r: u64)
    ensures
        r == scaled_setting(json::option_text(*value), default_days, 86400),
{
    scale_setting(value, default_days, 86400)
}

/// A text without blanks around it, if it is not blank.
pub open spec fn unless_blank(s: Option<Seq<char>>) -> Option<Seq<char>> {
    match s {
        Some(t) => if text::blank(t) {
            None
        } else {
            Some(text::trimmed(t))
        },
        None => None,
    }
}

fn drop_blank(s: &Option<String>) -> (r: Option<String>)
    ensures
        json::option_text(r) == unless_blank(json::option_text(*s)),
{
    match s {
        Some(t) => {
            let inner = text::trim(t.as_str());
            if inner.is_empty() {
                None
            } else {
                Some(inner.to_owned())
            }
        },
        None => None,
    }
}

/// The directory that the proxy's own directories stand under: the home
/// directory, or the current one, or, failing both, the one that a dot names.
pub open spec fn base_dir(home: Option<PathBuf>, current: Option<PathBuf>, r: PathBuf) -> bool {
    match home {
        Some(h) => r == h,
        None => match current {
            Some(c) => r == c,
            None => paths::path_text(r) == "."@,
        },
    }
}

/// Whether a path leads from a base directory to a directory of the proxy's
/// own.
pub open spec fn own_dir(
    home: Option<PathBuf>,
    current: Option<PathBuf>,
    name: Seq<char>,
    r: PathBuf,
) -> bool {
    exists|base: PathBuf|
        #![trigger paths::path_components(base)]
        base_dir(home, current, base) && paths::path_components(r) == paths::path_components(
            base,
        ).push(".codex-proxy"@).push(name)
}

fn own_dir_of(home: &Option<PathBuf>, current: &Option<PathBuf>, name: &str) -> (r: PathBuf)
    requires
        paths::entry_name(name@),
    ensures
        own_dir(*home, *current, name@, r),
{
    proof {
        reveal_strlit(".codex-proxy");
        assert(".codex-proxy"@.len() == 12);
    }
    match home {
        Some(h) => paths::join_path(&paths::join_path(h, ".codex-proxy"), name),
        None => match current {
            Some(c) => paths::join_path(&paths::join_path(c, ".codex-proxy"), name),
            None => {
                let dot = paths::path_from(".");
                let r = paths::join_path(&paths::join_path(&dot, ".codex-proxy"), name);
                assert(base_dir(*home, *current, dot));
                r
            },
        },
    }
}

/// Where logs go unless a setting says otherwise.
pub fn default_log_base_dir(home: &Option<PathBuf>, current: &Option<PathBuf>) -> (r: PathBuf)
    ensures
        own_dir(*home, *current, "logs"@, r),
{
    proof {
        reveal_strlit("logs");
        assert("logs"@.len() == 4);
    }
    own_dir_of(home, current, "logs")
}

/// Whether a directory is the one that a setting names, or else the proxy's own
/// of some name.
pub open spec fn chosen_dir(
    setting: Option<Seq<char>>,
    home: Option<PathBuf>,
    current: Option<PathBuf>,
    name: Seq<char>,
    r: PathBuf,
) -> bool {
    match unless_blank(setting) {
        Some(s) => paths::path_text(r) == s,
        None => own_dir(home, current, name, r),
    }
}

/// Where request logs go.
pub fn default_request_log_dir(
    setting: &Option<String>,
    home: &Option<PathBuf>,
    current: &Option<PathBuf>,
) -> (r: PathBuf)
    ensures
        chosen_dir(json::option_text(*setting), *home, *current, "logs"@, r),
{
    match drop_blank(setting) {
        Some(s) => paths::path_from(s.as_str()),
        None => default_log_base_dir(home, current),
    }
}

/// Where responses are stored.
pub fn default_response_store_dir(
    setting: &Option<String>,
    home: &Option<PathBuf>,
    current: &Option<PathBuf>,
) -> (r: PathBuf)
    ensures
        chosen_dir(json::option_text(*setting), *home, *current, "store"@, r),
{
    proof {
        reveal_strlit("store");
        assert("store"@.len() == 5);
    }
    match drop_blank(setting) {
        Some(s) => paths::path_from(s.as_str()),
        None => own_dir_of(home, current, "store"),
    }
}

/// The first of `.codex` and `.opencode` that is in the home directory.
pub open spec fn present_entry(found: HomeFindings) -> Option<Seq<char>> {
    if found.codex_dir {
        Some(".codex"@)
    } else if found.opencode_dir {
        Some(".opencode"@)
    } else {
        None
    }
}

/// The entry of the home directory that credentials are taken from: the first
/// of `.codex` and `.opencode` that has some, or else the first that is there.
pub open spec fn home_entry(found: HomeFindings) -> Option<Seq<char>> {
    if found.codex_auth {
        Some(".codex"@)
    } else if found.opencode_auth {
        Some(".opencode"@)
    } else {
        present_entry(found)
    }
}

/// Whether a directory is the given entry of the home directory or, where there
/// is none, the current directory.
pub open spec fn is_home_entry(
    home: Option<PathBuf>,
    entry: Option<Seq<char>>,
    current: Option<PathBuf>,
    dir: PathBuf,
) -> bool {
    match (home, entry) {
        (Some(h), Some(name)) => paths::path_components(dir) == paths::path_components(h).push(
            name,
        ),
        _ => match current {
            Some(c) => dir == c,
            None => paths::path_text(dir) == "."@,
        },
    }
}

/// The directory that instructions are taken from, wherever the credentials
/// are.
pub fn find_instructions_home(
    home: &Option<PathBuf>,
    found: HomeFindings,
    current: &Option<PathBuf>,
) -> (r: PathBuf)
    ensures
        is_home_entry(*home, present_entry(found), *current, r),
{
    proof {
        reveal_strlit(".codex");
        reveal_strlit(".opencode");
        assert(".codex"@.len() == 6);
        assert(".opencode"@.len() == 9);
    }
    if let Some(h) = home {
        if found.codex_dir {
            return paths::join_path(h, ".codex");
        }
        if found.opencode_dir {
            return paths::join_path(h, ".opencode");
        }
    }
    match current {
        Some(c) => c.clone(),
        None => paths::path_from("."),
    }
}

/// The directory that credentials are looked for in, where the current one
/// holds none.
pub fn find_codex_home(
    home: &Option<PathBuf>,
    found: HomeFindings,
    current: &Option<PathBuf>,
) -> (r: PathBuf)
    ensures
        is_home_entry(*home, home_entry(found), *current, r),
{
    proof {
        reveal_strlit(".codex");
        reveal_strlit(".opencode");
        assert(".codex"@.len() == 6);
        assert(".opencode"@.len() == 9);
    }
    if let Some(h) = home {
        if found.codex_auth {
            return paths::join_path(h, ".codex");
        }
        if found.opencode_auth {
            return paths::join_path(h, ".opencode");
        }
    }
    find_instructions_home(home, found, current)
}

impl Config {
    /// The user's own instructions: the text of the file that holds them, if it
    /// is there and not blank.
    pub fn load_instructions(agents: &Option<String>) -> (r: Option<String>)
        ensures
            json::option_text(r) == unless_blank(json::option_text(*agents)),
    {
        drop_blank(agents)
    }

    /// The configuration that the surroundings call for.  Credentials in
    /// `./local_auth` come first, then those in the current directory, then
    /// those in the home directory.
    pub fn load(around: Surroundings) -> (r: Result<Config, ConfigError>)
        ensures
            r is Err <==> around.current is None,
            r matches Ok(config) ==> {
                &&& around.local_auth ==> paths::path_components(config.codex_home)
                    == paths::path_components(around.current->0).push("local_auth"@)
                &&& !around.local_auth && around.current_auth ==> config.codex_home
                    == around.current->0
                &&& !around.local_auth && !around.current_auth ==> config.codex_home
                    == around.codex_home
                &&& config.chatgpt_base_url@ == "https://chatgpt.com/backend-api/codex"@
                &&& config.model@ == "gpt-5"@
                &&& json::option_text(config.user_instructions) == unless_blank(
                    json::option_text(around.agents),
                )
                &&& chosen_dir(
                    json::option_text(around.request_log_dir),
                    around.home,
                    around.current,
                    "logs"@,
                    config.request_log_dir,
                )
                &&& chosen_dir(
                    json::option_text(around.store_dir),
                    around.home,
                    around.current,
                    "store"@,
                    config.response_store_dir,
                )
                &&& config.response_store_max_age_secs == scaled_setting(
                    json::option_text(around.store_max_age_days),
                    30,
                    86400,
                )
                &&& config.request_log_max_bytes == scaled_setting(
                    json::option_text(around.request_log_max_mb),
                    500,
                    1048576,
                )
                &&& config.app_log_max_bytes == scaled_setting(
                    json::option_text(around.app_log_max_mb),
                    100,
                    1048576,
                )
            },
    {
        let request_log_dir = default_request_log_dir(
            &around.request_log_dir,
            &around.home,
            &around.current,
        );
        let response_store_dir = default_response_store_dir(
            &around.store_dir,
            &around.home,
            &around.current,
        );
        let response_store_max_age_secs = env_days_to_secs(&around.store_max_age_days, 30);
        let request_log_max_bytes = env_mb_to_bytes(&around.request_log_max_mb, 500);
        let app_log_max_bytes = env_mb_to_bytes(&around.app_log_max_mb, 100);
        let user_instructions = Config::load_instructions(&around.agents);
        let current = match around.current {
            Some(c) => c,
            None => {
                return Err(ConfigError::NoCurrentDir);
            },
        };
        proof {
            reveal_strlit("local_auth");
            assert("local_auth"@.len() == 10);
        }
        let codex_home = if around.local_auth {
            paths::join_path(&current, "local_auth")
        } else if around.current_auth {
            current
        } else {
            around.codex_home
        };
        Ok(
            Config {
                codex_home,
                chatgpt_base_url: "https://chatgpt.com/backend-api/codex".to_owned(),
                model: "gpt-5".to_owned(),
                user_instructions,
                request_log_dir,
                response_store_dir,
                response_store_max_age_secs,
                request_log_max_bytes,
                app_log_max_bytes,
            },
        )
    }
}

/// A setting that is a number, with white space around it or not, counts that many of
/// its unit, up to the largest number there is; one that is missing or no number
/// counts as its default.
pub proof fn law_settings_are_scaled(
    before: Seq<char>,
    n: nat,
    after: Seq<char>,
    default: u64,
    scale: u64,
    other: Seq<char>,
)
    requires
        forall|i: int| 0 <= i < before.len() ==> text::white_space(#[trigger] before[i]),
        forall|i: int| 0 <= i < after.len() ==> text::white_space(#[trigger] after[i]),
    ensures
        n <= u64::MAX && n * scale <= u64::MAX ==> scaled_setting(
            Some(before + text::decimal(n) + after),
            default,
            scale,
        ) == n * scale,
        n <= u64::MAX && n * scale > u64::MAX ==> scaled_setting(
            Some(before + text::decimal(n) + after),
            default,
            scale,
        ) == u64::MAX,
        default * scale <= u64::MAX ==> scaled_setting(None, default, scale) == default * scale,
        text::parsed_number(text::trimmed(other), u64::MAX) is None ==> scaled_setting(
            Some(other),
            default,
            scale,
        ) == scaled_setting(None, default, scale),
{
    text::law_numbers_are_read_back(n, u64::MAX);
    let s = text::decimal(n);
    text::law_only_digits_of_decimals(n);
    text::law_white_space(s[0]);
    text::law_white_space(s.last());
    text::law_trimming_keeps_the_text(before, s, after);
}

/// A text that is not blank counts without the white space around it; a blank one
/// does not count.
pub proof fn law_blank_settings_do_not_count(
    before: Seq<char>,
    s: Seq<char>,
    after: Seq<char>,
)
    requires
        forall|i: int| 0 <= i < before.len() ==> text::white_space(#[trigger] before[i]),
        forall|i: int| 0 <= i < after.len() ==> text::white_space(#[trigger] after[i]),
        s.len() > 0 ==> !text::white_space(s[0]) && !text::white_space(s.last()),
    ensures
        s.len() > 0 ==> unless_blank(Some(before + s + after)) == Some(s),
        s.len() == 0 ==> unless_blank(Some(before + s + after)) is None,
        unless_blank(None) is None,
{
    text::law_trimming_keeps_the_text(before, s, after);
}

/// Credentials decide which directory is used, then which one is there; for
/// instructions only the latter does; and `.codex` always comes before `.opencode`.
pub proof fn law_home_directories(found: HomeFindings)
    ensures
        found.codex_auth ==> home_entry(found) == Some(".codex"@),
        !found.codex_auth && found.opencode_auth ==> home_entry(found) == Some(".opencode"@),
        !found.codex_auth && !found.opencode_auth ==> home_entry(found) == present_entry(found),
        found.codex_dir ==> present_entry(found) == Some(".codex"@),
        !found.codex_dir && found.opencode_dir ==> present_entry(found) == Some(".opencode"@),
        !found.codex_dir && !found.opencode_dir ==> present_entry(found) is None,
{
}

/// The directory of logs or responses is the one that a setting names, as it is
/// written; without one it is the proxy's own in the home directory, or in the
/// current one where there is no home.
pub proof fn law_chosen_directories(
    s: Seq<char>,
    home: PathBuf,
    current: Option<PathBuf>,
    name: Seq<char>,
    r: PathBuf,
)
    ensures
        s.len() > 0 && !text::white_space(s[0]) && !text::white_space(s.last()) && chosen_dir(
            Some(s),
            Some(home),
            current,
            name,
            r,
        ) ==> paths::path_text(r) == s,
        chosen_dir(None, Some(home), current, name, r) ==> paths::path_components(r)
            == paths::path_components(home).push(".codex-proxy"@).push(name),
        current matches Some(c) ==> chosen_dir(None, None, current, name, r)
            ==> paths::path_components(r) == paths::path_components(c).push(".codex-proxy"@).push(
            name,
        ),
        chosen_dir(None, None, None, name, r) ==> exists|dot: PathBuf|
            paths::path_text(dot) == "."@ && paths::path_components(r)
                == #[trigger] paths::path_components(dot).push(".codex-proxy"@).push(name),
{
    if s.len() > 0 && !text::white_space(s[0]) && !text::white_space(s.last()) {
        law_blank_settings_do_not_count(seq![], s, seq![]);
        assert(seq![] + s + seq![] =~= s);
    }
}

} // verus!
