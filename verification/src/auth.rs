//! Credentials: whether they are there, which of them are used, and where they
//! are put at login.
use crate::json;
use crate::paths;
use crate::replies;
use crate::replies::Reply;
use std::path::PathBuf;
use vstd::prelude::*;

verus! {

/// What credentials are for.
#[derive(Debug, Clone, Copy, PartialEq, Eq, Structural)]
pub enum AuthMode {
    ApiKey,
    ChatGpt,
}

/// A token and the account that it is for.
#[derive(Debug, PartialEq, Eq)]
pub struct TokenData {
    pub access_token: String,
    pub account_id: Option<String>,
}

/// Credentials that were found, with their token where there is one.
#[derive(Debug, PartialEq, Eq)]
pub struct AuthState {
    pub mode: AuthMode,
    pub token: Option<TokenData>,
}

/// The file that holds credentials.
#[derive(Debug, PartialEq, Eq)]
pub enum AuthFile {
    Absent,
    Readable,
    /// It is there and cannot be read, for this reason.
    Unreadable(String),
}

/// Why credentials cannot be used.
#[derive(Debug, PartialEq, Eq)]
pub enum AuthError {
    /// Their file cannot be read, for this reason.
    FileUnreadable(String),
    /// There are none that can be used; logging in would help.
    LoginNeeded,
    /// There are none.
    NotFound,
    /// They name no account.
    NoAccountId,
}

/// What an error says.
pub open spec fn auth_error_text(e: AuthError) -> Seq<char> {
    match e {
        AuthError::FileUnreadable(why) => "Failed to read auth file: "@ + why@,
        AuthError::LoginNeeded => "No authentication found. Please use the 'Login' option in the CLI menu. This enables Opencode and other integrations."@,
        AuthError::NotFound => "No authentication found"@,
        AuthError::NoAccountId => "No account ID found"@,
    }
}

impl AuthError {
    /// What the error says.
    pub fn message(&self) -> (r: String)
        ensures
            r@ == auth_error_text(*self),
    {
        match self {
            AuthError::FileUnreadable(why) => "Failed to read auth file: ".to_owned().concat(
                why.as_str(),
            ),
            AuthError::LoginNeeded => "No authentication found. Please use the 'Login' option in the CLI menu. This enables Opencode and other integrations.".to_owned(),
            AuthError::NotFound => "No authentication found".to_owned(),
            AuthError::NoAccountId => "No account ID found".to_owned(),
        }
    }
}

/// Whether credentials let the proxy start: a token for an account, or an API
/// key.
pub open spec fn usable(auth: AuthState) -> bool {
    match auth.token {
        Some(t) => t.access_token@.len() > 0 && t.account_id is Some,
        None => auth.mode == AuthMode::ApiKey,
    }
}

/// Whether the proxy can start, by the file that holds credentials and what was
/// found in it.
pub fn check_authentication(file: &AuthFile, auth: &Option<AuthState>) -> (r: Result<
    (),
    AuthError,
>)
    ensures
        match *file {
            AuthFile::Unreadable(why) => r matches Err(AuthError::FileUnreadable(w)) && w@ == why@,
            _ => if auth is Some && usable(auth->0) {
                r is Ok
            } else {
                r == Err::<(), _>(AuthError::LoginNeeded)
            },
        },
{
    if let AuthFile::Unreadable(why) = file {
        return Err(AuthError::FileUnreadable(why.clone()));
    }
    match auth {
        Some(auth) => match &auth.token {
            Some(t) => {
                if t.access_token.as_str().is_empty() || t.account_id.is_none() {
                    Err(AuthError::LoginNeeded)
                } else {
                    Ok(())
                }
            },
            None => if auth.mode == AuthMode::ApiKey {
                Ok(())
            } else {
                Err(AuthError::LoginNeeded)
            },
        },
        None => Err(AuthError::LoginNeeded),
    }
}

/// What came of refreshing a token.
#[derive(Debug, PartialEq, Eq)]
pub enum Refreshed {
    /// An API key needs no refreshing.
    ApiKey,
    /// The token is for this account.
    Token(Option<String>),
}

/// What came of refreshing the token of the credentials that were found.
pub fn refresh_outcome(auth: &Option<AuthState>) -> (r: Result<Refreshed, AuthError>)
    ensures
        match *auth {
            Some(a) => match a.token {
                Some(t) => r matches Ok(Refreshed::Token(account)) && json::option_text(account)
                    == json::option_text(t.account_id),
                None => if a.mode == AuthMode::ApiKey {
                    r == Ok::<_, AuthError>(Refreshed::ApiKey)
                } else {
                    r == Err::<Refreshed, _>(AuthError::LoginNeeded)
                },
            },
            None => r == Err::<Refreshed, _>(AuthError::LoginNeeded),
        },
{
    match auth {
        Some(a) => match &a.token {
            Some(t) => {
                let account = match &t.account_id {
                    Some(id) => Some(id.clone()),
                    None => None,
                };
                Ok(Refreshed::Token(account))
            },
            None => if a.mode == AuthMode::ApiKey {
                Ok(Refreshed::ApiKey)
            } else {
                Err(AuthError::LoginNeeded)
            },
        },
        None => Err(AuthError::LoginNeeded),
    }
}

/// The token to send, out of the credentials that were found.
pub fn get_access_token(found: &Option<TokenData>) -> (r: Result<String, AuthError>)
    ensures
        match *found {
            Some(t) => r matches Ok(token) && token@ == t.access_token@,
            None => r == Err::<String, _>(AuthError::NotFound),
        },
{
    match found {
        Some(t) => Ok(t.access_token.clone()),
        None => Err(AuthError::NotFound),
    }
}

/// The account to name, out of the credentials that were found.
pub fn get_account_id(found: &Option<TokenData>) -> (r: Result<String, AuthError>)
    ensures
        match *found {
            Some(t) => match t.account_id {
                Some(id) => r matches Ok(account) && account@ == id@,
                None => r == Err::<String, _>(AuthError::NoAccountId),
            },
            None => r == Err::<String, _>(AuthError::NotFound),
        },
{
    match found {
        Some(t) => match &t.account_id {
            Some(id) => Ok(id.clone()),
            None => Err(AuthError::NoAccountId),
        },
        None => Err(AuthError::NotFound),
    }
}

/// An API key out of credentials.
#[derive(Debug, PartialEq, Eq)]
pub struct StoredKey {
    pub mode: AuthMode,
    pub token: Option<String>,
}

/// The API key to use: the one that the environment gives, or else the one that
/// is kept as such; an empty one does not count.
pub open spec fn api_key(env: Option<Seq<char>>, mode: AuthMode, token: Option<Seq<char>>) -> Option<
    Seq<char>,
> {
    match env {
        Some(key) if key.len() > 0 => Some(key),
        _ => match token {
            Some(key) if key.len() > 0 && mode == AuthMode::ApiKey => Some(key),
            _ => None,
        },
    }
}

/// The API key that a stored one comes down to.
pub open spec fn api_key_with(env: Option<Seq<char>>, stored: Option<StoredKey>) -> Option<
    Seq<char>,
> {
    match stored {
        Some(s) => api_key(env, s.mode, json::option_text(s.token)),
        None => api_key(env, AuthMode::ApiKey, None),
    }
}

/// The API key to use, or the reply to a client that gave none where none is
/// there.
pub fn resolve_openai_api_key(env: &Option<String>, stored: &Option<StoredKey>) -> (r: Result<
    String,
    Reply,
>)
    ensures
        match api_key_with(json::option_text(*env), *stored) {
            Some(key) => r matches Ok(k) && k@ == key,
            None => r matches Err(reply) && reply.status == 401 && reply.body@
                == replies::error_object(
                "This OpenAI API endpoint requires an API key. Provide an Authorization header or set OPENAI_API_KEY."@,
                "authentication_error"@,
                "missing_api_key"@,
            ),
        },
{
    if let Some(key) = env {
        if !key.as_str().is_empty() {
            return Ok(key.clone());
        }
    }
    if let Some(s) = stored {
        if s.mode == AuthMode::ApiKey {
            if let Some(key) = &s.token {
                if !key.as_str().is_empty() {
                    return Ok(key.clone());
                }
            }
        }
    }
    Err(
        replies::error_reply(
            401,
            "This OpenAI API endpoint requires an API key. Provide an Authorization header or set OPENAI_API_KEY.",
            "authentication_error",
            "missing_api_key",
        ),
    )
}

/// A place that credentials are put at login.
#[derive(Debug, Clone, Copy, PartialEq, Eq, Structural)]
pub enum LoginPlace {
    Codex,
    Opencode,
    Local,
}

/// What comes next at login.
#[derive(Debug, Clone, Copy, PartialEq, Eq, Structural)]
pub enum LoginStep {
    /// Credentials are to be put here.
    Try(LoginPlace),
    /// Credentials are here.
    Done(LoginPlace),
    /// Credentials could be put nowhere.
    Failed,
}

/// What comes after a try to put credentials in a place: the next place, where
/// it failed.
pub open spec fn login_next(place: LoginPlace, succeeded: bool) -> LoginStep {
    if succeeded {
        LoginStep::Done(place)
    } else {
        match place {
            LoginPlace::Codex => LoginStep::Try(LoginPlace::Opencode),
            LoginPlace::Opencode => LoginStep::Try(LoginPlace::Local),
            LoginPlace::Local => LoginStep::Failed,
        }
    }
}

/// What comes after a try to put credentials in a place.
pub fn next_login(place: LoginPlace, succeeded: bool) -> (r: LoginStep)
    ensures
        r == login_next(place, succeeded),
{
    if succeeded {
        LoginStep::Done(place)
    } else {
        match place {
            LoginPlace::Codex => LoginStep::Try(LoginPlace::Opencode),
            LoginPlace::Opencode => LoginStep::Try(LoginPlace::Local),
            LoginPlace::Local => LoginStep::Failed,
        }
    }
}

/// Where login ends, by the places that credentials can be put in.
pub open spec fn login_outcome(codex: bool, opencode: bool, local: bool) -> LoginStep {
    let a = login_next(LoginPlace::Codex, codex);
    let b = match a {
        LoginStep::Try(place) => login_next(place, opencode),
        other => other,
    };
    match b {
        LoginStep::Try(place) => login_next(place, local),
        other => other,
    }
}

/// Login ends at the first place that credentials can be put in, and fails
/// only where there is none.
pub proof fn law_login_takes_the_first_place(codex: bool, opencode: bool, local: bool)
    ensures
        login_outcome(codex, opencode, local) == if codex {
            LoginStep::Done(LoginPlace::Codex)
        } else if opencode {
            LoginStep::Done(LoginPlace::Opencode)
        } else if local {
            LoginStep::Done(LoginPlace::Local)
        } else {
            LoginStep::Failed
        },
{
}

/// Whether a place is in the home directory; the other is in the current one.
pub fn is_in_home(place: LoginPlace) -> (r: bool)
    ensures
        r == (place != LoginPlace::Local),
{
    match place {
        LoginPlace::Local => false,
        _ => true,
    }
}

/// The name of a place's directory.
pub open spec fn place_name(place: LoginPlace) -> Seq<char> {
    match place {
        LoginPlace::Codex => ".codex"@,
        LoginPlace::Opencode => ".opencode"@,
        LoginPlace::Local => "local_auth"@,
    }
}

/// The directory of a place, in the home directory or the current one, whichever
/// it is in.
pub fn login_dir(base: &PathBuf, place: LoginPlace) -> (r: PathBuf)
    ensures
        paths::path_components(r) == paths::path_components(*base).push(place_name(place)),
{
    proof {
        reveal_strlit(".codex");
        reveal_strlit(".opencode");
        reveal_strlit("local_auth");
        assert(".codex"@.len() == 6);
        assert(".opencode"@.len() == 9);
        assert("local_auth"@.len() == 10);
    }
    match place {
        LoginPlace::Codex => paths::join_path(base, ".codex"),
        LoginPlace::Opencode => paths::join_path(base, ".opencode"),
        LoginPlace::Local => paths::join_path(base, "local_auth"),
    }
}

/// The file that holds credentials in a directory.
pub fn auth_file_path(dir: &PathBuf) -> (r: PathBuf)
    ensures
        paths::path_components(r) == paths::path_components(*dir).push("auth.json"@),
{
    proof {
        reveal_strlit("auth.json");
        assert("auth.json"@.len() == 9);
    }
    paths::join_path(dir, "auth.json")
}

/// A key that the environment gives comes before any that is kept; one that is kept
/// is used only if it was kept as an API key; and an empty one is none.
pub proof fn law_api_keys(env: Seq<char>, mode: AuthMode, token: Seq<char>, stored: Option<Seq<char>>)
    ensures
        env.len() > 0 ==> api_key(Some(env), mode, stored) == Some(env),
        token.len() > 0 ==> api_key(None, AuthMode::ApiKey, Some(token)) == Some(token) && api_key(
            Some(seq![]),
            AuthMode::ApiKey,
            Some(token),
        ) == Some(token),
        api_key(None, AuthMode::ChatGpt, stored) is None,
        api_key(Some(seq![]), AuthMode::ChatGpt, stored) is None,
        api_key(None, mode, None) is None,
        api_key(None, mode, Some(seq![])) is None,
{
}

/// Credentials can be used if they hold a token, for an account, that is not empty,
/// or if they are an API key without one.
pub proof fn law_usable_credentials(auth: AuthState)
    ensures
        auth.token matches Some(t) ==> (usable(auth) <==> t.access_token@.len() > 0
            && t.account_id is Some),
        auth.token is None ==> (usable(auth) <==> auth.mode == AuthMode::ApiKey),
{
}

/// Each place that credentials are put in has a directory of its own.
pub proof fn law_places_differ(a: LoginPlace, b: LoginPlace)
    requires
        a != b,
    ensures
        place_name(a) != place_name(b),
        place_name(LoginPlace::Codex) == ".codex"@,
        place_name(LoginPlace::Opencode) == ".opencode"@,
        place_name(LoginPlace::Local) == "local_auth"@,
{
    reveal_strlit(".codex");
    reveal_strlit(".opencode");
    reveal_strlit("local_auth");
    assert(".codex"@.len() == 6 && ".opencode"@.len() == 9 && "local_auth"@.len() == 10);
}

/// What an error says gives the reason in full where there is one.
pub proof fn law_auth_errors_tell_the_reason(why: String)
    ensures
        auth_error_text(AuthError::FileUnreadable(why)) == "Failed to read auth file: "@ + why@,
        auth_error_text(AuthError::NotFound) == "No authentication found"@,
        auth_error_text(AuthError::NoAccountId) == "No account ID found"@,
        "No authentication found. "@.is_prefix_of(auth_error_text(AuthError::LoginNeeded)),
{
    reveal_strlit("No authentication found. ");
    reveal_strlit(
        "No authentication found. Please use the 'Login' option in the CLI menu. This enables Opencode and other integrations.",
    );
    assert(auth_error_text(AuthError::LoginNeeded).subrange(0, 25) =~= "No authentication found. "@);
}

/// Without a key that is kept the environment alone gives one; with one it is the
/// kept key that is used where the environment gives none.
pub proof fn law_kept_keys(env: Option<Seq<char>>, stored: StoredKey)
    ensures
        env matches Some(key) ==> key.len() > 0 ==> api_key_with(env, None) == env && api_key_with(
            env,
            Some(stored),
        ) == env,
        env is None ==> api_key_with(env, None) is None,
        env is None && stored.mode == AuthMode::ApiKey ==> (stored.token matches Some(key)
            ==> key@.len() > 0 ==> api_key_with(env, Some(stored)) == Some(key@)),
        env is None && stored.mode != AuthMode::ApiKey ==> api_key_with(env, Some(stored)) is None,
{
}

} // verus!
