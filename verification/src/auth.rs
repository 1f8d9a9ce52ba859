//! The credentials for the search service: where they come from and how they are renewed.

use vstd::prelude::*;

use crate::json::empty_object;
use crate::json::opt_text;
use crate::json::Json;
use crate::json::JsonV;
use crate::text::cat;
use crate::text::is_blank;
use crate::text::lemma_blank_trimmed;
use crate::text::numeral;
use crate::text::trim;
use crate::text::trimmed;
use crate::text::write_number;

verus! {

/// Credentials. `file_backed` says that they were read from the credentials file, so that a
/// renewed token can be written back; `refresh` is what a token is renewed with.
pub struct CodexAuth {
    pub access: String,
    pub account_id: Option<String>,
    pub file_backed: bool,
    pub refresh: Option<String>,
}

/// What credentials hold.
pub struct AuthV {
    pub access: Seq<char>,
    pub account_id: Option<Seq<char>>,
    pub file_backed: bool,
    pub refresh: Option<Seq<char>>,
}

impl View for CodexAuth {
    type V = AuthV;

    open spec fn view(&self) -> AuthV {
        AuthV {
            access: self.access@,
            account_id: opt_text(self.account_id),
            file_backed: self.file_backed,
            refresh: opt_text(self.refresh),
        }
    }
}

/// What credentials that may be missing hold.
pub open spec fn opt_auth(auth: Option<CodexAuth>) -> Option<AuthV> {
    match auth {
        Some(a) => Some(a@),
        None => None,
    }
}

/// A text that is not empty.
pub open spec fn non_empty(s: Option<Seq<char>>) -> Option<Seq<char>> {
    match s {
        Some(t) => if t.len() > 0 {
            Some(t)
        } else {
            None
        },
        None => None,
    }
}

fn keep_non_empty(s: Option<String>) -> (r: Option<String>)
    ensures
        opt_text(r) == non_empty(opt_text(s)),
{
    match s {
        Some(t) => if t.as_str().is_empty() {
            None
        } else {
            Some(t)
        },
        None => None,
    }
}

/// The credentials in the contents of a credentials file.
pub open spec fn auth_in_file(file: JsonV) -> Option<AuthV> {
    match file.get("tokens"@) {
        Some(tokens) => match tokens.str_at("access_token"@) {
            Some(access) => Some(
                AuthV {
                    access,
                    account_id: tokens.str_at("account_id"@),
                    file_backed: true,
                    refresh: tokens.str_at("refresh_token"@),
                },
            ),
            None => None,
        },
        None => None,
    }
}

/// The credentials in use: a token of the environment goes before the credentials file.
pub open spec fn auth_in_use(
    token: Option<Seq<char>>,
    account: Option<Seq<char>>,
    file: Option<JsonV>,
) -> Option<AuthV> {
    match (non_empty(token), file) {
        (Some(access), _) => Some(
            AuthV { access, account_id: non_empty(account), file_backed: false, refresh: None },
        ),
        (None, Some(f)) => auth_in_file(f),
        (None, None) => None,
    }
}

/// Finds the credentials: the token and the account of the environment, else those of the
/// credentials file.
pub fn load_codex_auth(token: Option<String>, account: Option<String>, file: Option<&Json>) -> (r:
    Option<CodexAuth>)
    ensures
        opt_auth(r) == auth_in_use(
            opt_text(token),
            opt_text(account),
            match file {
                Some(f) => Some(f@),
                None => None,
            },
        ),
{
    if let Some(access) = keep_non_empty(token) {
        let auth = CodexAuth {
            access,
            account_id: keep_non_empty(account),
            file_backed: false,
            refresh: None,
        };
        return Some(auth);
    }
    let tokens = match file {
        Some(f) => match f.get("tokens") {
            Some(t) => t,
            None => {
                return None;
            },
        },
        None => {
            return None;
        },
    };
    match tokens.string_at("access_token") {
        Some(access) => {
            let auth = CodexAuth {
                access,
                account_id: tokens.string_at("account_id"),
                file_backed: true,
                refresh: tokens.string_at("refresh_token"),
            };
            Some(auth)
        },
        None => None,
    }
}

/// `setting` where it holds more than white space, else `default`.
pub open spec fn setting_or(setting: Option<Seq<char>>, default: Seq<char>) -> Seq<char> {
    match setting {
        Some(s) => if trimmed(s).len() > 0 {
            s
        } else {
            default
        },
        None => default,
    }
}

fn choose_setting(setting: Option<String>, default: &str) -> (r: String)
    ensures
        r@ == setting_or(opt_text(setting), default@),
{
    match setting {
        Some(s) => if trim(s.as_str()).as_str().is_empty() {
            default.to_string()
        } else {
            s
        },
        None => default.to_string(),
    }
}

/// The address that searches are sent to.
pub fn codex_endpoint(setting: Option<String>) -> (r: String)
    ensures
        r@ == setting_or(
            opt_text(setting),
            "https://chatgpt.com/backend-api/codex/alpha/search"@,
        ),
{
    choose_setting(setting, "https://chatgpt.com/backend-api/codex/alpha/search")
}

/// The address that tokens are renewed at.
pub fn codex_refresh_endpoint(setting: Option<String>) -> (r: String)
    ensures
        r@ == setting_or(opt_text(setting), "https://chatgpt.com/backend-api/auth/refresh"@),
{
    choose_setting(setting, "https://chatgpt.com/backend-api/auth/refresh")
}

/// The extension of the copy that is made of the credentials file `secs` seconds after the epoch.
pub fn backup_extension(secs: u64) -> (r: String)
    ensures
        r@ == "json.bak."@ + numeral(secs as nat, 10),
{
    cat("json.bak.", write_number(secs as u128, 10).as_str())
}

/// What is asked of the address that tokens are renewed at.
pub fn refresh_request(refresh: &str) -> (r: Json)
    ensures
        r@ == empty_object().with("refresh_token"@, JsonV::Str(refresh@)),
{
    Json::object().with("refresh_token", Json::text(refresh))
}

/// A renewed token, and what it is renewed with next where that changes.
pub struct Tokens {
    pub access: String,
    pub refresh: Option<String>,
}

/// The tokens that an answer holds: an access token, and maybe a refresh token.
pub open spec fn tokens_in(answer: JsonV) -> Option<(Seq<char>, Option<Seq<char>>)> {
    match answer.str_at("access_token"@) {
        Some(access) => Some((access, answer.str_at("refresh_token"@))),
        None => None,
    }
}

/// Reads the tokens of an answer.
pub fn refreshed_tokens(answer: &Json) -> (r: Option<Tokens>)
    ensures
        match r {
            Some(t) => tokens_in(answer@) == Some((t.access@, opt_text(t.refresh))),
            None => tokens_in(answer@) is None,
        },
{
    match answer.string_at("access_token") {
        Some(access) => Some(Tokens { access, refresh: answer.string_at("refresh_token") }),
        None => None,
    }
}

/// The contents of a credentials file with renewed tokens; a file without an object of tokens has
/// no place for them.
pub open spec fn file_with(
    file: JsonV,
    access: Seq<char>,
    refresh: Option<Seq<char>>,
) -> Option<JsonV> {
    match file.get("tokens"@) {
        Some(JsonV::Object(m)) => {
            let renewed = JsonV::Object(m).with("access_token"@, JsonV::Str(access));
            let renewed = match refresh {
                Some(r) => renewed.with("refresh_token"@, JsonV::Str(r)),
                None => renewed,
            };
            Some(file.with("tokens"@, renewed))
        },
        _ => None,
    }
}

/// Puts renewed tokens into the contents of a credentials file.
pub fn store_tokens(file: Json, tokens: &Tokens) -> (r: Option<Json>)
    ensures
        match r {
            Some(f) => file_with(file@, tokens.access@, opt_text(tokens.refresh)) == Some(f@),
            None => file_with(file@, tokens.access@, opt_text(tokens.refresh)) is None,
        },
{
    let mut renewed = match file.get("tokens") {
        Some(t) => match t {
            Json::Object(_) => t.copy(),
            _ => {
                return None;
            },
        },
        None => {
            return None;
        },
    };
    renewed = renewed.with("access_token", Json::text(tokens.access.as_str()));
    if let Some(refresh) = &tokens.refresh {
        renewed = renewed.with("refresh_token", Json::text(refresh.as_str()));
    }
    Some(file.with("tokens", renewed))
}

// ---------------------------------------------------------------------------
// Laws
// ---------------------------------------------------------------------------
/// What was stored is read back: the access token is the renewed one, the refresh token too where
/// there is a new one and else the one before, and the account is the same.
pub proof fn lemma_stored_tokens_read_back(
    file: JsonV,
    access: Seq<char>,
    refresh: Option<Seq<char>>,
)
    requires
        file_with(file, access, refresh) is Some,
    ensures
        auth_in_file(file_with(file, access, refresh)->0) == Some(
            AuthV {
                access,
                account_id: file.get("tokens"@)->0.str_at("account_id"@),
                file_backed: true,
                refresh: if refresh is Some {
                    refresh
                } else {
                    file.get("tokens"@)->0.str_at("refresh_token"@)
                },
            },
        ),
{
    lemma_token_keys();
}

/// Storing tokens touches nothing else in the file.
pub proof fn lemma_store_keeps_the_rest(
    file: JsonV,
    access: Seq<char>,
    refresh: Option<Seq<char>>,
    key: Seq<char>,
)
    requires
        file_with(file, access, refresh) is Some,
    ensures
        key != "tokens"@ ==> file_with(file, access, refresh)->0.get(key) == file.get(key),
        key != "access_token"@ && key != "refresh_token"@ ==> file_with(
            file,
            access,
            refresh,
        )->0.get("tokens"@)->0.get(key) == file.get("tokens"@)->0.get(key),
{
    lemma_token_keys();
}

proof fn lemma_token_keys()
    ensures
        "access_token"@ != "refresh_token"@,
        "access_token"@ != "account_id"@,
        "refresh_token"@ != "account_id"@,
{
    reveal_strlit("access_token");
    reveal_strlit("refresh_token");
    reveal_strlit("account_id");
    assert("access_token"@.len() == 12 && "refresh_token"@.len() == 13 && "account_id"@.len()
        == 10);
}

/// A token of the environment is used whatever the credentials file holds.
pub proof fn lemma_environment_first(
    token: Seq<char>,
    account: Option<Seq<char>>,
    file: Option<JsonV>,
    other: Option<JsonV>,
)
    requires
        token.len() > 0,
    ensures
        auth_in_use(Some(token), account, file) == auth_in_use(Some(token), account, other),
        auth_in_use(Some(token), account, file) is Some,
        auth_in_use(Some(token), account, file)->0.access == token,
        auth_in_use(Some(token), account, file)->0.refresh is None,
{
}

/// A token of the environment is used with the account beside it, where there is one, and can
/// never be renewed.
pub proof fn lemma_environment_credentials(
    token: Seq<char>,
    account: Option<Seq<char>>,
    file: Option<JsonV>,
)
    requires
        token.len() > 0,
    ensures
        auth_in_use(Some(token), account, file) == Some(
            AuthV {
                access: token,
                account_id: if account is Some && account->0.len() > 0 {
                    account
                } else {
                    None
                },
                file_backed: false,
                refresh: None,
            },
        ),
{
}

/// Without a token of the environment the credentials are those of the file: its access token,
/// and its account and its refresh token where it has them. No access token, no credentials; the
/// account of the environment does not count.
pub proof fn lemma_file_credentials(
    token: Option<Seq<char>>,
    account: Option<Seq<char>>,
    file: JsonV,
    tokens: JsonV,
)
    requires
        token is None || token->0.len() == 0,
        file.get("tokens"@) == Some(tokens),
    ensures
        tokens.str_at("access_token"@) matches Some(access) ==> auth_in_use(
            token,
            account,
            Some(file),
        ) == Some(
            AuthV {
                access,
                account_id: tokens.str_at("account_id"@),
                file_backed: true,
                refresh: tokens.str_at("refresh_token"@),
            },
        ),
        tokens.str_at("access_token"@) is None ==> auth_in_use(token, account, Some(file)) is None,
{
}

/// Without a token of the environment and without tokens in a file there are no credentials.
pub proof fn lemma_no_credentials(
    token: Option<Seq<char>>,
    account: Option<Seq<char>>,
    file: JsonV,
)
    requires
        token is None || token->0.len() == 0,
    ensures
        auth_in_use(token, account, None) is None,
        file.get("tokens"@) is None ==> auth_in_use(token, account, Some(file)) is None,
{
}

/// A setting that holds more than white space is taken letter for letter; else the default.
pub proof fn lemma_setting(setting: Seq<char>, default: Seq<char>)
    ensures
        !is_blank(setting) ==> setting_or(Some(setting), default) == setting,
        is_blank(setting) ==> setting_or(Some(setting), default) == default,
        setting_or(None, default) == default,
{
    lemma_blank_trimmed(setting);
}

/// An answer renews the token where it holds an access token, and then gives both tokens as they
/// are.
pub proof fn lemma_renewal(answer: JsonV)
    ensures
        answer.str_at("access_token"@) matches Some(access) ==> tokens_in(answer) == Some(
            (access, answer.str_at("refresh_token"@)),
        ),
        answer.str_at("access_token"@) is None ==> tokens_in(answer) is None,
{
}

/// A file takes renewed tokens where it has an object of tokens, and only there.
pub proof fn lemma_place_for_tokens(file: JsonV, access: Seq<char>, refresh: Option<Seq<char>>)
    ensures
        (file_with(file, access, refresh) is Some) == (file.get("tokens"@) is Some && file.get(
            "tokens"@,
        )->0 is Object),
        file_with(file, access, refresh) matches Some(stored) ==> {
            &&& stored.get("tokens"@) is Some
            &&& stored.get("tokens"@)->0.get("access_token"@) == Some(JsonV::Str(access))
            &&& refresh matches Some(r) ==> stored.get("tokens"@)->0.get("refresh_token"@) == Some(
                JsonV::Str(r),
            )
            &&& refresh is None ==> stored.get("tokens"@)->0.get("refresh_token"@) == file.get(
                "tokens"@,
            )->0.get("refresh_token"@)
        },
{
    lemma_token_keys();
}

} // verus!
