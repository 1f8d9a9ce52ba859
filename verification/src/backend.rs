//! A call of the search service: what is sent, what an answer means, and when to try again.
//!
//! The call itself is a walk: [`call_codex`] gives the first [`Action`], and the outcome of each
//! action gives the next, through [`after_post`], [`after_refresh`] and [`after_wait`].

use vstd::prelude::*;
use vstd::string::*;

use crate::auth::AuthV;
use crate::auth::CodexAuth;
use crate::json::empty_object;
use crate::json::opt_text;
use crate::json::opt_view;
use crate::json::Json;
use crate::json::JsonV;
use crate::results::normalize_body;
use crate::results::normalized;
use crate::text::cat;
use crate::text::numeral;
use crate::text::write_number;

verus! {

/// What every request calls itself.
pub const USER_AGENT: &'static str = "codex-cli/0.147.0-alpha.6.5";

/// How one request ended.
pub enum Outcome {
    /// An answer.
    Body(Json),
    /// An answer that is no JSON; holds why.
    BadBody(String),
    /// An answer that says no, with its status and, where it is JSON, its body.
    Status(u16, Option<Json>),
    /// No answer; holds why.
    Transport(String),
}

/// How one request ended, as a value.
pub enum OutcomeV {
    Body(JsonV),
    BadBody(Seq<char>),
    Status(u16, Option<JsonV>),
    Transport(Seq<char>),
}

impl View for Outcome {
    type V = OutcomeV;

    open spec fn view(&self) -> OutcomeV {
        match *self {
            Outcome::Body(j) => OutcomeV::Body(j@),
            Outcome::BadBody(why) => OutcomeV::BadBody(why@),
            Outcome::Status(code, body) => OutcomeV::Status(code, opt_view(body)),
            Outcome::Transport(why) => OutcomeV::Transport(why@),
        }
    }
}

/// Why a request failed, and whether it is worth trying again.
pub struct Failure {
    pub retryable: bool,
    pub status: Option<u16>,
    pub message: String,
}

/// Why a request failed, as a value.
pub struct FailureV {
    pub retryable: bool,
    pub status: Option<u16>,
    pub message: Seq<char>,
}

impl View for Failure {
    type V = FailureV;

    open spec fn view(&self) -> FailureV {
        FailureV { retryable: self.retryable, status: self.status, message: self.message@ }
    }
}

/// What is sent with a request, by name.
pub open spec fn headers(access: Seq<char>, account_id: Option<Seq<char>>) -> Seq<
    (Seq<char>, Seq<char>),
> {
    seq![
        ("Authorization"@, "Bearer "@ + access),
        (
            "ChatGPT-Account-ID"@,
            match account_id {
                Some(id) => id,
                None => Seq::empty(),
            },
        ),
        ("Content-Type"@, "application/json"@),
        ("User-Agent"@, USER_AGENT@),
    ]
}

/// The contents of some pairs of strings.
pub open spec fn pairs(v: Seq<(String, String)>) -> Seq<(Seq<char>, Seq<char>)> {
    v.map_values(|p: (String, String)| (p.0@, p.1@))
}

/// The headers of a request with the given token.
pub fn request_headers(access: &str, account_id: &Option<String>) -> (r: Vec<(String, String)>)
    ensures
        pairs(r@) == headers(access@, opt_text(*account_id)),
{
    let id = match account_id {
        Some(s) => s.clone(),
        None => String::new(),
    };
    let mut out: Vec<(String, String)> = Vec::new();
    out.push(("Authorization".to_string(), cat("Bearer ", access)));
    out.push(("ChatGPT-Account-ID".to_string(), id));
    out.push(("Content-Type".to_string(), "application/json".to_string()));
    out.push(("User-Agent".to_string(), USER_AGENT.to_string()));
    proof {
        assert(pairs(out@) =~= headers(access@, opt_text(*account_id)));
    }
    out
}

/// What is sent in a request.
pub open spec fn payload(session: Seq<char>, commands: JsonV) -> JsonV {
    empty_object().with("id"@, JsonV::Str(session)).with("model"@, JsonV::Str("gpt-4o"@)).with(
        "commands"@,
        commands,
    )
}

/// Makes what is sent in a request.
pub fn request_payload(session: &str, commands: Json) -> (r: Json)
    ensures
        r@ == payload(session@, commands@),
{
    Json::object().with("id", Json::text(session)).with("model", Json::text("gpt-4o")).with(
        "commands",
        commands,
    )
}

// ---------------------------------------------------------------------------
// What an answer means
// ---------------------------------------------------------------------------
/// The reason that an answer gives for saying no: the message of its error, with the code before
/// it and the parameter behind it where there are any.
pub open spec fn error_detail(body: Option<JsonV>) -> Option<Seq<char>> {
    match body {
        Some(b) => match b.get("error"@) {
            Some(e) => match e.str_at("message"@) {
                Some(m) => {
                    let coded = match e.str_at("code"@) {
                        Some(c) => c + ": "@ + m,
                        None => m,
                    };
                    match e.str_at("param"@) {
                        Some(p) => Some(coded + " (param: "@ + p + ")"@),
                        None => Some(coded),
                    }
                },
                None => None,
            },
            None => None,
        },
        None => None,
    }
}

/// Finds the reason that an answer gives for saying no.
pub fn extract_err_detail(body: &Option<Json>) -> (r: Option<String>)
    ensures
        opt_text(r) == error_detail(opt_view(*body)),
{
    let error = match body {
        Some(b) => match b.get("error") {
            Some(e) => e,
            None => {
                return None;
            },
        },
        None => {
            return None;
        },
    };
    let message = match error.str_at("message") {
        Some(m) => m,
        None => {
            return None;
        },
    };
    let mut out = match error.str_at("code") {
        Some(c) => {
            let mut coded = c.to_string();
            coded.append(": ");
            coded.append(message);
            coded
        },
        None => message.to_string(),
    };
    if let Some(p) = error.str_at("param") {
        out.append(" (param: ");
        out.append(p);
        out.append(")");
    }
    Some(out)
}

/// Statuses that are worth trying again: too many requests, and failures of the service.
pub open spec fn is_retryable(code: u16) -> bool {
    code == 429 || 500 <= code <= 599
}

/// What is said of a status.
pub open spec fn status_text(code: u16) -> Seq<char> {
    if code == 401 || code == 403 {
        "Codex 凭证已过期（HTTP 401/403）。请重新运行 `codex login`。"@
    } else if code == 429 {
        "触发 Codex 速率限制（HTTP 429）。请稍后重试。"@
    } else if 500 <= code <= 599 {
        "Codex 服务端错误（HTTP "@ + numeral(code as nat, 10) + "），将自动重试。"@
    } else {
        "Codex 请求失败（HTTP "@ + numeral(code as nat, 10) + "）"@
    }
}

/// What is said of an answer that says no: its status and, for the statuses that blame the
/// request, the reason that it gives.
pub open spec fn refusal_text(code: u16, body: Option<JsonV>) -> Seq<char> {
    match error_detail(body) {
        Some(detail) => if 400 <= code <= 499 {
            status_text(code) + " 详情: "@ + detail
        } else {
            status_text(code)
        },
        None => status_text(code),
    }
}

fn write_refusal(code: u16, body: &Option<Json>) -> (r: String)
    ensures
        r@ == refusal_text(code, opt_view(*body)),
{
    let mut out = if code == 401 || code == 403 {
        "Codex 凭证已过期（HTTP 401/403）。请重新运行 `codex login`。".to_string()
    } else if code == 429 {
        "触发 Codex 速率限制（HTTP 429）。请稍后重试。".to_string()
    } else if 500 <= code && code <= 599 {
        let mut text = "Codex 服务端错误（HTTP ".to_string();
        text.append(write_number(code as u128, 10).as_str());
        text.append("），将自动重试。");
        text
    } else {
        let mut text = "Codex 请求失败（HTTP ".to_string();
        text.append(write_number(code as u128, 10).as_str());
        text.append("）");
        text
    };
    if 400 <= code && code <= 499 {
        if let Some(detail) = extract_err_detail(body) {
            out.append(" 详情: ");
            out.append(detail.as_str());
        }
    }
    out
}

/// What the outcome of a request comes to: an answer, or a failure. A refusal is final unless its
/// status is worth trying again; so is an answer that is no JSON; no answer is worth trying again.
pub open spec fn judged(outcome: OutcomeV) -> Result<JsonV, FailureV> {
    match outcome {
        OutcomeV::Body(j) => Ok(j),
        OutcomeV::BadBody(why) => Err(
            FailureV { retryable: false, status: None, message: "解析响应失败: "@ + why },
        ),
        OutcomeV::Status(code, body) => Err(
            FailureV {
                retryable: is_retryable(code),
                status: Some(code),
                message: refusal_text(code, body),
            },
        ),
        OutcomeV::Transport(why) => Err(
            FailureV {
                retryable: true,
                status: None,
                message: "Codex 网络请求失败（可重试）: "@ + why,
            },
        ),
    }
}

/// Judges the outcome of a request.
pub fn post_codex(outcome: Outcome) -> (r: Result<Json, Failure>)
    ensures
        match r {
            Ok(j) => judged(outcome@) == Ok::<JsonV, FailureV>(j@),
            Err(f) => judged(outcome@) == Err::<JsonV, FailureV>(f@),
        },
{
    match outcome {
        Outcome::Body(j) => Ok(j),
        Outcome::BadBody(why) => Err(
            Failure {
                retryable: false,
                status: None,
                message: cat("解析响应失败: ", why.as_str()),
            },
        ),
        Outcome::Status(code, body) => Err(
            Failure {
                retryable: code == 429 || (500 <= code && code <= 599),
                status: Some(code),
                message: write_refusal(code, &body),
            },
        ),
        Outcome::Transport(why) => Err(
            Failure {
                retryable: true,
                status: None,
                message: cat("Codex 网络请求失败（可重试）: ", why.as_str()),
            },
        ),
    }
}

// ---------------------------------------------------------------------------
// The walk
// ---------------------------------------------------------------------------
/// Which request is under way: the first, the one with a renewed token, or a further try, the
/// first of which is number 0.
#[derive(Clone, Copy)]
pub enum Stage {
    First,
    Renewed,
    Retry(u32),
}

/// What is to be done next.
pub enum Action {
    /// Send the request with this token.
    Post { access: String, stage: Stage },
    /// Renew the token with this; the message is what is said where that fails.
    Refresh { refresh: String, message: String },
    /// Wait that long before the next try.
    Wait { millis: u64, attempt: u32 },
    /// Nothing: the call came to this.
    Done(Result<Json, String>),
}

/// What is to be done next, as a value.
pub enum ActionV {
    Post { access: Seq<char>, stage: Stage },
    Refresh { refresh: Seq<char>, message: Seq<char> },
    Wait { millis: u64, attempt: u32 },
    Done(Result<JsonV, Seq<char>>),
}

impl View for Action {
    type V = ActionV;

    open spec fn view(&self) -> ActionV {
        match *self {
            Action::Post { access, stage } => ActionV::Post { access: access@, stage },
            Action::Refresh { refresh, message } => ActionV::Refresh {
                refresh: refresh@,
                message: message@,
            },
            Action::Wait { millis, attempt } => ActionV::Wait { millis, attempt },
            Action::Done(Ok(j)) => ActionV::Done(Ok(j@)),
            Action::Done(Err(m)) => ActionV::Done(Err(m@)),
        }
    }
}

/// The first action of a call: without credentials there is nothing to do.
pub open spec fn first_action(auth: Option<AuthV>) -> ActionV {
    match auth {
        Some(a) => ActionV::Post { access: a.access, stage: Stage::First },
        None => ActionV::Done(
            Err(
                "未找到 Codex 登录凭证。请先运行 `codex login`，或设置环境变量 CODEX_ACCESS_TOKEN。"@,
            ),
        ),
    }
}

/// How long to wait after a failed try, in milliseconds.
pub open spec fn backoff(attempt: u32) -> u64 {
    if attempt == 0 {
        500
    } else {
        1000
    }
}

/// What follows a failed request.
///
/// The first request: where the token has expired and can be renewed, that; else, where the
/// failure is worth trying again, a further try at once. A further try: another one after a
/// wait, up to three in all. Everything else ends the call with what the failure says.
pub open spec fn after_failure(auth: AuthV, stage: Stage, failure: FailureV) -> ActionV {
    let give_up = ActionV::Done(Err(failure.message));
    match stage {
        Stage::First => match (failure.status == Some(401u16) && auth.file_backed, auth.refresh) {
            (true, Some(refresh)) => ActionV::Refresh { refresh, message: failure.message },
            _ => if failure.retryable {
                ActionV::Post { access: auth.access, stage: Stage::Retry(0) }
            } else {
                give_up
            },
        },
        Stage::Renewed => give_up,
        Stage::Retry(n) => if failure.retryable && n < 2 {
            ActionV::Wait { millis: backoff(n), attempt: n }
        } else {
            give_up
        },
    }
}

/// What follows a request.
pub open spec fn follow_post(auth: AuthV, stage: Stage, outcome: OutcomeV) -> ActionV {
    match judged(outcome) {
        Ok(body) => ActionV::Done(Ok(normalized(body))),
        Err(failure) => after_failure(auth, stage, failure),
    }
}

/// What follows the renewal of a token: one request with the new token, or the end.
pub open spec fn follow_refresh(message: Seq<char>, token: Option<Seq<char>>) -> ActionV {
    match token {
        Some(access) => ActionV::Post { access, stage: Stage::Renewed },
        None => ActionV::Done(Err(message)),
    }
}

/// What follows a wait: the next try.
pub open spec fn follow_wait(auth: AuthV, attempt: u32) -> ActionV {
    ActionV::Post { access: auth.access, stage: Stage::Retry((attempt + 1) as u32) }
}

/// Starts a call.
pub fn call_codex(auth: &Option<CodexAuth>) -> (r: Action)
    ensures
        r@ == first_action(crate::auth::opt_auth(*auth)),
{
    match auth {
        Some(a) => Action::Post { access: a.access.clone(), stage: Stage::First },
        None => Action::Done(
            Err(
                "未找到 Codex 登录凭证。请先运行 `codex login`，或设置环境变量 CODEX_ACCESS_TOKEN。".to_string(),
            ),
        ),
    }
}

/// Goes on after a request.
pub fn after_post(auth: &CodexAuth, stage: Stage, outcome: Outcome) -> (r: Action)
    ensures
        r@ == follow_post(auth@, stage, outcome@),
{
    let failure = match post_codex(outcome) {
        Ok(body) => {
            return Action::Done(Ok(normalize_body(&body)));
        },
        Err(f) => f,
    };
    match stage {
        Stage::First => {
            let expired = match failure.status {
                Some(code) => code == 401,
                None => false,
            };
            if expired && auth.file_backed {
                if let Some(refresh) = &auth.refresh {
                    return Action::Refresh { refresh: refresh.clone(), message: failure.message };
                }
            }
            if failure.retryable {
                Action::Post { access: auth.access.clone(), stage: Stage::Retry(0) }
            } else {
                Action::Done(Err(failure.message))
            }
        },
        Stage::Renewed => Action::Done(Err(failure.message)),
        Stage::Retry(n) => if failure.retryable && n < 2 {
            let millis: u64 = if n == 0 {
                500
            } else {
                1000
            };
            Action::Wait { millis, attempt: n }
        } else {
            Action::Done(Err(failure.message))
        },
    }
}

/// Goes on after the renewal of a token, which gave the new token or failed.
pub fn after_refresh(message: String, token: Option<String>) -> (r: Action)
    ensures
        r@ == follow_refresh(message@, opt_text(token)),
{
    match token {
        Some(access) => Action::Post { access, stage: Stage::Renewed },
        None => Action::Done(Err(message)),
    }
}

/// Goes on after a wait.
pub fn after_wait(auth: &CodexAuth, attempt: u32) -> (r: Action)
    requires
        attempt < u32::MAX,
    ensures
        r@ == follow_wait(auth@, attempt),
{
    Action::Post { access: auth.access.clone(), stage: Stage::Retry(attempt + 1) }
}

// ---------------------------------------------------------------------------
// Laws
// ---------------------------------------------------------------------------
/// What a walk came to: the tokens that requests were sent with, the milliseconds waited, how
/// often the token was renewed, and the end, where the outcomes given were enough to reach it.
pub struct Walk {
    pub posts: Seq<Seq<char>>,
    pub waited: nat,
    pub renewals: nat,
    pub end: Option<Result<JsonV, Seq<char>>>,
}

/// The walk from an action on, where the requests end one after the other as `outcomes` says,
/// and the renewal of the token gives `token`.
pub open spec fn walk(
    auth: AuthV,
    action: ActionV,
    outcomes: Seq<OutcomeV>,
    token: Option<Seq<char>>,
) -> Walk
    decreases
            outcomes.len(),
            (match action {
                ActionV::Post { .. } => 0int,
                ActionV::Refresh { .. } => 1int,
                ActionV::Wait { .. } => 1int,
                ActionV::Done(_) => 0int,
            }),
{
    match action {
        ActionV::Done(end) => Walk {
            posts: Seq::empty(),
            waited: 0,
            renewals: 0,
            end: Some(end),
        },
        ActionV::Post { access, stage } => if outcomes.len() == 0 {
            Walk { posts: Seq::empty(), waited: 0, renewals: 0, end: None }
        } else {
            let rest = walk(
                auth,
                follow_post(auth, stage, outcomes[0]),
                outcomes.skip(1),
                token,
            );
            Walk { posts: seq![access] + rest.posts, ..rest }
        },
        ActionV::Refresh { message, .. } => {
            let rest = walk(auth, follow_refresh(message, token), outcomes, token);
            Walk { renewals: rest.renewals + 1, ..rest }
        },
        ActionV::Wait { millis, attempt } => {
            let rest = walk(auth, follow_wait(auth, attempt), outcomes, token);
            Walk { waited: rest.waited + millis as nat, ..rest }
        },
    }
}

/// The whole walk of a call.
pub open spec fn call(auth: AuthV, outcomes: Seq<OutcomeV>, token: Option<Seq<char>>) -> Walk {
    walk(auth, first_action(Some(auth)), outcomes, token)
}

/// How many requests can still be sent.
pub open spec fn posts_ahead(action: ActionV) -> int {
    match action {
        ActionV::Post { stage: Stage::First, .. } => 4,
        ActionV::Post { stage: Stage::Renewed, .. } => 1,
        ActionV::Post { stage: Stage::Retry(n), .. } => if n < 3 {
            3 - n
        } else {
            1
        },
        ActionV::Refresh { .. } => 1,
        ActionV::Wait { attempt, .. } => if attempt < 2 {
            2 - attempt
        } else {
            1
        },
        ActionV::Done(_) => 0,
    }
}

/// How many milliseconds can still be waited.
pub open spec fn wait_ahead(action: ActionV) -> int {
    match action {
        ActionV::Post { stage: Stage::First, .. } => 1500,
        ActionV::Post { stage: Stage::Retry(0), .. } => 1500,
        ActionV::Post { stage: Stage::Retry(1), .. } => 1000,
        ActionV::Post { .. } => 0,
        ActionV::Refresh { .. } => 0,
        ActionV::Wait { millis, attempt } => millis + (if attempt == 0 {
            1000int
        } else {
            0
        }),
        ActionV::Done(_) => 0,
    }
}

/// How often the token can still be renewed.
pub open spec fn renewals_ahead(action: ActionV) -> int {
    match action {
        ActionV::Post { stage: Stage::First, .. } => 1,
        ActionV::Refresh { .. } => 1,
        _ => 0,
    }
}

/// Actions that a walk can come to: a wait follows one of the first two tries.
pub open spec fn is_reachable(action: ActionV) -> bool {
    match action {
        ActionV::Wait { millis, attempt } => attempt < 2 && millis == backoff(attempt),
        ActionV::Post { stage: Stage::Retry(n), .. } => n < 3,
        _ => true,
    }
}

proof fn lemma_walk_bounded(
    auth: AuthV,
    action: ActionV,
    outcomes: Seq<OutcomeV>,
    token: Option<Seq<char>>,
)
    requires
        is_reachable(action),
    ensures
        walk(auth, action, outcomes, token).posts.len() <= posts_ahead(action),
        walk(auth, action, outcomes, token).waited <= wait_ahead(action),
        walk(auth, action, outcomes, token).renewals <= renewals_ahead(action),
        outcomes.len() >= posts_ahead(action) ==> walk(auth, action, outcomes, token).end is Some,
    decreases
            outcomes.len(),
            (match action {
                ActionV::Post { .. } => 0int,
                ActionV::Refresh { .. } => 1int,
                ActionV::Wait { .. } => 1int,
                ActionV::Done(_) => 0int,
            }),
{
    match action {
        ActionV::Done(_) => {},
        ActionV::Post { access, stage } => if outcomes.len() > 0 {
            lemma_walk_bounded(
                auth,
                follow_post(auth, stage, outcomes[0]),
                outcomes.skip(1),
                token,
            );
        },
        ActionV::Refresh { message, .. } => {
            lemma_walk_bounded(auth, follow_refresh(message, token), outcomes, token);
        },
        ActionV::Wait { attempt, .. } => {
            lemma_walk_bounded(auth, follow_wait(auth, attempt), outcomes, token);
        },
    }
}

/// A call sends at most four requests, waits at most a second and a half, renews the token at
/// most once, and comes to an end.
pub proof fn lemma_call_bounded(auth: AuthV, outcomes: Seq<OutcomeV>, token: Option<Seq<char>>)
    ensures
        call(auth, outcomes, token).posts.len() <= 4,
        call(auth, outcomes, token).waited <= 1500,
        call(auth, outcomes, token).renewals <= 1,
        outcomes.len() >= 4 ==> call(auth, outcomes, token).end is Some,
{
    lemma_walk_bounded(auth, first_action(Some(auth)), outcomes, token);
}

/// A failure that is not worth trying again, and that no renewed token can mend, ends the call at
/// once with what it says.
pub proof fn lemma_fatal_failure(
    auth: AuthV,
    outcomes: Seq<OutcomeV>,
    token: Option<Seq<char>>,
    failure: FailureV,
)
    requires
        outcomes.len() > 0,
        judged(outcomes[0]) == Err::<JsonV, FailureV>(failure),
        !failure.retryable,
        failure.status != Some(401u16) || !auth.file_backed || auth.refresh is None,
    ensures
        call(auth, outcomes, token).posts == seq![auth.access],
        call(auth, outcomes, token).waited == 0,
        call(auth, outcomes, token).renewals == 0,
        call(auth, outcomes, token).end == Some(Err::<JsonV, Seq<char>>(failure.message)),
{
    reveal_with_fuel(walk, 2);
    assert(seq![auth.access] + Seq::<Seq<char>>::empty() =~= seq![auth.access]);
}

/// An expired token that can be renewed is renewed once, and the request is sent once more with
/// the new token; what that comes to is the end. Where the renewal fails, the end is the prompt
/// to log in again.
pub proof fn lemma_expired_token(
    auth: AuthV,
    outcomes: Seq<OutcomeV>,
    token: Option<Seq<char>>,
    body: Option<JsonV>,
)
    requires
        outcomes.len() > 1,
        outcomes[0] == OutcomeV::Status(401, body),
        auth.file_backed,
        auth.refresh is Some,
    ensures
        call(auth, outcomes, token).renewals == 1,
        call(auth, outcomes, token).waited == 0,
        token is Some ==> call(auth, outcomes, token).posts == seq![auth.access, token->0] && call(
            auth,
            outcomes,
            token,
        ).end == Some(
            match judged(outcomes[1]) {
                Ok(b) => Ok::<JsonV, Seq<char>>(normalized(b)),
                Err(f) => Err(f.message),
            },
        ),
        token is None ==> call(auth, outcomes, token).posts == seq![auth.access] && call(
            auth,
            outcomes,
            token,
        ).end == Some(Err::<JsonV, Seq<char>>(refusal_text(401, body))),
{
    reveal_with_fuel(walk, 5);
    assert(outcomes.skip(1)[0] == outcomes[1]);
    let c = call(auth, outcomes, token);
    if token is Some {
        assert(c.posts =~= seq![auth.access, token->0]);
    } else {
        assert(c.posts =~= seq![auth.access]);
    }
}

/// A failure worth trying again.
pub open spec fn is_transient(outcome: OutcomeV) -> bool {
    judged(outcome) matches Err(f) && f.retryable
}

/// After up to three failures worth trying again, an answer is taken. The second request follows
/// the first at once, the third comes after half a second, and the fourth after one more second.
pub proof fn lemma_answer_after_failures(
    auth: AuthV,
    outcomes: Seq<OutcomeV>,
    token: Option<Seq<char>>,
    n: int,
    body: JsonV,
)
    requires
        0 <= n <= 3,
        n < outcomes.len(),
        forall|i: int| 0 <= i < n ==> is_transient(#[trigger] outcomes[i]),
        outcomes[n] == OutcomeV::Body(body),
    ensures
        call(auth, outcomes, token).posts == Seq::new((n + 1) as nat, |i: int| auth.access),
        call(auth, outcomes, token).waited == (if n <= 1 {
            0nat
        } else if n == 2 {
            500
        } else {
            1500
        }),
        call(auth, outcomes, token).renewals == 0,
        call(auth, outcomes, token).end == Some(Ok::<JsonV, Seq<char>>(normalized(body))),
{
    reveal_with_fuel(walk, 8);
    lemma_skips(outcomes);
    if n > 0 {
        assert(is_transient(outcomes[0]));
    }
    if n > 1 {
        assert(is_transient(outcomes[1]));
    }
    if n > 2 {
        assert(is_transient(outcomes[2]));
    }
    assert(call(auth, outcomes, token).posts =~= Seq::new((n + 1) as nat, |i: int| auth.access));
}

/// Four failures worth trying again end the call with what the last one says.
pub proof fn lemma_four_failures(
    auth: AuthV,
    outcomes: Seq<OutcomeV>,
    token: Option<Seq<char>>,
    last: FailureV,
)
    requires
        outcomes.len() >= 4,
        forall|i: int| 0 <= i < 4 ==> is_transient(#[trigger] outcomes[i]),
        judged(outcomes[3]) == Err::<JsonV, FailureV>(last),
    ensures
        call(auth, outcomes, token).posts.len() == 4,
        call(auth, outcomes, token).waited == 1500,
        call(auth, outcomes, token).end == Some(Err::<JsonV, Seq<char>>(last.message)),
{
    reveal_with_fuel(walk, 8);
    lemma_skips(outcomes);
    assert(is_transient(outcomes[0]));
    assert(is_transient(outcomes[1]));
    assert(is_transient(outcomes[2]));
    assert(is_transient(outcomes[3]));
}

proof fn lemma_skips(outcomes: Seq<OutcomeV>)
    ensures
        outcomes.len() > 1 ==> outcomes.skip(1)[0] == outcomes[1],
        outcomes.len() > 2 ==> outcomes.skip(1).skip(1)[0] == outcomes[2],
        outcomes.len() > 3 ==> outcomes.skip(1).skip(1).skip(1)[0] == outcomes[3],
{
}

/// Outcomes after which the same request may yet succeed: too many requests, a failure of the
/// service, or no answer at all. What a refusal says in its body does not count.
pub open spec fn may_pass(outcome: OutcomeV) -> bool {
    match outcome {
        OutcomeV::Status(code, _) => code == 429 || (500 <= code && code <= 599),
        OutcomeV::Transport(_) => true,
        _ => false,
    }
}

/// Whether a failure is worth trying again depends on the status alone, or on there being no
/// answer: a refusal with a reason is judged as one without.
pub proof fn lemma_worth_trying_again(outcome: OutcomeV)
    ensures
        is_transient(outcome) == may_pass(outcome),
        outcome is Body || judged(outcome) is Err,
        outcome matches OutcomeV::Body(j) ==> judged(outcome) == Ok::<JsonV, FailureV>(j),
        outcome matches OutcomeV::Status(code, body) ==> {
            &&& judged(outcome)->Err_0.status == Some(code)
            &&& judged(outcome)->Err_0.retryable == (code == 429 || 500 <= code <= 599)
        },
        !(outcome is Status) && judged(outcome) is Err ==> judged(outcome)->Err_0.status is None,
{
}

/// Two refusals with the same status are treated alike, whatever they say.
pub proof fn lemma_reason_does_not_decide(
    auth: AuthV,
    stage: Stage,
    code: u16,
    body: Option<JsonV>,
    other: Option<JsonV>,
)
    ensures
        match (
            follow_post(auth, stage, OutcomeV::Status(code, body)),
            follow_post(auth, stage, OutcomeV::Status(code, other)),
        ) {
            (ActionV::Refresh { refresh: a, .. }, ActionV::Refresh { refresh: b, .. }) => a == b,
            (ActionV::Done(a), ActionV::Done(b)) => a is Err && b is Err,
            (a, b) => a == b && !(a is Done) && !(a is Refresh),
        },
{
}

/// A failure that may pass is followed by another request with the same token, at once.
pub proof fn lemma_sent_again(auth: AuthV, outcomes: Seq<OutcomeV>, token: Option<Seq<char>>)
    requires
        outcomes.len() >= 2,
        may_pass(outcomes[0]),
    ensures
        call(auth, outcomes, token).posts.len() >= 2,
        call(auth, outcomes, token).posts[0] == auth.access,
        call(auth, outcomes, token).posts[1] == auth.access,
        outcomes[1] matches OutcomeV::Body(body) ==> {
            &&& call(auth, outcomes, token).end == Some(Ok::<JsonV, Seq<char>>(normalized(body)))
            &&& call(auth, outcomes, token).waited == 0
        },
{
    reveal_with_fuel(walk, 3);
    lemma_skips(outcomes);
    let after = follow_post(auth, Stage::First, outcomes[0]);
    assert(after == ActionV::Post { access: auth.access, stage: Stage::Retry(0) });
    let rest = walk(auth, after, outcomes.skip(1), token);
    assert(rest.posts.len() >= 1 && rest.posts[0] == auth.access);
    let c = call(auth, outcomes, token);
    assert(c.posts == seq![auth.access] + rest.posts);
    assert(c.posts[1] == rest.posts[0]);
}

/// A failure that cannot pass, after up to three that may, ends the call with what it says. The
/// token is not renewed then, even where the failure says that it has expired.
pub proof fn lemma_stopped_by_failure(
    auth: AuthV,
    outcomes: Seq<OutcomeV>,
    token: Option<Seq<char>>,
    n: int,
    failure: FailureV,
)
    requires
        1 <= n <= 3,
        n < outcomes.len(),
        forall|i: int| 0 <= i < n ==> may_pass(#[trigger] outcomes[i]),
        !may_pass(outcomes[n]),
        judged(outcomes[n]) == Err::<JsonV, FailureV>(failure),
    ensures
        call(auth, outcomes, token).posts == Seq::new((n + 1) as nat, |i: int| auth.access),
        call(auth, outcomes, token).waited == (if n <= 1 {
            0nat
        } else if n == 2 {
            500
        } else {
            1500
        }),
        call(auth, outcomes, token).renewals == 0,
        call(auth, outcomes, token).end == Some(Err::<JsonV, Seq<char>>(failure.message)),
{
    reveal_with_fuel(walk, 8);
    lemma_skips(outcomes);
    assert(may_pass(outcomes[0]));
    if n > 1 {
        assert(may_pass(outcomes[1]));
    }
    if n > 2 {
        assert(may_pass(outcomes[2]));
    }
    assert(call(auth, outcomes, token).posts =~= Seq::new((n + 1) as nat, |i: int| auth.access));
}

/// After up to three failures that may pass, an answer is taken and read; four end the call with
/// what the last one says. All requests are sent with the same token.
pub proof fn lemma_tried_four_times(
    auth: AuthV,
    outcomes: Seq<OutcomeV>,
    token: Option<Seq<char>>,
    n: int,
)
    requires
        0 <= n <= 4,
        n <= outcomes.len(),
        forall|i: int| 0 <= i < n ==> may_pass(#[trigger] outcomes[i]),
    ensures
        n < 4 && n < outcomes.len() && outcomes[n] is Body ==> {
            &&& call(auth, outcomes, token).posts.len() == n + 1
            &&& call(auth, outcomes, token).end == Some(
                Ok::<JsonV, Seq<char>>(normalized(outcomes[n]->Body_0)),
            )
        },
        n == 4 ==> {
            &&& call(auth, outcomes, token).posts == seq![
                auth.access,
                auth.access,
                auth.access,
                auth.access,
            ]
            &&& call(auth, outcomes, token).waited == 1500
            &&& call(auth, outcomes, token).renewals == 0
            &&& judged(outcomes[3]) is Err
            &&& call(auth, outcomes, token).end == Some(
                Err::<JsonV, Seq<char>>(judged(outcomes[3])->Err_0.message),
            )
        },
{
    assert forall|i: int| 0 <= i < n implies is_transient(#[trigger] outcomes[i]) by {
        lemma_worth_trying_again(outcomes[i]);
    }
    if n < 4 && n < outcomes.len() && outcomes[n] is Body {
        lemma_answer_after_failures(auth, outcomes, token, n, outcomes[n]->Body_0);
    }
    if n == 4 {
        lemma_worth_trying_again(outcomes[3]);
        lemma_four_failures(auth, outcomes, token, judged(outcomes[3])->Err_0);
        reveal_with_fuel(walk, 8);
        lemma_skips(outcomes);
        assert(may_pass(outcomes[0]) && may_pass(outcomes[1]) && may_pass(outcomes[2])
            && may_pass(outcomes[3]));
        assert(call(auth, outcomes, token).posts =~= seq![
            auth.access,
            auth.access,
            auth.access,
            auth.access,
        ]);
    }
}

/// The answer gives a reason for saying no: a message, in its error.
pub open spec fn gives_reason(body: Option<JsonV>) -> bool {
    body matches Some(b) && b.get("error"@) matches Some(e) && e.str_at("message"@) is Some
}

/// What is said of a refusal that gives no reason: its status, and what to do about it.
pub proof fn lemma_refusal_without_reason(code: u16, body: Option<JsonV>)
    requires
        !gives_reason(body) || code < 400 || code > 499,
    ensures
        judged(OutcomeV::Status(code, body)) is Err,
        ({
            let said = judged(OutcomeV::Status(code, body))->Err_0.message;
            let digits = numeral(code as nat, 10);
            if code == 401 || code == 403 {
                said == "Codex 凭证已过期（HTTP 401/403）。请重新运行 `codex login`。"@
            } else if code == 429 {
                said == "触发 Codex 速率限制（HTTP 429）。请稍后重试。"@
            } else if 500 <= code <= 599 {
                said == "Codex 服务端错误（HTTP "@ + digits + "），将自动重试。"@
            } else {
                said == "Codex 请求失败（HTTP "@ + digits + "）"@
            }
        }),
{
}

/// A refusal that blames the request passes its reason on, behind what is said of the status: the
/// message always, the code before it and the parameter behind it where there are any.
pub proof fn lemma_refusal_with_reason(code: u16, body: JsonV, error: JsonV, message: Seq<char>)
    requires
        400 <= code <= 499,
        body.get("error"@) == Some(error),
        error.str_at("message"@) == Some(message),
    ensures
        ({
            let said = judged(OutcomeV::Status(code, Some(body)))->Err_0.message;
            let plain = judged(OutcomeV::Status(code, None))->Err_0.message;
            match (error.str_at("code"@), error.str_at("param"@)) {
                (None, None) => said == plain + " 详情: "@ + message,
                (Some(c), None) => said == plain + " 详情: "@ + (c + ": "@ + message),
                (None, Some(p)) => said == plain + " 详情: "@ + (message + " (param: "@ + p + ")"@),
                (Some(c), Some(p)) => said == plain + " 详情: "@ + (c + ": "@ + message
                    + " (param: "@ + p + ")"@),
            }
        }),
{
}

/// What is said of an answer that cannot be read, and of no answer: why.
pub proof fn lemma_no_answer(why: Seq<char>)
    ensures
        judged(OutcomeV::BadBody(why)) is Err,
        judged(OutcomeV::BadBody(why))->Err_0.message == "解析响应失败: "@ + why,
        !judged(OutcomeV::BadBody(why))->Err_0.retryable,
        judged(OutcomeV::Transport(why)) is Err,
        judged(OutcomeV::Transport(why))->Err_0.message == "Codex 网络请求失败（可重试）: "@ + why,
        judged(OutcomeV::Transport(why))->Err_0.retryable,
{
}

/// A call starts with a request where there are credentials, and else ends with the prompt to log
/// in.
pub proof fn lemma_call_starts(auth: AuthV)
    ensures
        first_action(Some(auth)) == (ActionV::Post { access: auth.access, stage: Stage::First }),
        first_action(None) == ActionV::Done(
            Err::<JsonV, Seq<char>>(
                "未找到 Codex 登录凭证。请先运行 `codex login`，或设置环境变量 CODEX_ACCESS_TOKEN。"@,
            ),
        ),
{
}

/// A request carries the token, the account where there is one, and nothing else that depends on
/// the credentials.
pub proof fn lemma_headers(access: Seq<char>, account_id: Option<Seq<char>>)
    ensures
        headers(access, account_id).len() == 4,
        headers(access, account_id)[0] == ("Authorization"@, "Bearer "@ + access),
        headers(access, account_id)[1].0 == "ChatGPT-Account-ID"@,
        account_id matches Some(id) ==> headers(access, account_id)[1].1 == id,
        account_id is None ==> headers(access, account_id)[1].1.len() == 0,
        headers(access, account_id)[2] == ("Content-Type"@, "application/json"@),
        headers(access, account_id)[3] == ("User-Agent"@, "codex-cli/0.147.0-alpha.6.5"@),
{
}

/// A request says under which session it is sent, for which model, and all the commands; no more.
pub proof fn lemma_payload(session: Seq<char>, commands: JsonV, key: Seq<char>)
    ensures
        payload(session, commands).get("id"@) == Some(JsonV::Str(session)),
        payload(session, commands).get("model"@) == Some(JsonV::Str("gpt-4o"@)),
        payload(session, commands).get("commands"@) == Some(commands),
        key != "id"@ && key != "model"@ && key != "commands"@ ==> payload(session, commands).get(
            key,
        ) is None,
{
    reveal_strlit("id");
    reveal_strlit("model");
    reveal_strlit("commands");
    assert("id"@.len() == 2 && "model"@.len() == 5 && "commands"@.len() == 8);
}

/// After a further try that fails and may yet pass, there is a wait: half a second after the
/// first, one second after the second; after the third, and after a failure that cannot pass, the
/// call ends.
pub proof fn lemma_after_try(auth: AuthV, n: u32, outcome: OutcomeV)
    requires
        !(outcome is Body),
    ensures
        may_pass(outcome) && n == 0 ==> follow_post(auth, Stage::Retry(n), outcome) == (
        ActionV::Wait { millis: 500, attempt: 0 }),
        may_pass(outcome) && n == 1 ==> follow_post(auth, Stage::Retry(n), outcome) == (
        ActionV::Wait { millis: 1000, attempt: 1 }),
        !may_pass(outcome) || n >= 2 ==> follow_post(auth, Stage::Retry(n), outcome)
            == ActionV::Done(Err::<JsonV, Seq<char>>(judged(outcome)->Err_0.message)),
        follow_post(auth, Stage::Renewed, outcome) == ActionV::Done(
            Err::<JsonV, Seq<char>>(judged(outcome)->Err_0.message),
        ),
{
}

/// The token is renewed after the first request, where that says that it has expired and the
/// credentials come from the file with something to renew them with; nowhere else.
pub proof fn lemma_when_renewed(auth: AuthV, stage: Stage, outcome: OutcomeV)
    ensures
        (follow_post(auth, stage, outcome) is Refresh) == (stage is First && auth.file_backed
            && auth.refresh is Some && (outcome matches OutcomeV::Status(code, _) && code == 401)),
        follow_post(auth, stage, outcome) matches ActionV::Refresh { refresh, message } ==> {
            &&& auth.refresh == Some(refresh)
            &&& message == judged(outcome)->Err_0.message
        },
{
}

/// An answer ends the call, at any stage, with what it holds.
pub proof fn lemma_answer_taken(auth: AuthV, stage: Stage, body: JsonV)
    ensures
        follow_post(auth, stage, OutcomeV::Body(body)) == ActionV::Done(
            Ok::<JsonV, Seq<char>>(normalized(body)),
        ),
{
}

/// A wait is followed by the next try with the same token; a renewal by one request with the new
/// token, or by the end with the message that it was asked for with.
pub proof fn lemma_what_follows(auth: AuthV, n: u32, message: Seq<char>, token: Seq<char>)
    requires
        n < u32::MAX,
    ensures
        follow_wait(auth, n) == (ActionV::Post {
            access: auth.access,
            stage: Stage::Retry((n + 1) as u32),
        }),
        follow_refresh(message, Some(token)) == (ActionV::Post {
            access: token,
            stage: Stage::Renewed,
        }),
        follow_refresh(message, None) == ActionV::Done(Err::<JsonV, Seq<char>>(message)),
{
}

} // verus!
