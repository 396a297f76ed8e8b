//! Anthropic Messages API client.
//!
//! Deliberately minimal over the system `curl`: the tool
//! makes a few dozen large requests per run, so connection reuse buys nothing
//! and avoiding a TLS stack keeps the build fast and portable.
//!
//! This module decides where the configuration comes from, what is sent, under what key a
//! response is cached and what a response means. Sending is the caller's.
use crate::json::{json_member, json_members, json_quoted, json_text, member, members, quote, text};
use crate::lists::{take_all, take_next};
use crate::number::{decimal, digit_char, digits, parse_u64, unsigned_of};
use crate::split::{join, joined, replace, replaced, replaced_concat, replaced_one};
use crate::text::{drop_while, only, owned, same, trim, trim_end_of, trimmed};
use crate::textmap::TextMap;
use crate::util::{digest_parts, framed, hex_of, sha256_of, truncate_chars, truncated};
use vstd::prelude::*;

verus! {

/// How the API is called.
#[derive(Debug)]
pub struct Config {
    pub base_url: String,
    pub api_key: String,
    pub model: String,
    pub max_tokens: u32,
    /// Give up on a single request after this many seconds.
    pub timeout_secs: u64,
    /// Total tokens this run may spend; 0 means unlimited.
    pub budget_tokens: usize,
}

/// The content of a [`Config`].
#[verifier::ext_equal]
pub struct ConfigView {
    pub base_url: Seq<char>,
    pub api_key: Seq<char>,
    pub model: Seq<char>,
    pub max_tokens: u32,
    pub timeout_secs: u64,
    pub budget_tokens: usize,
}

impl DeepView for Config {
    type V = ConfigView;

    open spec fn deep_view(&self) -> ConfigView {
        ConfigView {
            base_url: self.base_url.deep_view(),
            api_key: self.api_key.deep_view(),
            model: self.model.deep_view(),
            max_tokens: self.max_tokens,
            timeout_secs: self.timeout_secs,
            budget_tokens: self.budget_tokens,
        }
    }
}

impl Clone for Config {
    fn clone(&self) -> (r: Self)
        ensures
            r.deep_view() == self.deep_view(),
    {
        Config {
            base_url: self.base_url.clone(),
            api_key: self.api_key.clone(),
            model: self.model.clone(),
            max_tokens: self.max_tokens,
            timeout_secs: self.timeout_secs,
            budget_tokens: self.budget_tokens,
        }
    }
}

// ---------------------------------------------------------------------------
// Configuration

/// The value of a setting, where it is set to something.
pub open spec fn set_to(env: Map<Seq<char>, Seq<char>>, key: Seq<char>) -> Option<Seq<char>> {
    if env.dom().contains(key) && env[key].len() > 0 {
        Some(env[key])
    } else {
        None
    }
}

/// One setting, process environment winning over the settings file.
///
/// An empty environment variable counts as unset: exporting `FOO=` to clear a
/// value should fall through to the file, not select the empty string.
pub open spec fn picked(
    key: Seq<char>,
    env: Map<Seq<char>, Seq<char>>,
    settings: Map<Seq<char>, Seq<char>>,
) -> Option<Seq<char>> {
    match set_to(env, key) {
        Some(v) => Some(v),
        None => if settings.dom().contains(key) {
            Some(settings[key])
        } else {
            None
        },
    }
}

/// One setting, process environment winning over the settings file.
pub fn pick(key: &str, env: &TextMap<String>, settings: &TextMap<String>) -> (r: Option<String>)
    ensures
        r.deep_view() == picked(key@, env.deep_view(), settings.deep_view()),
{
    match env.get(key) {
        Some(v) => {
            if !v.as_str().is_empty() {
                return Some(v.clone());
            }
        },
        None => {},
    }
    match settings.get(key) {
        Some(v) => Some(v.clone()),
        None => None,
    }
}

/// The entries whose value is a string, as a map.
pub open spec fn string_entries(l: Seq<(Seq<char>, Seq<char>)>) -> Map<Seq<char>, Seq<char>>
    decreases l.len(),
{
    if l.len() == 0 {
        Map::empty()
    } else {
        let before = string_entries(l.drop_last());
        match json_text(l.last().1) {
            Some(v) => before.insert(l.last().0, v),
            None => before,
        }
    }
}

/// The `env` object of settings JSON, string values only.
pub open spec fn env_of(text: Seq<char>) -> Map<Seq<char>, Seq<char>> {
    match json_member(text, "env"@) {
        Some(raw) => match json_members(raw) {
            Some(l) => string_entries(l),
            None => Map::empty(),
        },
        None => Map::empty(),
    }
}

/// Parse the `env` object out of settings JSON, keeping only string values.
///
/// Best-effort by design: a malformed text means "no fallback available", never a hard
/// error — the process environment may well carry everything needed, and failing the run
/// over an unrelated syntax error in someone's editor config would be gratuitous.
pub fn env_block(settings: &str) -> (r: TextMap<String>)
    ensures
        r.deep_view() == env_of(settings@),
{
    let mut out: TextMap<String> = TextMap::new();
    match member(settings, "env") {
        Some(raw) => match members(raw.as_str()) {
            Some(l) => {
                let ghost d = l.deep_view();
                let mut i: usize = 0;
                while i < l.len()
                    invariant
                        i <= l.len(),
                        d == l.deep_view(),
                        out.deep_view() == string_entries(d.take(i as int)),
                    decreases l.len() - i,
                {
                    broadcast use take_next;

                    assert(d[i as int] == (l@[i as int].0@, l@[i as int].1@));
                    assert(d.take(i + 1).last() == d[i as int]);
                    match text(l[i].1.as_str()) {
                        Some(v) => {
                            out.insert(l[i].0.clone(), v);
                        },
                        None => {},
                    }
                    i += 1;
                }
                broadcast use take_all;

                assert(d.take(i as int) == d);
            },
            None => {},
        },
        None => {},
    }
    out
}

pub const DEFAULT_URL: &'static str = "https://api.anthropic.com";

/// A domain dossier for a large legacy area runs long: the state
/// table, rules and landmines together overflowed 8192 in practice,
/// and a truncated response is unparseable rather than merely short.
pub const MAX_TOKENS: u32 = 16384;

pub const DEFAULT_TIMEOUT: u64 = 300;

/// The seconds that a timeout in milliseconds gives, at least one.
pub open spec fn timeout_of(ms: Option<Seq<char>>) -> u64 {
    match ms {
        Some(t) => match unsigned_of(t) {
            Some(n) => if n / 1000 > 1 {
                (n / 1000) as u64
            } else {
                1
            },
            None => DEFAULT_TIMEOUT,
        },
        None => DEFAULT_TIMEOUT,
    }
}

pub open spec fn first_given(a: Option<Seq<char>>, b: Option<Seq<char>>) -> Option<Seq<char>> {
    match a {
        Some(x) => Some(x),
        None => b,
    }
}

pub open spec fn or_default(o: Option<Seq<char>>, d: Seq<char>) -> Seq<char> {
    match o {
        Some(x) => x,
        None => d,
    }
}

/// The credential, a token before a key.
pub open spec fn credential(
    env: Map<Seq<char>, Seq<char>>,
    settings: Map<Seq<char>, Seq<char>>,
) -> Option<Seq<char>> {
    first_given(
        picked("ANTHROPIC_AUTH_TOKEN"@, env, settings),
        picked("ANTHROPIC_API_KEY"@, env, settings),
    )
}

pub open spec fn config_of(
    model: Option<Seq<char>>,
    fallback: Seq<char>,
    env: Map<Seq<char>, Seq<char>>,
    settings: Map<Seq<char>, Seq<char>>,
) -> ConfigView {
    ConfigView {
        base_url: drop_while(
            or_default(picked("ANTHROPIC_BASE_URL"@, env, settings), DEFAULT_URL@),
            only('/'),
        ),
        api_key: credential(env, settings)->0,
        model: or_default(
            first_given(model, picked("ANTHROPIC_DEFAULT_SONNET_MODEL"@, env, settings)),
            fallback,
        ),
        max_tokens: MAX_TOKENS,
        timeout_secs: timeout_of(picked("API_TIMEOUT_MS"@, env, settings)),
        budget_tokens: 0,
    }
}

impl Config {
    /// Read configuration the way a coding session resolves it: the process
    /// environment first, then the `env` block of the settings file. `fallback` is the
    /// model where none is named.
    ///
    /// The file fallback is what makes `catlas deepen` work from a plain shell.
    /// Behind a company gateway the credential and base URL typically live only
    /// in that file — a session injects them into the processes it spawns, so
    /// without this a command that succeeded inside a session would fail when
    /// run by hand, for no visible reason.
    pub fn from_env(
        model: Option<&str>,
        fallback: &str,
        env: &TextMap<String>,
        settings: &TextMap<String>,
        settings_path: &str,
    ) -> (r: Result<Config, String>)
        ensures
            match r {
                Ok(c) => credential(env.deep_view(), settings.deep_view()) is Some && c.deep_view()
                    == config_of(
                    model.deep_view(),
                    fallback@,
                    env.deep_view(),
                    settings.deep_view(),
                ),
                Err(e) => credential(env.deep_view(), settings.deep_view()) is None && e@
                    == "未找到 API 凭证：请设置环境变量 ANTHROPIC_AUTH_TOKEN / ANTHROPIC_API_KEY，或在 "@
                    + settings_path@ + " 的 env 块中配置"@,
            },
    {
        let base_url = match pick("ANTHROPIC_BASE_URL", env, settings) {
            Some(u) => u,
            None => owned(DEFAULT_URL),
        };
        let token = pick("ANTHROPIC_AUTH_TOKEN", env, settings);
        let key = match token {
            Some(t) => Some(t),
            None => pick("ANTHROPIC_API_KEY", env, settings),
        };
        let api_key = match key {
            Some(k) => k,
            None => {
                let mut e = owned(
                    "未找到 API 凭证：请设置环境变量 ANTHROPIC_AUTH_TOKEN / ANTHROPIC_API_KEY，或在 ",
                );
                e.append(settings_path);
                e.append(" 的 env 块中配置");
                return Err(e);
            },
        };
        let name = match model {
            Some(m) => owned(m),
            None => match pick("ANTHROPIC_DEFAULT_SONNET_MODEL", env, settings) {
                Some(m) => m,
                None => owned(fallback),
            },
        };
        let timeout_secs: u64 = match pick("API_TIMEOUT_MS", env, settings) {
            Some(ms) => match parse_u64(ms.as_str()) {
                Some(n) => if n / 1000 > 1 {
                    n / 1000
                } else {
                    1
                },
                None => DEFAULT_TIMEOUT,
            },
            None => DEFAULT_TIMEOUT,
        };
        Ok(
            Config {
                base_url: owned(trim_end_of(base_url.as_str(), '/')),
                api_key,
                model: name,
                max_tokens: MAX_TOKENS,
                timeout_secs,
                budget_tokens: 0,
            },
        )
    }
}

// ---------------------------------------------------------------------------
// Requests

/// The JSON body that asks for one completion.
pub open spec fn request_text(cfg: ConfigView, system: Seq<char>, user: Seq<char>) -> Seq<char> {
    "{\"model\":"@
        + json_quoted(cfg.model)
        + ",\"max_tokens\":"@
        + digits(cfg.max_tokens as nat)
        + ",\"system\":"@
        + json_quoted(system)
        + ",\"messages\":[{\"role\":\"user\",\"content\":"@
        + json_quoted(user)
        + "}]}"@
}

/// The JSON body that asks for one completion.
pub fn request_body(cfg: &Config, system: &str, user: &str) -> (r: String)
    ensures
        r@ == request_text(cfg.deep_view(), system@, user@),
{
    let mut s = owned("{\"model\":");
    s.append(quote(cfg.model.as_str()).as_str());
    s.append(",\"max_tokens\":");
    s.append(decimal(cfg.max_tokens as u64).as_str());
    s.append(",\"system\":");
    s.append(quote(system).as_str());
    s.append(",\"messages\":[{\"role\":\"user\",\"content\":");
    s.append(quote(user).as_str());
    s.append("}]}");
    s
}


/// What a response is cached under: the prompt, the model and the token limit. Raising the
/// limit must invalidate the truncated responses produced under the old one.
pub open spec fn key_parts(cfg: ConfigView, system: Seq<char>, user: Seq<char>) -> Seq<Seq<char>> {
    seq![system, user, cfg.model, digits(cfg.max_tokens as nat)]
}

/// The key that a response is cached under.
pub fn prompt_hash(cfg: &Config, cache_system: &str, user: &str) -> (r: String)
    ensures
        r@ == hex_of(sha256_of(framed(key_parts(cfg.deep_view(), cache_system@, user@)))),
{
    let limit = decimal(cfg.max_tokens as u64);
    let mut parts: Vec<&str> = Vec::new();
    parts.push(cache_system);
    parts.push(user);
    parts.push(cfg.model.as_str());
    parts.push(limit.as_str());
    let list = parts.as_slice();
    assert(list.deep_view() =~= key_parts(cfg.deep_view(), cache_system@, user@));
    digest_parts(list)
}

pub open spec fn curl_escaped(key: Seq<char>) -> Seq<char> {
    replaced(replaced(key, '\\', "\\\\"@), '"', "\\\""@)
}

/// The curl configuration that carries the credential. It goes into a file rather than an
/// argument: command lines are world-readable through `/proc`, and leaking a credential to
/// every process on a shared build machine is not an acceptable default. Inside the quotes
/// only backslash and quote are escaped.
pub fn curl_config(api_key: &str) -> (r: String)
    ensures
        r@ == "header = \"x-api-key: "@ + curl_escaped(api_key@) + "\"\n"@,
{
    let a = replace(api_key, '\\', "\\\\");
    let b = replace(a.as_str(), '"', "\\\"");
    let mut s = owned("header = \"x-api-key: ");
    s.append(b.as_str());
    s.append("\"\n");
    s
}

/// The arguments of the curl call.
pub open spec fn curl_arguments(
    cfg: ConfigView,
    config_path: Seq<char>,
    body_path: Seq<char>,
) -> Seq<Seq<char>> {
    seq![
        "-sS"@,
        "--fail-with-body"@,
        "--max-time"@,
        digits(cfg.timeout_secs as nat),
        "-X"@,
        "POST"@,
        cfg.base_url + "/v1/messages"@,
        "-H"@,
        "content-type: application/json"@,
        "-H"@,
        "anthropic-version: 2023-06-01"@,
        "--config"@,
        config_path,
        "--data-binary"@,
        "@"@ + body_path,
    ]
}

/// The arguments of the curl call that posts the body to the Messages endpoint.
pub fn curl_args(cfg: &Config, config_path: &str, body_path: &str) -> (r: Vec<String>)
    ensures
        r.deep_view() == curl_arguments(cfg.deep_view(), config_path@, body_path@),
{
    let mut url = cfg.base_url.clone();
    url.append("/v1/messages");
    let mut data = owned("@");
    data.append(body_path);
    let mut v: Vec<String> = Vec::new();
    v.push(owned("-sS"));
    v.push(owned("--fail-with-body"));
    v.push(owned("--max-time"));
    v.push(decimal(cfg.timeout_secs));
    v.push(owned("-X"));
    v.push(owned("POST"));
    v.push(url);
    v.push(owned("-H"));
    v.push(owned("content-type: application/json"));
    v.push(owned("-H"));
    v.push(owned("anthropic-version: 2023-06-01"));
    v.push(owned("--config"));
    v.push(owned(config_path));
    v.push(owned("--data-binary"));
    v.push(data);
    assert(v.deep_view() =~= curl_arguments(cfg.deep_view(), config_path@, body_path@));
    v
}

/// What is said of a failed call. The body is included even on failure, and usually
/// explains why.
pub open spec fn failure_text(status: Seq<char>, stdout: Seq<char>, stderr: Seq<char>) -> Seq<char> {
    let head = "请求失败（"@ + status + "）："@ + truncated(trimmed(stdout), 400);
    if trimmed(stderr).len() == 0 {
        head
    } else {
        head + " / "@ + trimmed(stderr)
    }
}

pub fn request_failure(status: &str, stdout: &str, stderr: &str) -> (r: String)
    ensures
        r@ == failure_text(status@, stdout@, stderr@),
{
    let mut s = owned("请求失败（");
    s.append(status);
    s.append("）：");
    s.append(truncate_chars(trim(stdout), 400).as_str());
    let e = trim(stderr);
    if !e.is_empty() {
        s.append(" / ");
        s.append(e);
    }
    s
}

// ---------------------------------------------------------------------------
// Responses

/// Tokens that a call took.
#[derive(Debug, Clone, Copy, PartialEq, Eq, Structural)]
pub struct Usage {
    pub input_tokens: usize,
    pub output_tokens: usize,
}

impl DeepView for Usage {
    type V = Usage;

    open spec fn deep_view(&self) -> Usage {
        *self
    }
}

impl Default for Usage {
    fn default() -> (r: Self)
        ensures
            r == (Usage { input_tokens: 0, output_tokens: 0 }),
    {
        Usage { input_tokens: 0, output_tokens: 0 }
    }
}

/// An error that the API reports.
#[derive(Debug)]
pub struct ApiError {
    pub kind: String,
    pub message: String,
}

/// The content of a [`ApiError`].
#[verifier::ext_equal]
pub struct ApiErrorView {
    pub kind: Seq<char>,
    pub message: Seq<char>,
}

impl DeepView for ApiError {
    type V = ApiErrorView;

    open spec fn deep_view(&self) -> ApiErrorView {
        ApiErrorView {
            kind: self.kind.deep_view(),
            message: self.message.deep_view(),
        }
    }
}

impl Clone for ApiError {
    fn clone(&self) -> (r: Self)
        ensures
            r.deep_view() == self.deep_view(),
    {
        ApiError {
            kind: self.kind.clone(),
            message: self.message.clone(),
        }
    }
}

/// A response as it was decoded.
#[derive(Debug)]
pub struct Response {
    /// The texts of its blocks.
    pub content: Vec<String>,
    pub usage: Usage,
    pub stop_reason: Option<String>,
    /// The stop reason as diagnostics show it.
    pub stop_shown: String,
    pub error: Option<ApiError>,
}

/// The content of a [`Response`].
#[verifier::ext_equal]
pub struct ResponseView {
    pub content: Seq<Seq<char>>,
    pub usage: Usage,
    pub stop_reason: Option<Seq<char>>,
    pub stop_shown: Seq<char>,
    pub error: Option<ApiErrorView>,
}

impl DeepView for Response {
    type V = ResponseView;

    open spec fn deep_view(&self) -> ResponseView {
        ResponseView {
            content: self.content.deep_view(),
            usage: self.usage.deep_view(),
            stop_reason: self.stop_reason.deep_view(),
            stop_shown: self.stop_shown.deep_view(),
            error: self.error.deep_view(),
        }
    }
}

/// The text of a response, or why there is none: a reported error, no text, or a text
/// that was cut off. A truncated response yields invalid JSON downstream; it fails here
/// where the cause is still obvious.
pub open spec fn outcome_of(r: ResponseView, max_tokens: u32) -> Result<Seq<char>, Seq<char>> {
    let text = joined(r.content, ""@);
    match r.error {
        Some(e) => Err("API 返回错误 ["@ + e.kind + "]："@ + e.message),
        None => if trimmed(text).len() == 0 {
            Err("API 返回空内容（stop_reason="@ + r.stop_shown + "）"@)
        } else if r.stop_reason == Some("max_tokens"@) {
            Err(
                "响应在 max_tokens="@ + digits(max_tokens as nat)
                    + " 处被截断，请减小任务粒度或提高 max_tokens"@,
            )
        } else {
            Ok(text)
        },
    }
}

pub fn read_response(r: &Response, max_tokens: u32) -> (t: Result<String, String>)
    ensures
        outcome_of(r.deep_view(), max_tokens) == (match t {
            Ok(x) => Ok::<Seq<char>, Seq<char>>(x@),
            Err(e) => Err::<Seq<char>, Seq<char>>(e@),
        }),
{
    match &r.error {
        Some(e) => {
            let mut s = owned("API 返回错误 [");
            s.append(e.kind.as_str());
            s.append("]：");
            s.append(e.message.as_str());
            return Err(s);
        },
        None => {},
    }
    let text = join(&r.content, "");
    if trim(text.as_str()).is_empty() {
        let mut s = owned("API 返回空内容（stop_reason=");
        s.append(r.stop_shown.as_str());
        s.append("）");
        return Err(s);
    }
    let cut = match &r.stop_reason {
        Some(x) => same(x.as_str(), "max_tokens"),
        None => false,
    };
    if cut {
        let mut s = owned("响应在 max_tokens=");
        s.append(decimal(max_tokens as u64).as_str());
        s.append(" 处被截断，请减小任务粒度或提高 max_tokens");
        return Err(s);
    }
    Ok(text)
}

// ---------------------------------------------------------------------------
// Completions

/// A response kept from an earlier run.
#[derive(Debug)]
pub struct CachedResponse {
    pub text: String,
    pub usage: Usage,
}

/// The content of a [`CachedResponse`].
#[verifier::ext_equal]
pub struct CachedResponseView {
    pub text: Seq<char>,
    pub usage: Usage,
}

impl DeepView for CachedResponse {
    type V = CachedResponseView;

    open spec fn deep_view(&self) -> CachedResponseView {
        CachedResponseView {
            text: self.text.deep_view(),
            usage: self.usage.deep_view(),
        }
    }
}

impl Clone for CachedResponse {
    fn clone(&self) -> (r: Self)
        ensures
            r.deep_view() == self.deep_view(),
    {
        CachedResponse {
            text: self.text.clone(),
            usage: self.usage.clone(),
        }
    }
}

/// An answer of the model.
#[derive(Debug)]
pub struct Completion {
    pub text: String,
    pub usage: Usage,
    /// True when the response was served from the local cache.
    pub cached: bool,
    /// Cache key, so a caller can persist the response once it has validated it.
    pub prompt_hash: String,
    pub request_json: String,
    pub model: String,
}

/// The content of a [`Completion`].
#[verifier::ext_equal]
pub struct CompletionView {
    pub text: Seq<char>,
    pub usage: Usage,
    pub cached: bool,
    pub prompt_hash: Seq<char>,
    pub request_json: Seq<char>,
    pub model: Seq<char>,
}

impl DeepView for Completion {
    type V = CompletionView;

    open spec fn deep_view(&self) -> CompletionView {
        CompletionView {
            text: self.text.deep_view(),
            usage: self.usage.deep_view(),
            cached: self.cached,
            prompt_hash: self.prompt_hash.deep_view(),
            request_json: self.request_json.deep_view(),
            model: self.model.deep_view(),
        }
    }
}

impl Clone for Completion {
    fn clone(&self) -> (r: Self)
        ensures
            r.deep_view() == self.deep_view(),
    {
        Completion {
            text: self.text.clone(),
            usage: self.usage.clone(),
            cached: self.cached,
            prompt_hash: self.prompt_hash.clone(),
            request_json: self.request_json.clone(),
            model: self.model.clone(),
        }
    }
}

/// A row of the response cache.
#[derive(Debug)]
pub struct CacheRow {
    pub prompt_hash: String,
    pub model: String,
    pub request_json: String,
    pub response: String,
    pub usage: Usage,
}

/// The content of a [`CacheRow`].
#[verifier::ext_equal]
pub struct CacheRowView {
    pub prompt_hash: Seq<char>,
    pub model: Seq<char>,
    pub request_json: Seq<char>,
    pub response: Seq<char>,
    pub usage: Usage,
}

impl DeepView for CacheRow {
    type V = CacheRowView;

    open spec fn deep_view(&self) -> CacheRowView {
        CacheRowView {
            prompt_hash: self.prompt_hash.deep_view(),
            model: self.model.deep_view(),
            request_json: self.request_json.deep_view(),
            response: self.response.deep_view(),
            usage: self.usage.deep_view(),
        }
    }
}

impl Clone for CacheRow {
    fn clone(&self) -> (r: Self)
        ensures
            r.deep_view() == self.deep_view(),
    {
        CacheRow {
            prompt_hash: self.prompt_hash.clone(),
            model: self.model.clone(),
            request_json: self.request_json.clone(),
            response: self.response.clone(),
            usage: self.usage.clone(),
        }
    }
}

/// Whether a call is needed, given what the cache holds under the key.
pub open spec fn completed(
    cfg: ConfigView,
    hash: Seq<char>,
    cached: Option<CachedResponseView>,
) -> Option<CompletionView> {
    match cached {
        Some(c) => Some(
            CompletionView {
                text: c.text,
                usage: c.usage,
                cached: true,
                prompt_hash: hash,
                request_json: Seq::empty(),
                model: cfg.model,
            },
        ),
        None => None,
    }
}

/// The completion that the cache gives, where it holds one under the key. A cached
/// response is taken as it is, and nothing is sent.
pub fn from_cache(cfg: &Config, hash: &str, cached: &Option<CachedResponse>) -> (r: Option<
    Completion,
>)
    ensures
        r.deep_view() == completed(cfg.deep_view(), hash@, cached.deep_view()),
{
    match cached {
        Some(c) => {
            let d = Completion {
                text: c.text.clone(),
                usage: c.usage,
                cached: true,
                prompt_hash: owned(hash),
                request_json: String::new(),
                model: cfg.model.clone(),
            };
            assert(d.deep_view() =~= completed(cfg.deep_view(), hash@, cached.deep_view())->0);
            Some(d)
        },
        None => None,
    }
}

/// What is to be done for a prompt.
pub enum Step {
    /// Nothing: the cache has the answer.
    Done(Completion),
    /// Send the body; what comes back belongs under the key.
    Send { prompt_hash: String, body: String },
}

/// Decides on one prompt, given what the cache holds under its key.
///
/// Caching is keyed on the prompt, model and token limit, so re-running `deepen`
/// after a crash costs nothing for the tasks that did not change. This matters: a
/// full deepen over a large project is expensive enough that an operator will not
/// retry it if failures are not free.
pub fn complete(
    cfg: &Config,
    system: &str,
    user: &str,
    cached: &Option<CachedResponse>,
) -> (r: Step)
    ensures
        is_step(cfg.deep_view(), system@, user@, system@, cached.deep_view(), r),
{
    complete_keyed(cfg, system, user, system, cached)
}

/// Whether `r` is what is to be done: take the cached answer, or send the prompt.
pub open spec fn is_step(
    cfg: ConfigView,
    system: Seq<char>,
    user: Seq<char>,
    cache_system: Seq<char>,
    cached: Option<CachedResponseView>,
    r: Step,
) -> bool {
    let hash = hex_of(sha256_of(framed(key_parts(cfg, cache_system, user))));
    match r {
        Step::Done(c) => completed(cfg, hash, cached) == Some(c.deep_view()),
        Step::Send { prompt_hash, body } => cached is None && prompt_hash@ == hash && body@
            == request_text(cfg, system, user),
    }
}

/// As [`complete`], but cached under `cache_system` instead of `system`.
///
/// Retries reword the system prompt to push the model back into the required
/// format. Keying on the reworded prompt would file the eventual good response
/// where no later run looks for it, so a retry stores its result under the
/// original prompt's key — the response answers the same question either way.
pub fn complete_keyed(
    cfg: &Config,
    system: &str,
    user: &str,
    cache_system: &str,
    cached: &Option<CachedResponse>,
) -> (r: Step)
    ensures
        is_step(cfg.deep_view(), system@, user@, cache_system@, cached.deep_view(), r),
{
    let hash = prompt_hash(cfg, cache_system, user);
    match from_cache(cfg, hash.as_str(), cached) {
        Some(c) => Step::Done(c),
        None => Step::Send { prompt_hash: hash, body: request_body(cfg, system, user) },
    }
}

/// The completion that a response gives. It is not cached here: callers must validate it
/// first and then store what [`Completion::persist`] gives. Caching unconditionally would
/// pin a truncated or malformed response forever, so every later retry would replay the
/// same failure without ever reaching the API again.
pub fn from_response(cfg: &Config, hash: &str, body: &str, r: &Response) -> (c: Result<
    Completion,
    String,
>)
    ensures
        match c {
            Ok(d) => outcome_of(r.deep_view(), cfg.max_tokens) == Ok::<Seq<char>, Seq<char>>(
                d.deep_view().text,
            ) && d.deep_view() == (CompletionView {
                text: d.deep_view().text,
                usage: r.usage,
                cached: false,
                prompt_hash: hash@,
                request_json: body@,
                model: cfg.deep_view().model,
            }),
            Err(e) => outcome_of(r.deep_view(), cfg.max_tokens) == Err::<Seq<char>, Seq<char>>(e@),
        },
{
    match read_response(r, cfg.max_tokens) {
        Ok(text) => Ok(
            Completion {
                text,
                usage: r.usage,
                cached: false,
                prompt_hash: owned(hash),
                request_json: owned(body),
                model: cfg.model.clone(),
            },
        ),
        Err(e) => Err(e),
    }
}

impl Completion {
    /// The row to store this response for reuse; none where it came from the cache. Use it
    /// only after the response has been validated, so a malformed one is never replayed
    /// from cache.
    pub fn persist(&self) -> (r: Option<CacheRow>)
        ensures
            match r {
                Some(row) => !self.cached && row.deep_view() == (CacheRowView {
                    prompt_hash: self.prompt_hash@,
                    model: self.model@,
                    request_json: self.request_json@,
                    response: self.text@,
                    usage: self.usage,
                }),
                None => self.cached,
            },
    {
        if self.cached {
            return None;
        }
        Some(
            CacheRow {
                prompt_hash: self.prompt_hash.clone(),
                model: self.model.clone(),
                request_json: self.request_json.clone(),
                response: self.text.clone(),
                usage: self.usage,
            },
        )
    }
}

// ---------------------------------------------------------------------------
// Laws

/// The environment wins over the settings file, and an empty variable is no variable.
pub proof fn environment_wins(
    key: Seq<char>,
    env: Map<Seq<char>, Seq<char>>,
    settings: Map<Seq<char>, Seq<char>>,
)
    ensures
        env.dom().contains(key) && env[key].len() > 0 ==> picked(key, env, settings) == Some(
            env[key],
        ),
        !env.dom().contains(key) || env[key].len() == 0 ==> picked(key, env, settings) == picked(
            key,
            Map::empty(),
            settings,
        ),
{
}

/// What a quoted string of a curl configuration stands for: a backslash stands for the
/// character behind it. None where a quote would end the string.
pub open spec fn curl_read(p: Seq<char>) -> Option<Seq<char>>
    decreases p.len(),
{
    if p.len() == 0 {
        Some(Seq::empty())
    } else if p[0] == '"' {
        None
    } else if p[0] == '\\' {
        if p.len() == 1 {
            None
        } else {
            match curl_read(p.skip(2)) {
                Some(rest) => Some(seq![p[1]] + rest),
                None => None,
            }
        }
    } else {
        match curl_read(p.skip(1)) {
            Some(rest) => Some(seq![p[0]] + rest),
            None => None,
        }
    }
}

spec fn curl_char(c: char) -> Seq<char> {
    if c == '\\' || c == '"' {
        seq!['\\', c]
    } else {
        seq![c]
    }
}

proof fn curl_escaped_one(x: char)
    ensures
        curl_escaped(seq![x]) == curl_char(x),
{
    reveal_strlit("\\\\");
    reveal_strlit("\\\"");
    replaced_one(x, '\\', "\\\\"@);
    if x == '\\' {
        assert("\\\\"@ =~= seq!['\\'] + seq!['\\']);
        replaced_concat(seq!['\\'], seq!['\\'], '"', "\\\""@);
        replaced_one('\\', '"', "\\\""@);
    } else {
        replaced_one(x, '"', "\\\""@);
    }
    assert(curl_escaped(seq![x]) =~= curl_char(x));
}

/// The credential never stands on curl's command line: configurations that differ in nothing but
/// the key call curl with the same arguments.
pub proof fn key_stays_off_the_command_line(
    cfg: ConfigView,
    key: Seq<char>,
    config_path: Seq<char>,
    body_path: Seq<char>,
)
    ensures
        curl_arguments((ConfigView { api_key: key, ..cfg }), config_path, body_path)
            == curl_arguments(cfg, config_path, body_path),
{
}
/// The credential comes out of the configuration as it went in, whatever it holds.
pub proof fn credential_is_kept(key: Seq<char>)
    ensures
        curl_read(curl_escaped(key)) == Some(key),
    decreases key.len(),
{
    if key.len() == 0 {
        assert(curl_escaped(key) =~= Seq::empty());
        assert(key =~= Seq::empty());
    } else {
        let x = key[0];
        let rest = key.skip(1);
        assert(key =~= seq![x] + rest);
        replaced_concat(seq![x], rest, '\\', "\\\\"@);
        replaced_concat(
            replaced(seq![x], '\\', "\\\\"@),
            replaced(rest, '\\', "\\\\"@),
            '"',
            "\\\""@,
        );
        curl_escaped_one(x);
        credential_is_kept(rest);
        let e = curl_escaped(key);
        let k = curl_char(x).len() as int;
        assert(e.skip(k) =~= curl_escaped(rest));
        assert(e[0] == curl_char(x)[0]);
        if k == 2 {
            assert(e[1] == x);
        }
        assert(curl_read(e) =~= Some(seq![x] + rest));
    }
}

/// Two requests share a cache key's parts only where prompt, model and limit are the same.
pub proof fn cache_keys_tell_requests_apart(
    a: ConfigView,
    b: ConfigView,
    system: Seq<char>,
    user: Seq<char>,
    other_system: Seq<char>,
    other_user: Seq<char>,
)
    requires
        key_parts(a, system, user) == key_parts(b, other_system, other_user),
    ensures
        system == other_system,
        user == other_user,
        a.model == b.model,
        a.max_tokens == b.max_tokens,
{
    let p = key_parts(a, system, user);
    let q = key_parts(b, other_system, other_user);
    assert(p[0] == q[0] && p[1] == q[1] && p[2] == q[2] && p[3] == q[3]);
    digits_injective(a.max_tokens as nat, b.max_tokens as nat);
}

proof fn digits_injective(m: nat, n: nat)
    requires
        digits(m) == digits(n),
    ensures
        m == n,
    decreases m,
{
    let x = digits(m);
    let y = digits(n);
    assert(x.last() == y.last());
    assert(digit_char(m % 10) as u32 == 48 + m % 10);
    assert(digit_char(n % 10) as u32 == 48 + n % 10);
    assert(x.last() == digit_char(m % 10));
    assert(y.last() == digit_char(n % 10));
    assert(m % 10 == n % 10);
    if m >= 10 && n >= 10 {
        assert(x.drop_last() =~= digits(m / 10));
        assert(y.drop_last() =~= digits(n / 10));
        digits_injective(m / 10, n / 10);
    } else if m >= 10 {
        digits_nonempty(m / 10);
        assert(y.len() == 1);
    } else if n >= 10 {
        digits_nonempty(n / 10);
        assert(x.len() == 1);
    }
}

proof fn digits_nonempty(n: nat)
    ensures
        digits(n).len() > 0,
{
}

} // verus!

