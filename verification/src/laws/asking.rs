//! Asking a model: the settings, the request and the answer.
use crate::json::{json_member, json_members, json_quoted, json_text};
use crate::laws::basics::drop_all;
use crate::llm::client::{
    completed, config_of, credential, curl_arguments, env_of, failure_text, key_parts, outcome_of,
    picked, request_text, string_entries, timeout_of, CachedResponseView, ConfigView, ResponseView,
};
use crate::number::{digits, unsigned_of};
use crate::split::joined;
use crate::text::{drop_while, only, trimmed};
use crate::util::truncated;
use vstd::prelude::*;

verus! {

/// A setting is the environment's where that is not empty, else the file's.
pub proof fn settings_fall_back_to_the_file(
    key: Seq<char>,
    env: Map<Seq<char>, Seq<char>>,
    settings: Map<Seq<char>, Seq<char>>,
)
    ensures
        env.dom().contains(key) && env[key].len() > 0 ==> picked(key, env, settings) == Some(
            env[key],
        ),
        (!env.dom().contains(key) || env[key].len() == 0) && settings.dom().contains(key) ==> picked(
            key,
            env,
            settings,
        ) == Some(settings[key]),
        (!env.dom().contains(key) || env[key].len() == 0) && !settings.dom().contains(key)
            ==> picked(key, env, settings) is None,
{
}

/// The settings of a file are the texts in its `env` object; of two with one key the later
/// counts, and what is no text counts for nothing.
pub proof fn only_texts_are_settings(
    l: Seq<(Seq<char>, Seq<char>)>,
    k: Seq<char>,
    raw: Seq<char>,
    file: Seq<char>,
)
    ensures
        json_text(raw) is Some ==> string_entries(l.push((k, raw))) == string_entries(l).insert(
            k,
            json_text(raw)->0,
        ),
        json_text(raw) is None ==> string_entries(l.push((k, raw))) == string_entries(l),
        string_entries(Seq::empty()) == Map::<Seq<char>, Seq<char>>::empty(),
        json_member(file, "env"@) is None ==> env_of(file) == Map::<Seq<char>, Seq<char>>::empty(),
        json_member(file, "env"@) matches Some(o) ==> json_members(o) matches Some(es) ==> env_of(
            file,
        ) == string_entries(es),
{
    assert(l.push((k, raw)).drop_last() =~= l);
}

/// A timeout in milliseconds counts in whole seconds, at least one; what is no number leaves
/// five minutes.
pub proof fn timeouts_are_whole_seconds(ms: Seq<char>)
    ensures
        timeout_of(None) == 300,
        unsigned_of(ms) is None ==> timeout_of(Some(ms)) == 300,
        unsigned_of(ms) matches Some(n) ==> n < 2000 ==> timeout_of(Some(ms)) == 1,
        unsigned_of(ms) matches Some(n) ==> 2000 <= n <= u64::MAX ==> timeout_of(Some(ms)) * 1000
            <= n < (timeout_of(Some(ms)) + 1) * 1000,
{
    parsed_fits(ms);
}

proof fn parsed_fits(s: Seq<char>)
    ensures
        unsigned_of(s) matches Some(n) ==> n <= u64::MAX,
{
}

/// The configuration: the credential is the token, else the key; the address is the one that
/// is set, without slashes at its end; the model is the one asked for, else the one set, else
/// the fallback.
pub proof fn configurations_are_made_of_settings(
    model: Option<Seq<char>>,
    fallback: Seq<char>,
    env: Map<Seq<char>, Seq<char>>,
    settings: Map<Seq<char>, Seq<char>>,
    url: Seq<char>,
    slashes: Seq<char>,
)
    requires
        url.len() > 0 && url.last() != '/',
        forall|i: int| 0 <= i < slashes.len() ==> #[trigger] slashes[i] == '/',
    ensures
        ({
            let c = config_of(model, fallback, env, settings);
            let token = picked("ANTHROPIC_AUTH_TOKEN"@, env, settings);
            let key = picked("ANTHROPIC_API_KEY"@, env, settings);
            let set = picked("ANTHROPIC_DEFAULT_SONNET_MODEL"@, env, settings);
            &&& token is Some ==> credential(env, settings) == token && c.api_key == token->0
            &&& token is None && key is Some ==> credential(env, settings) == key && c.api_key
                == key->0
            &&& token is None && key is None ==> credential(env, settings) is None
            &&& picked("ANTHROPIC_BASE_URL"@, env, settings) == Some(url + slashes) ==> c.base_url
                == url
            &&& picked("ANTHROPIC_BASE_URL"@, env, settings) is None ==> c.base_url
                == "https://api.anthropic.com"@
            &&& model is Some ==> c.model == model->0
            &&& model is None && set is Some ==> c.model == set->0
            &&& model is None && set is None ==> c.model == fallback
            &&& c.max_tokens == 16384
            &&& c.timeout_secs == timeout_of(picked("API_TIMEOUT_MS"@, env, settings))
            &&& c.budget_tokens == 0
        }),
{
    drop_all(url, slashes, only('/'));
    assert(drop_while(url, only('/')) == url);
    reveal_strlit("https://api.anthropic.com");
    assert("https://api.anthropic.com"@.len() == 25);
    assert("https://api.anthropic.com"@[24] == 'm');
    assert("https://api.anthropic.com"@.last() == 'm');
    assert(drop_while("https://api.anthropic.com"@, only('/')) == "https://api.anthropic.com"@);
}

/// What a request asks, what its answer is kept under, and where it is sent.
pub proof fn requests_say_what_is_asked(
    cfg: ConfigView,
    system: Seq<char>,
    user: Seq<char>,
    config_path: Seq<char>,
    body_path: Seq<char>,
)
    ensures
        request_text(cfg, system, user) == "{\"model\":"@ + json_quoted(cfg.model)
            + ",\"max_tokens\":"@ + digits(cfg.max_tokens as nat) + ",\"system\":"@ + json_quoted(
            system,
        ) + ",\"messages\":[{\"role\":\"user\",\"content\":"@ + json_quoted(user) + "}]}"@,
        key_parts(cfg, system, user).contains(system),
        key_parts(cfg, system, user).contains(user),
        key_parts(cfg, system, user).contains(cfg.model),
        key_parts(cfg, system, user).contains(digits(cfg.max_tokens as nat)),
        curl_arguments(cfg, config_path, body_path).contains(cfg.base_url + "/v1/messages"@),
        curl_arguments(cfg, config_path, body_path).contains("@"@ + body_path),
        curl_arguments(cfg, config_path, body_path)[3] == digits(cfg.timeout_secs as nat),
        curl_arguments(cfg, config_path, body_path)[2] == "--max-time"@,
        curl_arguments(cfg, config_path, body_path)[12] == config_path,
        curl_arguments(cfg, config_path, body_path)[11] == "--config"@,
        curl_arguments(cfg, config_path, body_path)[13] == "--data-binary"@,
{
    let k = key_parts(cfg, system, user);
    assert(k[0] == system && k[1] == user && k[2] == cfg.model && k[3] == digits(
        cfg.max_tokens as nat,
    ));
    let a = curl_arguments(cfg, config_path, body_path);
    assert(a[6] == cfg.base_url + "/v1/messages"@);
    assert(a[14] == "@"@ + body_path);
}

/// An answer is its text, unless an error is reported, there is no text, or it was cut off.
pub proof fn answers_are_whole_texts(r: ResponseView, max_tokens: u32, a: Seq<char>, b: Seq<char>)
    ensures
        r.error matches Some(e) ==> outcome_of(r, max_tokens) == Err::<Seq<char>, Seq<char>>(
            "API 返回错误 ["@ + e.kind + "]："@ + e.message,
        ),
        r.error is None && trimmed(joined(r.content, ""@)).len() == 0 ==> outcome_of(r, max_tokens)
            == Err::<Seq<char>, Seq<char>>("API 返回空内容（stop_reason="@ + r.stop_shown + "）"@),
        r.error is None && trimmed(joined(r.content, ""@)).len() > 0 && r.stop_reason == Some(
            "max_tokens"@,
        ) ==> outcome_of(r, max_tokens) is Err,
        r.error is None && trimmed(joined(r.content, ""@)).len() > 0 && r.stop_reason != Some(
            "max_tokens"@,
        ) ==> outcome_of(r, max_tokens) == Ok::<Seq<char>, Seq<char>>(joined(r.content, ""@)),
        r.content == seq![a] ==> joined(r.content, ""@) == a,
        r.content == seq![a, b] ==> joined(r.content, ""@) == a + b,
{
    reveal_strlit("");
    reveal_with_fuel(joined, 3);
    assert(seq![a, b].drop_last() =~= seq![a]);
    assert(joined(seq![a, b], ""@) =~= a + b);
}

/// A cached answer is taken as it is, under its key, and nothing is sent for it.
pub proof fn cached_answers_are_taken(
    cfg: ConfigView,
    hash: Seq<char>,
    cached: Option<CachedResponseView>,
)
    ensures
        completed(cfg, hash, cached) is Some <==> cached is Some,
        cached matches Some(c) ==> {
            let r = completed(cfg, hash, cached)->0;
            r.text == c.text && r.usage == c.usage && r.cached && r.prompt_hash == hash
                && r.request_json.len() == 0 && r.model == cfg.model
        },
{
}

/// A failure is told with its status, what was answered and, where there is any, what was
/// said of it.
pub proof fn failures_are_told(status: Seq<char>, out: Seq<char>, err: Seq<char>)
    ensures
        trimmed(err).len() == 0 ==> failure_text(status, out, err) == "请求失败（"@ + status + "）："@
            + truncated(trimmed(out), 400),
        trimmed(err).len() > 0 ==> failure_text(status, out, err) == "请求失败（"@ + status + "）："@
            + truncated(trimmed(out), 400) + " / "@ + trimmed(err),
{
}

} // verus!
