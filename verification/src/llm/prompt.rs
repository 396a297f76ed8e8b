//! System prompts and response schemas for the L2 narrative layer.
//!
//! Every prompt enforces the same contract: answer only from the evidence given,
//! mark anything uncertain as `UNKNOWN` rather than inferring it, and return JSON
//! that names the evidence each claim rests on. This is what keeps the generated
//! documentation auditable instead of merely plausible.
use crate::number::{decimal_usize, digits};
use crate::text::{
    after_prefix, chars_of, ends_with, find_char, first_of, has_suffix, last_at, owned, rfind_str,
    string_of, strip_prefix, trim, trim_end, trimmed, trimmed_end,
};
use vstd::prelude::*;

verus! {

/// Shared preamble. Stated once, referenced by every task.
pub const GROUND_RULES: &'static str = "你是一位资深的代码考古学家，正在为一个缺乏文档的存量老项目重建业务领域知识。\n\n严格遵守以下规则：\n1. **只依据给定证据作答**。证据包括代码注释、枚举与常量定义、表结构、接口签名、调用链路、git 提交记录。不要依赖你对同类业务的一般印象去填补空白。\n2. **不确定就写 UNKNOWN**，不要猜。一条标注 UNKNOWN 的条目比一条看起来合理但错误的描述有用得多——读者会去查代码，而错误描述会让他们跳过验证。\n3. **区分「代码这样写」和「业务这样要求」**。只有注释或提交信息明确说明意图时，才可以描述业务意图；否则只描述代码行为。\n4. **保留原始中文术语**。项目里的「特价」「满减」「整件购」「控销」等词是团队的通用语，不要翻译或改写成同义词。\n5. 输出中文。除标识符、表名、字段名外不要夹杂英文。\n6. 只输出 JSON，不要加 Markdown 代码围栏，不要有任何解释性前言或后记。";

/// Glossary extraction: business vocabulary and the code it maps to.
pub const GLOSSARY_TASK: &'static str = "\n\n本次任务：从证据中提取**业务术语表**。\n\n只收录满足以下条件的术语：\n- 是业务概念（活动类型、状态、角色、规则名称），而非技术概念（DTO、拦截器、连接池）\n- 在证据中有明确定义或足以推断含义的上下文\n\n输出 JSON：\n{\n  \"terms\": [\n    {\n      \"term\": \"术语原文，保留项目里的写法\",\n      \"definition\": \"一到两句定义。只写证据支持的内容\",\n      \"aliases\": [\"同一概念在代码或注释里的其它叫法\"],\n      \"code_refs\": [\"对应的标识符、枚举值、表名或字段名\"],\n      \"confidence\": \"high | medium | low\"\n    }\n  ]\n}\n\n宁缺毋滥：5 条准确的术语胜过 20 条含糊的。";

/// Domain dossier: what this area does, how state moves, where the traps are.
pub const DOSSIER_TASK: &'static str = "\n\n本次任务：为一个业务领域写**领域档案**，读者是刚接手这块代码的工程师。\n\n输出 JSON：\n{\n  \"responsibility\": \"这个领域负责什么。2-4 句，说清它在整个系统里的位置\",\n  \"key_concepts\": [\n    {\"name\": \"核心概念名\", \"description\": \"它是什么、为什么存在\"}\n  ],\n  \"lifecycle\": {\n    \"description\": \"主要业务对象的生命周期概述，没有足够证据时填 UNKNOWN\",\n    \"states\": [\n      {\"state\": \"状态名\", \"code_value\": \"对应的枚举值或常量值\", \"meaning\": \"业务含义\", \"transitions_to\": [\"可以流转到的状态\"]}\n    ]\n  },\n  \"rules\": [\n    {\"rule\": \"一条业务规则\", \"evidence\": \"支持这条规则的具体注释、常量或代码位置\", \"confidence\": \"high | medium | low\"}\n  ],\n  \"landmines\": [\n    {\"issue\": \"接手这块代码容易踩的坑\", \"why\": \"为什么会踩\", \"evidence\": \"依据\"}\n  ],\n  \"open_questions\": [\"证据不足、需要问业务方或老同事才能确认的问题\"]\n}\n\n关于各字段的要求：\n- `lifecycle.states` 优先依据枚举与常量里的状态定义和注释；流转关系只在代码或注释明确体现时才写。\n- `rules` 只写业务规则（谁在什么条件下能做什么、金额与库存怎么算、互斥关系），不要写代码结构说明。\n- `landmines` 是这份文档最有价值的部分。重点关注：命名与实际行为不一致、同名概念在不同模块含义不同、已废弃但仍在运行的路径、注释里明确写了「这个没用」「有问题」的地方、改动最频繁的文件透露出的反复踩坑点。\n- `open_questions` 不要客套，直接列出真正拦路的疑问。";

/// Capability narrative for a single entrypoint.
pub const CAPABILITY_TASK: &'static str = "\n\n本次任务：说明**一个入口**做了什么，读者需要判断能不能调用它、调用后会发生什么。\n\n输出 JSON：\n{\n  \"summary\": \"一句话说清这个入口的作用\",\n  \"inputs\": [{\"name\": \"参数名\", \"meaning\": \"业务含义\", \"required\": true}],\n  \"behavior\": \"按调用链路描述实际执行过程，点明关键分支\",\n  \"side_effects\": [\"写了哪些表、发了哪些消息、改了哪些状态\"],\n  \"rules\": [\"调用时必须满足的前置条件或业务约束\"],\n  \"caveats\": [\"调用者容易误解的地方\"]\n}";

fn with_rules(task: &str) -> (r: String)
    ensures
        r@ == GROUND_RULES@ + task@,
{
    let mut s = owned(GROUND_RULES);
    s.append(task);
    s
}

/// Glossary extraction: business vocabulary and the code it maps to.
pub fn glossary_system() -> (r: String)
    ensures
        r@ == GROUND_RULES@ + GLOSSARY_TASK@,
{
    with_rules(GLOSSARY_TASK)
}

/// Domain dossier: what this area does, how state moves, where the traps are.
pub fn dossier_system() -> (r: String)
    ensures
        r@ == GROUND_RULES@ + DOSSIER_TASK@,
{
    with_rules(DOSSIER_TASK)
}

/// Capability narrative for a single entrypoint.
pub fn capability_system() -> (r: String)
    ensures
        r@ == GROUND_RULES@ + CAPABILITY_TASK@,
{
    with_rules(CAPABILITY_TASK)
}

// ---------------------------------------------------------------------------
// Schemas

/// The terms that a model found.
#[derive(Debug)]
pub struct GlossaryResponse {
    pub terms: Vec<GlossaryTerm>,
}

/// The content of a [`GlossaryResponse`].
#[verifier::ext_equal]
pub struct GlossaryResponseView {
    pub terms: Seq<GlossaryTermView>,
}

impl DeepView for GlossaryResponse {
    type V = GlossaryResponseView;

    open spec fn deep_view(&self) -> GlossaryResponseView {
        GlossaryResponseView {
            terms: self.terms.deep_view(),
        }
    }
}

impl Clone for GlossaryResponse {
    fn clone(&self) -> (r: Self)
        ensures
            r.deep_view() == self.deep_view(),
    {
        GlossaryResponse {
            terms: self.terms.clone(),
        }
    }
}

/// One business term.
#[derive(Debug)]
pub struct GlossaryTerm {
    pub term: String,
    pub definition: String,
    pub aliases: Vec<String>,
    pub code_refs: Vec<String>,
    pub confidence: Option<String>,
}

/// The content of a [`GlossaryTerm`].
#[verifier::ext_equal]
pub struct GlossaryTermView {
    pub term: Seq<char>,
    pub definition: Seq<char>,
    pub aliases: Seq<Seq<char>>,
    pub code_refs: Seq<Seq<char>>,
    pub confidence: Option<Seq<char>>,
}

impl DeepView for GlossaryTerm {
    type V = GlossaryTermView;

    open spec fn deep_view(&self) -> GlossaryTermView {
        GlossaryTermView {
            term: self.term.deep_view(),
            definition: self.definition.deep_view(),
            aliases: self.aliases.deep_view(),
            code_refs: self.code_refs.deep_view(),
            confidence: self.confidence.deep_view(),
        }
    }
}

impl Clone for GlossaryTerm {
    fn clone(&self) -> (r: Self)
        ensures
            r.deep_view() == self.deep_view(),
    {
        GlossaryTerm {
            term: self.term.clone(),
            definition: self.definition.clone(),
            aliases: self.aliases.clone(),
            code_refs: self.code_refs.clone(),
            confidence: self.confidence.clone(),
        }
    }
}

/// What a model says of a domain.
#[derive(Debug)]
pub struct DossierResponse {
    pub responsibility: String,
    pub key_concepts: Vec<Concept>,
    pub lifecycle: Option<Lifecycle>,
    pub rules: Vec<Rule>,
    pub landmines: Vec<Landmine>,
    pub open_questions: Vec<String>,
}

/// The content of a [`DossierResponse`].
#[verifier::ext_equal]
pub struct DossierResponseView {
    pub responsibility: Seq<char>,
    pub key_concepts: Seq<ConceptView>,
    pub lifecycle: Option<LifecycleView>,
    pub rules: Seq<RuleView>,
    pub landmines: Seq<LandmineView>,
    pub open_questions: Seq<Seq<char>>,
}

impl DeepView for DossierResponse {
    type V = DossierResponseView;

    open spec fn deep_view(&self) -> DossierResponseView {
        DossierResponseView {
            responsibility: self.responsibility.deep_view(),
            key_concepts: self.key_concepts.deep_view(),
            lifecycle: self.lifecycle.deep_view(),
            rules: self.rules.deep_view(),
            landmines: self.landmines.deep_view(),
            open_questions: self.open_questions.deep_view(),
        }
    }
}

impl Clone for DossierResponse {
    fn clone(&self) -> (r: Self)
        ensures
            r.deep_view() == self.deep_view(),
    {
        DossierResponse {
            responsibility: self.responsibility.clone(),
            key_concepts: self.key_concepts.clone(),
            lifecycle: self.lifecycle.clone(),
            rules: self.rules.clone(),
            landmines: self.landmines.clone(),
            open_questions: self.open_questions.clone(),
        }
    }
}

/// A concept that a domain rests on.
#[derive(Debug)]
pub struct Concept {
    pub name: String,
    pub description: String,
}

/// The content of a [`Concept`].
#[verifier::ext_equal]
pub struct ConceptView {
    pub name: Seq<char>,
    pub description: Seq<char>,
}

impl DeepView for Concept {
    type V = ConceptView;

    open spec fn deep_view(&self) -> ConceptView {
        ConceptView {
            name: self.name.deep_view(),
            description: self.description.deep_view(),
        }
    }
}

impl Clone for Concept {
    fn clone(&self) -> (r: Self)
        ensures
            r.deep_view() == self.deep_view(),
    {
        Concept {
            name: self.name.clone(),
            description: self.description.clone(),
        }
    }
}

/// How the state of a domain moves.
#[derive(Debug)]
pub struct Lifecycle {
    pub description: String,
    pub states: Vec<State>,
}

/// The content of a [`Lifecycle`].
#[verifier::ext_equal]
pub struct LifecycleView {
    pub description: Seq<char>,
    pub states: Seq<StateView>,
}

impl DeepView for Lifecycle {
    type V = LifecycleView;

    open spec fn deep_view(&self) -> LifecycleView {
        LifecycleView {
            description: self.description.deep_view(),
            states: self.states.deep_view(),
        }
    }
}

impl Clone for Lifecycle {
    fn clone(&self) -> (r: Self)
        ensures
            r.deep_view() == self.deep_view(),
    {
        Lifecycle {
            description: self.description.clone(),
            states: self.states.clone(),
        }
    }
}

/// One state of a lifecycle.
#[derive(Debug)]
pub struct State {
    pub state: String,
    pub code_value: Option<String>,
    pub meaning: String,
    pub transitions_to: Vec<String>,
}

/// The content of a [`State`].
#[verifier::ext_equal]
pub struct StateView {
    pub state: Seq<char>,
    pub code_value: Option<Seq<char>>,
    pub meaning: Seq<char>,
    pub transitions_to: Seq<Seq<char>>,
}

impl DeepView for State {
    type V = StateView;

    open spec fn deep_view(&self) -> StateView {
        StateView {
            state: self.state.deep_view(),
            code_value: self.code_value.deep_view(),
            meaning: self.meaning.deep_view(),
            transitions_to: self.transitions_to.deep_view(),
        }
    }
}

impl Clone for State {
    fn clone(&self) -> (r: Self)
        ensures
            r.deep_view() == self.deep_view(),
    {
        State {
            state: self.state.clone(),
            code_value: self.code_value.clone(),
            meaning: self.meaning.clone(),
            transitions_to: self.transitions_to.clone(),
        }
    }
}

/// A business rule.
#[derive(Debug)]
pub struct Rule {
    pub rule: String,
    pub evidence: Option<String>,
    pub confidence: Option<String>,
}

/// The content of a [`Rule`].
#[verifier::ext_equal]
pub struct RuleView {
    pub rule: Seq<char>,
    pub evidence: Option<Seq<char>>,
    pub confidence: Option<Seq<char>>,
}

impl DeepView for Rule {
    type V = RuleView;

    open spec fn deep_view(&self) -> RuleView {
        RuleView {
            rule: self.rule.deep_view(),
            evidence: self.evidence.deep_view(),
            confidence: self.confidence.deep_view(),
        }
    }
}

impl Clone for Rule {
    fn clone(&self) -> (r: Self)
        ensures
            r.deep_view() == self.deep_view(),
    {
        Rule {
            rule: self.rule.clone(),
            evidence: self.evidence.clone(),
            confidence: self.confidence.clone(),
        }
    }
}

/// A trap for whoever takes the code over.
#[derive(Debug)]
pub struct Landmine {
    pub issue: String,
    pub why: String,
    pub evidence: Option<String>,
}

/// The content of a [`Landmine`].
#[verifier::ext_equal]
pub struct LandmineView {
    pub issue: Seq<char>,
    pub why: Seq<char>,
    pub evidence: Option<Seq<char>>,
}

impl DeepView for Landmine {
    type V = LandmineView;

    open spec fn deep_view(&self) -> LandmineView {
        LandmineView {
            issue: self.issue.deep_view(),
            why: self.why.deep_view(),
            evidence: self.evidence.deep_view(),
        }
    }
}

impl Clone for Landmine {
    fn clone(&self) -> (r: Self)
        ensures
            r.deep_view() == self.deep_view(),
    {
        Landmine {
            issue: self.issue.clone(),
            why: self.why.clone(),
            evidence: self.evidence.clone(),
        }
    }
}

/// Capability narrative for a single entrypoint, mirroring `capability_system`.
#[derive(Debug)]
pub struct CapabilityResponse {
    pub summary: String,
    pub inputs: Vec<CapabilityInput>,
    pub behavior: String,
    pub side_effects: Vec<String>,
    pub rules: Vec<String>,
    pub caveats: Vec<String>,
}

/// The content of a [`CapabilityResponse`].
#[verifier::ext_equal]
pub struct CapabilityResponseView {
    pub summary: Seq<char>,
    pub inputs: Seq<CapabilityInputView>,
    pub behavior: Seq<char>,
    pub side_effects: Seq<Seq<char>>,
    pub rules: Seq<Seq<char>>,
    pub caveats: Seq<Seq<char>>,
}

impl DeepView for CapabilityResponse {
    type V = CapabilityResponseView;

    open spec fn deep_view(&self) -> CapabilityResponseView {
        CapabilityResponseView {
            summary: self.summary.deep_view(),
            inputs: self.inputs.deep_view(),
            behavior: self.behavior.deep_view(),
            side_effects: self.side_effects.deep_view(),
            rules: self.rules.deep_view(),
            caveats: self.caveats.deep_view(),
        }
    }
}

impl Clone for CapabilityResponse {
    fn clone(&self) -> (r: Self)
        ensures
            r.deep_view() == self.deep_view(),
    {
        CapabilityResponse {
            summary: self.summary.clone(),
            inputs: self.inputs.clone(),
            behavior: self.behavior.clone(),
            side_effects: self.side_effects.clone(),
            rules: self.rules.clone(),
            caveats: self.caveats.clone(),
        }
    }
}

/// One parameter of an entrypoint.
#[derive(Debug)]
pub struct CapabilityInput {
    pub name: String,
    pub meaning: String,
    pub required: bool,
}

/// The content of a [`CapabilityInput`].
#[verifier::ext_equal]
pub struct CapabilityInputView {
    pub name: Seq<char>,
    pub meaning: Seq<char>,
    pub required: bool,
}

impl DeepView for CapabilityInput {
    type V = CapabilityInputView;

    open spec fn deep_view(&self) -> CapabilityInputView {
        CapabilityInputView {
            name: self.name.deep_view(),
            meaning: self.meaning.deep_view(),
            required: self.required,
        }
    }
}

impl Clone for CapabilityInput {
    fn clone(&self) -> (r: Self)
        ensures
            r.deep_view() == self.deep_view(),
    {
        CapabilityInput {
            name: self.name.clone(),
            meaning: self.meaning.clone(),
            required: self.required,
        }
    }
}

// ---------------------------------------------------------------------------
// Finding the JSON in a response

/// The text inside a code fence, or all of it where there is none.
pub open spec fn unfenced(text: Seq<char>) -> Seq<char> {
    let t = trimmed(text);
    match after_prefix(t, "```"@) {
        None => t,
        Some(rest) => {
            // An optional language tag stands on the opening fence.
            let body = match first_of(rest, '\n') {
                Some(i) => rest.skip(i + 1),
                None => rest,
            };
            match last_at(body, "```"@) {
                Some(j) => trimmed(body.take(j)),
                None => trimmed(body),
            }
        },
    }
}

fn strip_fence(text: &str) -> (r: String)
    ensures
        r@ == unfenced(text@),
{
    let t = trim(text);
    match strip_prefix(t, "```") {
        None => owned(t),
        Some(rest) => {
            let n: usize = rest.unicode_len();
            let body = match find_char(rest, '\n') {
                Some(i) => rest.substring_char(i + 1, n),
                None => rest,
            };
            proof {
                match first_of(rest@, '\n') {
                    Some(i) => {
                        assert(rest@.subrange(i + 1, n as int) =~= rest@.skip(i + 1));
                    },
                    None => {},
                }
            }
            match rfind_str(body, "```") {
                Some(j) => {
                    let inner = body.substring_char(0, j);
                    assert(body@.subrange(0, j as int) =~= body@.take(j as int));
                    owned(trim(inner))
                },
                None => owned(trim(body)),
            }
        },
    }
}

/// Whether a response ends mid-structure, the signature of a token-limit cut.
pub open spec fn is_truncated(text: Seq<char>) -> bool {
    let t = trimmed_end(unfenced(text));
    !has_suffix(t, "}"@) && !has_suffix(t, "]"@)
}

/// True when a response ends mid-structure, the signature of a token-limit cut.
pub fn looks_truncated(text: &str) -> (r: bool)
    ensures
        r == is_truncated(text@),
{
    let body = strip_fence(text);
    let t = trim_end(body.as_str());
    !ends_with(t, "}") && !ends_with(t, "]")
}

/// Where the object that is `depth` braces deep at `i` ends: behind the brace that closes
/// it. Braces inside strings do not count, nor does a quote behind a backslash there.
pub open spec fn object_end(
    s: Seq<char>,
    i: int,
    depth: nat,
    in_string: bool,
    escaped: bool,
) -> Option<int>
    decreases s.len() - i,
{
    if i < 0 || i >= s.len() {
        None
    } else if in_string {
        if escaped {
            object_end(s, i + 1, depth, true, false)
        } else if s[i] == '\\' {
            object_end(s, i + 1, depth, true, true)
        } else if s[i] == '"' {
            object_end(s, i + 1, depth, false, false)
        } else {
            object_end(s, i + 1, depth, true, false)
        }
    } else if s[i] == '"' {
        object_end(s, i + 1, depth, true, escaped)
    } else if s[i] == '{' {
        object_end(s, i + 1, depth + 1, false, escaped)
    } else if s[i] == '}' {
        if depth <= 1 {
            Some(i + 1)
        } else {
            object_end(s, i + 1, (depth - 1) as nat, false, escaped)
        }
    } else {
        object_end(s, i + 1, depth, false, escaped)
    }
}

/// The outermost `{...}` span, respecting strings and escapes.
pub open spec fn object_in(s: Seq<char>) -> Option<Seq<char>> {
    match first_of(s, '{') {
        Some(start) => match object_end(s, start, 0, false, false) {
            Some(end) => Some(s.subrange(start, end)),
            None => None,
        },
        None => None,
    }
}

/// The outermost `{...}` span, respecting strings and escapes.
pub fn outermost_object(text: &str) -> (r: Option<String>)
    ensures
        r.deep_view() == object_in(text@),
{
    let start = match find_char(text, '{') {
        Some(i) => i,
        None => {
            return None;
        },
    };
    let v = chars_of(text);
    let mut depth: usize = 0;
    let mut in_string = false;
    let mut escaped = false;
    let mut i: usize = start;
    while i < v.len()
        invariant
            start <= i <= v.len(),
            depth <= i - start,
            v@ == text@,
            object_end(text@, start as int, 0, false, false) == object_end(
                text@,
                i as int,
                depth as nat,
                in_string,
                escaped,
            ),
            first_of(text@, '{') == Some(start as int),
        decreases v.len() - i,
    {
        let c = v[i];
        if in_string {
            if escaped {
                escaped = false;
            } else if c == '\\' {
                escaped = true;
            } else if c == '"' {
                in_string = false;
            }
        } else if c == '"' {
            in_string = true;
        } else if c == '{' {
            depth += 1;
        } else if c == '}' {
            if depth <= 1 {
                return Some(string_of(&v, start, i + 1));
            }
            depth -= 1;
        }
        i += 1;
    }
    None
}

// ---------------------------------------------------------------------------
// Parsing

/// What a failure says where there is no object in the response. A truncated response
/// has no balanced object at all, so that cause is named before the generic one, which
/// sends the reader looking in the wrong place.
pub open spec fn no_object_error(text: Seq<char>) -> Seq<char> {
    if is_truncated(text) {
        "响应不完整（"@ + digits(text.len())
            + " 字符），很可能被 max_tokens 截断——提高 max_tokens 或缩小任务粒度"@
    } else {
        "响应中找不到 JSON 对象"@
    }
}

/// What a failure says where the object cannot be read. The likely cause is named: echoing
/// the payload would bury the diagnosis in thousands of characters of the model's own
/// output.
pub open spec fn bad_json_error(text: Seq<char>, cause: Seq<char>) -> Seq<char> {
    "解析 JSON 失败："@ + cause + "（响应 "@ + digits(text.len()) + " 字符，"@ + (if is_truncated(
        text,
    ) {
        "末尾不完整，很可能是响应被 max_tokens 截断——提高 max_tokens 或缩小任务粒度"@
    } else {
        "格式不符合预期"@
    }) + "）"@
}

fn write_no_object(text: &str) -> (r: String)
    ensures
        r@ == no_object_error(text@),
{
    if looks_truncated(text) {
        let mut s = owned("响应不完整（");
        s.append(decimal_usize(text.unicode_len()).as_str());
        s.append(" 字符），很可能被 max_tokens 截断——提高 max_tokens 或缩小任务粒度");
        s
    } else {
        owned("响应中找不到 JSON 对象")
    }
}

fn write_bad_json(text: &str, cause: &str) -> (r: String)
    ensures
        r@ == bad_json_error(text@, cause@),
{
    let mut s = owned("解析 JSON 失败：");
    s.append(cause);
    s.append("（响应 ");
    s.append(decimal_usize(text.unicode_len()).as_str());
    s.append(" 字符，");
    if looks_truncated(text) {
        s.append("末尾不完整，很可能是响应被 max_tokens 截断——提高 max_tokens 或缩小任务粒度");
    } else {
        s.append("格式不符合预期");
    }
    s.append("）");
    s
}

/// Whether `decode` may give `out` for a text.
pub open spec fn decodes<T, F: Fn(&str) -> Result<T, String>>(
    decode: F,
    text: Seq<char>,
    out: Result<T, String>,
) -> bool {
    exists|s: &str| #[trigger] call_ensures(decode, (s,), out) && s@ == text
}

/// Whether `decode` may refuse a text.
pub open spec fn refuses<T, F: Fn(&str) -> Result<T, String>>(
    decode: F,
    text: Seq<char>,
) -> bool {
    exists|e: String| #[trigger] decodes(decode, text, Err(e))
}

/// Whether `decode` may refuse the object of a text so that `e` is said.
pub open spec fn refused_with<T, F: Fn(&str) -> Result<T, String>>(
    decode: F,
    text: Seq<char>,
    object: Seq<char>,
    e: Seq<char>,
) -> bool {
    exists|cause: String| #[trigger]
        decodes::<T, F>(decode, object, Err(cause)) && e == bad_json_error(text, cause@)
}

/// Whether `r` is what parsing a response may give: what `decode` makes of the whole text,
/// else of the outermost object in it.
pub open spec fn parsed<T, F: Fn(&str) -> Result<T, String>>(
    raw: Seq<char>,
    decode: F,
    r: Result<T, String>,
) -> bool {
    let text = unfenced(trimmed(raw));
    match r {
        Ok(v) => decodes(decode, text, Ok(v)) || (refuses(decode, text) && object_in(text) is Some
            && decodes(decode, object_in(text)->0, Ok(v))),
        Err(e) => refuses(decode, text) && (match object_in(text) {
            None => e@ == no_object_error(text),
            Some(object) => refused_with::<T, F>(decode, text, object, e@),
        }),
    }
}

/// Parse a model response with `decode`, tolerating the wrappers models add.
///
/// Even with an explicit instruction not to, responses sometimes arrive fenced
/// or with a leading sentence. Recovering from that is cheaper than burning a
/// retry, and a retry would not reliably fix it anyway.
pub fn parse_json<T, F: Fn(&str) -> Result<T, String>>(raw: &str, decode: F) -> (r: Result<
    T,
    String,
>)
    requires
        forall|s: &str| #[trigger] call_requires(decode, (s,)),
    ensures
        parsed(raw@, decode, r),
{
    let text = strip_fence(trim(raw));
    let t = text.as_str();
    let ghost body = t@;
    let first = decode(t);
    assert(decodes(decode, body, first));
    match first {
        Ok(v) => Ok(v),
        Err(e) => {
            assert(refuses::<T, F>(decode, body));
            match outermost_object(t) {
                None => Err(write_no_object(t)),
                Some(object) => {
                    let o = object.as_str();
                    let ghost inner = o@;
                    let second = decode(o);
                    assert(decodes(decode, inner, second));
                    match second {
                        Ok(v) => Ok(v),
                        Err(cause) => {
                            assert(decodes::<T, F>(decode, inner, Err(cause)));
                            let e = write_bad_json(t, cause.as_str());
                            assert(refused_with::<T, F>(decode, body, inner, e@));
                            Err(e)
                        },
                    }
                },
            }
        },
    }
}

// ---------------------------------------------------------------------------
// Laws

proof fn object_end_is_brace(
    s: Seq<char>,
    i: int,
    depth: nat,
    in_string: bool,
    escaped: bool,
)
    requires
        0 <= i,
    ensures
        object_end(s, i, depth, in_string, escaped) matches Some(e) ==> i < e <= s.len() && s[e - 1]
            == '}',
    decreases s.len() - i,
{
    if i < s.len() {
        if in_string {
            object_end_is_brace(s, i + 1, depth, true, !escaped && s[i] == '\\');
            object_end_is_brace(s, i + 1, depth, false, false);
        } else {
            object_end_is_brace(s, i + 1, depth, true, escaped);
            object_end_is_brace(s, i + 1, depth + 1, false, escaped);
            object_end_is_brace(s, i + 1, depth, false, escaped);
            if depth > 1 {
                object_end_is_brace(s, i + 1, (depth - 1) as nat, false, escaped);
            }
        }
    }
}

/// The span that is found starts with the first opening brace and ends with a closing one.
pub proof fn object_is_braced(s: Seq<char>)
    requires
        object_in(s) is Some,
    ensures
        object_in(s)->0.len() > 0,
        object_in(s)->0[0] == '{',
        object_in(s)->0.last() == '}',
{
    crate::text::find_from_is_first(s, '{', 0);
    let start = first_of(s, '{')->0;
    object_end_is_brace(s, start, 0, false, false);
}

proof fn object_end_shifts(
    pre: Seq<char>,
    s: Seq<char>,
    post: Seq<char>,
    i: int,
    depth: nat,
    in_string: bool,
    escaped: bool,
)
    requires
        0 <= i,
        object_end(s, i, depth, in_string, escaped) is Some,
    ensures
        object_end(pre + s + post, pre.len() + i, depth, in_string, escaped) == Some(
            pre.len() + object_end(s, i, depth, in_string, escaped)->0,
        ),
    decreases s.len() - i,
{
    let all = pre + s + post;
    assert(all[pre.len() + i] == s[i]);
    if in_string {
        if escaped {
            object_end_shifts(pre, s, post, i + 1, depth, true, false);
        } else if s[i] == '\\' {
            object_end_shifts(pre, s, post, i + 1, depth, true, true);
        } else if s[i] == '"' {
            object_end_shifts(pre, s, post, i + 1, depth, false, false);
        } else {
            object_end_shifts(pre, s, post, i + 1, depth, true, false);
        }
    } else if s[i] == '"' {
        object_end_shifts(pre, s, post, i + 1, depth, true, escaped);
    } else if s[i] == '{' {
        object_end_shifts(pre, s, post, i + 1, depth + 1, false, escaped);
    } else if s[i] == '}' {
        if depth > 1 {
            object_end_shifts(pre, s, post, i + 1, (depth - 1) as nat, false, escaped);
        }
    } else {
        object_end_shifts(pre, s, post, i + 1, depth, false, escaped);
    }
}

/// An object is found whatever prose stands before and behind it, an opening brace before
/// it left out.
pub proof fn prose_is_passed_over(pre: Seq<char>, object: Seq<char>, post: Seq<char>)
    requires
        object_in(object) == Some(object),
        !pre.contains('{'),
    ensures
        object_in(pre + object + post) == Some(object),
{
    let all = pre + object + post;
    crate::text::find_from_is_first(object, '{', 0);
    crate::text::find_from_is_first(all, '{', 0);
    let start = first_of(object, '{')->0;
    object_is_braced(object);
    object_end_is_brace(object, start, 0, false, false);
    let end = object_end(object, start, 0, false, false)->0;
    assert(object.subrange(start, end).len() == end - start);
    assert(start == 0 && end == object.len());
    assert(all[pre.len() as int] == object[0]);
    let found = first_of(all, '{')->0;
    if found < pre.len() {
        assert(pre.contains(pre[found]));
    }
    assert(found == pre.len());
    object_end_shifts(pre, object, post, 0, 0, false, false);
    assert(all.subrange(found, pre.len() + end) =~= object);
}

/// What stands inside a code fence is found, with or without a language on the fence.
pub proof fn fences_are_stripped(tag: Seq<char>, body: Seq<char>)
    requires
        !tag.contains('\n'),
    ensures
        unfenced("```"@ + tag + "\n"@ + body + "```"@) == trimmed(body),
{
    let fence = "```"@;
    reveal_strlit("```");
    reveal_strlit("\n");
    let text = fence + tag + "\n"@ + body + fence;
    assert(text[0] == '`' && text.last() == '`');
    assert(trimmed(text) == text);
    let rest = tag + "\n"@ + body + fence;
    assert(text.skip(3) =~= rest);
    assert(text.take(3) =~= fence);
    assert(after_prefix(text, fence) == Some(rest));
    crate::text::find_from_is_first(rest, '\n', 0);
    assert(rest[tag.len() as int] == '\n');
    let i = first_of(rest, '\n')->0;
    if i < tag.len() {
        assert(tag.contains(tag[i]));
    }
    assert(i == tag.len());
    let inner = body + fence;
    assert(rest.skip(i + 1) =~= inner);
    assert(inner.subrange(body.len() as int, inner.len() as int) =~= fence);
    assert(last_at(inner, fence) == Some(body.len() as int));
    assert(inner.take(body.len() as int) =~= body);
}

} // verus!

