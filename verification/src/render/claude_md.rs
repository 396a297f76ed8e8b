//! Maintain a managed block in the project's guide for coding sessions.
//!
//! The block is delimited by markers so that hand-written guidance in the same
//! file is never touched. This matters: the guide is a file the team edits, and
//! a generator that overwrites it wholesale would be abandoned after one
//! surprise.
use crate::number::{decimal_i64, signed};
use crate::split::{join, joined};
use crate::text::{
    find_str, first_at, has_prefix, has_suffix, is_white, occurs_at, owned, search_from_is_first,
    trim_end, trimmed_end,
};
use vstd::prelude::*;

verus! {

pub const BEGIN: &'static str = "<!-- catlas:begin -->";

pub const END: &'static str = "<!-- catlas:end -->";

/// Whether a text has a managed block: both markers, in order.
pub open spec fn has_block(s: Seq<char>) -> bool {
    match (first_at(s, BEGIN@), first_at(s, END@)) {
        (Some(start), Some(end)) => end > start,
        _ => false,
    }
}

/// The text with the block in place of the managed one, or behind it where there is
/// none.
pub open spec fn spliced(s: Seq<char>, block: Seq<char>) -> Seq<char> {
    if has_block(s) {
        let start = first_at(s, BEGIN@)->0;
        let end = first_at(s, END@)->0;
        s.take(start) + block + s.skip(end + END@.len())
    } else {
        let kept = trimmed_end(s);
        if kept.len() == 0 {
            kept + block + "\n"@
        } else {
            kept + "\n\n"@ + block + "\n"@
        }
    }
}

/// Replace the managed block, or append it when absent. Where the markers are malformed
/// it is appended too, rather than risk clobbering prose.
pub fn splice(existing: &str, block: &str) -> (r: String)
    ensures
        r@ == spliced(existing@, block@),
{
    let start = find_str(existing, BEGIN);
    let end = find_str(existing, END);
    match (start, end) {
        (Some(a), Some(b)) => {
            if b > a {
                let n: usize = existing.unicode_len();
                let k: usize = END.unicode_len();
                let mut out = owned(existing.substring_char(0, a));
                out.append(block);
                out.append(existing.substring_char(b + k, n));
                proof {
                    assert(existing@.subrange(0, a as int) =~= existing@.take(a as int));
                    assert(existing@.subrange(b + k, n as int) =~= existing@.skip(b + k));
                }
                return out;
            }
        },
        _ => {},
    }
    let mut out = owned(trim_end(existing));
    if !out.as_str().is_empty() {
        out.append("\n\n");
    }
    out.append(block);
    out.append("\n");
    out
}

// ---------------------------------------------------------------------------
// The block

/// A domain in the list of the block.
#[derive(Debug)]
pub struct BlockDomain {
    pub key: String,
    pub label: Option<String>,
    pub files: i64,
}

/// The content of a [`BlockDomain`].
#[verifier::ext_equal]
pub struct BlockDomainView {
    pub key: Seq<char>,
    pub label: Option<Seq<char>>,
    pub files: i64,
}

impl DeepView for BlockDomain {
    type V = BlockDomainView;

    open spec fn deep_view(&self) -> BlockDomainView {
        BlockDomainView {
            key: self.key.deep_view(),
            label: self.label.deep_view(),
            files: self.files,
        }
    }
}

impl Clone for BlockDomain {
    fn clone(&self) -> (r: Self)
        ensures
            r.deep_view() == self.deep_view(),
    {
        BlockDomain {
            key: self.key.clone(),
            label: self.label.clone(),
            files: self.files,
        }
    }
}

pub open spec fn domain_text(d: BlockDomainView) -> Seq<char> {
    match d.label {
        Some(l) => "`"@ + d.key + "`（"@ + l + "，"@ + signed(d.files as int) + " 文件）"@,
        None => "`"@ + d.key + "`（"@ + signed(d.files as int) + " 文件）"@,
    }
}

fn write_domain(d: &BlockDomain) -> (r: String)
    ensures
        r@ == domain_text(d.deep_view()),
{
    let mut s = owned("`");
    s.append(d.key.as_str());
    s.append("`（");
    match &d.label {
        Some(l) => {
            s.append(l.as_str());
            s.append("，");
        },
        None => {},
    }
    s.append(decimal_i64(d.files).as_str());
    s.append(" 文件）");
    s
}

/// The domains inline: that saves an agent one file read on every task.
pub open spec fn domains_text(rows: Seq<BlockDomainView>) -> Seq<char> {
    if rows.len() == 0 {
        Seq::empty()
    } else {
        "### 主要业务领域\n\n"@ + joined(
            rows.map_values(|d: BlockDomainView| domain_text(d)),
            "、"@,
        ) + "\n\n"@
    }
}

fn write_domains(rows: &Vec<BlockDomain>) -> (r: String)
    ensures
        r@ == domains_text(rows.deep_view()),
{
    if rows.len() == 0 {
        let e = String::new();
        assert(e@ =~= Seq::empty());
        return e;
    }
    let ghost all = rows.deep_view().map_values(|d: BlockDomainView| domain_text(d));
    let mut list: Vec<String> = Vec::new();
    let mut i: usize = 0;
    assert(list.deep_view() =~= all.take(0));
    while i < rows.len()
        invariant
            i <= rows.len(),
            all == rows.deep_view().map_values(|d: BlockDomainView| domain_text(d)),
            list.deep_view() == all.take(i as int),
        decreases rows.len() - i,
    {
        let ghost before = list.deep_view();
        let t = write_domain(&rows[i]);
        let ghost x = t@;
        assert(rows.deep_view()[i as int] == rows@[i as int].deep_view());
        assert(all[i as int] == x);
        list.push(t);
        assert(list.deep_view() =~= before.push(x));
        i += 1;
        assert(all.take(i as int) =~= before.push(x));
    }
    assert(all.take(i as int) =~= all);
    let mut s = owned("### 主要业务领域\n\n");
    s.append(join(&list, "、").as_str());
    s.append("\n\n");
    s
}

/// What is known to trip people up in these projects.
pub const LANDMINES: &'static str = "### 这个项目的已知坑\n\n- **没有 DDL 文件**。表结构只能从 mapper XML 的 `resultMap` 和 `@TableName` 反推，知识库已经做了这件事，不要再去翻 SQL 找表结构。\n- **服务一律经接口调用**。顺着调用链读代码会在 `XxxService` 接口处断掉，真正的逻辑在 `XxxServiceImpl`。领域文档里的「关键链路」已经把这一跳接上了。\n- **部分 MQ topic 是外部配置**。`reference/mq.md` 里显示为 `${占位符}` 的，仓库里查不到实际值，需要去配置中心。\n- **枚举和常量类里的中文注释是业务语义的权威出处**，比方法名可靠得多。\n\n";

/// A session asked a question gets an answer and moves on, and the finding evaporates.
/// The block is the one place to tell every future session, up front, that writing
/// conclusions down is part of the job.
pub const WRITE_BACK: &'static str = "### 得出结论后沉淀回来\n\n分析代码得出**已核实**的业务结论时，调 MCP 工具 `propose_insight` 沉淀为候选洞察，需附代码位置作证据。三种类型：\n- `business_rule` 业务规则 —— 代码实际怎么运作（如：取消订单不释放优惠券）\n- `landmine` 坑 —— 容易踩的陷阱（如：核销入口不校验门店归属，漏传即跨门店核销）\n- `term` 术语 —— 中文黑话与代码的对应（如：特价活动 = `TEJIA` 枚举）\n确认这件事的依据在代码里、能给出 file/行号 的，才提交；推断、猜测、待办不要提交——这不是笔记工具。提交后成为候选，人工 `catlas review --accept` 确认才进入检索。\n\n知识库过期时重新生成：`";

/// The managed block, for an output directory given as the pages are to be found, and
/// the command that makes it anew.
pub open spec fn block_text(
    rel: Seq<char>,
    domains: Seq<BlockDomainView>,
    refresh: Seq<char>,
) -> Seq<char> {
    BEGIN@
        + "\n## 业务领域知识库\n\n本项目代码量大、业务分散、技术栈老旧。动手改代码前，**先查知识库再读代码**，能省掉大量在 23 万行里翻找的时间。以下内容由 `catlas` 生成，勿手工编辑。\n\n### 查什么看哪里\n\n| 问题 | 位置 |\n|---|---|\n| 项目全貌与领域地图 | `"@
        + rel
        + "/README.md` |\n| 某领域的职责、状态机、业务规则 | `"@
        + rel
        + "/domains/<领域>.md` |\n| 表结构与字段含义（项目无 DDL，这是唯一来源） | `"@
        + rel
        + "/reference/tables.md` |\n| Dubbo 接口与 HTTP 路由 | `"@
        + rel
        + "/reference/entrypoints.md` |\n| 定时任务、消息消费 | `"@
        + rel
        + "/reference/jobs.md`、`"@
        + rel
        + "/reference/mq.md` |\n| 中文术语对应的代码标识符 | `"@
        + rel
        + "/glossary.md` |\n| 精确检索（全文） | `catlas query \"<关键词>\"` |\n\n"@
        + domains_text(domains)
        + LANDMINES@
        + WRITE_BACK@
        + refresh
        + "`\n"@
        + END@
}

/// The managed block, for an output directory given as the pages are to be found, and
/// the command that makes it anew.
pub fn block(rel: &str, domains: &Vec<BlockDomain>, refresh: &str) -> (r: String)
    ensures
        r@ == block_text(rel@, domains.deep_view(), refresh@),
{
    let mut s = owned(BEGIN);
    s.append("\n## 业务领域知识库\n\n本项目代码量大、业务分散、技术栈老旧。动手改代码前，**先查知识库再读代码**，能省掉大量在 23 万行里翻找的时间。以下内容由 `catlas` 生成，勿手工编辑。\n\n### 查什么看哪里\n\n| 问题 | 位置 |\n|---|---|\n| 项目全貌与领域地图 | `");
    s.append(rel);
    s.append("/README.md` |\n| 某领域的职责、状态机、业务规则 | `");
    s.append(rel);
    s.append("/domains/<领域>.md` |\n| 表结构与字段含义（项目无 DDL，这是唯一来源） | `");
    s.append(rel);
    s.append("/reference/tables.md` |\n| Dubbo 接口与 HTTP 路由 | `");
    s.append(rel);
    s.append("/reference/entrypoints.md` |\n| 定时任务、消息消费 | `");
    s.append(rel);
    s.append("/reference/jobs.md`、`");
    s.append(rel);
    s.append("/reference/mq.md` |\n| 中文术语对应的代码标识符 | `");
    s.append(rel);
    s.append("/glossary.md` |\n| 精确检索（全文） | `catlas query \"<关键词>\"` |\n\n");
    s.append(write_domains(domains).as_str());
    s.append(LANDMINES);
    s.append(WRITE_BACK);
    s.append(refresh);
    s.append("`\n");
    s.append(END);
    s
}


// ---------------------------------------------------------------------------
// Laws

/// What stands before and behind the managed block stays as it is.
pub proof fn prose_is_kept(s: Seq<char>, block: Seq<char>)
    requires
        has_block(s),
    ensures
        has_prefix(spliced(s, block), s.take(first_at(s, BEGIN@)->0)),
        has_suffix(spliced(s, block), s.skip(first_at(s, END@)->0 + END@.len())),
{
    search_from_is_first(s, BEGIN@, 0);
    search_from_is_first(s, END@, 0);
    let start = first_at(s, BEGIN@)->0;
    let end = first_at(s, END@)->0;
    let r = spliced(s, block);
    assert(r.take(start) =~= s.take(start));
    let tail = s.skip(end + END@.len());
    assert(r.skip(r.len() - tail.len()) =~= tail);
}

/// Where there is no block to replace, all that was written stays, but for white space
/// at its end.
pub proof fn prose_is_kept_on_append(s: Seq<char>, block: Seq<char>)
    requires
        !has_block(s),
    ensures
        has_prefix(spliced(s, block), trimmed_end(s)),
{
    let kept = trimmed_end(s);
    assert(spliced(s, block).take(kept.len() as int) =~= kept);
}

/// A block as [`block`] makes it: it starts with the one marker and ends with the other,
/// and the closing one stands nowhere else in it.
pub open spec fn is_managed(block: Seq<char>) -> bool {
    &&& has_prefix(block, BEGIN@)
    &&& has_suffix(block, END@)
    &&& block.len() >= BEGIN@.len() + END@.len()
    &&& first_at(block, END@) == Some(block.len() - END@.len())
}

proof fn markers()
    ensures
        BEGIN@.len() == 21,
        END@.len() == 19,
        BEGIN@[0] == '<',
        END@[0] == '<',
        forall|i: int| 1 <= i < 21 ==> #[trigger] BEGIN@[i] != '<',
        forall|i: int| 1 <= i < 19 ==> #[trigger] END@[i] != '<',
        forall|i: int| 0 <= i < 21 ==> #[trigger] BEGIN@[i] != '\n',
        forall|i: int| 0 <= i < 19 ==> #[trigger] END@[i] != '\n',
        BEGIN@[12] == 'b',
        END@[12] == 'e',
{
    reveal_strlit("<!-- catlas:begin -->");
    reveal_strlit("<!-- catlas:end -->");
}

proof fn found_at(s: Seq<char>, p: Seq<char>, at: int)
    requires
        occurs_at(s, p, at),
        forall|i: int| 0 <= i < at ==> !#[trigger] occurs_at(s, p, i),
    ensures
        first_at(s, p) == Some(at),
{
    search_from_is_first(s, p, 0);
}

/// A marker that stands nowhere in `pre` stands nowhere before the block either.
proof fn not_before(pre: Seq<char>, block: Seq<char>, post: Seq<char>, p: Seq<char>, i: int)
    requires
        block.len() > 0,
        block[0] == '<',
        p.len() > 0,
        forall|k: int| 1 <= k < p.len() ==> #[trigger] p[k] != '<',
        first_at(pre, p) is None,
        0 <= i < pre.len(),
    ensures
        !occurs_at(pre + block + post, p, i),
{
    let r = pre + block + post;
    search_from_is_first(pre, p, 0);
    if occurs_at(r, p, i) {
        if i + p.len() <= pre.len() {
            assert(pre.subrange(i, i + p.len()) =~= r.subrange(i, i + p.len()));
            assert(occurs_at(pre, p, i));
        } else {
            let k = pre.len() - i;
            assert(r.subrange(i, i + p.len())[k] == r[i + k]);
            assert(r[i + k] == block[0]);
            assert(p[k] != '<');
        }
    }
}

/// Where the markers stand in a text with a managed block, when none stands before it.
proof fn markers_found(pre: Seq<char>, block: Seq<char>, post: Seq<char>)
    requires
        is_managed(block),
        first_at(pre, BEGIN@) is None,
        first_at(pre, END@) is None,
    ensures
        first_at(pre + block + post, BEGIN@) == Some(pre.len() as int),
        first_at(pre + block + post, END@) == Some(pre.len() + block.len() - END@.len()),
{
    markers();
    let r = pre + block + post;
    let n = pre.len() as int;
    assert(block.take(21) == BEGIN@);
    assert(block.take(21)[0] == block[0]);
    assert(r.subrange(n, n + 21) =~= block.take(21));
    assert forall|i: int| 0 <= i < n implies !#[trigger] occurs_at(r, BEGIN@, i) by {
        not_before(pre, block, post, BEGIN@, i);
    }
    found_at(r, BEGIN@, n);
    let at = n + block.len() - 19;
    assert(block.skip(block.len() - 19) == END@);
    assert(r.subrange(at, at + 19) =~= block.skip(block.len() - 19));
    search_from_is_first(block, END@, 0);
    assert forall|i: int| 0 <= i < at implies !#[trigger] occurs_at(r, END@, i) by {
        if i < n {
            not_before(pre, block, post, END@, i);
        } else if occurs_at(r, END@, i) {
            let k = i - n;
            assert(block.subrange(k, k + 19) =~= r.subrange(i, i + 19));
            assert(occurs_at(block, END@, k));
        }
    }
    found_at(r, END@, at);
}

/// A text that is kept whole holds no marker that was not there.
proof fn kept_has_none(s: Seq<char>, p: Seq<char>)
    requires
        first_at(s, p) is None,
        p.len() > 0,
        forall|i: int| 0 <= i < p.len() ==> #[trigger] p[i] != '\n',
    ensures
        first_at(trimmed_end(s), p) is None,
        first_at(trimmed_end(s) + "\n\n"@, p) is None,
{
    reveal_strlit("\n\n");
    let kept = trimmed_end(s);
    let more = kept + "\n\n"@;
    trimmed_is_prefix(s);
    search_from_is_first(s, p, 0);
    search_from_is_first(kept, p, 0);
    search_from_is_first(more, p, 0);
    if first_at(kept, p) is Some {
        let i = first_at(kept, p)->0;
        assert(s.subrange(i, i + p.len()) =~= kept.subrange(i, i + p.len()));
        assert(occurs_at(s, p, i));
    }
    if first_at(more, p) is Some {
        let i = first_at(more, p)->0;
        if i + p.len() <= kept.len() {
            assert(s.subrange(i, i + p.len()) =~= more.subrange(i, i + p.len()));
            assert(occurs_at(s, p, i));
        } else {
            let k = p.len() - 1;
            assert(more.subrange(i, i + p.len())[k] == more[i + k]);
            assert(more[i + k] == '\n');
            assert(p[k] != '\n');
        }
    }
}

proof fn trimmed_is_prefix(s: Seq<char>)
    ensures
        trimmed_end(s).len() <= s.len(),
        s.take(trimmed_end(s).len() as int) == trimmed_end(s),
    decreases s.len(),
{
    if s.len() > 0 && is_white(s.last()) {
        trimmed_is_prefix(s.drop_last());
        let n = trimmed_end(s.drop_last()).len() as int;
        assert(s.take(n) =~= s.drop_last().take(n));
    } else {
        assert(s.take(s.len() as int) =~= s);
    }
}

/// Rendering again changes nothing: a managed block put where one was, or into a text
/// without markers, is put back in the same place.
pub proof fn splice_is_idempotent(s: Seq<char>, block: Seq<char>)
    requires
        is_managed(block),
        has_block(s) || (first_at(s, BEGIN@) is None && first_at(s, END@) is None),
    ensures
        has_block(spliced(s, block)),
        spliced(spliced(s, block), block) == spliced(s, block),
{
    markers();
    let r = spliced(s, block);
    if has_block(s) {
        search_from_is_first(s, BEGIN@, 0);
        search_from_is_first(s, END@, 0);
        let start = first_at(s, BEGIN@)->0;
        let end = first_at(s, END@)->0;
        let pre = s.take(start);
        let post = s.skip(end + END@.len());
        search_from_is_first(pre, BEGIN@, 0);
        search_from_is_first(pre, END@, 0);
        if first_at(pre, BEGIN@) is Some {
            let i = first_at(pre, BEGIN@)->0;
            assert(s.subrange(i, i + 21) =~= pre.subrange(i, i + 21));
            assert(occurs_at(s, BEGIN@, i));
        }
        if first_at(pre, END@) is Some {
            let i = first_at(pre, END@)->0;
            assert(s.subrange(i, i + 19) =~= pre.subrange(i, i + 19));
            assert(occurs_at(s, END@, i));
        }
        markers_found(pre, block, post);
        assert(r.take(start) =~= pre);
        assert(r.skip(start + block.len()) =~= post);
    } else {
        kept_has_none(s, BEGIN@);
        kept_has_none(s, END@);
        let kept = trimmed_end(s);
        let pre = if kept.len() == 0 {
            kept
        } else {
            kept + "\n\n"@
        };
        markers_found(pre, block, "\n"@);
        assert(r == pre + block + "\n"@);
        assert(r.take(pre.len() as int) =~= pre);
        assert(r.skip((pre.len() + block.len()) as int) =~= "\n"@);
    }
}

/// A block starts and ends with its markers.
pub proof fn block_is_delimited(
    rel: Seq<char>,
    domains: Seq<BlockDomainView>,
    refresh: Seq<char>,
)
    ensures
        has_prefix(block_text(rel, domains, refresh), BEGIN@),
        has_suffix(block_text(rel, domains, refresh), END@),
        block_text(rel, domains, refresh).len() >= BEGIN@.len() + END@.len(),
{
    let b = block_text(rel, domains, refresh);
    assert(b.take(BEGIN@.len() as int) =~= BEGIN@);
    assert(b.skip(b.len() - END@.len()) =~= END@);
}

} // verus!
