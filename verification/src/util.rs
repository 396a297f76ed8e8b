//! Small shared helpers.
use crate::lists::{keep, take_all, take_next};
use crate::split::{join, joined, lines, lines_of, nonempty};
use crate::text::{
    after_prefix, before_suffix, chars_of, digit, drop_while, is_digit, is_lower, is_upper, last_of,
    lower, lower_char, lowered_char, only, owned, rfind_char, skip_while, strip_prefix,
    strip_suffix, trim, trim_of, trim_start, trimmed, trimmed_of, trimmed_start, upper,
};
use sha2::Digest;
use vstd::prelude::*;
use vstd::utf8::{
    char_is_scalar, char_u32_cast, encode_scalar, encode_utf8, encode_utf8_decode_utf8,
    has_width_1_encoding, has_width_2_encoding, is_scalar, last_continuation_byte,
    leading_byte_width_1, leading_byte_width_2, leading_byte_width_3, leading_byte_width_4,
    second_last_continuation_byte, third_last_continuation_byte,
};

verus! {

// ---------------------------------------------------------------------------
// Digests

/// The SHA-256 digest of `bytes`.
pub uninterp spec fn sha256_of(bytes: Seq<u8>) -> Seq<u8>;

/// `sha2::Sha256::digest` hashes the bytes it is given; the digest has 32 bytes.
#[verifier::external_body]
fn sha256(bytes: &[u8]) -> (r: Vec<u8>)
    ensures
        r@ == sha256_of(bytes@),
        r@.len() == 32,
{
    sha2::Sha256::digest(bytes).to_vec()
}

pub open spec fn nibble(n: int) -> char {
    if n < 10 {
        (48 + n) as char
    } else {
        (87 + n) as char
    }
}

/// Two lower-case hexadecimal digits for each byte.
pub open spec fn hex_of(bytes: Seq<u8>) -> Seq<char>
    decreases bytes.len(),
{
    if bytes.len() == 0 {
        Seq::empty()
    } else {
        hex_of(bytes.drop_last()).push(nibble(bytes.last() as int / 16)).push(
            nibble(bytes.last() as int % 16),
        )
    }
}

fn nibble_char(n: u8) -> (r: char)
    requires
        n < 16,
    ensures
        r == nibble(n as int),
{
    if n < 10 {
        (48 + n) as char
    } else {
        (87 + n) as char
    }
}

pub fn hex(bytes: &[u8]) -> (r: String)
    ensures
        r@ == hex_of(bytes@),
{
    let mut s = String::new();
    let mut i: usize = 0;
    while i < bytes.len()
        invariant
            i <= bytes.len(),
            s@ == hex_of(bytes@.take(i as int)),
        decreases bytes.len() - i,
    {
        broadcast use take_next;

        let b: u8 = bytes[i];
        s.push(nibble_char(b / 16));
        s.push(nibble_char(b % 16));
        i += 1;
        assert(bytes@.take(i as int) == bytes@.take((i - 1) + 1));
    }
    broadcast use take_all;

    assert(bytes@.take(i as int) == bytes@);
    s
}

/// Whether `s` is a digest as it is written: 64 lower-case hexadecimal digits.
pub open spec fn is_digest(s: Seq<char>) -> bool {
    &&& s.len() == 64
    &&& forall|i: int| 0 <= i < s.len() ==> is_digit(#[trigger] s[i]) || 'a' <= s[i] <= 'f'
}

proof fn hex_digits(bytes: Seq<u8>)
    ensures
        hex_of(bytes).len() == 2 * bytes.len(),
        forall|i: int|
            0 <= i < hex_of(bytes).len() ==> is_digit(#[trigger] hex_of(bytes)[i]) || 'a'
                <= hex_of(bytes)[i] <= 'f',
    decreases bytes.len(),
{
    if bytes.len() > 0 {
        let before = hex_of(bytes.drop_last());
        let all = hex_of(bytes);
        hex_digits(bytes.drop_last());
        assert forall|i: int| 0 <= i < all.len() implies is_digit(#[trigger] all[i]) || 'a'
            <= all[i] <= 'f' by {
            if i < before.len() {
                assert(all[i] == before[i]);
            }
        }
    }
}

pub fn sha256_hex(bytes: &[u8]) -> (r: String)
    ensures
        r@ == hex_of(sha256_of(bytes@)),
        is_digest(r@),
{
    let digest = sha256(bytes);
    proof {
        hex_digits(digest@);
    }
    hex(digest.as_slice())
}

/// The bytes of each part, with a zero byte after it.
pub open spec fn framed(parts: Seq<Seq<char>>) -> Seq<u8>
    decreases parts.len(),
{
    if parts.len() == 0 {
        Seq::empty()
    } else {
        (framed(parts.drop_last()) + encode_utf8(parts.last())).push(0u8)
    }
}

/// Stable digest over an ordered set of strings, used for staleness detection.
/// The separator keeps `["ab","c"]` from colliding with `["a","bc"]`.
pub fn digest_parts(parts: &[&str]) -> (r: String)
    ensures
        r@ == hex_of(sha256_of(framed(parts.deep_view()))),
        is_digest(r@),
{
    let mut bytes: Vec<u8> = Vec::new();
    let ghost d = parts.deep_view();
    let mut i: usize = 0;
    while i < parts.len()
        invariant
            i <= parts.len(),
            d == parts.deep_view(),
            bytes@ == framed(d.take(i as int)),
        decreases parts.len() - i,
    {
        broadcast use take_next;

        let ghost before = bytes@;
        let mut b = parts[i].as_bytes_vec();
        bytes.append(&mut b);
        bytes.push(0u8);
        i += 1;
        assert(d.take(i as int) == d.take((i - 1) + 1));
        assert(d[i - 1] == parts@[i - 1]@);
        assert(bytes@ =~= framed(d.take(i as int)));
    }
    broadcast use take_all;

    assert(d.take(i as int) == d);
    let digest = sha256(bytes.as_slice());
    proof {
        hex_digits(digest@);
    }
    hex(digest.as_slice())
}

/// Conservative token estimate: the bytes of the text over two and a half, rounded
/// up. CJK-heavy text costs far more tokens per byte than ASCII, so we
/// deliberately under-divide rather than risk blowing a budget.
pub fn estimate_tokens(text: &str) -> (r: usize)
    ensures
        r == (2 * encode_utf8(text@).len() + 4) / 5,
{
    let n: usize = text.as_bytes().len();
    n / 5 * 2 + (n % 5 * 2 + 4) / 5
}

// ---------------------------------------------------------------------------
// Identifiers

pub open spec fn is_separator(c: char) -> bool {
    c == '-' || c == '_' || c == ' ' || c == '.'
}

/// Whether an upper-case letter at `i` begins a word: after a lower-case letter
/// or a digit, or as the last letter of an acronym, before a lower-case letter.
pub open spec fn starts_word(s: Seq<char>, i: int) -> bool {
    let after_lower = i > 0 && (is_lower(s[i - 1]) || is_digit(s[i - 1]));
    let acronym_end = i > 0 && is_upper(s[i - 1]) && i + 1 < s.len() && is_lower(s[i + 1]);
    after_lower || acronym_end
}

/// `out` with an underscore behind it, unless it is empty or ends with one.
pub open spec fn underscored(out: Seq<char>) -> Seq<char> {
    if out.len() > 0 && out.last() != '_' {
        out.push('_')
    } else {
        out
    }
}

/// The snake-case form of the first `n` characters of `s`, before trimming.
pub open spec fn snake_raw(s: Seq<char>, n: int) -> Seq<char>
    decreases n,
{
    if n <= 0 || n > s.len() {
        Seq::empty()
    } else {
        let out = snake_raw(s, n - 1);
        let c = s[n - 1];
        if is_separator(c) {
            underscored(out)
        } else if is_upper(c) {
            if starts_word(s, n - 1) {
                underscored(out).push(lowered_char(c))
            } else {
                out.push(lowered_char(c))
            }
        } else {
            out.push(c)
        }
    }
}

/// The snake-case form of `s`.
pub open spec fn snake(s: Seq<char>) -> Seq<char> {
    trimmed_of(snake_raw(s, s.len() as int), '_')
}

/// Normalize a domain-ish identifier: camelCase and separators to snake_case.
pub fn to_snake(s: &str) -> (r: String)
    ensures
        r@ == snake(s@),
{
    let v = chars_of(s);
    let mut out = String::new();
    let mut last: Option<char> = None;
    let mut i: usize = 0;
    while i < v.len()
        invariant
            i <= v.len(),
            v@ == s@,
            out@ == snake_raw(s@, i as int),
            match last {
                Some(c) => out@.len() > 0 && out@.last() == c,
                None => out@.len() == 0,
            },
        decreases v.len() - i,
    {
        let c = v[i];
        let open = match last {
            Some(x) => x != '_',
            None => false,
        };
        if c == '-' || c == '_' || c == ' ' || c == '.' {
            if open {
                out.push('_');
                last = Some('_');
            }
        } else if upper(c) {
            // Break an acronym before its last letter: the `S` in `DTOService`
            // starts a new word, but the `T` and `O` in `DTO` do not.
            let after_lower = i > 0 && (lower(v[i - 1]) || digit(v[i - 1]));
            let acronym_end = i > 0 && upper(v[i - 1]) && i < v.len() - 1 && lower(v[i + 1]);
            if (after_lower || acronym_end) && open {
                out.push('_');
            }
            let l = lower_char(c);
            out.push(l);
            last = Some(l);
        } else {
            out.push(c);
            last = Some(c);
        }
        i += 1;
    }
    owned(trim_of(out.as_str(), '_'))
}

// ---------------------------------------------------------------------------
// Comments

/// `s` without the prefix `p`, where it has it.
pub open spec fn less_prefix(s: Seq<char>, p: Seq<char>) -> Seq<char> {
    match after_prefix(s, p) {
        Some(t) => t,
        None => s,
    }
}

/// `s` without the suffix `p`, where it has it.
pub open spec fn less_suffix(s: Seq<char>, p: Seq<char>) -> Seq<char> {
    match before_suffix(s, p) {
        Some(t) => t,
        None => s,
    }
}

fn drop_prefix<'a>(s: &'a str, p: &str) -> (r: &'a str)
    ensures
        r@ == less_prefix(s@, p@),
{
    match strip_prefix(s, p) {
        Some(t) => t,
        None => s,
    }
}

fn drop_suffix<'a>(s: &'a str, p: &str) -> (r: &'a str)
    ensures
        r@ == less_suffix(s@, p@),
{
    match strip_suffix(s, p) {
        Some(t) => t,
        None => s,
    }
}

/// The star that decorates a line, with the space behind it, removed.
pub open spec fn less_star(s: Seq<char>) -> Seq<char> {
    match after_prefix(s, "* "@) {
        Some(t) => t,
        None => less_prefix(s, "*"@),
    }
}

/// A line of a comment without its decoration.
pub open spec fn doc_line(line: Seq<char>) -> Seq<char> {
    let bare = less_suffix(less_prefix(less_prefix(trimmed(line), "/**"@), "/*"@), "*/"@);
    trimmed(less_prefix(less_star(trimmed_start(bare)), "//"@))
}

/// The lines of a comment that say something.
pub open spec fn doc_lines(raw: Seq<char>) -> Seq<Seq<char>> {
    keep(
        lines_of(raw).map_values(|l: Seq<char>| doc_line(l)),
        |l: Seq<char>| nonempty(l),
    )
}

/// The prose of a comment, or nothing where no line says anything.
pub open spec fn javadoc(raw: Seq<char>) -> Option<Seq<char>> {
    if doc_lines(raw).len() == 0 {
        None
    } else {
        Some(joined(doc_lines(raw), "\n"@))
    }
}

fn clean_line(line: &str) -> (r: String)
    ensures
        r@ == doc_line(line@),
{
    let t = trim(line);
    let t = drop_prefix(t, "/**");
    let t = drop_prefix(t, "/*");
    let t = drop_suffix(t, "*/");
    let t = trim_start(t);
    let t = match strip_prefix(t, "* ") {
        Some(x) => x,
        None => drop_prefix(t, "*"),
    };
    owned(trim(drop_prefix(t, "//")))
}

/// Strip Javadoc decoration, keeping the prose and `@tag` lines.
pub fn clean_javadoc(raw: &str) -> (r: Option<String>)
    ensures
        r.deep_view() == javadoc(raw@),
{
    let all = lines(raw);
    let mut kept: Vec<String> = Vec::new();
    let ghost d = lines_of(raw@).map_values(|l: Seq<char>| doc_line(l));
    let ghost f = |l: Seq<char>| nonempty(l);
    let mut i: usize = 0;
    while i < all.len()
        invariant
            i <= all.len(),
            all.deep_view() == lines_of(raw@),
            d == lines_of(raw@).map_values(|l: Seq<char>| doc_line(l)),
            f == (|l: Seq<char>| nonempty(l)),
            kept.deep_view() == keep(d.take(i as int), f),
        decreases all.len() - i,
    {
        broadcast use take_next;

        assert(all@[i as int]@ == all.deep_view()[i as int]);
        let t = clean_line(all[i].as_str());
        let ghost before = kept.deep_view();
        let ghost now = t@;
        assert(d[i as int] == now);
        if !t.as_str().is_empty() {
            assert(f(now));
            kept.push(t);
            assert(kept.deep_view() =~= before.push(now));
        } else {
            assert(!f(now));
        }
        i += 1;
        assert(d.take(i as int) == d.take((i - 1) + 1));
    }
    broadcast use take_all;

    assert(d.take(i as int) == d);
    if kept.len() == 0 {
        None
    } else {
        Some(join(&kept, "\n"))
    }
}

pub open spec fn is_cjk(c: char) -> bool {
    '\u{4e00}' <= c <= '\u{9fff}'
}

pub open spec fn is_cjk_text(s: Seq<char>) -> bool {
    exists|i: int| 0 <= i < s.len() && is_cjk(#[trigger] s[i])
}

/// True if the text contains CJK characters — a good proxy for "this comment
/// carries real business meaning" in the legacy projects we target.
pub fn has_cjk(s: &str) -> (r: bool)
    ensures
        r == is_cjk_text(s@),
{
    let v = chars_of(s);
    let mut i: usize = 0;
    while i < v.len()
        invariant
            i <= v.len(),
            v@ == s@,
            forall|j: int| 0 <= j < i ==> !is_cjk(#[trigger] s@[j]),
        decreases v.len() - i,
    {
        if '\u{4e00}' <= v[i] && v[i] <= '\u{9fff}' {
            assert(is_cjk(s@[i as int]));
            return true;
        }
        i += 1;
    }
    false
}

/// `s` cut to its first `max` characters: at the last line end among them, where
/// that keeps more than half of `max` in bytes.
pub open spec fn truncated(s: Seq<char>, max: int) -> Seq<char> {
    if s.len() <= max {
        s
    } else {
        let cut = s.take(max);
        match last_of(cut, '\n') {
            Some(i) => if encode_utf8(cut.take(i)).len() > max / 2 {
                cut.take(i) + "\n…（已截断）"@
            } else {
                cut + "…（已截断）"@
            },
            None => cut + "…（已截断）"@,
        }
    }
}

/// Truncate to a character budget on a line boundary where possible.
pub fn truncate_chars(s: &str, max: usize) -> (r: String)
    ensures
        r@ == truncated(s@, max as int),
{
    if s.unicode_len() <= max {
        return owned(s);
    }
    let cut = s.substring_char(0, max);
    assert(cut@ =~= s@.take(max as int));
    match rfind_char(cut, '\n') {
        Some(i) => {
            let head = cut.substring_char(0, i);
            assert(head@ =~= cut@.take(i as int));
            if head.as_bytes().len() > max / 2 {
                let mut out = owned(head);
                out.append("\n…（已截断）");
                return out;
            }
        },
        None => {},
    }
    let mut out = owned(cut);
    out.append("…（已截断）");
    out
}

// ---------------------------------------------------------------------------
// Laws

proof fn scalar_without_zero(c: u32)
    requires
        c != 0,
        is_scalar(c),
    ensures
        !encode_scalar(c).contains(0u8),
{
    assert(has_width_1_encoding(c) && c != 0 ==> leading_byte_width_1(c) != 0) by (bit_vector);
    assert(has_width_2_encoding(c) ==> leading_byte_width_2(c) != 0) by (bit_vector);
    assert(leading_byte_width_3(c) != 0) by (bit_vector);
    assert(leading_byte_width_4(c) != 0) by (bit_vector);
    assert(last_continuation_byte(c) != 0) by (bit_vector);
    assert(second_last_continuation_byte(c) != 0) by (bit_vector);
    assert(third_last_continuation_byte(c) != 0) by (bit_vector);
}

proof fn text_without_zero(s: Seq<char>)
    requires
        !s.contains('\0'),
    ensures
        !encode_utf8(s).contains(0u8),
    decreases s.len(),
{
    if s.len() > 0 {
        let rest = s.drop_first();
        assert(s.contains(s[0]));
        assert forall|i: int| 0 <= i < rest.len() implies #[trigger] rest[i] != '\0' by {
            assert(s.contains(s[i + 1]));
        }
        text_without_zero(rest);
        char_is_scalar(s[0]);
        char_u32_cast(s[0], s[0] as u32);
        assert(s[0] as u32 != 0);
        scalar_without_zero(s[0] as u32);
        let a = encode_scalar(s[0] as u32);
        let b = encode_utf8(rest);
        assert forall|i: int| 0 <= i < (a + b).len() implies #[trigger] (a + b)[i] != 0u8 by {
            if i < a.len() {
                assert(a.contains(a[i]));
            } else {
                assert(b.contains(b[i - a.len()]));
            }
        }
    }
}

proof fn shorter_last(p: Seq<u8>, x: Seq<u8>, q: Seq<u8>, y: Seq<u8>)
    requires
        (p + x).push(0u8) == (q + y).push(0u8),
        p.len() > 0 ==> p.last() == 0u8,
        !y.contains(0u8),
    ensures
        x.len() >= y.len(),
{
    let f = (p + x).push(0u8);
    let g = (q + y).push(0u8);
    if x.len() < y.len() {
        let k = p.len() - 1;
        assert(f.len() == g.len());
        assert(f[k] == p[k]);
        assert(g[k] == y[k - q.len()]);
        assert(y.contains(y[k - q.len()]));
    }
}

proof fn framed_ends(parts: Seq<Seq<char>>)
    requires
        parts.len() > 0,
    ensures
        framed(parts).len() > 0,
        framed(parts).last() == 0u8,
{
}

/// Whether no letter of `s` is upper-case, and underscores, its only separators, stand
/// alone and never first.
pub open spec fn in_snake_case(s: Seq<char>) -> bool {
    forall|i: int|
        0 <= i < s.len() ==> {
            let c = #[trigger] s[i];
            &&& !is_upper(c)
            &&& is_separator(c) ==> c == '_' && i > 0 && s[i - 1] != '_'
        }
}

proof fn raw_in_snake_case(s: Seq<char>, n: int)
    ensures
        in_snake_case(snake_raw(s, n)),
    decreases n,
{
    if 0 < n <= s.len() {
        raw_in_snake_case(s, n - 1);
        let out = snake_raw(s, n - 1);
        let c = s[n - 1];
        if is_upper(c) {
            char_is_scalar(c);
            char_u32_cast(c, c as u32);
            assert(is_lower(lowered_char(c)));
        }
        let open = underscored(out);
        assert(in_snake_case(open)) by {
            assert forall|i: int| 0 <= i < open.len() implies ({
                let d = #[trigger] open[i];
                &&& !is_upper(d)
                &&& is_separator(d) ==> d == '_' && i > 0 && open[i - 1] != '_'
            }) by {
                if i < out.len() {
                    assert(open[i] == out[i]);
                }
            }
        }
    }
}

proof fn snake_case_kept(s: Seq<char>, n: int)
    requires
        in_snake_case(s),
        0 <= n <= s.len(),
    ensures
        snake_raw(s, n) == s.take(n),
    decreases n,
{
    if n > 0 {
        snake_case_kept(s, n - 1);
        let c = s[n - 1];
        assert(s.take(n) =~= s.take(n - 1).push(c));
        if c == '_' {
            assert(s.take(n - 1).last() == s[n - 2]);
        }
    } else {
        assert(s.take(0) =~= Seq::<char>::empty());
    }
}

/// A normalized identifier is its own normal form.
pub proof fn snake_is_stable(s: Seq<char>)
    ensures
        in_snake_case(snake(s)),
        snake(snake(s)) == snake(s),
{
    let raw = snake_raw(s, s.len() as int);
    raw_in_snake_case(s, s.len() as int);
    let w = snake(s);
    assert(skip_while(raw, only('_')) == raw);
    if raw.len() > 0 && raw.last() == '_' {
        let cut = raw.drop_last();
        assert(raw[raw.len() - 1] == raw.last());
        assert(cut.last() == raw[raw.len() - 2]);
        assert(drop_while(cut, only('_')) == cut);
        assert(w == cut);
        assert forall|i: int| 0 <= i < w.len() implies ({
            let c = #[trigger] w[i];
            &&& !is_upper(c)
            &&& is_separator(c) ==> c == '_' && i > 0 && w[i - 1] != '_'
        }) by {
            assert(w[i] == raw[i]);
        }
    } else {
        assert(w == raw);
    }
    snake_case_kept(w, w.len() as int);
    assert(w.take(w.len() as int) =~= w);
    assert(skip_while(w, only('_')) == w);
    assert(drop_while(w, only('_')) == w);
}

/// Different lists of texts are framed differently, texts with a zero character left
/// out: no two of them share the bytes that are digested.
pub proof fn framing_is_injective(a: Seq<Seq<char>>, b: Seq<Seq<char>>)
    requires
        forall|i: int| 0 <= i < a.len() ==> !(#[trigger] a[i]).contains('\0'),
        forall|i: int| 0 <= i < b.len() ==> !(#[trigger] b[i]).contains('\0'),
        framed(a) == framed(b),
    ensures
        a == b,
    decreases a.len(),
{
    if a.len() == 0 {
        if b.len() > 0 {
            framed_ends(b);
        }
        assert(a =~= b);
    } else if b.len() == 0 {
        framed_ends(a);
    } else {
        let a0 = a.drop_last();
        let b0 = b.drop_last();
        let p = framed(a0);
        let q = framed(b0);
        let x = encode_utf8(a.last());
        let y = encode_utf8(b.last());
        assert(a.last() == a[a.len() - 1] && b.last() == b[b.len() - 1]);
        text_without_zero(a.last());
        text_without_zero(b.last());
        if a0.len() > 0 {
            framed_ends(a0);
        }
        if b0.len() > 0 {
            framed_ends(b0);
        }
        shorter_last(p, x, q, y);
        shorter_last(q, y, p, x);
        let f = (p + x).push(0u8);
        let g = (q + y).push(0u8);
        assert(f.len() == g.len());
        assert(p.len() == q.len());
        assert(f.take(p.len() as int) =~= p);
        assert(g.take(q.len() as int) =~= q);
        assert(f.subrange(p.len() as int, f.len() - 1) =~= x);
        assert(g.subrange(q.len() as int, g.len() - 1) =~= y);
        encode_utf8_decode_utf8(a.last());
        encode_utf8_decode_utf8(b.last());
        assert forall|i: int| 0 <= i < a0.len() implies !(#[trigger] a0[i]).contains('\0') by {
            assert(a0[i] == a[i]);
        }
        assert forall|i: int| 0 <= i < b0.len() implies !(#[trigger] b0[i]).contains('\0') by {
            assert(b0[i] == b[i]);
        }
        framing_is_injective(a0, b0);
        assert(a =~= a0.push(a.last()));
        assert(b =~= b0.push(b.last()));
    }
}

} // verus!
