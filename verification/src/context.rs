//! Building the message list sent to the chat model under a token budget.
//!
//! Tokens are estimated as one and a half per character. The context is made of an
//! optional custom system prompt, the character's system and preset prompts, the user
//! profile, the long-term memory (weekly and monthly summaries), the most recent
//! messages and the new user message. When the estimate exceeds the total budget, the
//! long-term memory is cut down level by level first, and the recent messages only when
//! no long-term level fits.
use vstd::prelude::*;
use vstd::string::*;
use crate::text::{chars_of, owned, string_from_range, has_prefix, has_substring};
use crate::llm::ChatMessage;

verus! {

/// Total input token budget.
pub const TOTAL_CONTEXT_BUDGET: usize = 96000;

/// Cap for the character's system prompt.
pub const SYSTEM_PROMPT_BUDGET: usize = 3000;

/// Cap for the character's preset prompt.
pub const PRESET_PROMPT_BUDGET: usize = 5000;

/// Cap for the user profile section.
pub const USER_PROFILE_BUDGET: usize = 2000;

/// Number of recent messages tried first.
pub const SHORT_TERM_LOAD_COUNT: usize = 30;

/// Number of recent messages kept when nothing else fits.
pub const SHORT_TERM_MIN_COUNT: usize = 5;

/// Characters of the preset prompt kept in the last-resort context.
pub const PRESET_MIN_CHARS: usize = 500;

// ── Token estimation ────────────────────────────────────────────────

/// One and a half tokens per character, rounded down, capped at `usize::MAX`.
pub open spec fn tokens_for_len(n: int) -> int {
    if n + n / 2 > usize::MAX as int {
        usize::MAX as int
    } else {
        n + n / 2
    }
}

/// Estimated tokens of a text: one and a half per character, rounded down.
/// (The estimate is exact below 2^52 characters, where a float product would round.)
pub fn estimate_tokens(text: &str) -> (t: usize)
    ensures
        t as int == tokens_for_len(text@.len() as int),
{
    let n = text.unicode_len();
    let half = n / 2;
    if n > usize::MAX - half {
        usize::MAX
    } else {
        n + half
    }
}

/// Estimated tokens of a character slice.
fn estimate_tokens_chars(v: &[char]) -> (t: usize)
    ensures
        t as int == tokens_for_len(v@.len() as int),
{
    let n = v.len();
    let half = n / 2;
    if n > usize::MAX - half {
        usize::MAX
    } else {
        n + half
    }
}

/// A message as (role, content).
pub open spec fn msg_view(m: ChatMessage) -> (Seq<char>, Seq<char>) {
    (m.role@, m.content@)
}

/// The (role, content) views of a list of messages.
pub open spec fn msgs_view(s: Seq<ChatMessage>) -> Seq<(Seq<char>, Seq<char>)> {
    s.map_values(|m: ChatMessage| msg_view(m))
}

/// Estimated tokens of messages: each message's content estimate plus four for its role.
pub open spec fn messages_tokens(s: Seq<(Seq<char>, Seq<char>)>) -> int
    decreases s.len(),
{
    if s.len() == 0 {
        0
    } else {
        messages_tokens(s.drop_last()) + tokens_for_len(s.last().1.len() as int) + 4
    }
}

proof fn lemma_messages_tokens_prefix(s: Seq<(Seq<char>, Seq<char>)>, i: int)
    requires
        0 <= i <= s.len(),
    ensures
        messages_tokens(s.take(i)) <= messages_tokens(s),
        messages_tokens(s.take(i)) >= 0,
    decreases s.len() - i,
{
    lemma_messages_tokens_nonneg(s.take(i));
    if i < s.len() {
        lemma_messages_tokens_prefix(s, i + 1);
        assert(s.take(i + 1).drop_last() =~= s.take(i));
    } else {
        assert(s.take(i) =~= s);
        lemma_messages_tokens_nonneg(s);
    }
}

proof fn lemma_messages_tokens_nonneg(s: Seq<(Seq<char>, Seq<char>)>)
    ensures
        messages_tokens(s) >= 0,
    decreases s.len(),
{
    if s.len() > 0 {
        lemma_messages_tokens_nonneg(s.drop_last());
    }
}

/// Estimated tokens of a list of messages.
pub fn estimate_messages_tokens(messages: &[ChatMessage]) -> (t: usize)
    requires
        messages_tokens(msgs_view(messages@)) <= usize::MAX,
    ensures
        t as int == messages_tokens(msgs_view(messages@)),
{
    let ghost mv = msgs_view(messages@);
    let mut acc: usize = 0;
    let mut i: usize = 0;
    while i < messages.len()
        invariant
            i <= messages.len(),
            mv == msgs_view(messages@),
            messages_tokens(mv) <= usize::MAX,
            acc as int == messages_tokens(mv.take(i as int)),
        decreases messages.len() - i,
    {
        proof {
            assert(mv.take(i + 1).drop_last() =~= mv.take(i as int));
            lemma_messages_tokens_prefix(mv, i + 1);
        }
        let t = estimate_tokens(messages[i].content.as_str());
        acc = acc + t + 4;
        i = i + 1;
    }
    assert(mv.take(messages.len() as int) =~= mv);
    acc
}

/// Whether the estimate of the messages is within the total budget.
fn fits_budget(messages: &[ChatMessage]) -> (b: bool)
    ensures
        b == (messages_tokens(msgs_view(messages@)) <= TOTAL_CONTEXT_BUDGET),
{
    let ghost mv = msgs_view(messages@);
    let mut acc: u128 = 0;
    let mut i: usize = 0;
    while i < messages.len()
        invariant
            i <= messages.len(),
            mv == msgs_view(messages@),
            acc as int == messages_tokens(mv.take(i as int)),
            acc <= TOTAL_CONTEXT_BUDGET,
        decreases messages.len() - i,
    {
        proof {
            assert(mv.take(i + 1).drop_last() =~= mv.take(i as int));
        }
        let t = estimate_tokens(messages[i].content.as_str());
        acc = acc + t as u128 + 4;
        if acc > TOTAL_CONTEXT_BUDGET as u128 {
            proof {
                lemma_messages_tokens_prefix(mv, i + 1);
            }
            return false;
        }
        i = i + 1;
    }
    assert(mv.take(messages.len() as int) =~= mv);
    true
}

// ── Truncation ──────────────────────────────────────────────────────

/// Number of UTF-8 bytes of a character.
pub open spec fn utf8_width(c: char) -> int {
    if (c as u32) < 0x80 {
        1
    } else if (c as u32) < 0x800 {
        2
    } else if (c as u32) < 0x10000 {
        3
    } else {
        4
    }
}

/// Number of UTF-8 bytes of a text.
pub open spec fn byte_len(s: Seq<char>) -> int
    decreases s.len(),
{
    if s.len() == 0 {
        0
    } else {
        byte_len(s.drop_last()) + utf8_width(s.last())
    }
}

/// Position of the last newline of `s`, or -1.
pub open spec fn last_newline(s: Seq<char>) -> int
    decreases s.len(),
{
    if s.len() == 0 {
        -1
    } else if s.last() == '\n' {
        s.len() - 1
    } else {
        last_newline(s.drop_last())
    }
}

/// Characters allowed by a token budget: two thirds of it, rounded down.
pub open spec fn chars_for_tokens(m: int) -> int {
    (2 * m) / 3
}

/// The text cut to a token budget. A text within the budget is kept whole. Otherwise it
/// is cut to two thirds of the budget in characters, and further back to the last
/// newline of that prefix when that newline's byte offset exceeds half of the limit.
pub open spec fn truncated(t: Seq<char>, max_tokens: int) -> Seq<char> {
    if tokens_for_len(t.len() as int) <= max_tokens {
        t
    } else if chars_for_tokens(max_tokens) >= t.len() {
        t
    } else {
        let tr = t.take(chars_for_tokens(max_tokens));
        let p = last_newline(tr);
        if p >= 0 && byte_len(tr.take(p)) > chars_for_tokens(max_tokens) / 2 {
            tr.take(p)
        } else {
            tr
        }
    }
}

proof fn lemma_last_newline_bounds(s: Seq<char>)
    ensures
        -1 <= last_newline(s) < s.len(),
        last_newline(s) >= 0 ==> s[last_newline(s)] == '\n',
        forall|j: int| last_newline(s) < j < s.len() ==> s[j] != '\n',
    decreases s.len(),
{
    if s.len() > 0 && s.last() != '\n' {
        lemma_last_newline_bounds(s.drop_last());
        assert forall|j: int| last_newline(s) < j < s.len() implies s[j] != '\n' by {
            if j < s.len() - 1 {
                assert(s.drop_last()[j] == s[j]);
            }
        }
    }
}

proof fn lemma_last_newline_char(s: Seq<char>, p: int)
    requires
        -1 <= p < s.len(),
        p >= 0 ==> s[p] == '\n',
        forall|j: int| p < j < s.len() ==> s[j] != '\n',
    ensures
        last_newline(s) == p,
    decreases s.len(),
{
    if s.len() > 0 && p < s.len() - 1 {
        assert(s.last() != '\n');
        lemma_last_newline_char(s.drop_last(), p);
    }
}

/// Whether the UTF-8 length of `v[0..q]` exceeds `bound`.
fn byte_len_exceeds(v: &[char], q: usize, bound: usize) -> (b: bool)
    requires
        q <= v.len(),
    ensures
        b == (byte_len(v@.take(q as int)) > bound),
{
    let mut acc: usize = 0;
    let mut i: usize = 0;
    while i < q
        invariant
            i <= q <= v.len(),
            acc as int == byte_len(v@.take(i as int)),
            acc <= bound,
        decreases q - i,
    {
        assert(v@.take(i + 1).drop_last() =~= v@.take(i as int));
        let c = v[i];
        let w: usize = if (c as u32) < 0x80 {
            1
        } else if (c as u32) < 0x800 {
            2
        } else if (c as u32) < 0x10000 {
            3
        } else {
            4
        };
        if w > bound - acc {
            proof {
                lemma_byte_len_prefix(v@.take(q as int), i + 1);
                assert(v@.take(q as int).take(i + 1) =~= v@.take(i + 1));
            }
            return true;
        }
        acc = acc + w;
        i = i + 1;
    }
    false
}

proof fn lemma_byte_len_prefix(s: Seq<char>, i: int)
    requires
        0 <= i <= s.len(),
    ensures
        byte_len(s.take(i)) <= byte_len(s),
    decreases s.len() - i,
{
    if i < s.len() {
        lemma_byte_len_prefix(s, i + 1);
        assert(s.take(i + 1).drop_last() =~= s.take(i));
    } else {
        assert(s.take(i) =~= s);
    }
}

/// Cuts a text to fit a token budget (see [`truncated`]). A text that fits is kept
/// whatever the budget. The budget is turned into a number of characters only when the
/// text does not fit; that count is exact while the budget or the text's length is
/// below 2^52 characters (beyond it, a double-precision division would round).
pub fn truncate_text(text: &str, max_tokens: usize) -> (r: String)
    requires
        max_tokens <= 0x10_0000_0000_0000 || text@.len() <= 0x10_0000_0000_0000,
    ensures
        r@ == truncated(text@, max_tokens as int),
{
    let chars = chars_of(text);
    let n = chars.len();
    if estimate_tokens_chars(chars.as_slice()) <= max_tokens {
        return owned(text);
    }
    let max_chars = max_tokens / 3 * 2 + (max_tokens % 3) * 2 / 3;
    assert(max_chars as int == chars_for_tokens(max_tokens as int)) by (nonlinear_arith)
        requires
            max_chars == max_tokens / 3 * 2 + (max_tokens % 3) * 2 / 3,
    ;
    if max_chars >= n {
        return owned(text);
    }
    let ghost tr = chars@.take(max_chars as int);
    let mut p: usize = max_chars;
    while p > 0
        invariant
            p <= max_chars < n,
            n == chars@.len(),
            tr == chars@.take(max_chars as int),
            chars@ == text@,
            tokens_for_len(n as int) > max_tokens,
            max_chars as int == chars_for_tokens(max_tokens as int),
            forall|j: int| p <= j < max_chars ==> tr[j] != '\n',
        decreases p,
    {
        if chars[p - 1] == '\n' {
            proof {
                lemma_last_newline_char(tr, p - 1);
            }
            let q = p - 1;
            assert(last_newline(tr) == q);
            assert(tr.take(q as int) =~= chars@.take(q as int));
            if byte_len_exceeds(chars.as_slice(), q, max_chars / 2) {
                assert(truncated(text@, max_tokens as int) == tr.take(q as int));
                let r = string_from_range(chars.as_slice(), 0, q);
                assert(chars@.subrange(0, q as int) =~= tr.take(q as int));
                return r;
            }
            assert(tr.take(q as int) =~= chars@.take(q as int));
            let r = string_from_range(chars.as_slice(), 0, max_chars);
            assert(chars@.subrange(0, max_chars as int) =~= tr);
            return r;
        }
        p = p - 1;
    }
    proof {
        lemma_last_newline_char(tr, -1);
    }
    let r = string_from_range(chars.as_slice(), 0, max_chars);
    assert(chars@.subrange(0, max_chars as int) =~= tr);
    r
}

// ── Lines ───────────────────────────────────────────────────────────

/// Index of the first newline of `s`, or `s.len()` when there is none.
pub open spec fn first_newline(s: Seq<char>) -> int
    decreases s.len(),
{
    if s.len() == 0 {
        0
    } else if s[0] == '\n' {
        0
    } else {
        1 + first_newline(s.skip(1))
    }
}

pub proof fn lemma_first_newline_range(s: Seq<char>)
    ensures
        0 <= first_newline(s) <= s.len(),
    decreases s.len(),
{
    if s.len() > 0 && s[0] != '\n' {
        lemma_first_newline_range(s.skip(1));
    }
}

/// A line without the carriage return that preceded its newline.
pub open spec fn strip_cr(l: Seq<char>) -> Seq<char> {
    if l.len() > 0 && l.last() == '\r' {
        l.drop_last()
    } else {
        l
    }
}

/// The lines of a text as `str::lines` yields them: split at `\n`, a `\r` before the
/// `\n` removed, and no empty line after a final newline.
pub open spec fn split_lines(s: Seq<char>) -> Seq<Seq<char>>
    decreases s.len(),
{
    if s.len() == 0 {
        Seq::empty()
    } else {
        let k = first_newline(s);
        proof {
            lemma_first_newline_range(s);
        }
        if k >= s.len() {
            seq![s]
        } else {
            seq![strip_cr(s.take(k))] + split_lines(s.skip(k + 1))
        }
    }
}

proof fn lemma_first_newline(s: Seq<char>, k: int)
    requires
        0 <= k <= s.len(),
        forall|j: int| 0 <= j < k ==> s[j] != '\n',
        k < s.len() ==> s[k] == '\n',
    ensures
        first_newline(s) == k,
    decreases k,
{
    if k > 0 {
        assert forall|j: int| 0 <= j < k - 1 implies s.skip(1)[j] != '\n' by {
            assert(s.skip(1)[j] == s[j + 1]);
        }
        if k < s.len() {
            assert(s.skip(1)[k - 1] == s[k]);
        }
        lemma_first_newline(s.skip(1), k - 1);
    }
}

// ── Long-term memory section ────────────────────────────────────────

/// Whether a line is a summary header (`### ...`) containing the given marker.
pub open spec fn is_header_with(line: Seq<char>, marker: Seq<char>) -> bool {
    has_prefix(line, "### "@) && has_substring(line, marker)
}

/// One step of selecting summary blocks. The state is (weekly headers kept, monthly
/// headers kept, whether the current block is kept, text). A header within its limit
/// opens a kept block, one beyond it a dropped block; the lines before the first header
/// are kept.
pub open spec fn section_step(
    st: (int, int, bool, Seq<char>),
    line: Seq<char>,
    weeks: int,
    months: int,
) -> (int, int, bool, Seq<char>) {
    let (wc, mc, keep, out) = st;
    if is_header_with(line, "周"@) {
        if wc >= weeks {
            (wc, mc, false, out)
        } else {
            (wc + 1, mc, true, out + line + seq!['\n'])
        }
    } else if is_header_with(line, "月"@) {
        if mc >= months {
            (wc, mc, false, out)
        } else {
            (wc, mc + 1, true, out + line + seq!['\n'])
        }
    } else if keep {
        (wc, mc, keep, out + line + seq!['\n'])
    } else {
        st
    }
}

/// Selection state after a sequence of lines.
pub open spec fn section_fold(lines: Seq<Seq<char>>, weeks: int, months: int) -> (
    int,
    int,
    bool,
    Seq<char>,
)
    decreases lines.len(),
{
    if lines.len() == 0 {
        (0, 0, true, Seq::empty())
    } else {
        section_step(section_fold(lines.drop_last(), weeks, months), lines.last(), weeks, months)
    }
}

/// The long-term memory text keeping only the first `weeks` weekly and the first
/// `months` monthly summary blocks (each block is a `### ` header line with `周` or `月`
/// and the lines after it up to the next header), and the lines before the first
/// header; every kept line ends with a newline.
pub open spec fn long_term_section(raw: Seq<char>, weeks: int, months: int) -> Seq<char> {
    if raw.len() == 0 || (weeks == 0 && months == 0) {
        Seq::empty()
    } else {
        section_fold(split_lines(raw), weeks, months).3
    }
}

/// Appends characters to a string.
fn push_chars(s: &mut String, v: &[char], from: usize, to: usize)
    requires
        from <= to <= v.len(),
    ensures
        final(s)@ == old(s)@ + v@.subrange(from as int, to as int),
{
    let mut i = from;
    while i < to
        invariant
            from <= i <= to <= v.len(),
            s@ == old(s)@ + v@.subrange(from as int, i as int),
        decreases to - i,
    {
        crate::text::push_char(s, v[i]);
        assert(v@.subrange(from as int, i + 1) =~= v@.subrange(from as int, i as int).push(
            v@[i as int],
        ));
        i = i + 1;
    }
}

/// Builds the long-term memory section (see [`long_term_section`]).
pub fn build_long_term_section(raw: &str, weeks: usize, months: usize) -> (r: String)
    ensures
        r@ == long_term_section(raw@, weeks as int, months as int),
{
    let chars = chars_of(raw);
    let n = chars.len();
    if n == 0 || (weeks == 0 && months == 0) {
        return String::new();
    }
    let hdr = chars_of("### ");
    let week_mark = chars_of("周");
    let month_mark = chars_of("月");
    let mut out = String::new();
    let mut wc: usize = 0;
    let mut mc: usize = 0;
    let mut in_block: bool = true;
    let mut start: usize = 0;
    let ghost mut done: Seq<Seq<char>> = Seq::empty();
    proof {
        assert(chars@.skip(0) =~= chars@);
    }
    while start < n
        invariant
            start <= n == chars@.len(),
            chars@ == raw@,
            hdr@ == "### "@,
            week_mark@ == "周"@,
            month_mark@ == "月"@,
            split_lines(raw@) == done + split_lines(chars@.skip(start as int)),
            section_fold(done, weeks as int, months as int) == (wc as int, mc as int, in_block, out@),
            wc <= weeks,
            mc <= months,
        decreases n - start,
    {
        let mut k = start;
        while k < n && chars[k] != '\n'
            invariant
                start <= k <= n == chars@.len(),
                forall|j: int| start <= j < k ==> chars@[j] != '\n',
            decreases n - k,
        {
            k = k + 1;
        }
        let ghost rest = chars@.skip(start as int);
        proof {
            lemma_first_newline(rest, k - start);
        }
        let mut end = k;
        if k < n && k > start && chars[k - 1] == '\r' {
            end = k - 1;
        }
        let ghost line = chars@.subrange(start as int, end as int);
        proof {
            if k < n {
                assert(rest.take(k - start) =~= chars@.subrange(start as int, k as int));
                assert(strip_cr(rest.take(k - start)) =~= line);
                assert(rest.skip(k - start + 1) =~= chars@.skip(k + 1));
                assert(split_lines(rest) == seq![line] + split_lines(chars@.skip(k + 1)));
            } else {
                assert(rest =~= line);
                assert(split_lines(rest) == seq![line]);
            }
        }
        let line_slice = &chars.as_slice()[start..end];
        assert(line_slice@ =~= line);
        let starts = crate::text::chars_start_with(line_slice, hdr.as_slice());
        let is_week = starts && crate::text::contains_chars(line_slice, week_mark.as_slice());
        let is_month = starts && crate::text::contains_chars(line_slice, month_mark.as_slice());
        if is_week {
            if wc >= weeks {
                in_block = false;
            } else {
                wc = wc + 1;
                in_block = true;
            }
        } else if is_month {
            if mc >= months {
                in_block = false;
            } else {
                mc = mc + 1;
                in_block = true;
            }
        }
        if in_block {
            push_chars(&mut out, chars.as_slice(), start, end);
            crate::text::push_char(&mut out, '\n');
        }
        proof {
            let nd = done.push(line);
            assert(nd.drop_last() =~= done);
            if k < n {
                assert(split_lines(raw@) == nd + split_lines(chars@.skip(k + 1)));
            } else {
                assert(chars@.skip(n as int) =~= Seq::<char>::empty());
                assert(split_lines(raw@) == nd + split_lines(chars@.skip(n as int)));
            }
            done = nd;
        }
        if k < n {
            start = k + 1;
        } else {
            start = n;
        }
    }
    proof {
        assert(chars@.skip(n as int) =~= Seq::<char>::empty());
        assert(done + Seq::<Seq<char>>::empty() =~= done);
    }
    out
}

// ── User profile section ────────────────────────────────────────────

/// One profile line: `- key: value` and a newline.
pub open spec fn profile_line(k: Seq<char>, v: Seq<char>) -> Seq<char> {
    "- "@ + k + ": "@ + v + "\n"@
}

/// Adds profile lines to `acc` in order, stopping right after the first line that
/// takes the estimate of the text over the profile budget.
pub open spec fn profile_body(entries: Seq<(String, String)>, acc: Seq<char>) -> Seq<char>
    decreases entries.len(),
{
    if entries.len() == 0 {
        acc
    } else {
        let a = acc + profile_line(entries[0].0@, entries[0].1@);
        if tokens_for_len(a.len() as int) > USER_PROFILE_BUDGET {
            a
        } else {
            profile_body(entries.skip(1), a)
        }
    }
}

/// The user profile section: empty without entries, otherwise a `## 用户信息` header,
/// the lines within budget and a blank line.
pub open spec fn profile_text(entries: Seq<(String, String)>) -> Seq<char> {
    if entries.len() == 0 {
        Seq::empty()
    } else {
        profile_body(entries, "## 用户信息\n"@) + "\n\n"@
    }
}

/// Builds the user profile section (see [`profile_text`]).
pub fn build_profile_text(entries: &[(String, String)]) -> (r: String)
    ensures
        r@ == profile_text(entries@),
{
    if entries.len() == 0 {
        return String::new();
    }
    let mut text = owned("## 用户信息\n");
    let mut i: usize = 0;
    assert(entries@.skip(0) =~= entries@);
    while i < entries.len()
        invariant
            i <= entries.len(),
            profile_body(entries@, "## 用户信息\n"@) == profile_body(entries@.skip(i as int), text@),
        decreases entries.len() - i,
    {
        let ghost before = text@;
        text.append("- ");
        text.append(entries[i].0.as_str());
        text.append(": ");
        text.append(entries[i].1.as_str());
        text.append("\n");
        proof {
            let e = entries@.skip(i as int);
            assert(e[0] == entries@[i as int]);
            assert(text@ =~= before + profile_line(entries@[i as int].0@, entries@[i as int].1@));
            assert(e.skip(1) =~= entries@.skip(i + 1));
        }
        let len = text.unicode_len();
        let half = len / 2;
        if len > usize::MAX - half || len + half > USER_PROFILE_BUDGET {
            assert(profile_body(entries@.skip(i as int), before) == text@);
            text.append("\n\n");
            return text;
        }
        assert(profile_body(entries@.skip(i as int), before) == profile_body(
            entries@.skip(i + 1),
            text@,
        ));
        i = i + 1;
    }
    assert(entries@.skip(i as int).len() == 0);
    text.append("\n\n");
    text
}

// ── Context assembly ────────────────────────────────────────────────

/// What the context is built from.
pub struct ContextSources {
    /// A custom system prompt given with the request (may be empty).
    pub custom_prompt: String,
    /// The character's system prompt.
    pub character_prompt: String,
    /// The character's preset prompt.
    pub preset_prompt: String,
    /// The user profile as (key, value) pairs, in the order they are listed.
    pub profile: Vec<(String, String)>,
    /// The long-term memory text (summary blocks).
    pub long_term: String,
    /// Today's messages, oldest first.
    pub recent: Vec<ChatMessage>,
}

/// A section followed by a blank line, or nothing when the section is empty.
pub open spec fn section(s: Seq<char>) -> Seq<char> {
    if s.len() > 0 {
        s + "\n\n"@
    } else {
        Seq::empty()
    }
}

/// A non-empty prompt cut to a budget and followed by a blank line; nothing when empty.
pub open spec fn capped_section(s: Seq<char>, budget: int) -> Seq<char> {
    if s.len() > 0 {
        truncated(s, budget) + "\n\n"@
    } else {
        Seq::empty()
    }
}

/// The part of the system text that does not depend on the trimming level.
pub open spec fn base_system(src: ContextSources) -> Seq<char> {
    section(src.custom_prompt@) + capped_section(src.character_prompt@, SYSTEM_PROMPT_BUDGET as int)
        + capped_section(src.preset_prompt@, PRESET_PROMPT_BUDGET as int) + profile_text(
        src.profile@,
    )
}

/// The long-term memory block of the system text.
pub open spec fn memory_block(lt: Seq<char>) -> Seq<char> {
    if lt.len() > 0 {
        "## 近期记忆\n"@ + lt + "\n\n"@
    } else {
        Seq::empty()
    }
}

/// Weekly summaries kept at long-term level `i` (4, 2, 1, 0).
pub open spec fn level_weeks(i: int) -> int {
    if i == 0 {
        4
    } else if i == 1 {
        2
    } else if i == 2 {
        1
    } else {
        0
    }
}

/// Monthly summaries kept at long-term level `i` (2, 1, 0, 0).
pub open spec fn level_months(i: int) -> int {
    if i == 0 {
        2
    } else if i == 1 {
        1
    } else {
        0
    }
}

/// Recent messages kept at short-term level `j` (30, 20, 10, 5).
pub open spec fn level_recent(j: int) -> int {
    if j == 0 {
        30
    } else if j == 1 {
        20
    } else if j == 2 {
        10
    } else {
        5
    }
}

/// The last `count` messages (all of them when there are fewer).
pub open spec fn last_messages(s: Seq<ChatMessage>, count: int) -> Seq<ChatMessage> {
    if s.len() > count {
        s.skip(s.len() - count)
    } else {
        s
    }
}

/// The message list for a system text, recent messages and the user's new message:
/// the system message (when the text is not empty), the recent messages, the new one.
pub open spec fn context_messages(
    sys: Seq<char>,
    recent: Seq<ChatMessage>,
    user: Seq<char>,
) -> Seq<(Seq<char>, Seq<char>)> {
    (if sys.len() > 0 {
        seq![("system"@, sys)]
    } else {
        Seq::empty()
    }) + msgs_view(recent) + seq![("user"@, user)]
}

/// The system text at long-term level `i`: the base text and that level's memory block.
pub open spec fn level_system(src: ContextSources, i: int) -> Seq<char> {
    base_system(src) + memory_block(
        long_term_section(src.long_term@, level_weeks(i), level_months(i)),
    )
}

/// The candidate context at trimming step `k` (short-term level `k / 4`, long-term level
/// `k % 4`): long-term memory is trimmed first, recent messages last.
pub open spec fn candidate(src: ContextSources, user: Seq<char>, k: int) -> Seq<
    (Seq<char>, Seq<char>),
> {
    context_messages(
        level_system(src, k % 4),
        last_messages(src.recent@, level_recent(k / 4)),
        user,
    )
}

/// At most the first `n` characters of a text.
pub open spec fn leading_chars(t: Seq<char>, n: int) -> Seq<char> {
    if t.len() > n {
        t.take(n)
    } else {
        t
    }
}

/// The context used when no candidate fits: custom and character prompts, the first
/// five hundred characters of the preset prompt, and the last five messages.
pub open spec fn last_resort(src: ContextSources, user: Seq<char>) -> Seq<(Seq<char>, Seq<char>)> {
    let forced = leading_chars(src.preset_prompt@, PRESET_MIN_CHARS as int);
    context_messages(
        section(src.custom_prompt@) + capped_section(
            src.character_prompt@,
            SYSTEM_PROMPT_BUDGET as int,
        ) + section(forced),
        last_messages(src.recent@, SHORT_TERM_MIN_COUNT as int),
        user,
    )
}

/// Whether a message list is within the total budget.
pub open spec fn within_budget(m: Seq<(Seq<char>, Seq<char>)>) -> bool {
    messages_tokens(m) <= TOTAL_CONTEXT_BUDGET
}

/// The first candidate from step `k` on that is within budget, else the last resort.
pub open spec fn first_fitting(src: ContextSources, user: Seq<char>, k: int) -> Seq<
    (Seq<char>, Seq<char>),
>
    decreases 16 - k,
{
    if k >= 16 || k < 0 {
        last_resort(src, user)
    } else if within_budget(candidate(src, user, k)) {
        candidate(src, user, k)
    } else {
        first_fitting(src, user, k + 1)
    }
}

/// The context sent to the model: the first candidate within budget, trying 30, 20, 10
/// and 5 recent messages in order and, with each, the long-term levels (4 weeks + 2
/// months, 2 + 1, 1 + 0, none); the last resort when none fits.
pub open spec fn full_context(src: ContextSources, user: Seq<char>) -> Seq<(Seq<char>, Seq<char>)> {
    first_fitting(src, user, 0)
}

proof fn lemma_first_fitting_found(src: ContextSources, user: Seq<char>, m: int, k: int)
    requires
        0 <= m <= k < 16,
        forall|j: int| m <= j < k ==> !within_budget(#[trigger] candidate(src, user, j)),
        within_budget(candidate(src, user, k)),
    ensures
        first_fitting(src, user, m) == candidate(src, user, k),
    decreases k - m,
{
    if m < k {
        lemma_first_fitting_found(src, user, m + 1, k);
    }
}

proof fn lemma_first_fitting_none(src: ContextSources, user: Seq<char>, m: int)
    requires
        0 <= m <= 16,
        forall|j: int| m <= j < 16 ==> !within_budget(#[trigger] candidate(src, user, j)),
    ensures
        first_fitting(src, user, m) == last_resort(src, user),
    decreases 16 - m,
{
    if m < 16 {
        lemma_first_fitting_none(src, user, m + 1);
    }
}

/// Appends a section and a blank line when the section is not empty.
fn push_section(out: &mut String, s: &str)
    ensures
        final(out)@ == old(out)@ + section(s@),
{
    if s.unicode_len() > 0 {
        out.append(s);
        out.append("\n\n");
    } else {
        assert(old(out)@ + section(s@) =~= old(out)@);
    }
}

/// The messages for a system text, the last `count` recent messages and the new message.
fn make_messages(sys: &str, recent: &[ChatMessage], count: usize, user: &str) -> (r: Vec<
    ChatMessage,
>)
    ensures
        msgs_view(r@) == context_messages(sys@, last_messages(recent@, count as int), user@),
{
    let mut r: Vec<ChatMessage> = Vec::new();
    if sys.unicode_len() > 0 {
        r.push(ChatMessage::system(sys));
    }
    let ghost head = r@;
    let from: usize = if recent.len() > count {
        recent.len() - count
    } else {
        0
    };
    let ghost kept = last_messages(recent@, count as int);
    assert(kept =~= recent@.skip(from as int));
    let mut i = from;
    while i < recent.len()
        invariant
            from <= i <= recent.len(),
            kept == recent@.skip(from as int),
            r@ == head + recent@.subrange(from as int, i as int),
        decreases recent.len() - i,
    {
        r.push(recent[i].duplicate());
        assert(recent@.subrange(from as int, i + 1) =~= recent@.subrange(from as int, i as int).push(
            recent@[i as int],
        ));
        i = i + 1;
    }
    assert(recent@.subrange(from as int, recent.len() as int) =~= kept);
    let ghost mid = r@;
    r.push(ChatMessage::user(user));
    proof {
        assert(r@ =~= head + kept + seq![r@.last()]);
        assert(msgs_view(head + kept + seq![r@.last()]) =~= msgs_view(head) + msgs_view(kept)
            + msgs_view(seq![r@.last()]));
        if sys@.len() > 0 {
            assert(msgs_view(head) =~= seq![("system"@, sys@)]);
        } else {
            assert(msgs_view(head) =~= Seq::<(Seq<char>, Seq<char>)>::empty());
        }
        assert(msgs_view(seq![r@.last()]) =~= seq![("user"@, user@)]);
    }
    r
}

/// At most the first `n` characters of a text (see [`leading_chars`]).
fn leading_text(t: &str, n: usize) -> (r: String)
    ensures
        r@ == leading_chars(t@, n as int),
{
    let chars = chars_of(t);
    let end = if chars.len() > n {
        n
    } else {
        chars.len()
    };
    let r = string_from_range(chars.as_slice(), 0, end);
    assert(r@ =~= leading_chars(t@, n as int));
    r
}

/// Builds the messages for a chat request (see [`full_context`]).
pub fn build_context(src: &ContextSources, user_message: &str) -> (r: Vec<ChatMessage>)
    ensures
        msgs_view(r@) == full_context(*src, user_message@),
{
    let mut base = String::new();
    push_section(&mut base, src.custom_prompt.as_str());
    let ghost b0 = base@;
    if src.character_prompt.unicode_len() > 0 {
        let sp = truncate_text(src.character_prompt.as_str(), SYSTEM_PROMPT_BUDGET);
        base.append(sp.as_str());
        base.append("\n\n");
    }
    let ghost b1 = base@;
    assert(b1 =~= b0 + capped_section(src.character_prompt@, SYSTEM_PROMPT_BUDGET as int));
    if src.preset_prompt.unicode_len() > 0 {
        let pp = truncate_text(src.preset_prompt.as_str(), PRESET_PROMPT_BUDGET);
        base.append(pp.as_str());
        base.append("\n\n");
    }
    let ghost b2 = base@;
    assert(b2 =~= b1 + capped_section(src.preset_prompt@, PRESET_PROMPT_BUDGET as int));
    let profile = build_profile_text(src.profile.as_slice());
    base.append(profile.as_str());
    assert(base@ =~= base_system(*src));
    // The system text of each long-term level.
    let mut systems: Vec<String> = Vec::new();
    let mut i: usize = 0;
    while i < 4
        invariant
            i <= 4,
            base@ == base_system(*src),
            systems@.len() == i,
            forall|m: int| 0 <= m < i ==> (#[trigger] systems@[m])@ == level_system(*src, m),
        decreases 4 - i,
    {
        let (weeks, months): (usize, usize) = if i == 0 {
            (4, 2)
        } else if i == 1 {
            (2, 1)
        } else if i == 2 {
            (1, 0)
        } else {
            (0, 0)
        };
        let lt = build_long_term_section(src.long_term.as_str(), weeks, months);
        let mut sys = base.clone();
        if lt.unicode_len() > 0 {
            sys.append("## 近期记忆\n");
            sys.append(lt.as_str());
            sys.append("\n\n");
        }
        assert(sys@ =~= level_system(*src, i as int));
        systems.push(sys);
        i = i + 1;
    }
    let mut j: usize = 0;
    while j < 4
        invariant
            j <= 4,
            systems@.len() == 4,
            forall|m: int| 0 <= m < 4 ==> (#[trigger] systems@[m])@ == level_system(*src, m),
            forall|k: int| 0 <= k < 4 * j ==> !within_budget(#[trigger] candidate(*src, user_message@, k)),
        decreases 4 - j,
    {
        let count: usize = if j == 0 {
            30
        } else if j == 1 {
            20
        } else if j == 2 {
            10
        } else {
            5
        };
        let mut l: usize = 0;
        while l < 4
            invariant
                j < 4,
                l <= 4,
                count as int == level_recent(j as int),
                systems@.len() == 4,
                forall|m: int| 0 <= m < 4 ==> (#[trigger] systems@[m])@ == level_system(*src, m),
                forall|k: int| 0 <= k < 4 * j + l ==> !within_budget(#[trigger] candidate(*src, user_message@, k)),
            decreases 4 - l,
        {
            let msgs = make_messages(systems[l].as_str(), src.recent.as_slice(), count, user_message);
            let ghost k = 4 * j + l;
            assert(k / 4 == j && k % 4 == l);
            assert(systems@[l as int]@ == level_system(*src, l as int));
            assert(msgs_view(msgs@) == candidate(*src, user_message@, k as int));
            if fits_budget(msgs.as_slice()) {
                proof {
                    lemma_first_fitting_found(*src, user_message@, 0, k as int);
                }
                return msgs;
            }
            l = l + 1;
        }
        j = j + 1;
    }
    let mut sys = String::new();
    push_section(&mut sys, src.custom_prompt.as_str());
    if src.character_prompt.unicode_len() > 0 {
        let sp = truncate_text(src.character_prompt.as_str(), SYSTEM_PROMPT_BUDGET);
        sys.append(sp.as_str());
        sys.append("\n\n");
    }
    let ghost s1 = sys@;
    assert(s1 =~= section(src.custom_prompt@) + capped_section(
        src.character_prompt@,
        SYSTEM_PROMPT_BUDGET as int,
    ));
    let forced = leading_text(src.preset_prompt.as_str(), PRESET_MIN_CHARS);
    push_section(&mut sys, forced.as_str());
    let msgs = make_messages(sys.as_str(), src.recent.as_slice(), SHORT_TERM_MIN_COUNT, user_message);
    proof {
        lemma_first_fitting_none(*src, user_message@, 0);
    }
    msgs
}

/// A cut text is a beginning of the text and fits the budget: its estimate is at most
/// `max_tokens`, whether it was cut or already fitted.
pub proof fn lemma_truncated_fits(t: Seq<char>, max_tokens: int)
    requires
        0 <= max_tokens,
    ensures
        truncated(t, max_tokens).len() <= t.len(),
        truncated(t, max_tokens) == t.take(truncated(t, max_tokens).len() as int),
        tokens_for_len(truncated(t, max_tokens).len() as int) <= max_tokens,
{
    let c = chars_for_tokens(max_tokens);
    if tokens_for_len(t.len() as int) <= max_tokens {
        assert(t.take(t.len() as int) =~= t);
    } else if c >= t.len() {
        assert(t.len() + t.len() / 2 <= max_tokens);
        assert(t.take(t.len() as int) =~= t);
    } else {
        let tr = t.take(c);
        let p = last_newline(tr);
        lemma_last_newline_bounds(tr);
        assert(c + c / 2 <= max_tokens);
        if p >= 0 && byte_len(tr.take(p)) > c / 2 {
            assert(tr.take(p) =~= t.take(p));
            assert(p + p / 2 <= c + c / 2);
        }
    }
}

proof fn lemma_context_messages_last(sys: Seq<char>, recent: Seq<ChatMessage>, user: Seq<char>)
    ensures
        context_messages(sys, recent, user).len() >= 1,
        context_messages(sys, recent, user).last() == ("user"@, user),
{
    let head = if sys.len() > 0 {
        seq![("system"@, sys)]
    } else {
        Seq::<(Seq<char>, Seq<char>)>::empty()
    };
    assert(context_messages(sys, recent, user) == (head + msgs_view(recent)) + seq![("user"@, user)]);
}

proof fn lemma_first_fitting_shape(src: ContextSources, user: Seq<char>, k: int)
    ensures
        first_fitting(src, user, k).len() >= 1,
        first_fitting(src, user, k).last() == ("user"@, user),
        within_budget(first_fitting(src, user, k)) || first_fitting(src, user, k) == last_resort(
            src,
            user,
        ),
    decreases 16 - k,
{
    if k >= 16 || k < 0 {
        let forced = leading_chars(src.preset_prompt@, PRESET_MIN_CHARS as int);
        lemma_context_messages_last(
            section(src.custom_prompt@) + capped_section(src.character_prompt@, SYSTEM_PROMPT_BUDGET as int)
                + section(forced),
            last_messages(src.recent@, SHORT_TERM_MIN_COUNT as int),
            user,
        );
    } else if within_budget(candidate(src, user, k)) {
        lemma_context_messages_last(
            level_system(src, k % 4),
            last_messages(src.recent@, level_recent(k / 4)),
            user,
        );
    } else {
        lemma_first_fitting_shape(src, user, k + 1);
    }
}

/// Long-term memory is trimmed first: when the thirty most recent messages fit the
/// budget with some long-term level, the context keeps all of them, with the richest
/// long-term level that fits.
pub proof fn lemma_long_term_trimmed_first(src: ContextSources, user: Seq<char>, i: int)
    requires
        0 <= i < 4,
        within_budget(candidate(src, user, i)),
        forall|l: int| 0 <= l < i ==> !within_budget(#[trigger] candidate(src, user, l)),
    ensures
        full_context(src, user) == context_messages(
            level_system(src, i),
            last_messages(src.recent@, SHORT_TERM_LOAD_COUNT as int),
            user,
        ),
{
    lemma_first_fitting_found(src, user, 0, i);
}

/// The user's new message is never trimmed: it is always the last message of the
/// context. And the context is within the total budget unless every trimming level was
/// over it and the last resort was used.
pub proof fn lemma_context_keeps_user_message(src: ContextSources, user: Seq<char>)
    ensures
        full_context(src, user).len() >= 1,
        full_context(src, user).last() == ("user"@, user),
        within_budget(full_context(src, user)) || full_context(src, user) == last_resort(src, user),
{
    lemma_first_fitting_shape(src, user, 0);
}

/// The profile lines start with the text they are added to.
proof fn lemma_profile_body_keeps(entries: Seq<(String, String)>, acc: Seq<char>)
    ensures
        acc.len() <= profile_body(entries, acc).len(),
        profile_body(entries, acc).subrange(0, acc.len() as int) == acc,
    decreases entries.len(),
{
    if entries.len() > 0 {
        let a = acc + profile_line(entries[0].0@, entries[0].1@);
        if tokens_for_len(a.len() as int) > USER_PROFILE_BUDGET {
            assert(a.subrange(0, acc.len() as int) =~= acc);
        } else {
            lemma_profile_body_keeps(entries.skip(1), a);
            let b = profile_body(entries.skip(1), a);
            assert(b.subrange(0, acc.len() as int) =~= b.subrange(0, a.len() as int).subrange(
                0,
                acc.len() as int,
            ));
            assert(a.subrange(0, acc.len() as int) =~= acc);
        }
    }
}

/// The first profile entry always gets its line, right after the text it is added to.
proof fn lemma_profile_body_first(entries: Seq<(String, String)>, acc: Seq<char>)
    requires
        entries.len() > 0,
    ensures
        ({
            let a = acc + profile_line(entries[0].0@, entries[0].1@);
            a.len() <= profile_body(entries, acc).len() && profile_body(entries, acc).subrange(
                0,
                a.len() as int,
            ) == a
        }),
{
    let a = acc + profile_line(entries[0].0@, entries[0].1@);
    if tokens_for_len(a.len() as int) > USER_PROFILE_BUDGET {
        assert(a.subrange(0, a.len() as int) =~= a);
    } else {
        lemma_profile_body_keeps(entries.skip(1), a);
    }
}

/// A context that is not the last resort is one of the trimming candidates.
proof fn lemma_first_fitting_is_candidate(src: ContextSources, user: Seq<char>, k: int)
    requires
        0 <= k,
        first_fitting(src, user, k) != last_resort(src, user),
    ensures
        exists|j: int| k <= j < 16 && first_fitting(src, user, k) == candidate(src, user, j),
    decreases 16 - k,
{
    if k < 16 {
        if within_budget(candidate(src, user, k)) {
            assert(first_fitting(src, user, k) == candidate(src, user, k));
        } else {
            lemma_first_fitting_is_candidate(src, user, k + 1);
            let j = choose|j: int| k + 1 <= j < 16 && first_fitting(src, user, k + 1) == candidate(src, user, j);
            assert(first_fitting(src, user, k) == candidate(src, user, j));
        }
    }
}

/// The user profile is sent to the model: when it has an entry and the context is not
/// the last resort, the first message is the system message, and right after the
/// custom prompt and the capped character and preset prompts it holds the profile
/// section: the `## 用户信息` header followed by the line `- key: value` of the first
/// entry (and the rest of the section after it).
pub proof fn lemma_profile_follows_prompts(src: ContextSources, user: Seq<char>)
    requires
        src.profile@.len() > 0,
        full_context(src, user) != last_resort(src, user),
    ensures
        full_context(src, user).len() >= 2,
        full_context(src, user)[0].0 == "system"@,
        ({
            let prompts = section(src.custom_prompt@) + capped_section(
                src.character_prompt@,
                SYSTEM_PROMPT_BUDGET as int,
            ) + capped_section(src.preset_prompt@, PRESET_PROMPT_BUDGET as int);
            let head = prompts + "## 用户信息\n"@ + "- "@ + src.profile@[0].0@ + ": "@ + src.profile@[0].1@
                + "\n"@;
            let sys = full_context(src, user)[0].1;
            &&& head.len() <= sys.len()
            &&& sys.subrange(0, head.len() as int) == head
            &&& prompts.len() + profile_text(src.profile@).len() <= sys.len()
            &&& sys.subrange(prompts.len() as int, (prompts.len() + profile_text(src.profile@).len()) as int)
                == profile_text(src.profile@)
        }),
{
    lemma_first_fitting_is_candidate(src, user, 0);
    let j = choose|j: int| 0 <= j < 16 && first_fitting(src, user, 0) == candidate(src, user, j);
    let prompts = section(src.custom_prompt@) + capped_section(src.character_prompt@, SYSTEM_PROMPT_BUDGET as int)
        + capped_section(src.preset_prompt@, PRESET_PROMPT_BUDGET as int);
    let hdr = "## 用户信息\n"@;
    let pt = profile_text(src.profile@);
    let body = profile_body(src.profile@, hdr);
    let mb = memory_block(long_term_section(src.long_term@, level_weeks(j % 4), level_months(j % 4)));
    let sys = level_system(src, j % 4);
    assert(sys =~= prompts + (body + "\n\n"@) + mb);
    reveal_strlit("\n\n");
    assert(sys.len() > 0);
    let recent = last_messages(src.recent@, level_recent(j / 4));
    let cm = context_messages(sys, recent, user);
    assert(cm == (seq![("system"@, sys)] + msgs_view(recent)) + seq![("user"@, user)]);
    assert(cm[0] == ("system"@, sys));
    lemma_profile_body_first(src.profile@, hdr);
    let a = hdr + profile_line(src.profile@[0].0@, src.profile@[0].1@);
    let head = prompts + "## 用户信息\n"@ + "- "@ + src.profile@[0].0@ + ": "@ + src.profile@[0].1@ + "\n"@;
    assert(head =~= prompts + a);
    assert(sys.subrange(0, head.len() as int) =~= prompts + body.subrange(0, a.len() as int));
    assert(sys.subrange(prompts.len() as int, (prompts.len() + pt.len()) as int) =~= pt);
}

} // verus!
