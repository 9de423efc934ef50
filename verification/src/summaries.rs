//! The periodic summaries of the conversation: the requests that ask for them and the
//! records made of the model's answers.
use vstd::prelude::*;
use vstd::string::*;
use crate::llm::ChatMessage;
use crate::json::{JsonValue, json_get, json_i64, json_strings, get, strings_of};
use crate::keyed::{KeyedList, assoc_insert};
use crate::profile_update::{joined, texts, join_strings};
use crate::profile_reply::str_or_empty;
use crate::text::{padded, chars_start_with, chars_of, format_padded};

verus! {

pub const WEEKLY_PROMPT_HEAD: &'static str = "请分析以下一周的对话记录，生成简洁的周总结。\n\n要求：\n1. 提取 3-5 个关键词\n2. 描述情绪变化曲线\n3. 列出重要事件\n4. 用 2-3 句话总结本周\n\n## 对话记录\n";
pub const WEEKLY_PROMPT_MIDDLE: &'static str = "\n\n请按以下 JSON 格式输出（只需输出 JSON，不要其他内容）：\n{\"keywords\": [\"关键词1\", \"关键词2\"], \"emotion_arc\": [\"情绪1\", \"情绪2\"], \"summary\": \"总结内容\", \"important_events\": [\"事件1\", \"事件2\"], \"chat_count\": ";
pub const WEEKLY_PROMPT_TAIL: &'static str = "}";
pub const MONTHLY_PROMPT_HEAD: &'static str = "请分析本月的对话记录，生成月度总结。\n\n要求：\n1. 统计情绪分布 (happy/tired/relaxed/other 百分比)\n2. 总结主要话题\n3. 描述关系变化\n4. 列出里程碑事件\n\n## 本月对话\n";
pub const MONTHLY_PROMPT_TAIL: &'static str = "\n\n请按以下 JSON 格式输出（只需输出 JSON，不要其他内容）：\n{\"emotion_distribution\": {\"happy\": 40, \"tired\": 30, \"relaxed\": 20, \"other\": 10}, \"topics\": [\"话题1\", \"话题2\"], \"relationship_growth\": \"关系变化描述\", \"milestones\": [\"里程碑1\", \"里程碑2\"]}";
pub const QUARTERLY_PROMPT_HEAD: &'static str = "请分析本季度的月度总结，生成季度报告。\n\n要求：\n1. 总结本季度的主要变化\n2. 列出关键里程碑\n3. 用简洁语言描述\n\n## 月度总结\n";
pub const QUARTERLY_PROMPT_TAIL: &'static str = "\n\n请按以下 JSON 格式输出：\n{\"keywords\": [], \"summary\": \"\", \"important_events\": [], \"milestone\": \"\"}";
pub const YEARLY_PROMPT_HEAD: &'static str = "请分析本年的季度总结，生成年度报告。\n\n要求：\n1. 总结本年的主要变化\n2. 描述关系发展\n3. 列出最难忘的时刻\n\n## 季度总结\n";
pub const YEARLY_PROMPT_TAIL: &'static str = "\n\n请按以下 JSON 格式输出：\n{\"keywords\": [], \"summary\": \"\", \"relationship_growth\": \"\", \"milestones\": [], \"memorable_moments\": []}";

/// A week's summary.
pub struct WeeklySummary {
    pub week: String,
    pub date_range: String,
    pub keywords: Vec<String>,
    pub emotion_arc: Vec<String>,
    pub summary: String,
    pub important_events: Vec<String>,
    pub chat_count: i32,
}

/// A month's summary.
pub struct MonthlySummary {
    pub month: String,
    pub emotion_distribution: KeyedList<i32>,
    pub topics: Vec<String>,
    pub relationship_growth: String,
    pub milestones: Vec<String>,
}

/// A quarter's summary.
pub struct QuarterlySummary {
    pub quarter: String,
    pub date_range: String,
    pub keywords: Vec<String>,
    pub summary: String,
    pub important_events: Vec<String>,
    pub milestone: String,
}

/// A year's summary.
pub struct YearlySummary {
    pub year: String,
    pub keywords: Vec<String>,
    pub summary: String,
    pub relationship_growth: String,
    pub milestones: Vec<String>,
    pub memorable_moments: Vec<String>,
}

// ── Requests ────────────────────────────────────────────────────────

/// A message as a line of the conversation record: `role: content`.
pub open spec fn message_line(m: ChatMessage) -> Seq<char> {
    m.role@ + ": "@ + m.content@
}

/// The lines of the messages of each day, days in order.
pub open spec fn conversation_lines(days: Seq<Vec<ChatMessage>>) -> Seq<Seq<char>>
    decreases days.len(),
{
    if days.len() == 0 {
        Seq::empty()
    } else {
        conversation_lines(days.drop_last()) + days.last()@.map_values(
            |m: ChatMessage| message_line(m),
        )
    }
}

/// The conversation record of the days (see [`conversation_lines`]).
pub fn collect_conversation_lines(days: &Vec<Vec<ChatMessage>>) -> (r: Vec<String>)
    ensures
        texts(r@) == conversation_lines(days@),
{
    let mut r: Vec<String> = Vec::new();
    let mut d: usize = 0;
    while d < days.len()
        invariant
            d <= days@.len(),
            texts(r@) == conversation_lines(days@.take(d as int)),
        decreases days.len() - d,
    {
        let msgs = &days[d];
        let ghost base = texts(r@);
        let mut k: usize = 0;
        while k < msgs.len()
            invariant
                k <= msgs@.len(),
                texts(r@) == base + msgs@.take(k as int).map_values(|m: ChatMessage| message_line(m)),
            decreases msgs.len() - k,
        {
            let mut line = msgs[k].role.clone();
            line.append(": ");
            line.append(msgs[k].content.as_str());
            let ghost lv = line@;
            let ghost before = r@;
            r.push(line);
            assert(texts(r@) =~= texts(before).push(lv));
            assert(msgs@.take(k + 1).map_values(|m: ChatMessage| message_line(m)) =~= msgs@.take(
                k as int,
            ).map_values(|m: ChatMessage| message_line(m)).push(lv));
            k = k + 1;
        }
        assert(msgs@.take(k as int) =~= msgs@);
        assert(days@.take(d + 1).drop_last() =~= days@.take(d as int));
        d = d + 1;
    }
    assert(days@.take(d as int) =~= days@);
    r
}

/// The weekly request: the record and the number of its lines; none for an empty record.
pub open spec fn weekly_prompt(lines: Seq<Seq<char>>) -> Option<Seq<char>> {
    if lines.len() == 0 {
        None
    } else {
        Some(
            WEEKLY_PROMPT_HEAD@ + joined(lines, "\n"@) + WEEKLY_PROMPT_MIDDLE@ + padded(
                lines.len(),
                0,
            ) + WEEKLY_PROMPT_TAIL@,
        )
    }
}

/// The monthly request; none for an empty record.
pub open spec fn monthly_prompt(lines: Seq<Seq<char>>) -> Option<Seq<char>> {
    if lines.len() == 0 {
        None
    } else {
        Some(MONTHLY_PROMPT_HEAD@ + joined(lines, "\n"@) + MONTHLY_PROMPT_TAIL@)
    }
}

/// The quarterly request; none when there is no month to summarise.
pub open spec fn quarterly_prompt(lines: Seq<Seq<char>>) -> Option<Seq<char>> {
    if lines.len() == 0 {
        None
    } else {
        Some(QUARTERLY_PROMPT_HEAD@ + joined(lines, "\n"@) + QUARTERLY_PROMPT_TAIL@)
    }
}

/// The yearly request; none when there is no quarter to summarise.
pub open spec fn yearly_prompt(lines: Seq<Seq<char>>) -> Option<Seq<char>> {
    if lines.len() == 0 {
        None
    } else {
        Some(YEARLY_PROMPT_HEAD@ + joined(lines, "\n"@) + YEARLY_PROMPT_TAIL@)
    }
}

/// The weekly request (see [`weekly_prompt`]).
pub fn build_weekly_prompt(lines: &Vec<String>) -> (r: Option<String>)
    ensures
        match r {
            Some(s) => weekly_prompt(texts(lines@)) == Some(s@),
            None => weekly_prompt(texts(lines@)) is None,
        },
{
    if lines.len() == 0 {
        return None;
    }
    let mut s = String::from_str(WEEKLY_PROMPT_HEAD);
    let body = join_strings(lines, "\n");
    s.append(body.as_str());
    s.append(WEEKLY_PROMPT_MIDDLE);
    let count = format_padded(lines.len() as u64, 0);
    s.append(count.as_str());
    s.append(WEEKLY_PROMPT_TAIL);
    Some(s)
}

/// The monthly request (see [`monthly_prompt`]).
pub fn build_monthly_prompt(lines: &Vec<String>) -> (r: Option<String>)
    ensures
        match r {
            Some(s) => monthly_prompt(texts(lines@)) == Some(s@),
            None => monthly_prompt(texts(lines@)) is None,
        },
{
    if lines.len() == 0 {
        return None;
    }
    let mut s = String::from_str(MONTHLY_PROMPT_HEAD);
    let body = join_strings(lines, "\n");
    s.append(body.as_str());
    s.append(MONTHLY_PROMPT_TAIL);
    Some(s)
}

/// The quarterly request (see [`quarterly_prompt`]).
pub fn build_quarterly_prompt(lines: &Vec<String>) -> (r: Option<String>)
    ensures
        match r {
            Some(s) => quarterly_prompt(texts(lines@)) == Some(s@),
            None => quarterly_prompt(texts(lines@)) is None,
        },
{
    if lines.len() == 0 {
        return None;
    }
    let mut s = String::from_str(QUARTERLY_PROMPT_HEAD);
    let body = join_strings(lines, "\n");
    s.append(body.as_str());
    s.append(QUARTERLY_PROMPT_TAIL);
    Some(s)
}

/// The yearly request (see [`yearly_prompt`]).
pub fn build_yearly_prompt(lines: &Vec<String>) -> (r: Option<String>)
    ensures
        match r {
            Some(s) => yearly_prompt(texts(lines@)) == Some(s@),
            None => yearly_prompt(texts(lines@)) is None,
        },
{
    if lines.len() == 0 {
        return None;
    }
    let mut s = String::from_str(YEARLY_PROMPT_HEAD);
    let body = join_strings(lines, "\n");
    s.append(body.as_str());
    s.append(YEARLY_PROMPT_TAIL);
    Some(s)
}

/// A month's line in the quarterly request: `month: growth - milestones`.
pub open spec fn monthly_line(m: MonthlySummary) -> Seq<char> {
    m.month@ + ": "@ + m.relationship_growth@ + " - "@ + joined(texts(m.milestones@), ", "@)
}

/// The label prefix of month `m` of `year`: `year-MM`.
pub open spec fn month_prefix(year: Seq<char>, m: int) -> Seq<char> {
    year + "-"@ + padded(m as nat, 2)
}

/// The label names one of the three months of the quarter of `year`.
pub open spec fn in_quarter(label: Seq<char>, year: Seq<char>, quarter: int) -> bool {
    ||| crate::text::has_prefix(label, month_prefix(year, 3 * quarter - 2))
    ||| crate::text::has_prefix(label, month_prefix(year, 3 * quarter - 1))
    ||| crate::text::has_prefix(label, month_prefix(year, 3 * quarter))
}

/// The lines of the months of the quarter of `year`, in order.
pub open spec fn monthly_lines(months: Seq<MonthlySummary>, year: Seq<char>, quarter: int) -> Seq<Seq<char>>
    decreases months.len(),
{
    if months.len() == 0 {
        Seq::empty()
    } else {
        let rest = monthly_lines(months.drop_last(), year, quarter);
        if in_quarter(months.last().month@, year, quarter) {
            rest.push(monthly_line(months.last()))
        } else {
            rest
        }
    }
}

/// A quarter's line in the yearly request: `quarter: summary - events`.
pub open spec fn quarterly_line(q: QuarterlySummary) -> Seq<char> {
    q.quarter@ + ": "@ + q.summary@ + " - "@ + joined(texts(q.important_events@), ", "@)
}

/// The lines of the quarters whose label starts with `year`, in order.
pub open spec fn quarterly_lines(quarters: Seq<QuarterlySummary>, year: Seq<char>) -> Seq<Seq<char>>
    decreases quarters.len(),
{
    if quarters.len() == 0 {
        Seq::empty()
    } else {
        let rest = quarterly_lines(quarters.drop_last(), year);
        if crate::text::has_prefix(quarters.last().quarter@, year) {
            rest.push(quarterly_line(quarters.last()))
        } else {
            rest
        }
    }
}

/// The label prefix of a month, as characters (see [`month_prefix`]).
fn month_prefix_chars(year: &str, m: u32) -> (v: Vec<char>)
    ensures
        v@ == month_prefix(year@, m as int),
{
    let mut s = String::from_str(year);
    s.append("-");
    let mm = format_padded(m as u64, 2);
    s.append(mm.as_str());
    proof {
        reveal_strlit("-");
    }
    chars_of(s.as_str())
}

/// The lines of the months of this quarter (see [`monthly_lines`]).
pub fn collect_monthly_lines(months: &Vec<MonthlySummary>, year: &str, quarter: u32) -> (r: Vec<String>)
    requires
        1 <= quarter <= 4,
    ensures
        texts(r@) == monthly_lines(months@, year@, quarter as int),
{
    let p1 = month_prefix_chars(year, 3 * quarter - 2);
    let p2 = month_prefix_chars(year, 3 * quarter - 1);
    let p3 = month_prefix_chars(year, 3 * quarter);
    let mut r: Vec<String> = Vec::new();
    let mut i: usize = 0;
    while i < months.len()
        invariant
            i <= months@.len(),
            1 <= quarter <= 4,
            p1@ == month_prefix(year@, 3 * quarter - 2),
            p2@ == month_prefix(year@, 3 * quarter - 1),
            p3@ == month_prefix(year@, 3 * quarter),
            texts(r@) == monthly_lines(months@.take(i as int), year@, quarter as int),
        decreases months.len() - i,
    {
        assert(months@.take(i + 1).drop_last() =~= months@.take(i as int));
        let m = &months[i];
        let mv = chars_of(m.month.as_str());
        if chars_start_with(mv.as_slice(), p1.as_slice()) || chars_start_with(mv.as_slice(), p2.as_slice())
            || chars_start_with(mv.as_slice(), p3.as_slice()) {
            let mut line = m.month.clone();
            line.append(": ");
            line.append(m.relationship_growth.as_str());
            line.append(" - ");
            let ms = join_strings(&m.milestones, ", ");
            line.append(ms.as_str());
            let ghost lv = line@;
            let ghost before = r@;
            r.push(line);
            assert(texts(r@) =~= texts(before).push(lv));
        }
        i = i + 1;
    }
    assert(months@.take(i as int) =~= months@);
    r
}

/// The lines of this year's quarters (see [`quarterly_lines`]).
pub fn collect_quarterly_lines(quarters: &Vec<QuarterlySummary>, year: &str) -> (r: Vec<String>)
    ensures
        texts(r@) == quarterly_lines(quarters@, year@),
{
    let yv = chars_of(year);
    let mut r: Vec<String> = Vec::new();
    let mut i: usize = 0;
    while i < quarters.len()
        invariant
            i <= quarters@.len(),
            yv@ == year@,
            texts(r@) == quarterly_lines(quarters@.take(i as int), year@),
        decreases quarters.len() - i,
    {
        assert(quarters@.take(i + 1).drop_last() =~= quarters@.take(i as int));
        let q = &quarters[i];
        let qv = chars_of(q.quarter.as_str());
        if chars_start_with(qv.as_slice(), yv.as_slice()) {
            let mut line = q.quarter.clone();
            line.append(": ");
            line.append(q.summary.as_str());
            line.append(" - ");
            let es = join_strings(&q.important_events, ", ");
            line.append(es.as_str());
            let ghost lv = line@;
            let ghost before = r@;
            r.push(line);
            assert(texts(r@) =~= texts(before).push(lv));
        }
        i = i + 1;
    }
    assert(quarters@.take(i as int) =~= quarters@);
    r
}

// ── Records of the answers ──────────────────────────────────────────

/// The integer members of an object, as a map holds them after inserting each in turn,
/// each value cut to 32 bits.
pub open spec fn int_entries(entries: Seq<(String, JsonValue)>) -> Seq<(String, i32)>
    decreases entries.len(),
{
    if entries.len() == 0 {
        Seq::empty()
    } else {
        let rest = int_entries(entries.drop_last());
        match entries.last().1 {
            JsonValue::Number(Some(n)) => assoc_insert(rest, entries.last().0, n as i32),
            _ => rest,
        }
    }
}

/// The integer of member `key` cut to 32 bits, or 0.
pub open spec fn i32_or_zero(data: JsonValue, key: Seq<char>) -> i32 {
    match json_i64(json_get(data, key)) {
        Some(n) => n as i32,
        None => 0,
    }
}

/// The emotion distribution of a monthly answer: its object's integer members.
pub open spec fn emotion_entries(data: JsonValue) -> Seq<(String, i32)> {
    match json_get(data, "emotion_distribution"@) {
        Some(JsonValue::Object(entries)) => int_entries(entries@),
        _ => Seq::empty(),
    }
}

fn read_str_or_empty(data: &JsonValue, key: &str) -> (s: String)
    ensures
        s@ == str_or_empty(*data, key@),
{
    match crate::json::as_str(get(data, key)) {
        Some(s) => s.clone(),
        None => String::new(),
    }
}

fn read_int_entries(entries: &Vec<(String, JsonValue)>) -> (m: KeyedList<i32>)
    ensures
        m@ == int_entries(entries@),
        m.wf(),
{
    let mut m: KeyedList<i32> = KeyedList::new();
    let mut i: usize = 0;
    while i < entries.len()
        invariant
            i <= entries@.len(),
            m@ == int_entries(entries@.take(i as int)),
            m.wf(),
        decreases entries.len() - i,
    {
        assert(entries@.take(i + 1).drop_last() =~= entries@.take(i as int));
        match &entries[i].1 {
            JsonValue::Number(Some(n)) => {
                m.insert(entries[i].0.clone(), *n as i32);
            },
            _ => {},
        }
        i = i + 1;
    }
    assert(entries@.take(i as int) =~= entries@);
    m
}

/// The record of a weekly answer: its keywords, emotions, summary, events and count
/// (missing parts empty or 0), with the week's label and `start ~ end`.
pub fn weekly_summary_from(data: &JsonValue, week: String, week_start: &str, week_end: &str) -> (s: WeeklySummary)
    ensures
        s.week@ == week@,
        s.date_range@ == week_start@ + " ~ "@ + week_end@,
        texts(s.keywords@) == json_strings(json_get(*data, "keywords"@)),
        texts(s.emotion_arc@) == json_strings(json_get(*data, "emotion_arc"@)),
        s.summary@ == str_or_empty(*data, "summary"@),
        texts(s.important_events@) == json_strings(json_get(*data, "important_events"@)),
        s.chat_count == i32_or_zero(*data, "chat_count"@),
{
    let mut range = String::from_str(week_start);
    range.append(" ~ ");
    range.append(week_end);
    let count: i32 = match get(data, "chat_count") {
        Some(JsonValue::Number(Some(n))) => *n as i32,
        _ => 0,
    };
    WeeklySummary {
        week,
        date_range: range,
        keywords: strings_of(get(data, "keywords")),
        emotion_arc: strings_of(get(data, "emotion_arc")),
        summary: read_str_or_empty(data, "summary"),
        important_events: strings_of(get(data, "important_events")),
        chat_count: count,
    }
}

/// The record of a monthly answer: its emotion distribution, topics, relationship and
/// milestones, with the month's label.
pub fn monthly_summary_from(data: &JsonValue, month: String) -> (s: MonthlySummary)
    ensures
        s.month@ == month@,
        s.emotion_distribution@ == emotion_entries(*data),
        s.emotion_distribution.wf(),
        texts(s.topics@) == json_strings(json_get(*data, "topics"@)),
        s.relationship_growth@ == str_or_empty(*data, "relationship_growth"@),
        texts(s.milestones@) == json_strings(json_get(*data, "milestones"@)),
{
    let dist = match get(data, "emotion_distribution") {
        Some(JsonValue::Object(entries)) => read_int_entries(entries),
        _ => KeyedList::new(),
    };
    MonthlySummary {
        month,
        emotion_distribution: dist,
        topics: strings_of(get(data, "topics")),
        relationship_growth: read_str_or_empty(data, "relationship_growth"),
        milestones: strings_of(get(data, "milestones")),
    }
}

/// The record of a quarterly answer, with the quarter's label and `N季度` as its range.
pub fn quarterly_summary_from(data: &JsonValue, quarter_label: String, quarter: u32) -> (s: QuarterlySummary)
    ensures
        s.quarter@ == quarter_label@,
        s.date_range@ == padded(quarter as nat, 0) + "季度"@,
        texts(s.keywords@) == json_strings(json_get(*data, "keywords"@)),
        s.summary@ == str_or_empty(*data, "summary"@),
        texts(s.important_events@) == json_strings(json_get(*data, "important_events"@)),
        s.milestone@ == str_or_empty(*data, "milestone"@),
{
    let mut range = format_padded(quarter as u64, 0);
    range.append("季度");
    QuarterlySummary {
        quarter: quarter_label,
        date_range: range,
        keywords: strings_of(get(data, "keywords")),
        summary: read_str_or_empty(data, "summary"),
        important_events: strings_of(get(data, "important_events")),
        milestone: read_str_or_empty(data, "milestone"),
    }
}

/// The record of a yearly answer, with the year's label.
pub fn yearly_summary_from(data: &JsonValue, year: String) -> (s: YearlySummary)
    ensures
        s.year@ == year@,
        texts(s.keywords@) == json_strings(json_get(*data, "keywords"@)),
        s.summary@ == str_or_empty(*data, "summary"@),
        s.relationship_growth@ == str_or_empty(*data, "relationship_growth"@),
        texts(s.milestones@) == json_strings(json_get(*data, "milestones"@)),
        texts(s.memorable_moments@) == json_strings(json_get(*data, "memorable_moments"@)),
{
    YearlySummary {
        year,
        keywords: strings_of(get(data, "keywords")),
        summary: read_str_or_empty(data, "summary"),
        relationship_growth: read_str_or_empty(data, "relationship_growth"),
        milestones: strings_of(get(data, "milestones")),
        memorable_moments: strings_of(get(data, "memorable_moments")),
    }
}

} // verus!
