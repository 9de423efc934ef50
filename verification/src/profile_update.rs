//! Deciding when the user profile is rebuilt, and preparing the request that rebuilds it.
use vstd::prelude::*;
use vstd::string::*;
use crate::llm::ChatMessage;
use crate::profile::{UserProfile, Interaction, SpecialMemory};
use crate::rank::{rank_desc, rank_by_keys};
use crate::facts::take_at_most;
use crate::calendar::{is_date, day_number, date_text};
use crate::text::padded;

verus! {

pub const SUMMARY_PART_0: &'static str = "旧用户画像：\n- 用户名: ";
pub const SUMMARY_PART_1: &'static str = "\n- 性格特点: ";
pub const SUMMARY_PART_2: &'static str = "\n- 偏好: ";
pub const SUMMARY_PART_3: &'static str = "\n- 重要日期: ";
pub const SUMMARY_PART_4: &'static str = "\n- 最近互动: ";
pub const SUMMARY_PART_5: &'static str = "\n- 专属回忆: ";
pub const PROMPT_PART_0: &'static str = "请根据以下信息，更新用户画像。\n\n## 旧用户画像（已有信息，保留并合并）\n";
pub const PROMPT_PART_1: &'static str = "\n\n## 新对话（分析这些对话，对旧画像进行更新和补充）\n";
pub const PROMPT_PART_2: &'static str = "\n\n请根据新对话更新用户画像，要求：\n1. 保留旧画像中仍有价值的信息\n2. 分析新对话，提炼新的性格特点、偏好、重要日期、互动和回忆\n3. 如果旧信息与新对话矛盾，以新对话为准\n4. 如果没有新对话中的某个维度信息，则保留旧画像中的对应内容\n5. 注意：对话记录中已标注准确时间，输出的日期必须使用对话中实际出现的时间，不得使用\"未知\"等占位文字\n\n请按以下JSON格式输出（只需输出JSON，不要其他内容）：\n{\"user_name\": \"用户名或null\", \"traits\": [\"特点1\", \"特点2\"], \"preferences\": {\"喜欢音乐\": \"古典音乐\"}, \"important_dates\": {\"生日\": \"06-15\"}, \"recent_interactions\": [{\"date\": \"2024-01-01\", \"activity\": \"一起听音乐\", \"summary\": \"用户分享了他喜欢的古典音乐\"}], \"special_memories\": [{\"title\": \"第一次聊天\", \"description\": \"用户第一次打开应用和我们聊天\", \"date\": \"2024-01-01\", \"tags\": [\"回忆\"]}]}";


/// Number of user messages since the last rebuild at which the profile is rebuilt.
pub const AUTO_UPDATE_INTERVAL: u32 = 50;

/// Most recent user messages used for a rebuild.
pub const RECENT_USER_LIMIT: usize = 50;

/// A stored chat message with its time (seconds since the Unix epoch).
pub struct TimedMessage {
    pub timestamp: i64,
    pub message: ChatMessage,
}

/// Messages written by the user.
pub open spec fn is_user_message() -> spec_fn(ChatMessage) -> bool {
    |m: ChatMessage| m.role@ == "user"@
}

/// Number of user messages over all days.
pub open spec fn total_user_messages(days: Seq<Vec<ChatMessage>>) -> int
    decreases days.len(),
{
    if days.len() == 0 {
        0
    } else {
        total_user_messages(days.drop_last()) + days.last()@.filter(is_user_message()).len()
    }
}

proof fn lemma_total_nonneg(days: Seq<Vec<ChatMessage>>)
    ensures
        total_user_messages(days) >= 0,
    decreases days.len(),
{
    if days.len() > 0 {
        lemma_total_nonneg(days.drop_last());
    }
}

/// Number of user messages in one day.
fn day_user_count(day: &Vec<ChatMessage>) -> (n: usize)
    ensures
        n == day@.filter(is_user_message()).len(),
{
    let ghost pred = is_user_message();
    let mut n: usize = 0;
    let mut i: usize = 0;
    assert(day@.take(0).filter(pred) =~= Seq::<ChatMessage>::empty());
    while i < day.len()
        invariant
            i <= day@.len(),
            n == day@.take(i as int).filter(pred).len(),
            n <= i,
            pred == is_user_message(),
        decreases day.len() - i,
    {
        proof {
            assert(day@.take(i + 1) =~= day@.take(i as int).push(day@[i as int]));
            crate::keyed::lemma_filter_push(day@.take(i as int), pred, day@[i as int]);
        }
        if crate::text::str_eq(day[i].role.as_str(), "user") {
            n = n + 1;
        }
        i = i + 1;
    }
    assert(day@.take(day@.len() as int) =~= day@);
    n
}

/// Number of user messages over all days of chat history.
pub fn count_user_messages(days: &Vec<Vec<ChatMessage>>) -> (n: u32)
    requires
        total_user_messages(days@) <= u32::MAX,
    ensures
        n == total_user_messages(days@),
{
    let mut n: u32 = 0;
    let mut i: usize = 0;
    while i < days.len()
        invariant
            i <= days@.len(),
            total_user_messages(days@) <= u32::MAX,
            n == total_user_messages(days@.take(i as int)),
        decreases days.len() - i,
    {
        proof {
            assert(days@.take(i + 1).drop_last() =~= days@.take(i as int));
            lemma_total_prefix(days@, i + 1);
            lemma_total_nonneg(days@.take(i as int));
        }
        let c = day_user_count(&days[i]);
        n = n + c as u32;
        i = i + 1;
    }
    assert(days@.take(days@.len() as int) =~= days@);
    n
}

proof fn lemma_total_prefix(days: Seq<Vec<ChatMessage>>, i: int)
    requires
        0 <= i <= days.len(),
    ensures
        total_user_messages(days.take(i)) <= total_user_messages(days),
    decreases days.len() - i,
{
    if i < days.len() {
        lemma_total_prefix(days, i + 1);
        assert(days.take(i + 1).drop_last() =~= days.take(i));
    } else {
        assert(days.take(i) =~= days);
    }
}

/// An automatic rebuild is due once fifty user messages were written since the last one.
pub fn auto_update_due(actual_count: u32, last_update_count: u32) -> (b: bool)
    ensures
        b == (actual_count as int - last_update_count as int >= AUTO_UPDATE_INTERVAL as int),
{
    actual_count.saturating_sub(last_update_count) >= AUTO_UPDATE_INTERVAL
}

/// The answer given when a rebuild is asked for but nothing new was said.
pub open spec fn up_to_date_error() -> Seq<char> {
    "画像已是最新，无需更新"@
}

/// A requested rebuild is refused when a stored profile exists and there are no user
/// messages, or none since its last rebuild.
pub fn check_profile_update_needed(stored: Option<&UserProfile>, actual_count: u32) -> (r: Result<
    (),
    String,
>)
    ensures
        r is Err <==> (stored matches Some(p) && (actual_count == 0 || p.last_update_conversation_count
            >= actual_count)),
        r matches Err(e) ==> e@ == up_to_date_error(),
{
    match stored {
        Some(p) => {
            if actual_count == 0 || p.last_update_conversation_count >= actual_count {
                return Err(String::from_str("画像已是最新，无需更新"));
            }
            Ok(())
        },
        None => Ok(()),
    }
}

/// Messages ordered from oldest to newest (equal times keep their order).
pub open spec fn oldest_first() -> spec_fn(TimedMessage) -> int {
    |m: TimedMessage| -(m.timestamp as int)
}

/// The user's messages, newest first.
pub open spec fn user_first() -> spec_fn(TimedMessage) -> bool {
    |m: TimedMessage| m.message.role@ == "user"@
}

/// The messages a rebuild reads: the user's messages, newest first, at most fifty.
pub open spec fn recent_user_messages_of(all: Seq<TimedMessage>) -> Seq<TimedMessage> {
    take_at_most(
        rank_desc(all, oldest_first()).filter(user_first()).reverse(),
        RECENT_USER_LIMIT as int,
    )
}

/// The messages a rebuild reads (see [`recent_user_messages_of`]).
pub fn recent_user_messages(all: Vec<TimedMessage>) -> (r: Vec<TimedMessage>)
    ensures
        r@ == recent_user_messages_of(all@),
{
    let mut keys: Vec<i128> = Vec::new();
    let mut i: usize = 0;
    while i < all.len()
        invariant
            i <= all@.len(),
            keys@.len() == i,
            forall|j: int| 0 <= j < i ==> keys@[j] as int == (oldest_first())(all@[j]),
        decreases all.len() - i,
    {
        keys.push(-(all[i].timestamp as i128));
        i = i + 1;
    }
    let sorted = rank_by_keys(all, keys, Ghost(oldest_first()));
    let ghost ss = sorted@;
    let ghost pred = user_first();
    let mut rest = sorted;
    let mut users: Vec<TimedMessage> = Vec::new();
    let ghost mut k: int = 0;
    assert(ss.take(0).filter(pred) =~= Seq::<TimedMessage>::empty());
    while rest.len() > 0
        invariant
            0 <= k <= ss.len(),
            rest@ == ss.skip(k),
            users@ == ss.take(k).filter(pred),
            pred == user_first(),
        decreases rest.len(),
    {
        let m = rest.remove(0);
        proof {
            assert(ss.take(k + 1) =~= ss.take(k).push(m));
            crate::keyed::lemma_filter_push(ss.take(k), pred, m);
            assert(ss.skip(k + 1) =~= ss.skip(k).skip(1));
        }
        if crate::text::str_eq(m.message.role.as_str(), "user") {
            users.push(m);
        }
        proof {
            k = k + 1;
        }
    }
    assert(ss.take(k) =~= ss);
    let ghost us = users@;
    let mut out: Vec<TimedMessage> = Vec::new();
    while users.len() > 0 && out.len() < RECENT_USER_LIMIT
        invariant
            users@ == us.take(us.len() - out@.len()),
            out@ == us.reverse().take(out@.len() as int),
            out@.len() <= us.len(),
            out@.len() <= RECENT_USER_LIMIT,
        decreases users.len(),
    {
        let ghost before = out@;
        let m = users.pop().unwrap();
        out.push(m);
        proof {
            assert(us.reverse().take(out@.len() as int) =~= before.push(m));
            assert(users@ =~= us.take(us.len() - out@.len()));
        }
    }
    proof {
        let rv = us.reverse();
        assert(us == ss.filter(pred));
        if out@.len() < RECENT_USER_LIMIT {
            assert(out@.len() == us.len());
            assert(rv.take(out@.len() as int) =~= rv);
        } else if rv.len() == RECENT_USER_LIMIT {
            assert(rv.take(out@.len() as int) =~= rv);
        }
        assert(out@ == take_at_most(rv, RECENT_USER_LIMIT as int));
    }
    out
}

// ── Building the request ────────────────────────────────────────────

/// Texts joined by a separator.
pub open spec fn joined(parts: Seq<Seq<char>>, sep: Seq<char>) -> Seq<char>
    decreases parts.len(),
{
    if parts.len() == 0 {
        Seq::empty()
    } else if parts.len() == 1 {
        parts[0]
    } else {
        joined(parts.drop_last(), sep) + sep + parts.last()
    }
}

/// The texts of strings.
pub open spec fn texts(v: Seq<String>) -> Seq<Seq<char>> {
    v.map_values(|s: String| s@)
}

/// Joins strings with a separator.
pub fn join_strings(parts: &Vec<String>, sep: &str) -> (r: String)
    ensures
        r@ == joined(texts(parts@), sep@),
{
    let ghost t = texts(parts@);
    let mut r = String::new();
    let mut i: usize = 0;
    while i < parts.len()
        invariant
            i <= parts@.len(),
            t == texts(parts@),
            r@ == joined(t.take(i as int), sep@),
        decreases parts.len() - i,
    {
        assert(t.take(i + 1).drop_last() =~= t.take(i as int));
        assert(t.take(i + 1).last() == parts@[i as int]@);
        if i != 0 {
            r.append(sep);
        } else {
            assert(t.take(i + 1) =~= seq![parts@[i as int]@]);
        }
        r.append(parts[i].as_str());
        i = i + 1;
    }
    assert(t.take(parts@.len() as int) =~= t);
    r
}

/// The joined texts, or `暂无` when there are none.
pub open spec fn or_none(parts: Seq<Seq<char>>, sep: Seq<char>) -> Seq<char> {
    if parts.len() == 0 {
        "暂无"@
    } else {
        joined(parts, sep)
    }
}

fn join_or_none(parts: &Vec<String>, sep: &str) -> (r: String)
    ensures
        r@ == or_none(texts(parts@), sep@),
{
    if parts.len() == 0 {
        String::from_str("暂无")
    } else {
        join_strings(parts, sep)
    }
}

/// `key: value` for each pair.
pub open spec fn pair_texts(s: Seq<(String, String)>) -> Seq<Seq<char>> {
    s.map_values(|e: (String, String)| e.0@ + ": "@ + e.1@)
}

/// `date: activity - summary` for each interaction.
pub open spec fn interaction_texts(s: Seq<Interaction>) -> Seq<Seq<char>> {
    s.map_values(|i: Interaction| i.date@ + ": "@ + i.activity@ + " - "@ + i.summary@)
}

/// `title: description` for each memory.
pub open spec fn memory_texts(s: Seq<SpecialMemory>) -> Seq<Seq<char>> {
    s.map_values(|m: SpecialMemory| m.title@ + ": "@ + m.description@)
}

/// The current profile as shown to the model.
pub open spec fn profile_summary(p: UserProfile) -> Seq<char> {
    SUMMARY_PART_0@ + match p.user_name {
        Some(n) => n@,
        None => "未知"@,
    } + SUMMARY_PART_1@ + or_none(texts(p.traits@), ", "@) + SUMMARY_PART_2@ + or_none(
        pair_texts(p.preferences@),
        ", "@,
    ) + SUMMARY_PART_3@ + or_none(pair_texts(p.important_dates@), ", "@) + SUMMARY_PART_4@ + or_none(
        interaction_texts(p.recent_interactions@),
        "; "@,
    ) + SUMMARY_PART_5@ + or_none(memory_texts(p.special_memories@), "; "@)
}

fn pairs_as_texts(s: &Vec<(String, String)>) -> (r: Vec<String>)
    ensures
        texts(r@) == pair_texts(s@),
{
    let mut r: Vec<String> = Vec::new();
    let mut i: usize = 0;
    while i < s.len()
        invariant
            i <= s@.len(),
            texts(r@) == pair_texts(s@.take(i as int)),
        decreases s.len() - i,
    {
        let mut t = s[i].0.clone();
        t.append(": ");
        t.append(s[i].1.as_str());
        let ghost tv = t@;
        let ghost before = r@;
        r.push(t);
        assert(texts(r@) =~= texts(before).push(tv));
        assert(s@.take(i + 1) =~= s@.take(i as int).push(s@[i as int]));
        assert(pair_texts(s@.take(i + 1)) =~= pair_texts(s@.take(i as int)).push(tv));
        i = i + 1;
    }
    assert(s@.take(s@.len() as int) =~= s@);
    r
}

/// The current profile as shown to the model (see [`profile_summary`]).
pub fn build_profile_summary(p: &UserProfile) -> (r: String)
    ensures
        r@ == profile_summary(*p),
{
    let mut r = String::from_str(SUMMARY_PART_0);
    match &p.user_name {
        Some(n) => r.append(n.as_str()),
        None => r.append("未知"),
    }
    r.append(SUMMARY_PART_1);
    let traits = join_or_none(&p.traits, ", ");
    assert(texts(p.traits@) == texts(p.traits@));
    r.append(traits.as_str());
    r.append(SUMMARY_PART_2);
    let prefs = pairs_as_texts(&p.preferences.entries);
    let prefs_text = join_or_none(&prefs, ", ");
    r.append(prefs_text.as_str());
    r.append(SUMMARY_PART_3);
    let dates = pairs_as_texts(&p.important_dates.entries);
    let dates_text = join_or_none(&dates, ", ");
    r.append(dates_text.as_str());
    r.append(SUMMARY_PART_4);
    let mut inter: Vec<String> = Vec::new();
    let mut i: usize = 0;
    while i < p.recent_interactions.len()
        invariant
            i <= p.recent_interactions@.len(),
            texts(inter@) == interaction_texts(p.recent_interactions@.take(i as int)),
        decreases p.recent_interactions.len() - i,
    {
        let it = &p.recent_interactions[i];
        let mut t = it.date.clone();
        t.append(": ");
        t.append(it.activity.as_str());
        t.append(" - ");
        t.append(it.summary.as_str());
        let ghost tv = t@;
        let ghost before = inter@;
        inter.push(t);
        assert(texts(inter@) =~= texts(before).push(tv));
        assert(p.recent_interactions@.take(i + 1) =~= p.recent_interactions@.take(i as int).push(
            p.recent_interactions@[i as int],
        ));
        assert(interaction_texts(p.recent_interactions@.take(i + 1)) =~= interaction_texts(
            p.recent_interactions@.take(i as int),
        ).push(tv));
        i = i + 1;
    }
    assert(p.recent_interactions@.take(p.recent_interactions@.len() as int) =~= p.recent_interactions@);
    let inter_text = join_or_none(&inter, "; ");
    r.append(inter_text.as_str());
    r.append(SUMMARY_PART_5);
    let mut mems: Vec<String> = Vec::new();
    let mut j: usize = 0;
    while j < p.special_memories.len()
        invariant
            j <= p.special_memories@.len(),
            texts(mems@) == memory_texts(p.special_memories@.take(j as int)),
        decreases p.special_memories.len() - j,
    {
        let m = &p.special_memories[j];
        let mut t = m.title.clone();
        t.append(": ");
        t.append(m.description.as_str());
        let ghost tv = t@;
        let ghost before = mems@;
        mems.push(t);
        assert(texts(mems@) =~= texts(before).push(tv));
        assert(p.special_memories@.take(j + 1) =~= p.special_memories@.take(j as int).push(
            p.special_memories@[j as int],
        ));
        assert(memory_texts(p.special_memories@.take(j + 1)) =~= memory_texts(
            p.special_memories@.take(j as int),
        ).push(tv));
        j = j + 1;
    }
    assert(p.special_memories@.take(p.special_memories@.len() as int) =~= p.special_memories@);
    let mem_text = join_or_none(&mems, "; ");
    r.append(mem_text.as_str());
    r
}

/// The time of a message as `%Y-%m-%d %H:%M` in UTC, when the time can be represented.
pub uninterp spec fn utc_minute_text(ts: i64) -> Option<Seq<char>>;

/// The text names the UTC minute of Unix time `ts`: the date of day `ts / 86400` as
/// `YYYY-MM-DD`, a space, and the hour and minute of that day on two digits each.
pub open spec fn names_minute(t: Seq<char>, ts: int) -> bool {
    exists|y: int, m: int, d: int|
        is_date(y, m, d) && day_number(y, m, d) == ts / 86400 && t == date_text(y, m, d) + " "@
            + padded(((ts % 86400) / 3600) as nat, 2) + ":"@ + padded(((ts % 86400) % 3600 / 60) as nat, 2)
}

/// Formats a Unix time to the minute in UTC (`chrono::DateTime::from_timestamp` and
/// `format("%Y-%m-%d %H:%M")`); nothing when chrono cannot represent the time. The text
/// is named by [`utc_minute_text`], a function of the time alone; for the times from
/// 1970 to the end of year 9999 the contract also states it (see [`names_minute`]).
/// Earlier and later times (signed or five-digit years) are left to the name.
#[verifier::external_body]
fn minute_text(ts: i64) -> (r: Option<String>)
    ensures
        match r {
            Some(s) => utc_minute_text(ts) == Some(s@),
            None => utc_minute_text(ts) is None,
        },
        0 <= ts <= 253402300799 ==> r is Some && names_minute(r.unwrap()@, ts as int),
{
    match chrono::DateTime::from_timestamp(ts, 0) {
        Some(dt) => Some(dt.format("%Y-%m-%d %H:%M").to_string()),
        None => None,
    }
}

/// How a speaker is named in the transcript: 我 for the user, Bongo for the assistant.
pub open spec fn role_label(role: Seq<char>) -> Seq<char> {
    if role == "user"@ {
        "我"@
    } else if role == "assistant"@ {
        "Bongo"@
    } else {
        role
    }
}

/// A transcript line for a message and the text of its time: `[time] speaker: text`,
/// with 未知时间 when the time is unknown.
pub open spec fn line_with_time(m: TimedMessage, time: Option<Seq<char>>) -> Seq<char> {
    "["@ + match time {
        Some(t) => t,
        None => "未知时间"@,
    } + "] "@ + role_label(m.message.role@) + ": "@ + m.message.content@
}

/// The transcript of messages given the texts of their times, one line each.
pub open spec fn transcript_given(msgs: Seq<TimedMessage>, times: Seq<Option<Seq<char>>>) -> Seq<char> {
    joined(Seq::new(msgs.len(), |i: int| line_with_time(msgs[i], times[i])), "\n"@)
}

/// A transcript line: the message with its time in UTC to the minute.
pub open spec fn transcript_line(m: TimedMessage) -> Seq<char> {
    line_with_time(m, utc_minute_text(m.timestamp))
}

/// The transcript of messages, one line each.
pub open spec fn transcript(msgs: Seq<TimedMessage>) -> Seq<char> {
    joined(msgs.map_values(|m: TimedMessage| transcript_line(m)), "\n"@)
}

/// The transcript of messages given the texts of their times (see [`transcript_given`]).
pub fn transcript_with_times(msgs: &Vec<TimedMessage>, times: &Vec<Option<String>>) -> (r: String)
    requires
        times@.len() == msgs@.len(),
    ensures
        r@ == transcript_given(msgs@, times@.map_values(|t: Option<String>| crate::facts::opt_view(t))),
{
    let ghost tv = times@.map_values(|t: Option<String>| crate::facts::opt_view(t));
    let ghost all = Seq::new(msgs@.len(), |i: int| line_with_time(msgs@[i], tv[i]));
    let mut lines: Vec<String> = Vec::new();
    let mut i: usize = 0;
    while i < msgs.len()
        invariant
            i <= msgs@.len(),
            times@.len() == msgs@.len(),
            tv == times@.map_values(|t: Option<String>| crate::facts::opt_view(t)),
            all == Seq::new(msgs@.len(), |i: int| line_with_time(msgs@[i], tv[i])),
            texts(lines@) == all.take(i as int),
        decreases msgs.len() - i,
    {
        let m = &msgs[i];
        let mut t = String::from_str("[");
        match &times[i] {
            Some(s) => t.append(s.as_str()),
            None => t.append("未知时间"),
        }
        t.append("] ");
        if crate::text::str_eq(m.message.role.as_str(), "user") {
            t.append("我");
        } else if crate::text::str_eq(m.message.role.as_str(), "assistant") {
            t.append("Bongo");
        } else {
            t.append(m.message.role.as_str());
        }
        t.append(": ");
        t.append(m.message.content.as_str());
        let ghost lv = t@;
        assert(lv == all[i as int]);
        let ghost before = lines@;
        lines.push(t);
        assert(texts(lines@) =~= texts(before).push(lv));
        assert(all.take(i + 1) =~= all.take(i as int).push(all[i as int]));
        i = i + 1;
    }
    assert(all.take(msgs@.len() as int) =~= all);
    join_strings(&lines, "\n")
}

/// The transcript of messages (see [`transcript`]).
pub fn build_transcript(msgs: &Vec<TimedMessage>) -> (r: String)
    ensures
        r@ == transcript(msgs@),
        forall|j: int|
            0 <= j < msgs@.len() && 0 <= #[trigger] msgs@[j].timestamp <= 253402300799 ==> (utc_minute_text(
                msgs@[j].timestamp,
            ) matches Some(t) && names_minute(t, msgs@[j].timestamp as int)),
{
    let mut times: Vec<Option<String>> = Vec::new();
    let mut i: usize = 0;
    while i < msgs.len()
        invariant
            i <= msgs@.len(),
            times@.len() == i,
            forall|j: int| 0 <= j < i ==> crate::facts::opt_view(#[trigger] times@[j]) == utc_minute_text(msgs@[j].timestamp),
            forall|j: int|
                0 <= j < i && 0 <= #[trigger] msgs@[j].timestamp <= 253402300799 ==> (utc_minute_text(
                    msgs@[j].timestamp,
                ) matches Some(t) && names_minute(t, msgs@[j].timestamp as int)),
        decreases msgs.len() - i,
    {
        times.push(minute_text(msgs[i].timestamp));
        i = i + 1;
    }
    let r = transcript_with_times(msgs, &times);
    let ghost tv = times@.map_values(|t: Option<String>| crate::facts::opt_view(t));
    assert(Seq::new(msgs@.len(), |i: int| line_with_time(msgs@[i], tv[i])) =~= msgs@.map_values(
        |m: TimedMessage| transcript_line(m),
    ));
    r
}

/// The request that asks the model to rebuild the profile from its current state and
/// the recent messages.
pub open spec fn rebuild_prompt(p: UserProfile, recent: Seq<TimedMessage>) -> Seq<char> {
    PROMPT_PART_0@ + profile_summary(p) + PROMPT_PART_1@ + transcript(recent) + PROMPT_PART_2@
}

/// The request that rebuilds the profile (see [`rebuild_prompt`]).
pub fn build_rebuild_prompt(p: &UserProfile, recent: &Vec<TimedMessage>) -> (r: String)
    ensures
        r@ == rebuild_prompt(*p, recent@),
{
    let summary = build_profile_summary(p);
    let chat = build_transcript(recent);
    let mut r = String::from_str(PROMPT_PART_0);
    r.append(summary.as_str());
    r.append(PROMPT_PART_1);
    r.append(chat.as_str());
    r.append(PROMPT_PART_2);
    r
}

/// The answer given when there is no user message to rebuild the profile from.
pub open spec fn no_messages_error() -> Seq<char> {
    "暂无对话数据"@
}

/// Sampling temperature of a rebuild request, in hundredths (0.7).
pub const REBUILD_TEMPERATURE_PERCENT: u32 = 70;

/// Token limit of the model's answer to a rebuild request.
pub const REBUILD_MAX_TOKENS: u32 = 2000;

/// What is sent to the model to rebuild the profile: the messages, the sampling
/// temperature in hundredths and the answer's token limit.
pub struct ProfileRebuildRequest {
    pub messages: Vec<ChatMessage>,
    pub temperature_percent: u32,
    pub max_tokens: u32,
}

/// The rebuild request for the stored messages (any order): refused when the user wrote
/// nothing, else one user message holding the request over the user's recent messages,
/// sent with temperature 0.7 and a limit of 2000 tokens.
pub fn rebuild_request(p: &UserProfile, all: Vec<TimedMessage>) -> (r: Result<ProfileRebuildRequest, String>)
    ensures
        r is Err <==> recent_user_messages_of(all@).len() == 0,
        r matches Err(e) ==> e@ == no_messages_error(),
        r matches Ok(q) ==> {
            &&& q.messages@.len() == 1
            &&& q.messages@[0].role@ == "user"@
            &&& q.messages@[0].content@ == rebuild_prompt(*p, recent_user_messages_of(all@))
            &&& q.temperature_percent == REBUILD_TEMPERATURE_PERCENT
            &&& q.max_tokens == REBUILD_MAX_TOKENS
        },
{
    let recent = recent_user_messages(all);
    if recent.len() == 0 {
        return Err(String::from_str("暂无对话数据"));
    }
    let prompt = build_rebuild_prompt(p, &recent);
    let messages = vec![ChatMessage::user(prompt.as_str())];
    Ok(ProfileRebuildRequest {
        messages,
        temperature_percent: REBUILD_TEMPERATURE_PERCENT,
        max_tokens: REBUILD_MAX_TOKENS,
    })
}

proof fn lemma_filter_keeps_desc<T>(s: Seq<T>, p: spec_fn(T) -> bool, key: spec_fn(T) -> int)
    requires
        crate::rank::is_desc(s, key),
    ensures
        crate::rank::is_desc(s.filter(p), key),
    decreases s.len(),
{
    if s.len() > 0 {
        let rest = s.drop_last();
        let x = s.last();
        assert(crate::rank::is_desc(rest, key)) by {
            assert forall|i: int, j: int| 0 <= i < j < rest.len() implies key(rest[i]) >= key(rest[j]) by {
                assert(rest[i] == s[i] && rest[j] == s[j]);
            }
        }
        lemma_filter_keeps_desc(rest, p, key);
        assert(s =~= rest.push(x));
        crate::keyed::lemma_filter_push(rest, p, x);
        if p(x) {
            let f = rest.filter(p);
            let g = f.push(x);
            assert forall|i: int, j: int| 0 <= i < j < g.len() implies key(g[i]) >= key(g[j]) by {
                if j == f.len() {
                    assert(f.contains(f[i]));
                    rest.lemma_filter_contains_rev(p, f[i]);
                    let k = choose|k: int| 0 <= k < rest.len() && rest[k] == f[i];
                    assert(s[k] == f[i]);
                    assert(s[s.len() - 1] == x);
                } else {
                    assert(g[i] == f[i] && g[j] == f[j]);
                }
            }
        }
    }
}

/// The messages a rebuild reads are stored messages written by the user, at most fifty,
/// newest first.
pub proof fn lemma_recent_user_messages(all: Seq<TimedMessage>)
    ensures
        recent_user_messages_of(all).len() <= RECENT_USER_LIMIT,
        forall|i: int| 0 <= i < recent_user_messages_of(all).len() ==> (#[trigger] recent_user_messages_of(all)[i]).message.role@ == "user"@,
        forall|i: int| 0 <= i < recent_user_messages_of(all).len() ==> all.contains(#[trigger] recent_user_messages_of(all)[i]),
        forall|i: int, j: int| 0 <= i < j < recent_user_messages_of(all).len() ==> (#[trigger] recent_user_messages_of(all)[i]).timestamp >= (#[trigger] recent_user_messages_of(all)[j]).timestamp,
{
    broadcast use vstd::seq_lib::group_to_multiset_ensures;
    let ranked = rank_desc(all, oldest_first());
    crate::rank::lemma_rank_desc_sorted(all, oldest_first());
    crate::rank::lemma_rank_desc_permutation(all, oldest_first());
    let users = ranked.filter(user_first());
    lemma_filter_keeps_desc(ranked, user_first(), oldest_first());
    let rev = users.reverse();
    let r = recent_user_messages_of(all);
    assert(r == take_at_most(rev, RECENT_USER_LIMIT as int));
    assert forall|i: int| 0 <= i < r.len() implies r[i] == users[users.len() - 1 - i] by {}
    assert forall|i: int| 0 <= i < r.len() implies (#[trigger] r[i]).message.role@ == "user"@ by {
        ranked.lemma_filter_pred(user_first(), users.len() - 1 - i);
    }
    assert forall|i: int| 0 <= i < r.len() implies all.contains(#[trigger] r[i]) by {
        let x = users[users.len() - 1 - i];
        assert(users.contains(x));
        ranked.lemma_filter_contains_rev(user_first(), x);
        assert(ranked.to_multiset().count(x) > 0);
        assert(all.to_multiset().count(x) > 0);
    }
    assert forall|i: int, j: int| 0 <= i < j < r.len() implies (#[trigger] r[i]).timestamp >= (#[trigger] r[j]).timestamp by {
        let a = users.len() - 1 - j;
        let b = users.len() - 1 - i;
        assert((oldest_first())(users[a]) >= (oldest_first())(users[b]));
    }
}

} // verus!
