//! Reading the model's answer to a rebuild request into the user profile.
use vstd::prelude::*;
use vstd::string::*;
use crate::json::{JsonValue, json_get, json_str, json_strings, get, as_str, strings_of};
use crate::keyed::{KeyedList, StringMap, pairs_view, pair_set, lemma_pairs_insert};
use crate::profile::{UserProfile, Interaction, SpecialMemory};

verus! {

/// The string members of an object, as a map would hold them after inserting each in
/// turn (a later key replaces the value of an earlier equal key).
pub open spec fn string_pairs(entries: Seq<(String, JsonValue)>) -> Seq<(Seq<char>, Seq<char>)>
    decreases entries.len(),
{
    if entries.len() == 0 {
        Seq::empty()
    } else {
        let rest = string_pairs(entries.drop_last());
        match entries.last().1 {
            JsonValue::Str(s) => pair_set(rest, entries.last().0@, s@),
            _ => rest,
        }
    }
}

/// An interaction as texts: date, activity, summary.
pub open spec fn interaction_view(i: Interaction) -> (Seq<char>, Seq<char>, Seq<char>) {
    (i.date@, i.activity@, i.summary@)
}

/// A memory as texts: title, description, date, tags.
pub open spec fn memory_view(m: SpecialMemory) -> (Seq<char>, Seq<char>, Seq<char>, Seq<Seq<char>>) {
    (m.title@, m.description@, m.date@, m.tags@.map_values(|t: String| t@))
}

/// The text of member `key` of `item`, or the empty text.
pub open spec fn str_or_empty(item: JsonValue, key: Seq<char>) -> Seq<char> {
    match json_str(json_get(item, key)) {
        Some(s) => s,
        None => Seq::empty(),
    }
}

/// An interaction read from one item: it needs a text `date` and `activity`; the
/// `summary` defaults to empty.
pub open spec fn interaction_of(item: JsonValue) -> Option<(Seq<char>, Seq<char>, Seq<char>)> {
    match (json_str(json_get(item, "date"@)), json_str(json_get(item, "activity"@))) {
        (Some(d), Some(a)) => Some((d, a, str_or_empty(item, "summary"@))),
        _ => None,
    }
}

/// A memory read from one item: it needs a text `title` and `description`; the `date`
/// defaults to empty and the `tags` are the strings of its array.
pub open spec fn memory_of(item: JsonValue) -> Option<(Seq<char>, Seq<char>, Seq<char>, Seq<Seq<char>>)> {
    match (json_str(json_get(item, "title"@)), json_str(json_get(item, "description"@))) {
        (Some(t), Some(d)) => Some(
            (t, d, str_or_empty(item, "date"@), json_strings(json_get(item, "tags"@))),
        ),
        _ => None,
    }
}

/// The interactions of the items that have one, in order.
pub open spec fn interactions_of(items: Seq<JsonValue>) -> Seq<(Seq<char>, Seq<char>, Seq<char>)>
    decreases items.len(),
{
    if items.len() == 0 {
        Seq::empty()
    } else {
        let rest = interactions_of(items.drop_last());
        match interaction_of(items.last()) {
            Some(i) => rest.push(i),
            None => rest,
        }
    }
}

/// The memories of the items that have one, in order.
pub open spec fn memories_of(items: Seq<JsonValue>) -> Seq<
    (Seq<char>, Seq<char>, Seq<char>, Seq<Seq<char>>),
>
    decreases items.len(),
{
    if items.len() == 0 {
        Seq::empty()
    } else {
        let rest = memories_of(items.drop_last());
        match memory_of(items.last()) {
            Some(m) => rest.push(m),
            None => rest,
        }
    }
}

/// A map field after the answer: rebuilt from the string members when the answer's
/// member is an object, else kept.
pub open spec fn map_after(
    old: Seq<(Seq<char>, Seq<char>)>,
    data: JsonValue,
    key: Seq<char>,
) -> Seq<(Seq<char>, Seq<char>)> {
    match json_get(data, key) {
        Some(JsonValue::Object(entries)) => string_pairs(entries@),
        _ => old,
    }
}

/// The interactions after the answer: read from the member when it is an array, else kept.
pub open spec fn interactions_after(
    old: Seq<(Seq<char>, Seq<char>, Seq<char>)>,
    data: JsonValue,
) -> Seq<(Seq<char>, Seq<char>, Seq<char>)> {
    match json_get(data, "recent_interactions"@) {
        Some(JsonValue::Array(items)) => interactions_of(items@),
        _ => old,
    }
}

/// The memories after the answer: read from the member when it is an array, else kept.
pub open spec fn memories_after(
    old: Seq<(Seq<char>, Seq<char>, Seq<char>, Seq<Seq<char>>)>,
    data: JsonValue,
) -> Seq<(Seq<char>, Seq<char>, Seq<char>, Seq<Seq<char>>)> {
    match json_get(data, "special_memories"@) {
        Some(JsonValue::Array(items)) => memories_of(items@),
        _ => old,
    }
}

/// The string members of an object's entries (see [`string_pairs`]).
fn read_string_pairs(entries: &Vec<(String, JsonValue)>) -> (m: StringMap)
    ensures
        pairs_view(m@) == string_pairs(entries@),
        m.wf(),
{
    let mut m: StringMap = KeyedList::new();
    let mut i: usize = 0;
    while i < entries.len()
        invariant
            i <= entries@.len(),
            pairs_view(m@) == string_pairs(entries@.take(i as int)),
            m.wf(),
        decreases entries.len() - i,
    {
        proof {
            assert(entries@.take(i + 1).drop_last() =~= entries@.take(i as int));
        }
        match &entries[i].1 {
            JsonValue::Str(s) => {
                let ghost before = m@;
                m.insert(entries[i].0.clone(), s.clone());
                proof {
                    lemma_pairs_insert(before, entries@[i as int].0, *s);
                }
            },
            _ => {},
        }
        i = i + 1;
    }
    assert(entries@.take(i as int) =~= entries@);
    m
}

/// The text of member `key`, or the empty text.
fn read_str_or_empty(item: &JsonValue, key: &str) -> (s: String)
    ensures
        s@ == str_or_empty(*item, key@),
{
    match as_str(get(item, key)) {
        Some(s) => s.clone(),
        None => String::new(),
    }
}

/// The interaction of one item (see [`interaction_of`]).
fn read_interaction(item: &JsonValue) -> (r: Option<Interaction>)
    ensures
        match r {
            Some(i) => interaction_of(*item) == Some(interaction_view(i)),
            None => interaction_of(*item) is None,
        },
{
    let date = as_str(get(item, "date"));
    let activity = as_str(get(item, "activity"));
    match (date, activity) {
        (Some(d), Some(a)) => Some(
            Interaction {
                date: d.clone(),
                activity: a.clone(),
                summary: read_str_or_empty(item, "summary"),
            },
        ),
        _ => None,
    }
}

/// The memory of one item (see [`memory_of`]).
fn read_memory(item: &JsonValue) -> (r: Option<SpecialMemory>)
    ensures
        match r {
            Some(m) => memory_of(*item) == Some(memory_view(m)),
            None => memory_of(*item) is None,
        },
{
    let title = as_str(get(item, "title"));
    let description = as_str(get(item, "description"));
    match (title, description) {
        (Some(t), Some(d)) => Some(
            SpecialMemory {
                title: t.clone(),
                description: d.clone(),
                date: read_str_or_empty(item, "date"),
                tags: strings_of(get(item, "tags")),
            },
        ),
        _ => None,
    }
}

/// The interactions of the items (see [`interactions_of`]).
fn read_interactions(items: &Vec<JsonValue>) -> (r: Vec<Interaction>)
    ensures
        r@.map_values(|i: Interaction| interaction_view(i)) == interactions_of(items@),
{
    let mut r: Vec<Interaction> = Vec::new();
    let mut k: usize = 0;
    while k < items.len()
        invariant
            k <= items@.len(),
            r@.map_values(|i: Interaction| interaction_view(i)) == interactions_of(
                items@.take(k as int),
            ),
        decreases items.len() - k,
    {
        proof {
            assert(items@.take(k + 1).drop_last() =~= items@.take(k as int));
        }
        let ghost before = r@;
        match read_interaction(&items[k]) {
            Some(i) => {
                r.push(i);
                assert(r@.map_values(|i: Interaction| interaction_view(i)) =~= before.map_values(
                    |i: Interaction| interaction_view(i),
                ).push(interaction_view(i)));
            },
            None => {},
        }
        k = k + 1;
    }
    assert(items@.take(k as int) =~= items@);
    r
}

/// The memories of the items (see [`memories_of`]).
fn read_memories(items: &Vec<JsonValue>) -> (r: Vec<SpecialMemory>)
    ensures
        r@.map_values(|m: SpecialMemory| memory_view(m)) == memories_of(items@),
{
    let mut r: Vec<SpecialMemory> = Vec::new();
    let mut k: usize = 0;
    while k < items.len()
        invariant
            k <= items@.len(),
            r@.map_values(|m: SpecialMemory| memory_view(m)) == memories_of(items@.take(k as int)),
        decreases items.len() - k,
    {
        proof {
            assert(items@.take(k + 1).drop_last() =~= items@.take(k as int));
        }
        let ghost before = r@;
        match read_memory(&items[k]) {
            Some(m) => {
                r.push(m);
                assert(r@.map_values(|m: SpecialMemory| memory_view(m)) =~= before.map_values(
                    |m: SpecialMemory| memory_view(m),
                ).push(memory_view(m)));
            },
            None => {},
        }
        k = k + 1;
    }
    assert(items@.take(k as int) =~= items@);
    r
}

/// Rebuilds the profile from the model's answer `data`: the name and traits are
/// replaced by what the answer holds (none when absent); the preferences and dates are
/// rebuilt from their object's string members and the interactions and memories from
/// their array's complete items, each only where the answer has that object or array;
/// the time and the message count of the rebuild are recorded.
pub fn apply_profile_update(profile: &mut UserProfile, data: &JsonValue, now_text: String, actual_count: u32)
    ensures
        final(profile).user_name matches Some(n) ==> json_str(json_get(*data, "user_name"@)) == Some(n@),
        final(profile).user_name is None ==> json_str(json_get(*data, "user_name"@)) is None,
        final(profile).traits@.map_values(|t: String| t@) == json_strings(json_get(*data, "traits"@)),
        pairs_view(final(profile).preferences@) == map_after(
            pairs_view(old(profile).preferences@),
            *data,
            "preferences"@,
        ),
        pairs_view(final(profile).important_dates@) == map_after(
            pairs_view(old(profile).important_dates@),
            *data,
            "important_dates"@,
        ),
        final(profile).recent_interactions@.map_values(|i: Interaction| interaction_view(i))
            == interactions_after(
            old(profile).recent_interactions@.map_values(|i: Interaction| interaction_view(i)),
            *data,
        ),
        final(profile).special_memories@.map_values(|m: SpecialMemory| memory_view(m))
            == memories_after(
            old(profile).special_memories@.map_values(|m: SpecialMemory| memory_view(m)),
            *data,
        ),
        final(profile).last_updated@ == now_text@,
        final(profile).last_update_conversation_count == actual_count,
{
    profile.user_name = match as_str(get(data, "user_name")) {
        Some(s) => Some(s.clone()),
        None => None,
    };
    profile.traits = strings_of(get(data, "traits"));
    match get(data, "preferences") {
        Some(JsonValue::Object(entries)) => {
            profile.preferences = read_string_pairs(entries);
        },
        _ => {},
    }
    match get(data, "important_dates") {
        Some(JsonValue::Object(entries)) => {
            profile.important_dates = read_string_pairs(entries);
        },
        _ => {},
    }
    match get(data, "recent_interactions") {
        Some(JsonValue::Array(items)) => {
            profile.recent_interactions = read_interactions(items);
        },
        _ => {},
    }
    match get(data, "special_memories") {
        Some(JsonValue::Array(items)) => {
            profile.special_memories = read_memories(items);
        },
        _ => {},
    }
    profile.last_updated = now_text;
    profile.last_update_conversation_count = actual_count;
}

/// The answer given when the model's answer holds no JSON document.
pub open spec fn unreadable_error() -> Seq<char> {
    "无法解析用户画像"@
}

/// The rebuilt profile, or the error when the answer held no JSON document (`None`).
pub fn update_profile_from_reply(
    current: UserProfile,
    data: Option<&JsonValue>,
    now_text: String,
    actual_count: u32,
) -> (r: Result<UserProfile, String>)
    ensures
        r is Ok <==> data is Some,
        r matches Err(e) ==> e@ == unreadable_error(),
        r matches Ok(p) ==> p.last_updated@ == now_text@ && p.last_update_conversation_count
            == actual_count && p.traits@.map_values(|t: String| t@) == json_strings(
            json_get(*data->0, "traits"@),
        ) && pairs_view(p.preferences@) == map_after(
            pairs_view(current.preferences@),
            *data->0,
            "preferences"@,
        ) && pairs_view(p.important_dates@) == map_after(
            pairs_view(current.important_dates@),
            *data->0,
            "important_dates"@,
        ) && p.recent_interactions@.map_values(|i: Interaction| interaction_view(i))
            == interactions_after(
            current.recent_interactions@.map_values(|i: Interaction| interaction_view(i)),
            *data->0,
        ) && p.special_memories@.map_values(|m: SpecialMemory| memory_view(m)) == memories_after(
            current.special_memories@.map_values(|m: SpecialMemory| memory_view(m)),
            *data->0,
        ) && (match p.user_name {
            Some(n) => json_str(json_get(*data->0, "user_name"@)) == Some(n@),
            None => json_str(json_get(*data->0, "user_name"@)) is None,
        }),
{
    match data {
        Some(d) => {
            let mut profile = current;
            apply_profile_update(&mut profile, d, now_text, actual_count);
            Ok(profile)
        },
        None => Err(String::from_str("无法解析用户画像")),
    }
}

/// Reading the same answer twice leaves the profile as reading it once: every field the
/// answer sets is replaced, not added to.
pub proof fn lemma_reply_idempotent(
    prefs: Seq<(Seq<char>, Seq<char>)>,
    interactions: Seq<(Seq<char>, Seq<char>, Seq<char>)>,
    memories: Seq<(Seq<char>, Seq<char>, Seq<char>, Seq<Seq<char>>)>,
    data: JsonValue,
    key: Seq<char>,
)
    ensures
        map_after(map_after(prefs, data, key), data, key) == map_after(prefs, data, key),
        interactions_after(interactions_after(interactions, data), data) == interactions_after(
            interactions,
            data,
        ),
        memories_after(memories_after(memories, data), data) == memories_after(memories, data),
{
}

} // verus!
