//! What the chat context is read from: the newest summary files, the long-term memory
//! text made of them, the profile entries and today's recent messages.
use vstd::prelude::*;
use vstd::string::*;
use crate::text::{has_suffix, chars_of, matches_at};
use crate::facts::take_at_most;
use crate::keyed::lemma_filter_push;
use crate::json::{JsonValue, json_get, json_str, member, string_items, get, as_str, strings_of};
use crate::profile_update::{joined, texts, join_strings};
use crate::llm::ChatMessage;
use crate::context::{last_messages, SHORT_TERM_LOAD_COUNT};

verus! {

// ── Ordering file names ─────────────────────────────────────────────

/// `a` comes before `b` in code point order (the order of their UTF-8 bytes).
pub open spec fn name_lt(a: Seq<char>, b: Seq<char>) -> bool
    decreases a.len(),
{
    if b.len() == 0 {
        false
    } else if a.len() == 0 {
        true
    } else if a[0] != b[0] {
        (a[0] as int) < (b[0] as int)
    } else {
        name_lt(a.skip(1), b.skip(1))
    }
}

/// A file name with the extension `json`: it ends in `.json` after at least one
/// character.
pub open spec fn is_json_name(n: Seq<char>) -> bool {
    n.len() > 5 && has_suffix(n, ".json"@)
}

/// Where `x` goes among names in descending order: before the first smaller name.
pub open spec fn name_pos(t: Seq<String>, x: String) -> int
    decreases t.len(),
{
    if t.len() == 0 {
        0
    } else if name_lt(t[0]@, x@) {
        0
    } else {
        1 + name_pos(t.skip(1), x)
    }
}

/// The names in descending order (equal names keep their order).
pub open spec fn names_desc(s: Seq<String>) -> Seq<String>
    decreases s.len(),
{
    if s.len() == 0 {
        Seq::empty()
    } else {
        let t = names_desc(s.drop_last());
        t.insert(name_pos(t, s.last()), s.last())
    }
}

/// The names of JSON files, greatest first, at most `count` of them.
pub open spec fn newest_json_names(names: Seq<String>, count: int) -> Seq<String> {
    take_at_most(names_desc(names.filter(|n: String| is_json_name(n@))), count)
}

/// No name comes before itself.
pub proof fn lemma_name_lt_irreflexive(a: Seq<char>)
    ensures
        !name_lt(a, a),
    decreases a.len(),
{
    if a.len() > 0 {
        lemma_name_lt_irreflexive(a.skip(1));
    }
}

/// The order is transitive.
pub proof fn lemma_name_lt_transitive(a: Seq<char>, b: Seq<char>, c: Seq<char>)
    requires
        name_lt(a, b),
        name_lt(b, c),
    ensures
        name_lt(a, c),
    decreases a.len(),
{
    if a.len() > 0 && b.len() > 0 && c.len() > 0 && a[0] == b[0] && b[0] == c[0] {
        lemma_name_lt_transitive(a.skip(1), b.skip(1), c.skip(1));
    }
}

/// Of two different names, one comes before the other.
pub proof fn lemma_name_lt_total(a: Seq<char>, b: Seq<char>)
    ensures
        a == b || name_lt(a, b) || name_lt(b, a),
    decreases a.len(),
{
    if a.len() > 0 && b.len() > 0 && a[0] == b[0] {
        lemma_name_lt_total(a.skip(1), b.skip(1));
        if a.skip(1) == b.skip(1) {
            assert(a =~= seq![a[0]] + a.skip(1));
            assert(b =~= seq![b[0]] + b.skip(1));
        }
    } else if a.len() > 0 && b.len() > 0 {
        assert((a[0] as int) != (b[0] as int));
    } else if a.len() == 0 && b.len() == 0 {
        assert(a =~= b);
    }
}

proof fn lemma_name_pos_bounds(t: Seq<String>, x: String)
    ensures
        0 <= name_pos(t, x) <= t.len(),
        forall|j: int| 0 <= j < name_pos(t, x) ==> !name_lt(#[trigger] t[j]@, x@),
        name_pos(t, x) < t.len() ==> name_lt(t[name_pos(t, x)]@, x@),
    decreases t.len(),
{
    if t.len() > 0 && !name_lt(t[0]@, x@) {
        lemma_name_pos_bounds(t.skip(1), x);
        assert forall|j: int| 0 < j < t.len() implies t[j] == t.skip(1)[j - 1] by {}
    }
}

proof fn lemma_name_pos_at(t: Seq<String>, x: String, p: int)
    requires
        0 <= p <= t.len(),
        forall|j: int| 0 <= j < p ==> !name_lt(#[trigger] t[j]@, x@),
        p < t.len() ==> name_lt(t[p]@, x@),
    ensures
        name_pos(t, x) == p,
    decreases p,
{
    if p > 0 {
        assert(!name_lt(t[0]@, x@));
        assert forall|j: int| 0 <= j < p - 1 implies !name_lt(#[trigger] t.skip(1)[j]@, x@) by {
            assert(t.skip(1)[j] == t[j + 1]);
        }
        if p < t.len() {
            assert(t.skip(1)[p - 1] == t[p]);
        }
        lemma_name_pos_at(t.skip(1), x, p - 1);
    }
}

/// Names never increase along the sequence.
pub open spec fn is_names_desc(s: Seq<String>) -> bool {
    forall|i: int, j: int| 0 <= i < j < s.len() ==> !name_lt(#[trigger] s[i]@, #[trigger] s[j]@)
}

/// Ordering puts the names in descending order and keeps their number.
pub proof fn lemma_names_desc_sorted(s: Seq<String>)
    ensures
        is_names_desc(names_desc(s)),
        names_desc(s).len() == s.len(),
    decreases s.len(),
{
    if s.len() > 0 {
        let t = names_desc(s.drop_last());
        lemma_names_desc_sorted(s.drop_last());
        let x = s.last();
        let p = name_pos(t, x);
        lemma_name_pos_bounds(t, x);
        let u = t.insert(p, x);
        assert forall|i: int, j: int| 0 <= i < j < u.len() implies !name_lt(
            #[trigger] u[i]@,
            #[trigger] u[j]@,
        ) by {
            if j < p {
                assert(u[i] == t[i] && u[j] == t[j]);
            } else if j == p {
                assert(u[j] == x && u[i] == t[i]);
            } else if i < p {
                assert(u[i] == t[i] && u[j] == t[j - 1]);
            } else if i == p {
                assert(u[i] == x && u[j] == t[j - 1]);
                assert(name_lt(t[p]@, x@));
                if j - 1 == p {
                    lemma_name_lt_irreflexive(t[p]@);
                } else {
                    assert(!name_lt(t[p]@, t[j - 1]@));
                }
                lemma_name_lt_total(t[p]@, t[j - 1]@);
                if name_lt(x@, t[j - 1]@) {
                    if t[p]@ == t[j - 1]@ {
                        lemma_name_lt_transitive(x@, t[j - 1]@, x@);
                    } else {
                        lemma_name_lt_transitive(x@, t[j - 1]@, t[p]@);
                        lemma_name_lt_transitive(x@, t[p]@, x@);
                    }
                    lemma_name_lt_irreflexive(x@);
                }
            } else {
                assert(u[i] == t[i - 1] && u[j] == t[j - 1]);
            }
        }
    }
}

/// Ordering neither adds nor drops names.
pub proof fn lemma_names_desc_permutation(s: Seq<String>)
    ensures
        names_desc(s).to_multiset() == s.to_multiset(),
    decreases s.len(),
{
    broadcast use vstd::seq_lib::group_to_multiset_ensures;
    if s.len() == 0 {
        assert(names_desc(s) =~= s);
    } else {
        let t = names_desc(s.drop_last());
        lemma_names_desc_permutation(s.drop_last());
        let x = s.last();
        let p = name_pos(t, x);
        lemma_name_pos_bounds(t, x);
        let u = t.insert(p, x);
        assert(u =~= t.take(p) + seq![x] + t.skip(p));
        assert(t =~= t.take(p) + t.skip(p));
        vstd::seq_lib::lemma_multiset_commutative(t.take(p), seq![x]);
        vstd::seq_lib::lemma_multiset_commutative(t.take(p) + seq![x], t.skip(p));
        vstd::seq_lib::lemma_multiset_commutative(t.take(p), t.skip(p));
        assert(s =~= s.drop_last().push(x));
    }
}

/// Whether `a` comes before `b` (see [`name_lt`]).
pub fn name_less(a: &str, b: &str) -> (r: bool)
    ensures
        r == name_lt(a@, b@),
{
    let av = chars_of(a);
    let bv = chars_of(b);
    let mut i: usize = 0;
    assert(a@.skip(0) =~= a@);
    assert(b@.skip(0) =~= b@);
    while i < av.len() && i < bv.len() && av[i] == bv[i]
        invariant
            i <= av@.len(),
            i <= bv@.len(),
            av@ == a@,
            bv@ == b@,
            name_lt(a@, b@) == name_lt(a@.skip(i as int), b@.skip(i as int)),
        decreases av.len() - i,
    {
        proof {
            assert(a@.skip(i as int).skip(1) =~= a@.skip(i + 1));
            assert(b@.skip(i as int).skip(1) =~= b@.skip(i + 1));
        }
        i = i + 1;
    }
    if i == bv.len() {
        false
    } else if i == av.len() {
        true
    } else {
        av[i] < bv[i]
    }
}

fn is_json_file_name(name: &str) -> (b: bool)
    ensures
        b == is_json_name(name@),
{
    let v = chars_of(name);
    if v.len() <= 5 {
        return false;
    }
    let ext = chars_of(".json");
    proof {
        reveal_strlit(".json");
    }
    let r = matches_at(v.as_slice(), ext.as_slice(), v.len() - 5);
    assert(v@.subrange(v@.len() - 5, v@.len() as int) =~= v@.skip(v@.len() - 5));
    r
}

/// The JSON file names, greatest first, at most `count` (see [`newest_json_names`]).
pub fn newest_json_files(names: Vec<String>, count: usize) -> (r: Vec<String>)
    ensures
        r@ == newest_json_names(names@, count as int),
{
    let ghost all = names@;
    let ghost pred = |n: String| is_json_name(n@);
    let mut rest = names;
    let mut sorted: Vec<String> = Vec::new();
    let ghost mut i: int = 0;
    assert(all.take(0).filter(pred) =~= Seq::<String>::empty());
    while rest.len() > 0
        invariant
            0 <= i <= all.len(),
            rest@ == all.skip(i),
            pred == (|n: String| is_json_name(n@)),
            sorted@ == names_desc(all.take(i).filter(pred)),
        decreases rest.len(),
    {
        let x = rest.remove(0);
        proof {
            assert(all.take(i + 1) =~= all.take(i).push(x));
            lemma_filter_push(all.take(i), pred, x);
            assert(all.skip(i + 1) =~= all.skip(i).skip(1));
        }
        if is_json_file_name(x.as_str()) {
            let ghost f = all.take(i).filter(pred);
            assert(f.push(x).drop_last() =~= f);
            let mut p: usize = 0;
            while p < sorted.len() && !name_less(sorted[p].as_str(), x.as_str())
                invariant
                    p <= sorted@.len(),
                    forall|j: int| 0 <= j < p ==> !name_lt(#[trigger] sorted@[j]@, x@),
                decreases sorted.len() - p,
            {
                p = p + 1;
            }
            proof {
                lemma_name_pos_at(sorted@, x, p as int);
            }
            sorted.insert(p, x);
        }
        proof {
            i = i + 1;
        }
    }
    assert(all.take(i) =~= all);
    let mut r: Vec<String> = Vec::new();
    let mut k: usize = 0;
    while k < sorted.len() && k < count
        invariant
            k <= sorted@.len(),
            k <= count,
            r@ == sorted@.take(k as int),
        decreases sorted.len() - k,
    {
        r.push(sorted[k].clone());
        assert(sorted@.take(k + 1) =~= sorted@.take(k as int).push(sorted@[k as int]));
        k = k + 1;
    }
    if k == sorted.len() {
        assert(sorted@.take(k as int) =~= sorted@);
    }
    r
}

// ── Long-term memory ────────────────────────────────────────────────

/// Weekly summary files read into the long-term memory.
pub const WEEKLY_FILES_READ: usize = 4;

/// Monthly summary files read into the long-term memory.
pub const MONTHLY_FILES_READ: usize = 2;

/// The block of a weekly summary: `### <week> 周`, its summary and a blank line; nothing
/// when the file could not be read or lacks either text.
pub open spec fn week_block(doc: Option<JsonValue>) -> Seq<char> {
    match doc {
        Some(d) => match (json_str(json_get(d, "summary"@)), json_str(json_get(d, "week"@))) {
            (Some(text), Some(week)) => "### "@ + week + " 周\n"@ + text + "\n\n"@,
            _ => Seq::empty(),
        },
        None => Seq::empty(),
    }
}

/// The block of a monthly summary: `### <month> 月`, its relationship text and a blank
/// line; nothing when the file could not be read or lacks either text.
pub open spec fn month_block(doc: Option<JsonValue>) -> Seq<char> {
    match doc {
        Some(d) => match (json_str(json_get(d, "relationship_growth"@)), json_str(json_get(d, "month"@))) {
            (Some(text), Some(month)) => "### "@ + month + " 月\n"@ + text + "\n\n"@,
            _ => Seq::empty(),
        },
        None => Seq::empty(),
    }
}

/// The blocks of the weekly summaries, in order.
pub open spec fn week_blocks(docs: Seq<Option<JsonValue>>) -> Seq<char>
    decreases docs.len(),
{
    if docs.len() == 0 {
        Seq::empty()
    } else {
        week_blocks(docs.drop_last()) + week_block(docs.last())
    }
}

/// The blocks of the monthly summaries, in order.
pub open spec fn month_blocks(docs: Seq<Option<JsonValue>>) -> Seq<char>
    decreases docs.len(),
{
    if docs.len() == 0 {
        Seq::empty()
    } else {
        month_blocks(docs.drop_last()) + month_block(docs.last())
    }
}

/// The long-term memory: the weekly blocks, then the monthly ones.
pub open spec fn long_term_memory(weekly: Seq<Option<JsonValue>>, monthly: Seq<Option<JsonValue>>) -> Seq<char> {
    week_blocks(weekly) + month_blocks(monthly)
}

fn summary_block(doc: &Option<JsonValue>, text_key: &str, label_key: &str, mark: &str) -> (r: String)
    ensures
        r@ == match doc {
            Some(d) => match (json_str(json_get(*d, text_key@)), json_str(json_get(*d, label_key@))) {
                (Some(text), Some(label)) => "### "@ + label + mark@ + text + "\n\n"@,
                _ => Seq::empty(),
            },
            None => Seq::empty(),
        },
{
    match doc {
        Some(d) => match (as_str(get(d, text_key)), as_str(get(d, label_key))) {
            (Some(text), Some(label)) => {
                let mut r = String::from_str("### ");
                r.append(label.as_str());
                r.append(mark);
                r.append(text.as_str());
                r.append("\n\n");
                r
            },
            _ => String::new(),
        },
        None => String::new(),
    }
}

/// The long-term memory of the summaries read (see [`long_term_memory`]); each entry is
/// the document of one chosen file, or nothing where it could not be read.
pub fn build_long_term_memory(weekly: &Vec<Option<JsonValue>>, monthly: &Vec<Option<JsonValue>>) -> (r: String)
    ensures
        r@ == long_term_memory(weekly@, monthly@),
{
    proof {
        reveal_strlit("summary");
        reveal_strlit("week");
        reveal_strlit(" 周\n");
        reveal_strlit("relationship_growth");
        reveal_strlit("month");
        reveal_strlit(" 月\n");
    }
    let mut r = String::new();
    let mut i: usize = 0;
    while i < weekly.len()
        invariant
            i <= weekly@.len(),
            r@ == week_blocks(weekly@.take(i as int)),
        decreases weekly.len() - i,
    {
        assert(weekly@.take(i + 1).drop_last() =~= weekly@.take(i as int));
        let b = summary_block(&weekly[i], "summary", "week", " 周\n");
        r.append(b.as_str());
        i = i + 1;
    }
    assert(weekly@.take(i as int) =~= weekly@);
    let ghost head = r@;
    let mut k: usize = 0;
    while k < monthly.len()
        invariant
            k <= monthly@.len(),
            head == week_blocks(weekly@),
            r@ == head + month_blocks(monthly@.take(k as int)),
        decreases monthly.len() - k,
    {
        assert(monthly@.take(k + 1).drop_last() =~= monthly@.take(k as int));
        let b = summary_block(&monthly[k], "relationship_growth", "month", " 月\n");
        r.append(b.as_str());
        k = k + 1;
    }
    assert(monthly@.take(k as int) =~= monthly@);
    r
}

// ── Profile entries ─────────────────────────────────────────────────

/// The JSON text of a string map (`serde_json::to_string` of a map holding the pairs;
/// a later pair replaces an earlier one with the same key).
pub uninterp spec fn json_text_of_map(pairs: Seq<(Seq<char>, Seq<char>)>) -> Seq<char>;

/// Writes the pairs as a JSON object (`serde_json::to_string` of a `BTreeMap`, so the
/// keys come out sorted). The text is named by [`json_text_of_map`], a function of the
/// pairs alone.
#[verifier::external_body]
fn encode_string_map(pairs: &Vec<(String, String)>) -> (s: String)
    ensures
        s@ == json_text_of_map(pairs@.map_values(|e: (String, String)| (e.0@, e.1@))),
{
    let m: std::collections::BTreeMap<&str, &str> = pairs.iter().map(|e| (e.0.as_str(), e.1.as_str())).collect();
    serde_json::to_string(&m).unwrap_or_default()
}

/// Every member of the object is a string.
pub open spec fn all_str_values(entries: Seq<(String, JsonValue)>) -> bool {
    forall|i: int| 0 <= i < entries.len() ==> (#[trigger] entries[i]).1 is Str
}

/// Every item is a string.
pub open spec fn all_str_items(items: Seq<JsonValue>) -> bool {
    forall|i: int| 0 <= i < items.len() ==> #[trigger] items[i] is Str
}

/// The text of a string value (empty for any other).
pub open spec fn str_value(v: JsonValue) -> Seq<char> {
    match v {
        JsonValue::Str(s) => s@,
        _ => Seq::empty(),
    }
}

/// The members of an object as (key, text) pairs, in order.
pub open spec fn text_pairs(entries: Seq<(String, JsonValue)>) -> Seq<(Seq<char>, Seq<char>)> {
    entries.map_values(|e: (String, JsonValue)| (e.0@, str_value(e.1)))
}

/// The four fields of the short profile form (user name, traits, preferences, dates):
/// by name in an object, by position in an array of exactly four items.
pub open spec fn short_field(d: JsonValue, k: int) -> Option<JsonValue> {
    match d {
        JsonValue::Object(entries) => member(
            entries@,
            if k == 0 {
                "user_name"@
            } else if k == 1 {
                "traits"@
            } else if k == 2 {
                "preferences"@
            } else {
                "important_dates"@
            },
        ),
        JsonValue::Array(items) => if items@.len() == 4 {
            Some(items@[k])
        } else {
            None
        },
        _ => None,
    }
}

/// Absent, null or text.
pub open spec fn text_field_ok(v: Option<JsonValue>) -> bool {
    match v {
        None => true,
        Some(JsonValue::Null) => true,
        Some(JsonValue::Str(_)) => true,
        _ => false,
    }
}

/// Absent, null or an array of texts.
pub open spec fn texts_field_ok(v: Option<JsonValue>) -> bool {
    match v {
        None => true,
        Some(JsonValue::Null) => true,
        Some(JsonValue::Array(items)) => all_str_items(items@),
        _ => false,
    }
}

/// Absent, null or an object of texts.
pub open spec fn map_field_ok(v: Option<JsonValue>) -> bool {
    match v {
        None => true,
        Some(JsonValue::Null) => true,
        Some(JsonValue::Object(entries)) => all_str_values(entries@),
        _ => false,
    }
}

/// The document reads as the short profile form: an object, or an array of four items,
/// whose fields have the expected kinds.
pub open spec fn short_form(d: JsonValue) -> bool {
    &&& (d is Object || (d matches JsonValue::Array(items) && items@.len() == 4))
    &&& text_field_ok(short_field(d, 0))
    &&& texts_field_ok(short_field(d, 1))
    &&& map_field_ok(short_field(d, 2))
    &&& map_field_ok(short_field(d, 3))
}

/// The entries of the short profile form given the JSON texts of its maps: `用户名`,
/// `性格特点` (the traits joined by `, `), `用户偏好` and `重要日期` (the given texts),
/// each where present.
pub open spec fn short_entries_with(d: JsonValue, prefs_text: Seq<char>, dates_text: Seq<char>) -> Seq<
    (Seq<char>, Seq<char>),
> {
    (match short_field(d, 0) {
        Some(JsonValue::Str(n)) => seq![("用户名"@, n@)],
        _ => Seq::empty(),
    }) + (match short_field(d, 1) {
        Some(JsonValue::Array(items)) => seq![("性格特点"@, joined(string_items(items@), ", "@))],
        _ => Seq::empty(),
    }) + (match short_field(d, 2) {
        Some(JsonValue::Object(_)) => seq![("用户偏好"@, prefs_text)],
        _ => Seq::empty(),
    }) + (match short_field(d, 3) {
        Some(JsonValue::Object(_)) => seq![("重要日期"@, dates_text)],
        _ => Seq::empty(),
    })
}

/// The JSON text of a map field (empty when it is not an object).
pub open spec fn map_json_text(v: Option<JsonValue>) -> Seq<char> {
    match v {
        Some(JsonValue::Object(entries)) => json_text_of_map(text_pairs(entries@)),
        _ => Seq::empty(),
    }
}

/// The entries of the short profile form, its maps written as JSON text.
pub open spec fn short_form_entries(d: JsonValue) -> Seq<(Seq<char>, Seq<char>)> {
    short_entries_with(d, map_json_text(short_field(d, 2)), map_json_text(short_field(d, 3)))
}

/// The profile entries of the stored profile document given the JSON texts of its short
/// form's maps: all its members when it is an object of texts, else the entries of its
/// short form, else none.
pub open spec fn profile_entries_given(
    doc: Option<JsonValue>,
    prefs_text: Seq<char>,
    dates_text: Seq<char>,
) -> Seq<(Seq<char>, Seq<char>)> {
    match doc {
        Some(d) => if d matches JsonValue::Object(entries) && all_str_values(entries@) {
            text_pairs(d->Object_0@)
        } else if short_form(d) {
            short_entries_with(d, prefs_text, dates_text)
        } else {
            Seq::empty()
        },
        None => Seq::empty(),
    }
}

/// The profile entries of the stored profile document (none when there is no document).
pub open spec fn profile_entries(doc: Option<JsonValue>) -> Seq<(Seq<char>, Seq<char>)> {
    match doc {
        Some(d) => profile_entries_given(doc, map_json_text(short_field(d, 2)), map_json_text(short_field(d, 3))),
        None => Seq::empty(),
    }
}

fn all_str_values_of(entries: &Vec<(String, JsonValue)>) -> (b: bool)
    ensures
        b == all_str_values(entries@),
{
    let mut i: usize = 0;
    while i < entries.len()
        invariant
            i <= entries@.len(),
            forall|j: int| 0 <= j < i ==> (#[trigger] entries@[j]).1 is Str,
        decreases entries.len() - i,
    {
        match &entries[i].1 {
            JsonValue::Str(_) => {},
            _ => {
                return false;
            },
        }
        i = i + 1;
    }
    true
}

fn all_str_items_of(items: &Vec<JsonValue>) -> (b: bool)
    ensures
        b == all_str_items(items@),
{
    let mut i: usize = 0;
    while i < items.len()
        invariant
            i <= items@.len(),
            forall|j: int| 0 <= j < i ==> #[trigger] items@[j] is Str,
        decreases items.len() - i,
    {
        match &items[i] {
            JsonValue::Str(_) => {},
            _ => {
                return false;
            },
        }
        i = i + 1;
    }
    true
}

fn text_pairs_of(entries: &Vec<(String, JsonValue)>) -> (r: Vec<(String, String)>)
    ensures
        r@.map_values(|e: (String, String)| (e.0@, e.1@)) == text_pairs(entries@),
{
    let mut r: Vec<(String, String)> = Vec::new();
    let mut i: usize = 0;
    while i < entries.len()
        invariant
            i <= entries@.len(),
            r@.map_values(|e: (String, String)| (e.0@, e.1@)) == text_pairs(entries@.take(i as int)),
        decreases entries.len() - i,
    {
        let v = match &entries[i].1 {
            JsonValue::Str(s) => s.clone(),
            _ => String::new(),
        };
        let ghost before = r@;
        r.push((entries[i].0.clone(), v));
        assert(r@.map_values(|e: (String, String)| (e.0@, e.1@)) =~= before.map_values(
            |e: (String, String)| (e.0@, e.1@),
        ).push((entries@[i as int].0@, str_value(entries@[i as int].1))));
        assert(entries@.take(i + 1) =~= entries@.take(i as int).push(entries@[i as int]));
        assert(text_pairs(entries@.take(i + 1)) =~= text_pairs(entries@.take(i as int)).push(
            (entries@[i as int].0@, str_value(entries@[i as int].1)),
        ));
        i = i + 1;
    }
    assert(entries@.take(i as int) =~= entries@);
    r
}

fn short_field_of(d: &JsonValue, k: usize) -> (r: Option<&JsonValue>)
    requires
        k < 4,
    ensures
        match r {
            Some(x) => short_field(*d, k as int) == Some(*x),
            None => short_field(*d, k as int) is None,
        },
{
    match d {
        JsonValue::Object(_) => {
            let name = if k == 0 {
                "user_name"
            } else if k == 1 {
                "traits"
            } else if k == 2 {
                "preferences"
            } else {
                "important_dates"
            };
            get(d, name)
        },
        JsonValue::Array(items) => {
            if items.len() == 4 {
                Some(&items[k])
            } else {
                None
            }
        },
        _ => None,
    }
}

fn text_field_ok_of(v: Option<&JsonValue>) -> (b: bool)
    ensures
        b == text_field_ok(
            match v {
                Some(x) => Some(*x),
                None => None,
            },
        ),
{
    match v {
        None => true,
        Some(JsonValue::Null) => true,
        Some(JsonValue::Str(_)) => true,
        _ => false,
    }
}

fn texts_field_ok_of(v: Option<&JsonValue>) -> (b: bool)
    ensures
        b == texts_field_ok(
            match v {
                Some(x) => Some(*x),
                None => None,
            },
        ),
{
    match v {
        None => true,
        Some(JsonValue::Null) => true,
        Some(JsonValue::Array(items)) => all_str_items_of(items),
        _ => false,
    }
}

fn map_field_ok_of(v: Option<&JsonValue>) -> (b: bool)
    ensures
        b == map_field_ok(
            match v {
                Some(x) => Some(*x),
                None => None,
            },
        ),
{
    match v {
        None => true,
        Some(JsonValue::Null) => true,
        Some(JsonValue::Object(entries)) => all_str_values_of(entries),
        _ => false,
    }
}

fn short_entries_with_of(d: &JsonValue, prefs_text: &str, dates_text: &str) -> (r: Vec<(String, String)>)
    ensures
        r@.map_values(|e: (String, String)| (e.0@, e.1@)) == short_entries_with(*d, prefs_text@, dates_text@),
{
    let mut r: Vec<(String, String)> = Vec::new();
    match short_field_of(d, 0) {
        Some(JsonValue::Str(n)) => {
            r.push((String::from_str("用户名"), n.clone()));
        },
        _ => {},
    }
    match short_field_of(d, 1) {
        Some(JsonValue::Array(items)) => {
            let names = strings_of(Some(short_field_of(d, 1).unwrap()));
            let t = join_strings(&names, ", ");
            let ghost before = r@;
            r.push((String::from_str("性格特点"), t));
            assert(r@.map_values(|e: (String, String)| (e.0@, e.1@)) =~= before.map_values(
                |e: (String, String)| (e.0@, e.1@),
            ).push(("性格特点"@, joined(string_items(items@), ", "@))));
        },
        _ => {},
    }
    match short_field_of(d, 2) {
        Some(JsonValue::Object(_)) => {
            let ghost before = r@;
            r.push((String::from_str("用户偏好"), String::from_str(prefs_text)));
            assert(r@.map_values(|e: (String, String)| (e.0@, e.1@)) =~= before.map_values(
                |e: (String, String)| (e.0@, e.1@),
            ).push(("用户偏好"@, prefs_text@)));
        },
        _ => {},
    }
    match short_field_of(d, 3) {
        Some(JsonValue::Object(_)) => {
            let ghost before = r@;
            r.push((String::from_str("重要日期"), String::from_str(dates_text)));
            assert(r@.map_values(|e: (String, String)| (e.0@, e.1@)) =~= before.map_values(
                |e: (String, String)| (e.0@, e.1@),
            ).push(("重要日期"@, dates_text@)));
        },
        _ => {},
    }
    assert(r@.map_values(|e: (String, String)| (e.0@, e.1@)) =~= short_entries_with(*d, prefs_text@, dates_text@));
    r
}

/// The profile entries of the stored profile document given the JSON texts of its short
/// form's maps (see [`profile_entries_given`]).
pub fn profile_entries_with(doc: Option<&JsonValue>, prefs_text: &str, dates_text: &str) -> (r: Vec<(String, String)>)
    ensures
        r@.map_values(|e: (String, String)| (e.0@, e.1@)) == profile_entries_given(
            match doc {
                Some(x) => Some(*x),
                None => None,
            },
            prefs_text@,
            dates_text@,
        ),
{
    match doc {
        Some(d) => {
            match d {
                JsonValue::Object(entries) => {
                    if all_str_values_of(entries) {
                        return text_pairs_of(entries);
                    }
                },
                _ => {},
            }
            let is_short = (match d {
                JsonValue::Object(_) => true,
                JsonValue::Array(items) => items.len() == 4,
                _ => false,
            }) && text_field_ok_of(short_field_of(d, 0)) && texts_field_ok_of(short_field_of(d, 1))
                && map_field_ok_of(short_field_of(d, 2)) && map_field_ok_of(short_field_of(d, 3));
            if is_short {
                short_entries_with_of(d, prefs_text, dates_text)
            } else {
                Vec::new()
            }
        },
        None => Vec::new(),
    }
}

/// The JSON text of a map field (see [`map_json_text`]).
fn map_json_text_of(v: Option<&JsonValue>) -> (r: String)
    ensures
        r@ == map_json_text(
            match v {
                Some(x) => Some(*x),
                None => None,
            },
        ),
{
    match v {
        Some(JsonValue::Object(entries)) => {
            let pairs = text_pairs_of(entries);
            encode_string_map(&pairs)
        },
        _ => String::new(),
    }
}

/// The profile entries of the stored profile document (see [`profile_entries`]); `None`
/// when there is no profile or it is not JSON.
pub fn profile_entries_of(doc: Option<&JsonValue>) -> (r: Vec<(String, String)>)
    ensures
        r@.map_values(|e: (String, String)| (e.0@, e.1@)) == profile_entries(
            match doc {
                Some(x) => Some(*x),
                None => None,
            },
        ),
{
    match doc {
        Some(d) => {
            let prefs = map_json_text_of(short_field_of(d, 2));
            let dates = map_json_text_of(short_field_of(d, 3));
            profile_entries_with(doc, prefs.as_str(), dates.as_str())
        },
        None => Vec::new(),
    }
}

// ── Short-term memory ───────────────────────────────────────────────

/// Today's most recent messages: the last thirty, oldest first.
pub fn short_term_messages(msgs: Vec<ChatMessage>) -> (r: Vec<ChatMessage>)
    ensures
        r@ == last_messages(msgs@, SHORT_TERM_LOAD_COUNT as int),
{
    let n = msgs.len();
    if n <= SHORT_TERM_LOAD_COUNT {
        return msgs;
    }
    let start = n - SHORT_TERM_LOAD_COUNT;
    let mut rest = msgs;
    let mut i: usize = 0;
    let ghost all = rest@;
    while i < start
        invariant
            i <= start < n == all.len(),
            rest@ == all.skip(i as int),
        decreases start - i,
    {
        rest.remove(0);
        assert(all.skip(i + 1) =~= all.skip(i as int).skip(1));
        i = i + 1;
    }
    rest
}

/// The summary files read are JSON files of the directory, at most `count`, greatest
/// name first.
pub proof fn lemma_newest_json_names(names: Seq<String>, count: int)
    requires
        count >= 0,
    ensures
        newest_json_names(names, count).len() <= count,
        is_names_desc(newest_json_names(names, count)),
        forall|i: int| 0 <= i < newest_json_names(names, count).len() ==> is_json_name((#[trigger] newest_json_names(names, count)[i])@),
        forall|i: int| 0 <= i < newest_json_names(names, count).len() ==> names.contains(#[trigger] newest_json_names(names, count)[i]),
{
    broadcast use vstd::seq_lib::group_to_multiset_ensures;
    let pred = |n: String| is_json_name(n@);
    let f = names.filter(pred);
    let d = names_desc(f);
    lemma_names_desc_sorted(f);
    lemma_names_desc_permutation(f);
    let r = newest_json_names(names, count);
    assert(r == take_at_most(d, count));
    assert forall|i: int| 0 <= i < r.len() implies is_json_name((#[trigger] r[i])@) && names.contains(r[i]) by {
        assert(r[i] == d[i]);
        assert(d.to_multiset().count(d[i]) > 0);
        assert(f.contains(d[i]));
        let k = choose|k: int| 0 <= k < f.len() && f[k] == d[i];
        names.lemma_filter_pred(pred, k);
        names.lemma_filter_contains_rev(pred, d[i]);
    }
    assert forall|i: int, j: int| 0 <= i < j < r.len() implies !name_lt(#[trigger] r[i]@, #[trigger] r[j]@) by {
        assert(r[i] == d[i] && r[j] == d[j]);
    }
}

} // verus!
