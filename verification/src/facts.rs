//! Facts remembered about the user: filtering of sensitive facts, merging of pending
//! facts into the fact store, retrieval and ranking.
use vstd::prelude::*;
use vstd::string::*;
use crate::text::{str_contains, has_substring, chars_of, str_eq};
use crate::rank::{rank_desc, rank_by_keys};

verus! {

// ── Types ───────────────────────────────────────────────────────────

/// Where a fact was stated.
pub struct Evidence {
    pub date: String,
    pub message_id: String,
    pub snippet: String,
}

/// Whether a fact is in use, replaced by a newer one, or deleted.
#[derive(Clone, Copy, Debug, PartialEq, Eq, Structural)]
pub enum FactStatus {
    Active,
    Superseded,
    Deleted,
}

/// A fact about the user: subject, predicate, object, with its history.
/// The confidence, a 32-bit float, is held by its IEEE-754 bit pattern.
pub struct UserFact {
    pub id: String,
    pub subject: String,
    pub predicate: String,
    pub object: String,
    pub evidence: Vec<Evidence>,
    pub confidence_bits: u32,
    pub status: FactStatus,
    pub superseded_by: Option<String>,
    pub replaces: Option<String>,
    pub tags: Vec<String>,
    pub created_at: i64,
    pub updated_at: i64,
    pub access_count: i32,
}

/// A fact with its texts as character sequences.
pub struct FactView {
    pub id: Seq<char>,
    pub subject: Seq<char>,
    pub predicate: Seq<char>,
    pub object: Seq<char>,
    pub evidence: Seq<(Seq<char>, Seq<char>, Seq<char>)>,
    pub confidence_bits: u32,
    pub status: FactStatus,
    pub superseded_by: Option<Seq<char>>,
    pub replaces: Option<Seq<char>>,
    pub tags: Seq<Seq<char>>,
    pub created_at: i64,
    pub updated_at: i64,
    pub access_count: int,
}

pub open spec fn opt_view(o: Option<String>) -> Option<Seq<char>> {
    match o {
        Some(s) => Some(s@),
        None => None,
    }
}

pub open spec fn evidence_view(e: Evidence) -> (Seq<char>, Seq<char>, Seq<char>) {
    (e.date@, e.message_id@, e.snippet@)
}

pub open spec fn strings_view(v: Seq<String>) -> Seq<Seq<char>> {
    v.map_values(|s: String| s@)
}

impl View for UserFact {
    type V = FactView;

    open spec fn view(&self) -> FactView {
        FactView {
            id: self.id@,
            subject: self.subject@,
            predicate: self.predicate@,
            object: self.object@,
            evidence: self.evidence@.map_values(|e: Evidence| evidence_view(e)),
            confidence_bits: self.confidence_bits,
            status: self.status,
            superseded_by: opt_view(self.superseded_by),
            replaces: opt_view(self.replaces),
            tags: strings_view(self.tags@),
            created_at: self.created_at,
            updated_at: self.updated_at,
            access_count: self.access_count as int,
        }
    }
}

/// The views of a list of facts.
pub open spec fn facts_view(s: Seq<UserFact>) -> Seq<FactView> {
    s.map_values(|f: UserFact| f@)
}

/// Whether the float with these bits is below 0.7 (the `f32` nearest to 0.7, bits
/// `0x3f33_3333`). NaN is not below; every negative value and -0.0 are.
pub open spec fn low_confidence(bits: u32) -> bool {
    if bits % 0x8000_0000 > 0x7f80_0000 {
        false
    } else if bits >= 0x8000_0000 {
        true
    } else {
        bits < 0x3f33_3333
    }
}

/// Whether a confidence, given by its bits, is below 0.7.
pub fn is_low_confidence(bits: u32) -> (b: bool)
    ensures
        b == low_confidence(bits),
{
    if bits % 0x8000_0000 > 0x7f80_0000 {
        false
    } else if bits >= 0x8000_0000 {
        true
    } else {
        bits < 0x3f33_3333
    }
}

// ── Sensitive facts ─────────────────────────────────────────────────

/// The predicate or the object mentions the word.
pub open spec fn mentions(predicate: Seq<char>, object: Seq<char>, word: Seq<char>) -> bool {
    has_substring(predicate, word) || has_substring(object, word)
}

/// Eleven ASCII digits in a row start at position `i` (a phone number).
pub open spec fn digit_run_at(s: Seq<char>, i: int) -> bool {
    0 <= i && i + 11 <= s.len() && forall|j: int| i <= j < i + 11 ==> '0' <= #[trigger] s[j] <= '9'
}

/// The text holds eleven ASCII digits in a row.
pub open spec fn has_phone_number(s: Seq<char>) -> bool {
    exists|i: int| digit_run_at(s, i)
}

/// A fact is sensitive when its predicate or object mentions an address, password,
/// bank card, account, phone, ID card or passport word, or its object holds eleven
/// digits in a row.
pub open spec fn sensitive(predicate: Seq<char>, object: Seq<char>) -> bool {
    mentions(predicate, object, "住在"@) || mentions(predicate, object, "地址"@) || mentions(
        predicate,
        object,
        "密码"@,
    ) || mentions(predicate, object, "银行卡"@) || mentions(predicate, object, "账号"@) || mentions(
        predicate,
        object,
        "手机号"@,
    ) || mentions(predicate, object, "电话"@) || mentions(predicate, object, "身份证"@)
        || mentions(predicate, object, "护照"@) || has_phone_number(object)
}

fn mentions_word(predicate: &str, object: &str, word: &str) -> (b: bool)
    ensures
        b == mentions(predicate@, object@, word@),
{
    str_contains(predicate, word) || str_contains(object, word)
}

fn contains_phone_number(object: &str) -> (b: bool)
    ensures
        b == has_phone_number(object@),
{
    let v = chars_of(object);
    if v.len() < 11 {
        assert forall|i: int| !digit_run_at(object@, i) by {}
        return false;
    }
    let mut i: usize = 0;
    while i <= v.len() - 11
        invariant
            v@ == object@,
            v.len() >= 11,
            i + 11 <= v.len() + 1,
            forall|k: int| 0 <= k < i ==> !digit_run_at(object@, k),
        decreases v.len() - i,
    {
        let mut j: usize = 0;
        while j < 11 && '0' <= v[i + j] && v[i + j] <= '9'
            invariant
                j <= 11,
                i + 11 <= v.len(),
                forall|m: int| i <= m < i + j ==> '0' <= #[trigger] v@[m] <= '9',
            decreases 11 - j,
        {
            j = j + 1;
        }
        if j == 11 {
            assert(digit_run_at(object@, i as int));
            return true;
        }
        assert(!('0' <= v@[i + j] <= '9'));
        i = i + 1;
    }
    assert forall|k: int| !digit_run_at(object@, k) by {
        if 0 <= k && k + 11 <= object@.len() {
            assert(k < i);
        }
    }
    false
}

/// Whether a fact must not be stored (see [`sensitive`]).
pub fn is_sensitive_fact(predicate: &str, object: &str) -> (b: bool)
    ensures
        b == sensitive(predicate@, object@),
{
    mentions_word(predicate, object, "住在") || mentions_word(predicate, object, "地址")
        || mentions_word(predicate, object, "密码") || mentions_word(predicate, object, "银行卡")
        || mentions_word(predicate, object, "账号") || mentions_word(predicate, object, "手机号")
        || mentions_word(predicate, object, "电话") || mentions_word(predicate, object, "身份证")
        || mentions_word(predicate, object, "护照") || contains_phone_number(object)
}

// ── Merge scheduling ────────────────────────────────────────────────

/// Pending facts that trigger a merge by their number alone.
pub const MERGE_THRESHOLD: u64 = 20;

/// Seconds after the last merge from which any pending fact triggers a merge.
pub const MERGE_COOLDOWN_SECS: u64 = 600;

/// A merge is due when twenty facts are pending, or when at least one is pending and
/// ten minutes have passed since the last merge.
pub open spec fn merge_due(pending_count: u64, now: u64, last_merge: u64) -> bool {
    pending_count >= MERGE_THRESHOLD || (now - last_merge >= MERGE_COOLDOWN_SECS && pending_count
        > 0)
}

/// Whether the pending facts should be merged now.
pub fn should_auto_merge(pending_count: u64, now: u64, last_merge: u64) -> (b: bool)
    requires
        pending_count >= MERGE_THRESHOLD || last_merge <= now,
    ensures
        b == merge_due(pending_count, now, last_merge),
{
    pending_count >= MERGE_THRESHOLD || (now - last_merge >= MERGE_COOLDOWN_SECS && pending_count
        > 0)
}

// ── Merging pending facts ───────────────────────────────────────────

/// An active fact with the same subject, predicate and object.
pub open spec fn same_fact(f: FactView, p: FactView) -> bool {
    f.status == FactStatus::Active && f.subject == p.subject && f.predicate == p.predicate
        && f.object == p.object
}

/// An active fact with the same subject and predicate but another object.
pub open spec fn conflicting(f: FactView, p: FactView) -> bool {
    f.status == FactStatus::Active && f.subject == p.subject && f.predicate == p.predicate
        && f.object != p.object
}

/// Match kinds: 0 the same id, 1 the same active fact, 2 a conflicting active fact.
pub open spec fn fact_matches(f: FactView, p: FactView, mode: int) -> bool {
    if mode == 0 {
        f.id == p.id
    } else if mode == 1 {
        same_fact(f, p)
    } else {
        conflicting(f, p)
    }
}

/// Position of the first fact matching `p` in the given way, or -1.
pub open spec fn first_match(s: Seq<FactView>, p: FactView, mode: int) -> int
    decreases s.len(),
{
    if s.len() == 0 {
        -1
    } else if fact_matches(s[0], p, mode) {
        0
    } else {
        let r = first_match(s.skip(1), p, mode);
        if r < 0 {
            -1
        } else {
            r + 1
        }
    }
}

/// A fact stated again: one more access, the new update time, the new evidence added.
pub open spec fn reinforced(f: FactView, p: FactView) -> FactView {
    FactView {
        access_count: f.access_count + 1,
        updated_at: p.updated_at,
        evidence: f.evidence + p.evidence,
        ..f
    }
}

/// A fact replaced by `p`.
pub open spec fn superseded(f: FactView, p: FactView) -> FactView {
    FactView { status: FactStatus::Superseded, superseded_by: Some(p.id), ..f }
}

/// The new fact `p` replacing `f`.
pub open spec fn replacement(p: FactView, f: FactView) -> FactView {
    FactView { status: FactStatus::Active, replaces: Some(f.id), ..p }
}

/// Stores a fact by id: it replaces the first fact with its id, or is added at the end.
pub open spec fn upsert(all: Seq<FactView>, f: FactView) -> Seq<FactView> {
    let i = first_match(all, f, 0);
    if i >= 0 {
        all.update(i, f)
    } else {
        all.push(f)
    }
}

/// The fact store built from a list of facts, one entry per id.
pub open spec fn index_facts(s: Seq<FactView>) -> Seq<FactView>
    decreases s.len(),
{
    if s.len() == 0 {
        Seq::empty()
    } else {
        upsert(index_facts(s.drop_last()), s.last())
    }
}

/// Merges one confident pending fact: a fact with its id, or else the same active fact,
/// is reinforced; else an active fact with the same subject and predicate but another
/// object is superseded and the new fact, active, replaces it; else the new fact is added.
pub open spec fn merge_one(all: Seq<FactView>, p: FactView) -> Seq<FactView> {
    let i = first_match(all, p, 0);
    let j = first_match(all, p, 1);
    let c = first_match(all, p, 2);
    if i >= 0 {
        all.update(i, reinforced(all[i], p))
    } else if j >= 0 {
        all.update(j, reinforced(all[j], p))
    } else if c >= 0 {
        all.update(c, superseded(all[c], p)).push(replacement(p, all[c]))
    } else {
        all.push(p)
    }
}

/// Merges pending facts in order: the facts with low confidence are kept pending, the
/// others merged. Returns (store, still pending).
pub open spec fn merge_all(all: Seq<FactView>, pending: Seq<FactView>) -> (
    Seq<FactView>,
    Seq<FactView>,
)
    decreases pending.len(),
{
    if pending.len() == 0 {
        (all, Seq::empty())
    } else {
        let (a, k) = merge_all(all, pending.drop_last());
        let p = pending.last();
        if low_confidence(p.confidence_bits) {
            (a, k.push(p))
        } else {
            (merge_one(a, p), k)
        }
    }
}

/// The result of merging pending facts into the stored ones.
pub open spec fn merged(existing: Seq<FactView>, pending: Seq<FactView>) -> (
    Seq<FactView>,
    Seq<FactView>,
) {
    merge_all(index_facts(existing), pending)
}

proof fn lemma_first_match_found(s: Seq<FactView>, p: FactView, mode: int, i: int)
    requires
        0 <= i < s.len(),
        fact_matches(s[i], p, mode),
        forall|j: int| 0 <= j < i ==> !fact_matches(#[trigger] s[j], p, mode),
    ensures
        first_match(s, p, mode) == i,
    decreases i,
{
    if i > 0 {
        assert forall|j: int| 0 <= j < i - 1 implies !fact_matches(#[trigger] s.skip(1)[j], p, mode) by {
            assert(s.skip(1)[j] == s[j + 1]);
        }
        assert(s.skip(1)[i - 1] == s[i]);
        lemma_first_match_found(s.skip(1), p, mode, i - 1);
    }
}

proof fn lemma_first_match_absent(s: Seq<FactView>, p: FactView, mode: int)
    requires
        forall|j: int| 0 <= j < s.len() ==> !fact_matches(#[trigger] s[j], p, mode),
    ensures
        first_match(s, p, mode) == -1,
    decreases s.len(),
{
    if s.len() > 0 {
        assert forall|j: int| 0 <= j < s.len() - 1 implies !fact_matches(#[trigger] s.skip(1)[j], p, mode) by {
            assert(s.skip(1)[j] == s[j + 1]);
        }
        assert(!fact_matches(s[0], p, mode));
        lemma_first_match_absent(s.skip(1), p, mode);
    }
}

/// Whether `f` matches `p` in the given way (see [`fact_matches`]).
fn matches_fact(f: &UserFact, p: &UserFact, mode: u8) -> (b: bool)
    ensures
        b == fact_matches(f@, p@, mode as int),
{
    if mode == 0 {
        str_eq(f.id.as_str(), p.id.as_str())
    } else {
        let same_head = f.status == FactStatus::Active && str_eq(f.subject.as_str(), p.subject.as_str())
            && str_eq(f.predicate.as_str(), p.predicate.as_str());
        let same_object = str_eq(f.object.as_str(), p.object.as_str());
        if mode == 1 {
            same_head && same_object
        } else {
            same_head && !same_object
        }
    }
}

/// Position of the first fact matching `p` in the given way.
fn find_first(all: &Vec<UserFact>, p: &UserFact, mode: u8) -> (r: Option<usize>)
    ensures
        r matches Some(i) ==> i < all@.len() && i == first_match(facts_view(all@), p@, mode as int),
        r is None ==> first_match(facts_view(all@), p@, mode as int) == -1,
{
    let ghost av = facts_view(all@);
    let mut i: usize = 0;
    while i < all.len()
        invariant
            i <= all@.len(),
            av == facts_view(all@),
            forall|j: int| 0 <= j < i ==> !fact_matches(#[trigger] av[j], p@, mode as int),
        decreases all.len() - i,
    {
        if matches_fact(&all[i], p, mode) {
            proof {
                lemma_first_match_found(av, p@, mode as int, i as int);
            }
            return Some(i);
        }
        i = i + 1;
    }
    proof {
        lemma_first_match_absent(av, p@, mode as int);
    }
    None
}

/// Reinforces `f` with the pending fact `p` (see [`reinforced`]).
fn reinforce(f: &mut UserFact, p: UserFact)
    requires
        old(f).access_count < i32::MAX,
    ensures
        final(f)@ == reinforced(old(f)@, p@),
{
    f.access_count = f.access_count + 1;
    f.updated_at = p.updated_at;
    let mut ev = p.evidence;
    let ghost before = f.evidence@;
    let ghost added = ev@;
    f.evidence.append(&mut ev);
    assert(f.evidence@.map_values(|e: Evidence| evidence_view(e)) =~= before.map_values(
        |e: Evidence| evidence_view(e),
    ) + added.map_values(|e: Evidence| evidence_view(e)));
}

/// The stored facts and the pending facts left after a merge.
pub struct MergeOutcome {
    pub facts: Vec<UserFact>,
    pub still_pending: Vec<UserFact>,
}

/// Access counts stay below the maximum after `extra` more reinforcements.
pub open spec fn room_for(s: Seq<UserFact>, extra: int) -> bool {
    forall|i: int| 0 <= i < s.len() ==> s[i].access_count + extra <= i32::MAX
}

/// Merges pending facts into the stored facts (see [`merged`]).
pub fn merge_facts(existing: Vec<UserFact>, pending: Vec<UserFact>) -> (r: MergeOutcome)
    requires
        room_for(existing@, pending@.len() as int),
        room_for(pending@, pending@.len() as int),
    ensures
        facts_view(r.facts@) == merged(facts_view(existing@), facts_view(pending@)).0,
        facts_view(r.still_pending@) == merged(facts_view(existing@), facts_view(pending@)).1,
{
    let ghost ex = existing@;
    let ghost pe = pending@;
    let ghost total = pe.len() as int;
    let mut existing = existing;
    let mut pending = pending;
    let mut all: Vec<UserFact> = Vec::new();
    let ghost mut i: int = 0;
    while existing.len() > 0
        invariant
            0 <= i <= ex.len(),
            existing@ == ex.skip(i),
            facts_view(all@) == index_facts(facts_view(ex.take(i))),
            room_for(ex, total),
            room_for(all@, total),
        decreases existing.len(),
    {
        let f = existing.remove(0);
        proof {
            assert(ex.skip(i + 1) =~= ex.skip(i).skip(1));
            assert(facts_view(ex.take(i + 1)).drop_last() =~= facts_view(ex.take(i)));
            assert(facts_view(ex.take(i + 1)).last() == f@);
            assert(ex[i] == f);
        }
        let ghost before = all@;
        match find_first(&all, &f, 0) {
            Some(k) => {
                all.set(k, f);
                assert(facts_view(all@) =~= facts_view(before).update(k as int, f@));
            },
            None => {
                all.push(f);
                assert(facts_view(all@) =~= facts_view(before).push(f@));
            },
        }
        proof {
            i = i + 1;
        }
    }
    assert(ex.take(i) =~= ex);
    let ghost start = facts_view(all@);
    let mut kept: Vec<UserFact> = Vec::new();
    let ghost mut n: int = 0;
    while pending.len() > 0
        invariant
            0 <= n <= pe.len(),
            total == pe.len(),
            pending@ == pe.skip(n),
            start == index_facts(facts_view(ex)),
            (facts_view(all@), facts_view(kept@)) == merge_all(start, facts_view(pe.take(n))),
            room_for(pe, total),
            room_for(all@, total - n),
        decreases pending.len(),
    {
        let p = pending.remove(0);
        proof {
            assert(pe.skip(n + 1) =~= pe.skip(n).skip(1));
            assert(facts_view(pe.take(n + 1)).drop_last() =~= facts_view(pe.take(n)));
            assert(facts_view(pe.take(n + 1)).last() == p@);
            assert(pe[n] == p);
        }
        let ghost before = all@;
        let ghost before_kept = kept@;
        if is_low_confidence(p.confidence_bits) {
            kept.push(p);
            assert(facts_view(kept@) =~= facts_view(before_kept).push(p@));
        } else {
            match find_first(&all, &p, 0) {
                Some(k) => {
                    let mut f = all.remove(k);
                    reinforce(&mut f, p);
                    all.insert(k, f);
                    assert(facts_view(all@) =~= facts_view(before).update(
                        k as int,
                        reinforced(facts_view(before)[k as int], p@),
                    ));
                },
                None => {
                    match find_first(&all, &p, 1) {
                        Some(k) => {
                            let mut f = all.remove(k);
                            reinforce(&mut f, p);
                            all.insert(k, f);
                            assert(facts_view(all@) =~= facts_view(before).update(
                                k as int,
                                reinforced(facts_view(before)[k as int], p@),
                            ));
                        },
                        None => {
                            match find_first(&all, &p, 2) {
                                Some(k) => {
                                    let mut f = all.remove(k);
                                    let ghost fv = f@;
                                    f.status = FactStatus::Superseded;
                                    f.superseded_by = Some(p.id.clone());
                                    let old_id = f.id.clone();
                                    all.insert(k, f);
                                    let mut q = p;
                                    let ghost pv = q@;
                                    q.status = FactStatus::Active;
                                    q.replaces = Some(old_id);
                                    assert(q@ == replacement(pv, fv));
                                    all.push(q);
                                    assert(facts_view(all@) =~= facts_view(before).update(
                                        k as int,
                                        superseded(fv, pv),
                                    ).push(replacement(pv, fv)));
                                },
                                None => {
                                    all.push(p);
                                    assert(facts_view(all@) =~= facts_view(before).push(p@));
                                },
                            }
                        },
                    }
                },
            }
        }
        proof {
            n = n + 1;
        }
    }
    assert(pe.take(n) =~= pe);
    MergeOutcome { facts: all, still_pending: kept }
}

// ── Profile synchronisation ─────────────────────────────────────────

/// Where a predicate is copied in the profile: (0 nowhere, 1 preferences, 2 important
/// dates) and under which key.
pub open spec fn profile_slot(pred: Seq<char>) -> (int, Seq<char>) {
    if pred == "喜欢"@ {
        (1, "喜欢"@)
    } else if pred == "不喜欢"@ {
        (1, "不喜欢"@)
    } else if pred == "讨厌"@ {
        (1, "讨厌"@)
    } else if pred == "职业"@ {
        (1, "职业"@)
    } else if pred == "工作"@ {
        (1, "工作"@)
    } else if pred == "生日"@ {
        (2, "生日"@)
    } else if pred == "纪念日"@ {
        (2, "纪念日"@)
    } else if pred == "地点"@ || pred == "住在"@ {
        (1, "地点"@)
    } else {
        (0, Seq::empty())
    }
}

/// The (preferences, important dates) after copying the active, confident facts in
/// order: each sets its slot's key to its object.
pub open spec fn synced(
    prefs: Seq<(Seq<char>, Seq<char>)>,
    dates: Seq<(Seq<char>, Seq<char>)>,
    facts: Seq<FactView>,
) -> (Seq<(Seq<char>, Seq<char>)>, Seq<(Seq<char>, Seq<char>)>)
    decreases facts.len(),
{
    if facts.len() == 0 {
        (prefs, dates)
    } else {
        let (pr, dt) = synced(prefs, dates, facts.drop_last());
        let f = facts.last();
        if f.status != FactStatus::Active || low_confidence(f.confidence_bits) {
            (pr, dt)
        } else {
            let (slot, key) = profile_slot(f.predicate);
            if slot == 1 {
                (crate::keyed::pair_set(pr, key, f.object), dt)
            } else if slot == 2 {
                (pr, crate::keyed::pair_set(dt, key, f.object))
            } else {
                (pr, dt)
            }
        }
    }
}

/// Where a predicate goes in the profile (see [`profile_slot`]).
fn slot_of(pred: &str) -> (r: (u8, &'static str))
    ensures
        r.0 as int == profile_slot(pred@).0,
        r.0 != 0 ==> r.1@ == profile_slot(pred@).1,
{
    if str_eq(pred, "喜欢") {
        (1, "喜欢")
    } else if str_eq(pred, "不喜欢") {
        (1, "不喜欢")
    } else if str_eq(pred, "讨厌") {
        (1, "讨厌")
    } else if str_eq(pred, "职业") {
        (1, "职业")
    } else if str_eq(pred, "工作") {
        (1, "工作")
    } else if str_eq(pred, "生日") {
        (2, "生日")
    } else if str_eq(pred, "纪念日") {
        (2, "纪念日")
    } else if str_eq(pred, "地点") || str_eq(pred, "住在") {
        (1, "地点")
    } else {
        (0, "")
    }
}

/// Copies what the merged facts say into the profile (see [`synced`]) and stamps it
/// with the given time text.
pub fn sync_profile(profile: &mut crate::profile::UserProfile, facts: &Vec<UserFact>, now_text: String)
    ensures
        (crate::keyed::pairs_view(final(profile).preferences@), crate::keyed::pairs_view(
            final(profile).important_dates@,
        )) == synced(
            crate::keyed::pairs_view(old(profile).preferences@),
            crate::keyed::pairs_view(old(profile).important_dates@),
            facts_view(facts@),
        ),
        final(profile).last_updated == now_text,
        final(profile).user_name == old(profile).user_name,
        final(profile).traits == old(profile).traits,
        final(profile).recent_interactions == old(profile).recent_interactions,
        final(profile).special_memories == old(profile).special_memories,
        final(profile).last_update_conversation_count == old(profile).last_update_conversation_count,
{
    let ghost p0 = crate::keyed::pairs_view(profile.preferences@);
    let ghost d0 = crate::keyed::pairs_view(profile.important_dates@);
    let ghost fv = facts_view(facts@);
    let mut i: usize = 0;
    while i < facts.len()
        invariant
            i <= facts@.len(),
            fv == facts_view(facts@),
            (crate::keyed::pairs_view(profile.preferences@), crate::keyed::pairs_view(
                profile.important_dates@,
            )) == synced(p0, d0, fv.take(i as int)),
            profile.user_name == old(profile).user_name,
            profile.traits == old(profile).traits,
            profile.recent_interactions == old(profile).recent_interactions,
            profile.special_memories == old(profile).special_memories,
            profile.last_update_conversation_count == old(profile).last_update_conversation_count,
        decreases facts.len() - i,
    {
        proof {
            assert(fv.take(i + 1).drop_last() =~= fv.take(i as int));
            assert(fv.take(i + 1).last() == facts@[i as int]@);
        }
        let f = &facts[i];
        if f.status == FactStatus::Active && !is_low_confidence(f.confidence_bits) {
            let (slot, key) = slot_of(f.predicate.as_str());
            if slot == 1 {
                let ghost before = profile.preferences@;
                let k = String::from_str(key);
                let v = f.object.clone();
                proof {
                    crate::keyed::lemma_pairs_insert(before, k, v);
                }
                profile.preferences.insert(k, v);
            } else if slot == 2 {
                let ghost before = profile.important_dates@;
                let k = String::from_str(key);
                let v = f.object.clone();
                proof {
                    crate::keyed::lemma_pairs_insert(before, k, v);
                }
                profile.important_dates.insert(k, v);
            }
        }
        i = i + 1;
    }
    assert(fv.take(facts@.len() as int) =~= fv);
    profile.last_updated = now_text;
}

// ── New facts ───────────────────────────────────────────────────────

/// The error given for a sensitive fact.
pub open spec fn sensitive_error() -> Seq<char> {
    "敏感信息过滤：该事实包含禁止提取的内容"@
}

/// Creates a fact to be stored as pending under the given id: refused when sensitive;
/// otherwise active, with one piece of evidence, no history, created and updated at `now`.
pub fn make_user_fact(
    id: String,
    subject: String,
    predicate: String,
    object: String,
    evidence_date: String,
    evidence_message_id: String,
    evidence_snippet: String,
    confidence_bits: u32,
    tags: Vec<String>,
    now: i64,
) -> (r: Result<UserFact, String>)
    ensures
        r is Err <==> sensitive(predicate@, object@),
        r matches Err(e) ==> e@ == sensitive_error(),
        r matches Ok(f) ==> {
            &&& f.id == id
            &&& f.subject == subject
            &&& f.predicate == predicate
            &&& f.object == object
            &&& f.evidence@.len() == 1
            &&& f.evidence@[0].date == evidence_date
            &&& f.evidence@[0].message_id == evidence_message_id
            &&& f.evidence@[0].snippet == evidence_snippet
            &&& f.confidence_bits == confidence_bits
            &&& f.status == FactStatus::Active
            &&& f.superseded_by is None
            &&& f.replaces is None
            &&& f.tags == tags
            &&& f.created_at == now
            &&& f.updated_at == now
            &&& f.access_count == 0
        },
{
    if is_sensitive_fact(predicate.as_str(), object.as_str()) {
        return Err(String::from_str("敏感信息过滤：该事实包含禁止提取的内容"));
    }
    let mut evidence: Vec<Evidence> = Vec::new();
    evidence.push(
        Evidence { date: evidence_date, message_id: evidence_message_id, snippet: evidence_snippet },
    );
    Ok(
        UserFact {
            id,
            subject,
            predicate,
            object,
            evidence,
            confidence_bits,
            status: FactStatus::Active,
            superseded_by: None,
            replaces: None,
            tags,
            created_at: now,
            updated_at: now,
            access_count: 0,
        },
    )
}

/// Creates a fact to be stored as pending under a fresh random id (see
/// [`make_user_fact`]).
pub fn new_user_fact(
    subject: String,
    predicate: String,
    object: String,
    evidence_date: String,
    evidence_message_id: String,
    evidence_snippet: String,
    confidence_bits: u32,
    tags: Vec<String>,
    now: i64,
) -> (r: Result<UserFact, String>)
    ensures
        r is Err <==> sensitive(predicate@, object@),
        r matches Err(e) ==> e@ == sensitive_error(),
        r matches Ok(f) ==> {
            &&& crate::ids::is_uuid_text(f.id@)
            &&& f.subject == subject
            &&& f.predicate == predicate
            &&& f.object == object
            &&& f.evidence@.len() == 1
            &&& f.evidence@[0].date == evidence_date
            &&& f.evidence@[0].message_id == evidence_message_id
            &&& f.evidence@[0].snippet == evidence_snippet
            &&& f.confidence_bits == confidence_bits
            &&& f.status == FactStatus::Active
            &&& f.superseded_by is None
            &&& f.replaces is None
            &&& f.tags == tags
            &&& f.created_at == now
            &&& f.updated_at == now
            &&& f.access_count == 0
        },
{
    if is_sensitive_fact(predicate.as_str(), object.as_str()) {
        return Err(String::from_str("敏感信息过滤：该事实包含禁止提取的内容"));
    }
    let id = crate::ids::fresh_uuid();
    make_user_fact(
        id,
        subject,
        predicate,
        object,
        evidence_date,
        evidence_message_id,
        evidence_snippet,
        confidence_bits,
        tags,
        now,
    )
}

// ── Queries ─────────────────────────────────────────────────────────

/// The fact carries the tag.
pub open spec fn has_tag(f: UserFact, tag: Seq<char>) -> bool {
    exists|i: int| 0 <= i < f.tags@.len() && #[trigger] f.tags@[i]@ == tag
}

/// Facts listed for a tag filter: active ones, carrying the tag when one is given.
pub open spec fn listed(tag: Option<Seq<char>>) -> spec_fn(UserFact) -> bool {
    |f: UserFact|
        f.status == FactStatus::Active && match tag {
            Some(t) => has_tag(f, t),
            None => true,
        }
}

/// A stored fact's score: a thousand per access plus its update time.
pub open spec fn stored_key() -> spec_fn(UserFact) -> int {
    |f: UserFact| f.access_count as int * 1000 + f.updated_at as int
}

/// The listed facts, highest score first (equal scores keep their order).
pub open spec fn user_facts(facts: Seq<UserFact>, tag: Option<Seq<char>>) -> Seq<UserFact> {
    rank_desc(facts.filter(listed(tag)), stored_key())
}

fn fact_has_tag(f: &UserFact, tag: &str) -> (b: bool)
    ensures
        b == has_tag(*f, tag@),
{
    let mut i: usize = 0;
    while i < f.tags.len()
        invariant
            i <= f.tags@.len(),
            forall|j: int| 0 <= j < i ==> f.tags@[j]@ != tag@,
        decreases f.tags.len() - i,
    {
        if str_eq(f.tags[i].as_str(), tag) {
            return true;
        }
        i = i + 1;
    }
    false
}

/// The stored facts to show, active and with the tag if one is given, ranked by score
/// (see [`user_facts`]).
pub fn get_user_facts(facts: Vec<UserFact>, tag_filter: Option<String>) -> (r: Vec<UserFact>)
    ensures
        r@ == user_facts(facts@, opt_view(tag_filter)),
{
    let ghost all = facts@;
    let ghost pred = listed(opt_view(tag_filter));
    let mut facts = facts;
    let mut kept: Vec<UserFact> = Vec::new();
    let mut keys: Vec<i128> = Vec::new();
    let ghost mut i: int = 0;
    assert(all.take(0).filter(pred) =~= Seq::<UserFact>::empty());
    while facts.len() > 0
        invariant
            0 <= i <= all.len(),
            facts@ == all.skip(i),
            kept@ == all.take(i).filter(pred),
            pred == listed(opt_view(tag_filter)),
            keys@.len() == kept@.len(),
            forall|j: int| 0 <= j < kept@.len() ==> keys@[j] as int == (stored_key())(kept@[j]),
        decreases facts.len(),
    {
        let f = facts.remove(0);
        proof {
            assert(all.take(i + 1) =~= all.take(i).push(f));
            crate::keyed::lemma_filter_push(all.take(i), pred, f);
            assert(all.skip(i + 1) =~= all.skip(i).skip(1));
        }
        let keep = f.status == FactStatus::Active && match &tag_filter {
            Some(t) => fact_has_tag(&f, t.as_str()),
            None => true,
        };
        if keep {
            let k = f.access_count as i128 * 1000 + f.updated_at as i128;
            kept.push(f);
            keys.push(k);
        }
        proof {
            i = i + 1;
        }
    }
    assert(all.take(i) =~= all);
    rank_by_keys(kept, keys, Ghost(stored_key()))
}

/// Number of active facts.
pub fn count_active_facts(facts: &Vec<UserFact>) -> (n: usize)
    ensures
        n == facts@.filter(|f: UserFact| f.status == FactStatus::Active).len(),
{
    let ghost pred = |f: UserFact| f.status == FactStatus::Active;
    let mut n: usize = 0;
    let mut i: usize = 0;
    assert(facts@.take(0).filter(pred) =~= Seq::<UserFact>::empty());
    while i < facts.len()
        invariant
            i <= facts@.len(),
            n == facts@.take(i as int).filter(pred).len(),
            n <= i,
            pred == (|f: UserFact| f.status == FactStatus::Active),
        decreases facts.len() - i,
    {
        proof {
            assert(facts@.take(i + 1) =~= facts@.take(i as int).push(facts@[i as int]));
            crate::keyed::lemma_filter_push(facts@.take(i as int), pred, facts@[i as int]);
        }
        if facts[i].status == FactStatus::Active {
            n = n + 1;
        }
        i = i + 1;
    }
    assert(facts@.take(facts@.len() as int) =~= facts@);
    n
}

/// Position of the first fact with the given id, or -1.
pub open spec fn id_index(s: Seq<UserFact>, id: Seq<char>) -> int
    decreases s.len(),
{
    if s.len() == 0 {
        -1
    } else if s[0].id@ == id {
        0
    } else {
        let r = id_index(s.skip(1), id);
        if r < 0 {
            -1
        } else {
            r + 1
        }
    }
}

proof fn lemma_id_index_found(s: Seq<UserFact>, id: Seq<char>, i: int)
    requires
        0 <= i < s.len(),
        s[i].id@ == id,
        forall|j: int| 0 <= j < i ==> s[j].id@ != id,
    ensures
        id_index(s, id) == i,
    decreases i,
{
    if i > 0 {
        assert forall|j: int| 0 <= j < i - 1 implies s.skip(1)[j].id@ != id by {
            assert(s.skip(1)[j] == s[j + 1]);
        }
        lemma_id_index_found(s.skip(1), id, i - 1);
    }
}

proof fn lemma_id_index_absent(s: Seq<UserFact>, id: Seq<char>)
    requires
        forall|j: int| 0 <= j < s.len() ==> s[j].id@ != id,
    ensures
        id_index(s, id) == -1,
    decreases s.len(),
{
    if s.len() > 0 {
        assert forall|j: int| 0 <= j < s.len() - 1 implies s.skip(1)[j].id@ != id by {
            assert(s.skip(1)[j] == s[j + 1]);
        }
        lemma_id_index_absent(s.skip(1), id);
    }
}

/// Marks the first fact with the id as deleted; returns whether there was one. Nothing
/// else changes.
pub fn delete_user_fact(facts: &mut Vec<UserFact>, fact_id: &str) -> (found: bool)
    ensures
        found == (id_index(old(facts)@, fact_id@) >= 0),
        found ==> facts_view(final(facts)@) == facts_view(old(facts)@).update(
            id_index(old(facts)@, fact_id@),
            FactView { status: FactStatus::Deleted, ..old(facts)@[id_index(old(facts)@, fact_id@)]@ },
        ),
        !found ==> final(facts)@ == old(facts)@,
{
    let mut i: usize = 0;
    while i < facts.len()
        invariant
            i <= facts@.len(),
            facts@ == old(facts)@,
            forall|j: int| 0 <= j < i ==> facts@[j].id@ != fact_id@,
        decreases facts.len() - i,
    {
        if str_eq(facts[i].id.as_str(), fact_id) {
            proof {
                lemma_id_index_found(facts@, fact_id@, i as int);
            }
            let ghost before = facts@;
            let mut f = facts.remove(i);
            f.status = FactStatus::Deleted;
            facts.insert(i, f);
            assert(facts_view(facts@) =~= facts_view(before).update(
                i as int,
                FactView { status: FactStatus::Deleted, ..before[i as int]@ },
            ));
            return true;
        }
        i = i + 1;
    }
    proof {
        lemma_id_index_absent(facts@, fact_id@);
    }
    false
}

/// Seconds in seven days.
pub const SEVEN_DAYS_SECS: i64 = 604800;

/// Facts created less than seven days before `now`.
pub open spec fn within_week(now: i64) -> spec_fn(UserFact) -> bool {
    |f: UserFact| (now as int) - (f.created_at as int) < SEVEN_DAYS_SECS as int
}

/// A recent fact's score: a thousand per access, less its age in seconds, so that of two
/// facts read equally often the newer ranks first.
pub open spec fn recency_key(now: i64) -> spec_fn(UserFact) -> int {
    |f: UserFact| f.access_count as int * 1000 - ((now as int) - (f.created_at as int))
}

/// The fact mentions one of the keywords in its object, predicate or a tag.
pub open spec fn mentions_keyword(kws: Seq<Seq<char>>) -> spec_fn(UserFact) -> bool {
    |f: UserFact|
        exists|k: int|
            0 <= k < kws.len() && (has_substring(f.object@, #[trigger] kws[k]) || has_substring(
                f.predicate@,
                kws[k],
            ) || exists|t: int| 0 <= t < f.tags@.len() && has_substring(f.tags@[t]@, kws[k]))
}

/// At most the first `n` items.
pub open spec fn take_at_most<T>(s: Seq<T>, n: int) -> Seq<T> {
    if s.len() > n {
        s.take(n)
    } else {
        s
    }
}

/// The number of facts asked for: the limit (five when none is given) as a `usize`, so
/// that a negative limit asks for all.
pub open spec fn limit_count(limit: Option<i32>) -> int {
    let l: i32 = match limit {
        Some(x) => x,
        None => 5,
    };
    (l as usize) as int
}

/// The facts to put in a prompt: of the listed facts, those created in the last seven
/// days ranked by [`recency_key`]; if the context has words and some of these facts
/// mention one, the first of those, else the first of all, at most `limit_count` many.
pub open spec fn relevant_facts(
    facts: Seq<UserFact>,
    context: Option<Seq<char>>,
    limit: Option<i32>,
    now: i64,
) -> Seq<UserFact> {
    let cands = rank_desc(user_facts(facts, None).filter(within_week(now)), recency_key(now));
    let kws = match context {
        Some(c) => crate::text::words(c),
        None => Seq::empty(),
    };
    let matched = take_at_most(cands.filter(mentions_keyword(kws)), limit_count(limit));
    if kws.len() > 0 && matched.len() > 0 {
        matched
    } else {
        take_at_most(cands, limit_count(limit))
    }
}

fn fact_mentions_keyword(f: &UserFact, kws: &Vec<String>) -> (b: bool)
    ensures
        b == (mentions_keyword(kws@.map_values(|w: String| w@)))(*f),
{
    let ghost kv = kws@.map_values(|w: String| w@);
    let mut k: usize = 0;
    while k < kws.len()
        invariant
            k <= kws@.len(),
            kv == kws@.map_values(|w: String| w@),
            forall|j: int|
                0 <= j < k ==> !(has_substring(f.object@, #[trigger] kv[j]) || has_substring(
                    f.predicate@,
                    kv[j],
                ) || exists|t: int| 0 <= t < f.tags@.len() && has_substring(f.tags@[t]@, kv[j])),
        decreases kws.len() - k,
    {
        let w = kws[k].as_str();
        assert(kv[k as int] == w@);
        if str_contains(f.object.as_str(), w) || str_contains(f.predicate.as_str(), w) {
            assert(has_substring(f.object@, kv[k as int]) || has_substring(f.predicate@, kv[k as int]));
            return true;
        }
        let mut t: usize = 0;
        while t < f.tags.len()
            invariant
                t <= f.tags@.len(),
                k < kws@.len(),
                kv == kws@.map_values(|w: String| w@),
                w@ == kv[k as int],
                forall|m: int| 0 <= m < t ==> !has_substring(f.tags@[m]@, w@),
            decreases f.tags.len() - t,
        {
            if str_contains(f.tags[t].as_str(), w) {
                assert(has_substring(f.tags@[t as int]@, kv[k as int]));
                assert(0 <= k < kv.len());
                return true;
            }
            t = t + 1;
        }
        assert(!(exists|t: int| 0 <= t < f.tags@.len() && has_substring(f.tags@[t]@, kv[k as int])));
        k = k + 1;
    }
    false
}

/// The facts to put in a prompt (see [`relevant_facts`]).
pub fn get_relevant_facts(
    facts: Vec<UserFact>,
    context: Option<String>,
    limit: Option<i32>,
    now: i64,
) -> (r: Vec<UserFact>)
    ensures
        r@ == relevant_facts(facts@, opt_view(context), limit, now),
{
    let listed_facts = get_user_facts(facts, None);
    let ghost lf = listed_facts@;
    let ghost wpred = within_week(now);
    let mut rest = listed_facts;
    let mut recent: Vec<UserFact> = Vec::new();
    let mut keys: Vec<i128> = Vec::new();
    let ghost mut i: int = 0;
    assert(lf.take(0).filter(wpred) =~= Seq::<UserFact>::empty());
    while rest.len() > 0
        invariant
            0 <= i <= lf.len(),
            rest@ == lf.skip(i),
            recent@ == lf.take(i).filter(wpred),
            wpred == within_week(now),
            keys@.len() == recent@.len(),
            forall|j: int| 0 <= j < recent@.len() ==> keys@[j] as int == (recency_key(now))(recent@[j]),
        decreases rest.len(),
    {
        let f = rest.remove(0);
        proof {
            assert(lf.take(i + 1) =~= lf.take(i).push(f));
            crate::keyed::lemma_filter_push(lf.take(i), wpred, f);
            assert(lf.skip(i + 1) =~= lf.skip(i).skip(1));
        }
        let age = now as i128 - f.created_at as i128;
        if age < SEVEN_DAYS_SECS as i128 {
            let k = f.access_count as i128 * 1000 - age;
            recent.push(f);
            keys.push(k);
        }
        proof {
            i = i + 1;
        }
    }
    assert(lf.take(i) =~= lf);
    let cands = rank_by_keys(recent, keys, Ghost(recency_key(now)));
    let ghost cs = cands@;
    let lim: usize = match limit {
        Some(x) => x as usize,
        None => 5,
    };
    assert(lim as int == limit_count(limit));
    let kws: Vec<String> = match &context {
        Some(c) => crate::text::split_whitespace(c.as_str()),
        None => Vec::new(),
    };
    let ghost kv = kws@.map_values(|w: String| w@);
    assert(kv == match opt_view(context) {
        Some(c) => crate::text::words(c),
        None => Seq::<Seq<char>>::empty(),
    }) by {
        if context is None {
            assert(kv =~= Seq::<Seq<char>>::empty());
        }
    }
    let ghost mpred = mentions_keyword(kv);
    // Which candidates mention a keyword.
    let mut flags: Vec<bool> = Vec::new();
    let mut j: usize = 0;
    while j < cands.len()
        invariant
            j <= cands@.len(),
            cs == cands@,
            kv == kws@.map_values(|w: String| w@),
            mpred == mentions_keyword(kv),
            flags@.len() == j,
            forall|m: int| 0 <= m < j ==> flags@[m] == mpred(cs[m]),
        decreases cands.len() - j,
    {
        let b = fact_mentions_keyword(&cands[j], &kws);
        flags.push(b);
        j = j + 1;
    }
    let mut any = false;
    let mut m: usize = 0;
    while m < flags.len()
        invariant
            m <= flags@.len() == cs.len(),
            any == exists|q: int| 0 <= q < m && flags@[q],
        decreases flags.len() - m,
    {
        if flags[m] {
            any = true;
        }
        m = m + 1;
    }
    let use_matched = kws.len() > 0 && any && lim > 0;
    let mut out: Vec<UserFact> = Vec::new();
    let mut rest = cands;
    let total = rest.len();
    let mut idx: usize = 0;
    let ghost mut n: int = 0;
    assert(cs.take(0).filter(mpred) =~= Seq::<UserFact>::empty());
    assert(cs.take(0) =~= Seq::<UserFact>::empty());
    while rest.len() > 0
        invariant
            0 <= n <= cs.len(),
            idx as int == n,
            total as int == cs.len(),
            rest@ == cs.skip(n),
            flags@.len() == cs.len(),
            forall|q: int| 0 <= q < cs.len() ==> flags@[q] == mpred(cs[q]),
            use_matched ==> out@ == take_at_most(cs.take(n).filter(mpred), lim as int),
            !use_matched ==> out@ == take_at_most(cs.take(n), lim as int),
        decreases rest.len(),
    {
        let f = rest.remove(0);
        proof {
            assert(cs.take(n + 1) =~= cs.take(n).push(f));
            assert(cs[n] == f);
            crate::keyed::lemma_filter_push(cs.take(n), mpred, f);
            assert(cs.skip(n + 1) =~= cs.skip(n).skip(1));
        }
        if use_matched {
            if flags[idx] && out.len() < lim {
                let ghost before = out@;
                out.push(f);
                assert(out@ =~= take_at_most(cs.take(n + 1).filter(mpred), lim as int));
            } else {
                assert(out@ =~= take_at_most(cs.take(n + 1).filter(mpred), lim as int));
            }
        } else {
            if out.len() < lim {
                out.push(f);
                assert(out@ =~= take_at_most(cs.take(n + 1), lim as int));
            } else {
                assert(out@ =~= take_at_most(cs.take(n + 1), lim as int));
            }
        }
        idx = idx + 1;
        proof {
            n = n + 1;
        }
    }
    assert(cs.take(n) =~= cs);
    proof {
        let matched = take_at_most(cs.filter(mpred), lim as int);
        if kv.len() > 0 && matched.len() > 0 {
            let e = cs.filter(mpred)[0];
            cs.lemma_filter_pred(mpred, 0);
            assert(cs.filter(mpred).contains(e));
            cs.lemma_filter_contains_rev(mpred, e);
            let q = choose|q: int| 0 <= q < cs.len() && cs[q] == e;
            assert(flags@[q]);
            assert(any);
        }
        if use_matched {
            assert(exists|q: int| 0 <= q < cs.len() && flags@[q]);
            let q = choose|q: int| 0 <= q < cs.len() && flags@[q];
            cs.lemma_filter_contains(mpred, q);
            assert(cs.filter(mpred).len() > 0);
        }
    }
    out
}

proof fn lemma_first_match_bounds(s: Seq<FactView>, p: FactView, mode: int)
    ensures
        -1 <= first_match(s, p, mode) < s.len(),
        first_match(s, p, mode) >= 0 ==> fact_matches(s[first_match(s, p, mode)], p, mode),
        first_match(s, p, mode) < 0 ==> forall|j: int| 0 <= j < s.len() ==> !fact_matches(#[trigger] s[j], p, mode),
    decreases s.len(),
{
    if s.len() > 0 && !fact_matches(s[0], p, mode) {
        lemma_first_match_bounds(s.skip(1), p, mode);
        assert forall|j: int| 0 < j < s.len() implies s[j] == s.skip(1)[j - 1] by {}
    }
}

/// Pending facts with low confidence.
pub open spec fn low_confidence_fact() -> spec_fn(FactView) -> bool {
    |p: FactView| low_confidence(p.confidence_bits)
}

/// Merging one fact keeps every stored fact where it was, under its id, and adds at most
/// one.
proof fn lemma_merge_one_keeps(all: Seq<FactView>, p: FactView)
    ensures
        all.len() <= merge_one(all, p).len() <= all.len() + 1,
        forall|i: int| 0 <= i < all.len() ==> (#[trigger] merge_one(all, p)[i]).id == all[i].id,
{
    lemma_first_match_bounds(all, p, 0);
    lemma_first_match_bounds(all, p, 1);
    lemma_first_match_bounds(all, p, 2);
}

/// Merging never loses a stored fact: each keeps its place and its id, and each
/// confident pending fact adds at most one; the pending facts with low confidence, and
/// only they, stay pending, in their order.
pub proof fn lemma_merge_keeps_facts(all: Seq<FactView>, pending: Seq<FactView>)
    ensures
        merge_all(all, pending).1 == pending.filter(low_confidence_fact()),
        all.len() <= merge_all(all, pending).0.len() <= all.len() + pending.len(),
        forall|i: int| 0 <= i < all.len() ==> (#[trigger] merge_all(all, pending).0[i]).id == all[i].id,
    decreases pending.len(),
{
    if pending.len() == 0 {
        assert(pending.filter(low_confidence_fact()) =~= Seq::<FactView>::empty());
    } else {
        let rest = pending.drop_last();
        let p = pending.last();
        lemma_merge_keeps_facts(all, rest);
        assert(pending =~= rest.push(p));
        crate::keyed::lemma_filter_push(rest, low_confidence_fact(), p);
        let (a, k) = merge_all(all, rest);
        if !low_confidence(p.confidence_bits) {
            lemma_merge_one_keeps(a, p);
            assert forall|i: int| 0 <= i < all.len() implies (#[trigger] merge_all(all, pending).0[i]).id
                == all[i].id by {
                assert(merge_all(all, pending).0[i] == merge_one(a, p)[i]);
                assert(a[i].id == all[i].id);
            }
        }
    }
}

/// No two facts share an id.
pub open spec fn unique_ids(s: Seq<FactView>) -> bool {
    forall|i: int, j: int| 0 <= i < j < s.len() ==> (#[trigger] s[i]).id != (#[trigger] s[j]).id
}

proof fn lemma_upsert_unique(all: Seq<FactView>, f: FactView)
    requires
        unique_ids(all),
    ensures
        unique_ids(upsert(all, f)),
{
    lemma_first_match_bounds(all, f, 0);
    let u = upsert(all, f);
    assert forall|i: int, j: int| 0 <= i < j < u.len() implies (#[trigger] u[i]).id != (#[trigger] u[j]).id by {
        if j == all.len() {
            assert(!fact_matches(all[i], f, 0));
        }
    }
}

proof fn lemma_merge_one_unique(all: Seq<FactView>, p: FactView)
    requires
        unique_ids(all),
    ensures
        unique_ids(merge_one(all, p)),
{
    lemma_first_match_bounds(all, p, 0);
    lemma_first_match_bounds(all, p, 1);
    lemma_first_match_bounds(all, p, 2);
    let u = merge_one(all, p);
    assert forall|i: int, j: int| 0 <= i < j < u.len() implies (#[trigger] u[i]).id != (#[trigger] u[j]).id by {
        if j == all.len() {
            assert(!fact_matches(all[i], p, 0));
        }
    }
}

/// The store built from the stored facts holds one fact per id.
pub proof fn lemma_index_facts_unique(s: Seq<FactView>)
    ensures
        unique_ids(index_facts(s)),
    decreases s.len(),
{
    if s.len() > 0 {
        lemma_index_facts_unique(s.drop_last());
        lemma_upsert_unique(index_facts(s.drop_last()), s.last());
    }
}

/// Merging keeps the store at one fact per id: a pending fact whose id is stored updates
/// that fact, and a new fact is added only under an id not yet stored.
pub proof fn lemma_merge_unique(all: Seq<FactView>, pending: Seq<FactView>)
    requires
        unique_ids(all),
    ensures
        unique_ids(merge_all(all, pending).0),
    decreases pending.len(),
{
    if pending.len() > 0 {
        lemma_merge_unique(all, pending.drop_last());
        let p = pending.last();
        if !low_confidence(p.confidence_bits) {
            lemma_merge_one_unique(merge_all(all, pending.drop_last()).0, p);
        }
    }
}

/// The merged store holds one fact per id, whatever was stored and pending.
pub proof fn lemma_merged_unique(existing: Seq<FactView>, pending: Seq<FactView>)
    ensures
        unique_ids(merged(existing, pending).0),
{
    lemma_index_facts_unique(existing);
    lemma_merge_unique(index_facts(existing), pending);
}

/// Every item of a ranked list was in the list ranked.
proof fn lemma_ranked_member<T>(s: Seq<T>, key: spec_fn(T) -> int, x: T)
    requires
        rank_desc(s, key).contains(x),
    ensures
        s.contains(x),
{
    broadcast use vstd::seq_lib::group_to_multiset_ensures;
    crate::rank::lemma_rank_desc_permutation(s, key);
    assert(rank_desc(s, key).to_multiset().count(x) > 0);
}

/// The facts put in a prompt are at most the limit asked for, and each is an active
/// stored fact created in the last seven days.
pub proof fn lemma_relevant_facts(facts: Seq<UserFact>, context: Option<Seq<char>>, limit: Option<i32>, now: i64)
    ensures
        relevant_facts(facts, context, limit, now).len() <= limit_count(limit),
        forall|i: int| 0 <= i < relevant_facts(facts, context, limit, now).len() ==> {
            let f = #[trigger] relevant_facts(facts, context, limit, now)[i];
            &&& facts.contains(f)
            &&& f.status == FactStatus::Active
            &&& (within_week(now))(f)
        },
{
    let listed_facts = facts.filter(listed(None));
    let uf = user_facts(facts, None);
    let recent = uf.filter(within_week(now));
    let cands = rank_desc(recent, recency_key(now));
    let kws = match context {
        Some(c) => crate::text::words(c),
        None => Seq::<Seq<char>>::empty(),
    };
    let matched_all = cands.filter(mentions_keyword(kws));
    let r = relevant_facts(facts, context, limit, now);
    assert forall|i: int| 0 <= i < r.len() implies cands.contains(#[trigger] r[i]) by {
        let matched = take_at_most(matched_all, limit_count(limit));
        if kws.len() > 0 && matched.len() > 0 {
            assert(r[i] == matched_all[i]);
            assert(matched_all.contains(matched_all[i]));
            cands.lemma_filter_contains_rev(mentions_keyword(kws), matched_all[i]);
        } else {
            assert(r[i] == cands[i]);
            assert(cands.contains(cands[i]));
        }
    }
    assert forall|i: int| 0 <= i < r.len() implies {
        let f = #[trigger] r[i];
        &&& facts.contains(f)
        &&& f.status == FactStatus::Active
        &&& (within_week(now))(f)
    } by {
        let f = r[i];
        lemma_ranked_member(recent, recency_key(now), f);
        let k = choose|k: int| 0 <= k < recent.len() && recent[k] == f;
        uf.lemma_filter_pred(within_week(now), k);
        uf.lemma_filter_contains_rev(within_week(now), f);
        lemma_ranked_member(listed_facts, stored_key(), f);
        let k2 = choose|k2: int| 0 <= k2 < listed_facts.len() && listed_facts[k2] == f;
        facts.lemma_filter_pred(listed(None), k2);
        facts.lemma_filter_contains_rev(listed(None), f);
    }
}

/// A fact that is not active, or not confident, never changes the profile: leaving it
/// out of the facts, wherever it stands, gives the same preferences and important dates.
pub proof fn lemma_sync_skips_inactive(
    prefs: Seq<(Seq<char>, Seq<char>)>,
    dates: Seq<(Seq<char>, Seq<char>)>,
    before: Seq<FactView>,
    f: FactView,
    after: Seq<FactView>,
)
    requires
        f.status != FactStatus::Active || low_confidence(f.confidence_bits),
    ensures
        synced(prefs, dates, before.push(f) + after) == synced(prefs, dates, before + after),
    decreases after.len(),
{
    if after.len() == 0 {
        assert(before.push(f) + after =~= before.push(f));
        assert(before + after =~= before);
        assert(before.push(f).drop_last() =~= before);
    } else {
        lemma_sync_skips_inactive(prefs, dates, before, f, after.drop_last());
        assert((before.push(f) + after).drop_last() =~= before.push(f) + after.drop_last());
        assert((before + after).drop_last() =~= before + after.drop_last());
        assert((before.push(f) + after).last() == after.last());
        assert((before + after).last() == after.last());
    }
}

/// The last active, confident fact about a preference (or a date) decides it: after it,
/// the profile holds its object under the predicate's key.
pub proof fn lemma_sync_last_fact_decides(
    prefs: Seq<(Seq<char>, Seq<char>)>,
    dates: Seq<(Seq<char>, Seq<char>)>,
    facts: Seq<FactView>,
    f: FactView,
)
    requires
        f.status == FactStatus::Active,
        !low_confidence(f.confidence_bits),
        profile_slot(f.predicate).0 != 0,
    ensures
        ({
            let (pr, dt) = synced(prefs, dates, facts.push(f));
            let (slot, key) = profile_slot(f.predicate);
            let m = if slot == 1 { pr } else { dt };
            &&& crate::keyed::pair_index(m, key) >= 0
            &&& m[crate::keyed::pair_index(m, key)] == (key, f.object)
        }),
{
    assert(facts.push(f).drop_last() =~= facts);
    let (pr0, dt0) = synced(prefs, dates, facts);
    let (slot, key) = profile_slot(f.predicate);
    if slot == 1 {
        crate::keyed::lemma_pair_set_get(pr0, key, f.object);
    } else {
        crate::keyed::lemma_pair_set_get(dt0, key, f.object);
    }
}

/// Eleven characters, each an ASCII digit.
pub open spec fn eleven_digits(s: Seq<char>) -> bool {
    s.len() == 11 && forall|j: int| 0 <= j < 11 ==> '0' <= #[trigger] s[j] && s[j] <= '9'
}

proof fn lemma_digit_run_iff(object: Seq<char>, i: int)
    requires
        0 <= i && i + 11 <= object.len(),
    ensures
        digit_run_at(object, i) <==> eleven_digits(object.subrange(i, i + 11)),
{
    let w = object.subrange(i, i + 11);
    if digit_run_at(object, i) {
        assert forall|j: int| 0 <= j < 11 implies '0' <= #[trigger] w[j] && w[j] <= '9' by {
            assert(w[j] == object[i + j]);
        }
    }
    if eleven_digits(w) {
        assert forall|j: int| i <= j < i + 11 implies '0' <= #[trigger] object[j] <= '9' by {
            assert(w[j - i] == object[j]);
        }
    }
}

/// The words that make a fact sensitive, and a phone number, each refuse it: a
/// predicate or object containing 住在, 地址, 密码, 银行卡, 账号, 手机号, 电话, 身份证 or
/// 护照, or an object holding eleven ASCII digits in a row; and nothing else does.
pub proof fn lemma_sensitive_words(predicate: Seq<char>, object: Seq<char>)
    ensures
        has_substring(predicate, "住在"@) || has_substring(object, "住在"@) ==> sensitive(predicate, object),
        has_substring(predicate, "地址"@) || has_substring(object, "地址"@) ==> sensitive(predicate, object),
        has_substring(predicate, "密码"@) || has_substring(object, "密码"@) ==> sensitive(predicate, object),
        has_substring(predicate, "银行卡"@) || has_substring(object, "银行卡"@) ==> sensitive(predicate, object),
        has_substring(predicate, "账号"@) || has_substring(object, "账号"@) ==> sensitive(predicate, object),
        has_substring(predicate, "手机号"@) || has_substring(object, "手机号"@) ==> sensitive(predicate, object),
        has_substring(predicate, "电话"@) || has_substring(object, "电话"@) ==> sensitive(predicate, object),
        has_substring(predicate, "身份证"@) || has_substring(object, "身份证"@) ==> sensitive(predicate, object),
        has_substring(predicate, "护照"@) || has_substring(object, "护照"@) ==> sensitive(predicate, object),
        forall|i: int|
            0 <= i && i + 11 <= object.len() && #[trigger] eleven_digits(object.subrange(i, i + 11)) ==> sensitive(
                predicate,
                object,
            ),
        sensitive(predicate, object) ==> {
            ||| has_substring(predicate, "住在"@) || has_substring(object, "住在"@)
            ||| has_substring(predicate, "地址"@) || has_substring(object, "地址"@)
            ||| has_substring(predicate, "密码"@) || has_substring(object, "密码"@)
            ||| has_substring(predicate, "银行卡"@) || has_substring(object, "银行卡"@)
            ||| has_substring(predicate, "账号"@) || has_substring(object, "账号"@)
            ||| has_substring(predicate, "手机号"@) || has_substring(object, "手机号"@)
            ||| has_substring(predicate, "电话"@) || has_substring(object, "电话"@)
            ||| has_substring(predicate, "身份证"@) || has_substring(object, "身份证"@)
            ||| has_substring(predicate, "护照"@) || has_substring(object, "护照"@)
            ||| exists|i: int| 0 <= i && i + 11 <= object.len() && #[trigger] eleven_digits(object.subrange(i, i + 11))
        },
{
    assert forall|i: int|
        0 <= i && i + 11 <= object.len() && #[trigger] eleven_digits(object.subrange(i, i + 11)) implies sensitive(
        predicate,
        object,
    ) by {
        lemma_digit_run_iff(object, i);
    }
    if has_phone_number(object) {
        let i = choose|i: int| digit_run_at(object, i);
        lemma_digit_run_iff(object, i);
    }
}

/// A sequence that is ranked keeps every item.
proof fn lemma_ranked_keeps<T>(s: Seq<T>, key: spec_fn(T) -> int, x: T)
    requires
        s.contains(x),
    ensures
        rank_desc(s, key).contains(x),
{
    broadcast use vstd::seq_lib::group_to_multiset_ensures;
    crate::rank::lemma_rank_desc_permutation(s, key);
    assert(s.to_multiset().count(x) > 0);
}

/// Keyword matching reaches tags: when a recent active fact has a tag containing a word
/// of the context, the facts returned are exactly the first `limit` of the ranked recent
/// facts whose object, predicate or one of whose tags contains a word of the context.
/// So every returned fact matches in that sense, and that fact is returned when it ranks
/// among the first `limit` matching ones.
pub proof fn lemma_relevant_facts_by_keyword(
    facts: Seq<UserFact>,
    c: Seq<char>,
    limit: Option<i32>,
    now: i64,
    g: UserFact,
)
    requires
        facts.contains(g),
        g.status == FactStatus::Active,
        (now as int) - (g.created_at as int) < 604800,
        exists|k: int, t: int|
            #![auto]
            0 <= k < crate::text::words(c).len() && 0 <= t < g.tags@.len() && has_substring(
                g.tags@[t]@,
                crate::text::words(c)[k],
            ),
    ensures
        ({
            let ws = crate::text::words(c);
            let cands = rank_desc(user_facts(facts, None).filter(within_week(now)), recency_key(now));
            let word_match = |f: UserFact|
                exists|k: int|
                    0 <= k < ws.len() && (has_substring(f.object@, #[trigger] ws[k]) || has_substring(
                        f.predicate@,
                        ws[k],
                    ) || exists|t: int| 0 <= t < f.tags@.len() && has_substring(f.tags@[t]@, ws[k]));
            let r = relevant_facts(facts, Some(c), limit, now);
            &&& r == take_at_most(cands.filter(word_match), limit_count(limit))
            &&& forall|i: int| 0 <= i < r.len() ==> word_match(#[trigger] r[i])
        }),
{
    let ws = crate::text::words(c);
    let cands = rank_desc(user_facts(facts, None).filter(within_week(now)), recency_key(now));
    let word_match = |f: UserFact|
        exists|k: int|
            0 <= k < ws.len() && (has_substring(f.object@, #[trigger] ws[k]) || has_substring(
                f.predicate@,
                ws[k],
            ) || exists|t: int| 0 <= t < f.tags@.len() && has_substring(f.tags@[t]@, ws[k]));
    assert(mentions_keyword(ws) =~= word_match);
    let (k, t) = choose|k: int, t: int|
        #![auto]
        0 <= k < ws.len() && 0 <= t < g.tags@.len() && has_substring(g.tags@[t]@, ws[k]);
    assert(word_match(g)) by {
        assert(has_substring(g.object@, ws[k]) || has_substring(g.predicate@, ws[k]) || exists|t: int|
            0 <= t < g.tags@.len() && has_substring(g.tags@[t]@, ws[k]));
    }
    // The fact is among the ranked recent facts.
    let gi = choose|i: int| 0 <= i < facts.len() && facts[i] == g;
    facts.lemma_filter_contains(listed(None), gi);
    lemma_ranked_keeps(facts.filter(listed(None)), stored_key(), g);
    let uf = user_facts(facts, None);
    let ui = choose|i: int| 0 <= i < uf.len() && uf[i] == g;
    uf.lemma_filter_contains(within_week(now), ui);
    lemma_ranked_keeps(uf.filter(within_week(now)), recency_key(now), g);
    let ci = choose|i: int| 0 <= i < cands.len() && cands[i] == g;
    cands.lemma_filter_contains(word_match, ci);
    let matched_all = cands.filter(word_match);
    assert(matched_all.len() > 0);
    assert(ws.len() > 0);
    let r = relevant_facts(facts, Some(c), limit, now);
    if limit_count(limit) == 0 {
        assert(take_at_most(matched_all, 0) =~= Seq::<UserFact>::empty());
        assert(take_at_most(cands, 0) =~= Seq::<UserFact>::empty());
    }
    assert(r == take_at_most(matched_all, limit_count(limit)));
    assert forall|i: int| 0 <= i < r.len() implies word_match(#[trigger] r[i]) by {
        assert(r[i] == matched_all[i]);
        cands.lemma_filter_pred(word_match, i);
    }
}

} // verus!
