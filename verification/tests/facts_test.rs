use bongo_cat::facts::{
    count_active_facts, delete_user_fact, get_relevant_facts, get_user_facts, is_low_confidence,
    is_sensitive_fact, make_user_fact, merge_facts, new_user_fact, should_auto_merge, sync_profile, Evidence, FactStatus,
    UserFact,
};
use bongo_cat::profile::UserProfile;

fn fact(id: &str, predicate: &str, object: &str, confidence: f32, created: i64) -> UserFact {
    UserFact {
        id: id.to_string(),
        subject: "user".to_string(),
        predicate: predicate.to_string(),
        object: object.to_string(),
        evidence: vec![Evidence {
            date: "2024-03-08".to_string(),
            message_id: format!("m{}", id),
            snippet: object.to_string(),
        }],
        confidence_bits: confidence.to_bits(),
        status: FactStatus::Active,
        superseded_by: None,
        replaces: None,
        tags: Vec::new(),
        created_at: created,
        updated_at: created,
        access_count: 0,
    }
}

fn is_uuid(s: &str) -> bool {
    s.len() == 36
        && s.chars().enumerate().all(|(i, c)| {
            if i == 8 || i == 13 || i == 18 || i == 23 {
                c == '-'
            } else {
                c.is_ascii_digit() || ('a'..='f').contains(&c)
            }
        })
}

#[test]
fn sensitive_facts_are_recognised() {
    assert!(is_sensitive_fact("住在", "北京"));
    assert!(is_sensitive_fact("喜欢", "我的银行卡"));
    assert!(is_sensitive_fact("号码", "13812345678"));
    assert!(!is_sensitive_fact("号码", "1381234567"));
    assert!(!is_sensitive_fact("喜欢", "猫"));
}

#[test]
fn sensitive_facts_are_refused() {
    let r = new_user_fact(
        "user".to_string(),
        "电话".to_string(),
        "123".to_string(),
        "d".to_string(),
        "m".to_string(),
        "s".to_string(),
        0.9f32.to_bits(),
        Vec::new(),
        100,
    );
    assert_eq!(r.err(), Some("敏感信息过滤：该事实包含禁止提取的内容".to_string()));
}

#[test]
fn new_facts_get_a_fresh_id_and_are_active() {
    let make = || {
        new_user_fact(
            "user".to_string(),
            "喜欢".to_string(),
            "猫".to_string(),
            "2024-03-08".to_string(),
            "m1".to_string(),
            "我喜欢猫".to_string(),
            0.9f32.to_bits(),
            vec!["pet".to_string()],
            100,
        )
        .ok()
        .unwrap()
    };
    let f = make();
    let g = make();
    assert!(is_uuid(&f.id));
    assert_ne!(f.id, g.id);
    assert_eq!(f.status, FactStatus::Active);
    assert_eq!(f.evidence.len(), 1);
    assert_eq!(f.evidence[0].snippet, "我喜欢猫");
    assert_eq!(f.created_at, 100);
    assert_eq!(f.updated_at, 100);
    assert_eq!(f.access_count, 0);
}

#[test]
fn confidence_below_seven_tenths_is_low() {
    assert!(is_low_confidence(0.5f32.to_bits()));
    assert!(!is_low_confidence(0.7f32.to_bits()));
    assert!(!is_low_confidence(0.9f32.to_bits()));
}

#[test]
fn merging_is_due_by_count_or_time() {
    assert!(should_auto_merge(20, 0, 0));
    assert!(should_auto_merge(1, 700, 0));
    assert!(!should_auto_merge(1, 100, 0));
    assert!(!should_auto_merge(0, 1000, 0));
}

#[test]
fn a_conflicting_fact_supersedes_the_old_one() {
    let existing = vec![fact("1", "喜欢", "猫", 0.9, 10)];
    let pending = vec![fact("2", "喜欢", "狗", 0.9, 20), fact("3", "职业", "程序员", 0.5, 30)];
    let out = merge_facts(existing, pending);
    assert_eq!(out.facts.len(), 2);
    assert_eq!(out.facts[0].id, "1");
    assert_eq!(out.facts[0].status, FactStatus::Superseded);
    assert_eq!(out.facts[0].superseded_by, Some("2".to_string()));
    assert_eq!(out.facts[1].id, "2");
    assert_eq!(out.facts[1].status, FactStatus::Active);
    assert_eq!(out.facts[1].replaces, Some("1".to_string()));
    assert_eq!(out.still_pending.len(), 1);
    assert_eq!(out.still_pending[0].id, "3");
}

#[test]
fn a_repeated_fact_is_reinforced() {
    let existing = vec![fact("1", "喜欢", "猫", 0.9, 10)];
    let pending = vec![fact("2", "喜欢", "猫", 0.9, 20)];
    let out = merge_facts(existing, pending);
    assert_eq!(out.facts.len(), 1);
    assert_eq!(out.facts[0].id, "1");
    assert_eq!(out.facts[0].access_count, 1);
    assert_eq!(out.facts[0].updated_at, 20);
    assert_eq!(out.facts[0].evidence.len(), 2);
    assert_eq!(out.still_pending.len(), 0);
}

#[test]
fn merging_keeps_one_fact_per_id() {
    let existing = vec![fact("1", "喜欢", "猫", 0.9, 10), fact("1", "喜欢", "鱼", 0.9, 11)];
    let pending = vec![fact("1", "职业", "画家", 0.9, 20), fact("4", "生日", "06-15", 0.8, 21)];
    let out = merge_facts(existing, pending);
    let mut ids: Vec<String> = out.facts.iter().map(|f| f.id.clone()).collect();
    let n = ids.len();
    ids.sort();
    ids.dedup();
    assert_eq!(ids.len(), n);
    assert_eq!(n, 2);
}

#[test]
fn listing_facts_filters_and_ranks() {
    let mut a = fact("a", "喜欢", "猫", 0.9, 10);
    a.access_count = 2;
    let mut b = fact("b", "喜欢", "狗", 0.9, 5000);
    b.tags = vec!["pet".to_string()];
    let mut c = fact("c", "喜欢", "鱼", 0.9, 20);
    c.status = FactStatus::Deleted;
    let all = get_user_facts(vec![b, a, c], None);
    assert_eq!(all.len(), 2);
    assert_eq!(all[0].id, "b");
    assert_eq!(all[1].id, "a");
    let b2 = fact("b", "喜欢", "狗", 0.9, 5000);
    let mut b3 = b2;
    b3.tags = vec!["pet".to_string()];
    let tagged = get_user_facts(vec![fact("a", "喜欢", "猫", 0.9, 10), b3], Some("pet".to_string()));
    assert_eq!(tagged.len(), 1);
    assert_eq!(tagged[0].id, "b");
}

#[test]
fn deleting_marks_the_fact() {
    let mut facts = vec![fact("a", "喜欢", "猫", 0.9, 10), fact("b", "喜欢", "狗", 0.9, 10)];
    assert!(delete_user_fact(&mut facts, "b"));
    assert_eq!(facts.len(), 2);
    assert_eq!(facts[1].status, FactStatus::Deleted);
    assert_eq!(count_active_facts(&facts), 1);
    assert!(!delete_user_fact(&mut facts, "zzz"));
}

#[test]
fn relevant_facts_prefer_keyword_matches() {
    let now = 1_000_000;
    let facts = vec![
        fact("old", "喜欢", "猫", 0.9, now - 8 * 24 * 3600),
        fact("cat", "喜欢", "猫", 0.9, now - 100),
        fact("dog", "喜欢", "狗", 0.9, now - 50),
    ];
    let r = get_relevant_facts(facts, Some("我 的 狗".to_string()), Some(5), now);
    assert_eq!(r.len(), 1);
    assert_eq!(r[0].id, "dog");
    let facts2 = vec![fact("cat", "喜欢", "猫", 0.9, now - 100), fact("dog", "喜欢", "狗", 0.9, now - 50)];
    let all = get_relevant_facts(facts2, None, Some(1), now);
    assert_eq!(all.len(), 1);
    assert_eq!(all[0].id, "dog");
}

#[test]
fn confident_facts_are_copied_into_the_profile() {
    let mut p = UserProfile::default();
    let facts = vec![
        fact("1", "喜欢", "猫", 0.9, 10),
        fact("2", "生日", "06-15", 0.9, 10),
        fact("3", "职业", "画家", 0.5, 10),
    ];
    sync_profile(&mut p, &facts, "2024-03-08 10:00:00".to_string());
    assert_eq!(p.preferences.get("喜欢"), Some(&"猫".to_string()));
    assert_eq!(p.important_dates.get("生日"), Some(&"06-15".to_string()));
    assert_eq!(p.preferences.get("职业"), None);
    assert_eq!(p.last_updated, "2024-03-08 10:00:00");
}

#[test]
fn a_fact_is_made_under_the_given_id() {
    let f = make_user_fact(
        "id-1".to_string(),
        "user".to_string(),
        "职业".to_string(),
        "画家".to_string(),
        "2024-03-08".to_string(),
        "m9".to_string(),
        "我是画家".to_string(),
        0.8f32.to_bits(),
        vec!["work".to_string()],
        42,
    )
    .ok()
    .unwrap();
    assert_eq!(f.id, "id-1");
    assert_eq!(f.tags, vec!["work".to_string()]);
    assert_eq!(f.evidence[0].message_id, "m9");
    assert_eq!(f.created_at, 42);
    let refused = make_user_fact(
        "id-2".to_string(),
        "user".to_string(),
        "密码".to_string(),
        "x".to_string(),
        String::new(),
        String::new(),
        String::new(),
        0.9f32.to_bits(),
        vec![],
        1,
    );
    assert!(refused.is_err());
}
