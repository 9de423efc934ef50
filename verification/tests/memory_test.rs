use bongo_cat::keyed::KeyedList;
use bongo_cat::summaries::{MonthlySummary, WeeklySummary};

#[test]
fn test_weekly_summary_creation() {
    let summary = WeeklySummary {
        week: "2026-W10".to_string(),
        date_range: "2026-03-03 ~ 2026-03-09".to_string(),
        keywords: vec!["忙碌".to_string(), "加班".to_string()],
        emotion_arc: vec!["平静".to_string(), "紧张".to_string()],
        summary: "本周工作较忙".to_string(),
        important_events: vec!["项目上线".to_string()],
        chat_count: 45,
    };

    assert_eq!(summary.week, "2026-W10");
    assert_eq!(summary.keywords.len(), 2);
}

#[test]
fn test_monthly_summary_creation() {
    let mut emotion_dist = KeyedList::new();
    emotion_dist.insert("happy".to_string(), 40);
    emotion_dist.insert("tired".to_string(), 30);

    let summary = MonthlySummary {
        month: "2026-03".to_string(),
        emotion_distribution: emotion_dist,
        topics: vec!["工作".to_string(), "生活".to_string()],
        relationship_growth: "关系加深".to_string(),
        milestones: vec!["第一次聊天".to_string()],
    };

    assert_eq!(summary.month, "2026-03");
    assert_eq!(summary.topics.len(), 2);
}
