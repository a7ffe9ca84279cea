use llmseo_ui::db::{get_brand_rankings, get_confidence_distribution};
use llmseo_ui::fixed::Fixed;
use llmseo_ui::models::{BrandMention, BrandRanking, Response};
use llmseo_ui::rollups::{brand_rankings, ranking_line};
use llmseo_ui::storage::{Snapshot, Storage, StorageError};

fn mention_r(id: i64, brand: &str, response_id: i64, rank: i32) -> BrandMention {
    BrandMention {
        id,
        brand_id: 1,
        brand_name: brand.to_string(),
        alias_used: format!("{}-alias", brand),
        rank_position: rank,
        explanation: Some(format!("because {}", id)),
        response_id,
        match_method: None,
        match_confidence: None,
        match_reasoning: None,
    }
}

fn graded(id: i64, confidence: Option<i64>) -> BrandMention {
    BrandMention {
        match_confidence: confidence.map(|c| Fixed { micros: c }),
        ..mention_r(id, "A", 1, 1)
    }
}

fn response_r(id: i64, provider: &str, query_id: Option<i64>) -> Response {
    Response {
        id,
        provider_name: provider.to_string(),
        model_name: format!("{}-model", provider),
        query_id,
        raw_response: None,
        timestamp: Fixed { micros: 0 },
        error_message: None,
    }
}

fn confidence_distribution(mentions: &Vec<BrandMention>) -> Vec<(String, i32)> {
    let snapshot =
        Snapshot::new(mentions.clone(), vec![], vec![], vec![], vec![], vec![], vec![], vec![])
            .unwrap();
    get_confidence_distribution(&Storage::Open(snapshot)).unwrap()
}

fn levels(lines: &[(String, i32)]) -> Vec<(&str, i32)> {
    lines.iter().map(|(name, count)| (name.as_str(), *count)).collect()
}

#[test]
fn ranking_line_shows_the_mention_and_its_response() {
    let line = ranking_line(&mention_r(7, "Acme", 3, 2), &response_r(3, "north-ai", Some(12)));
    assert_eq!(
        line,
        BrandRanking {
            brand_name: "Acme".to_string(),
            provider: "north-ai".to_string(),
            model: "north-ai-model".to_string(),
            query: "Query 12".to_string(),
            rank: 2,
            alias_used: "Acme-alias".to_string(),
            explanation: Some("because 7".to_string()),
        }
    );
}

#[test]
fn ranking_line_names_query_zero_where_there_is_none() {
    let m = mention_r(1, "A", 1, 1);
    assert_eq!(ranking_line(&m, &response_r(1, "p", None)).query, "Query 0");
    assert_eq!(ranking_line(&m, &response_r(1, "p", Some(0))).query, "Query 0");
    assert_eq!(ranking_line(&m, &response_r(1, "p", Some(9))).query, "Query 9");
    assert_eq!(ranking_line(&m, &response_r(1, "p", Some(10))).query, "Query 10");
    assert_eq!(ranking_line(&m, &response_r(1, "p", Some(-5))).query, "Query -5");
    assert_eq!(
        ranking_line(&m, &response_r(1, "p", Some(i64::MAX))).query,
        "Query 9223372036854775807"
    );
    assert_eq!(
        ranking_line(&m, &response_r(1, "p", Some(i64::MIN))).query,
        "Query -9223372036854775808"
    );
}

#[test]
fn rankings_come_by_brand_then_provider_then_rank() {
    let responses = vec![response_r(1, "north-ai", Some(1)), response_r(2, "acme-ai", Some(1))];
    let mentions = vec![
        mention_r(1, "Zeta", 1, 1),
        mention_r(2, "Acme", 1, 3),
        mention_r(3, "Acme", 2, 2),
        mention_r(4, "Acme", 1, 1),
        mention_r(5, "Acme", 2, 1),
        mention_r(6, "Bolt", 2, 1),
    ];
    let view = brand_rankings(&mentions, &responses);
    let keys: Vec<(&str, &str, i32)> =
        view.iter().map(|l| (l.brand_name.as_str(), l.provider.as_str(), l.rank)).collect();
    assert_eq!(
        keys,
        vec![
            ("Acme", "acme-ai", 1),
            ("Acme", "acme-ai", 2),
            ("Acme", "north-ai", 1),
            ("Acme", "north-ai", 3),
            ("Bolt", "acme-ai", 1),
            ("Zeta", "north-ai", 1),
        ]
    );
}

#[test]
fn rankings_that_tie_keep_the_order_of_the_mentions() {
    let responses = vec![response_r(1, "p", Some(1))];
    let mentions =
        vec![mention_r(30, "A", 1, 1), mention_r(10, "A", 1, 1), mention_r(20, "A", 1, 1)];
    let view = brand_rankings(&mentions, &responses);
    let notes: Vec<Option<String>> = view.iter().map(|l| l.explanation.clone()).collect();
    assert_eq!(
        notes,
        vec![
            Some("because 30".to_string()),
            Some("because 10".to_string()),
            Some("because 20".to_string())
        ]
    );
}

#[test]
fn rankings_leave_out_mentions_without_a_response() {
    let responses = vec![response_r(1, "p", None)];
    let mentions = vec![mention_r(1, "A", 1, 1), mention_r(2, "B", 5, 1)];
    let view = brand_rankings(&mentions, &responses);
    assert_eq!(view.len(), 1);
    assert_eq!(view[0].brand_name, "A");
    assert!(brand_rankings(&mentions, &vec![]).is_empty());
    assert!(brand_rankings(&vec![], &responses).is_empty());
}

#[test]
fn rankings_order_brands_by_their_bytes() {
    let responses = vec![response_r(1, "p", None)];
    let mentions = vec![
        mention_r(1, "apple", 1, 1),
        mention_r(2, "Zeta", 1, 1),
        mention_r(3, "Apple", 1, 1),
        mention_r(4, "App", 1, 1),
        mention_r(5, "\u{e9}clair", 1, 1),
        mention_r(6, "", 1, 1),
    ];
    let view = brand_rankings(&mentions, &responses);
    let brands: Vec<&str> = view.iter().map(|l| l.brand_name.as_str()).collect();
    assert_eq!(brands, vec!["", "App", "Apple", "Zeta", "apple", "\u{e9}clair"]);
}

#[test]
fn rankings_read_the_store() {
    let storage = Storage::Open(
        Snapshot::new(
            vec![mention_r(1, "A", 1, 1)],
            vec![response_r(1, "p", Some(4))],
            vec![],
            vec![],
            vec![],
            vec![],
            vec![],
            vec![],
        )
        .unwrap(),
    );
    let view = get_brand_rankings(&storage).unwrap();
    assert_eq!(view.len(), 1);
    assert_eq!(view[0].query, "Query 4");
    assert_eq!(get_brand_rankings(&Storage::Unavailable), Err(StorageError::Unavailable));
}

#[test]
fn distribution_of_three_mentions() {
    let mentions = vec![graded(1, Some(950_000)), graded(2, Some(600_000)), graded(3, None)];
    let storage = Storage::Open(
        Snapshot::new(mentions, vec![], vec![], vec![], vec![], vec![], vec![], vec![]).unwrap(),
    );
    let lines = get_confidence_distribution(&storage).unwrap();
    assert_eq!(levels(&lines), vec![("very_high", 1), ("medium", 1), ("none", 1)]);
}

#[test]
fn distribution_levels_begin_at_their_thresholds() {
    let cases: Vec<(Option<i64>, &str)> = vec![
        (Some(1_000_000), "very_high"),
        (Some(900_000), "very_high"),
        (Some(899_999), "high"),
        (Some(700_000), "high"),
        (Some(699_999), "medium"),
        (Some(500_000), "medium"),
        (Some(499_999), "low"),
        (Some(1), "low"),
        (Some(0), "none"),
        (Some(-1), "none"),
        (None, "none"),
    ];
    for (confidence, level) in cases {
        let lines = confidence_distribution(&vec![graded(1, confidence)]);
        assert_eq!(levels(&lines), vec![(level, 1)]);
    }
}

#[test]
fn distribution_lists_levels_from_very_high_down() {
    let mentions = vec![
        graded(1, None),
        graded(2, Some(100_000)),
        graded(3, Some(550_000)),
        graded(4, Some(750_000)),
        graded(5, Some(990_000)),
        graded(6, Some(200_000)),
    ];
    let lines = confidence_distribution(&mentions);
    assert_eq!(
        levels(&lines),
        vec![("very_high", 1), ("high", 1), ("medium", 1), ("low", 2), ("none", 1)]
    );
}

#[test]
fn distribution_of_no_mentions_is_empty() {
    assert!(confidence_distribution(&vec![]).is_empty());
    assert_eq!(
        get_confidence_distribution(&Storage::Unavailable),
        Err(StorageError::Unavailable)
    );
}

#[test]
fn distribution_counts_add_up_to_the_number_of_mentions() {
    let grades = [
        None,
        Some(0),
        Some(1),
        Some(499_999),
        Some(500_000),
        Some(700_000),
        Some(899_999),
        Some(900_000),
        Some(-3),
        Some(2_000_000),
    ];
    for n in 0..grades.len() * 2 {
        let mentions: Vec<BrandMention> =
            (0..n).map(|i| graded(1, grades[(i * 7 + n) % grades.len()])).collect();
        let lines = confidence_distribution(&mentions);
        let sum: i32 = lines.iter().map(|(_, c)| *c).sum();
        assert_eq!(usize::try_from(sum).unwrap(), mentions.len());
        for (_, c) in lines.iter() {
            assert!(*c > 0);
        }
    }
}
