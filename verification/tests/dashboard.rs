use llmseo_ui::dashboard::count_brands;
use llmseo_ui::db::get_dashboard_stats;
use llmseo_ui::fixed::Fixed;
use llmseo_ui::models::{BrandMention, CoMention, DashboardStats, Response, ScoreRecord};
use llmseo_ui::storage::{Snapshot, Storage, StorageError, Table};

fn mention_d(id: i64, brand: &str, method: Option<&str>, confidence: Option<i64>) -> BrandMention {
    BrandMention {
        id,
        brand_id: 1,
        brand_name: brand.to_string(),
        alias_used: brand.to_string(),
        rank_position: 1,
        explanation: None,
        response_id: 1,
        match_method: method.map(|m| m.to_string()),
        match_confidence: confidence.map(|c| Fixed { micros: c }),
        match_reasoning: None,
    }
}

fn response_d(id: i64, error: Option<&str>) -> Response {
    Response {
        id,
        provider_name: "p".to_string(),
        model_name: "m".to_string(),
        query_id: None,
        raw_response: None,
        timestamp: Fixed { micros: 0 },
        error_message: error.map(|e| e.to_string()),
    }
}

fn co_mention_d(id: i64) -> CoMention {
    CoMention {
        id,
        response_id: 1,
        brand_name_1: "A".to_string(),
        brand_name_2: "B".to_string(),
        rank_1: 1,
        rank_2: 2,
        rank_distance: 1,
        provider_name: "p".to_string(),
        model_name: "m".to_string(),
        timestamp: Fixed { micros: 0 },
    }
}

fn score_d(id: i64, reliability: i64, risk: Option<&str>) -> ScoreRecord {
    ScoreRecord {
        id,
        mention_id: id,
        confidence_score: Fixed { micros: 0 },
        reliability_score: Fixed { micros: reliability },
        risk_level: risk.map(|r| r.to_string()),
        has_source: false,
        source_accessible: false,
        source_count: 0,
    }
}

fn summarize(
    mentions: &Vec<BrandMention>,
    responses: &Vec<Response>,
    co_mentions: &Vec<CoMention>,
    scores: &Vec<ScoreRecord>,
) -> DashboardStats {
    let snapshot = Snapshot::new(
        mentions.clone(),
        responses.clone(),
        co_mentions.clone(),
        vec![],
        scores.clone(),
        vec![],
        vec![],
        vec![],
    )
    .unwrap();
    get_dashboard_stats(&Storage::Open(snapshot)).unwrap()
}

fn zeros() -> DashboardStats {
    DashboardStats {
        total_brands: 0,
        total_responses: 0,
        total_mentions: 0,
        total_co_mentions: 0,
        avg_reliability: Fixed { micros: 0 },
        high_risk_count: 0,
        medium_risk_count: 0,
        low_risk_count: 0,
        llm_match_count: 0,
        regex_match_count: 0,
        avg_match_confidence: Fixed { micros: 0 },
    }
}

#[test]
fn summary_of_empty_tables_is_all_zero() {
    let storage = Storage::Open(
        Snapshot::new(vec![], vec![], vec![], vec![], vec![], vec![], vec![], vec![]).unwrap(),
    );
    assert_eq!(get_dashboard_stats(&storage), Ok(zeros()));
}

#[test]
fn summary_fails_where_storage_is_unavailable() {
    assert_eq!(get_dashboard_stats(&Storage::Unavailable), Err(StorageError::Unavailable));
}

#[test]
fn summary_counts_each_brand_once() {
    let mentions = vec![
        mention_d(1, "Acme", None, None),
        mention_d(2, "Bolt", None, None),
        mention_d(3, "Acme", None, None),
        mention_d(4, "acme", None, None),
    ];
    assert_eq!(count_brands(&mentions), 3);
    let stats = summarize(&mentions, &vec![], &vec![], &vec![]);
    assert_eq!(stats.total_brands, 3);
    assert_eq!(stats.total_mentions, 4);
}

#[test]
fn summary_counts_only_responses_without_error() {
    let responses =
        vec![
            response_d(1, None),
            response_d(2, Some("timeout")),
            response_d(3, Some("")),
            response_d(4, None),
        ];
    let stats = summarize(&vec![], &responses, &vec![], &vec![]);
    assert_eq!(stats.total_responses, 2);
}

#[test]
fn summary_counts_co_mentions() {
    let stats = summarize(&vec![], &vec![], &vec![co_mention_d(1), co_mention_d(2)], &vec![]);
    assert_eq!(stats.total_co_mentions, 2);
}

#[test]
fn summary_splits_assessments_by_exact_risk_level() {
    let scores = vec![
        score_d(1, 900_000, Some("high")),
        score_d(2, 100_000, Some("low")),
        score_d(3, 500_000, Some("medium")),
        score_d(4, 200_000, Some("High")),
        score_d(5, 300_000, None),
        score_d(6, 400_000, Some("low")),
        score_d(7, 400_000, Some("lowest")),
    ];
    let stats = summarize(&vec![], &vec![], &vec![], &scores);
    assert_eq!(stats.high_risk_count, 1);
    assert_eq!(stats.medium_risk_count, 1);
    assert_eq!(stats.low_risk_count, 2);
    assert_eq!(stats.avg_reliability, Fixed { micros: 400_000 });
}

#[test]
fn summary_counts_absent_method_as_regex() {
    let mentions = vec![
        mention_d(1, "A", Some("llm"), Some(900_000)),
        mention_d(2, "A", Some("regex"), Some(500_000)),
        mention_d(3, "A", None, None),
        mention_d(4, "A", Some("manual"), None),
        mention_d(5, "A", Some("llm"), Some(700_000)),
    ];
    let stats = summarize(&mentions, &vec![], &vec![], &vec![]);
    assert_eq!(stats.llm_match_count, 2);
    assert_eq!(stats.regex_match_count, 2);
    assert_eq!(stats.avg_match_confidence, Fixed { micros: 700_000 });
}

#[test]
fn summary_means_leave_out_absent_values_and_round_down() {
    let mentions = vec![
        mention_d(1, "A", None, Some(1)),
        mention_d(2, "A", None, None),
        mention_d(3, "A", None, Some(2)),
    ];
    let stats = summarize(&mentions, &vec![], &vec![], &vec![]);
    assert_eq!(stats.avg_match_confidence, Fixed { micros: 1 });
    let none = vec![mention_d(1, "A", None, None)];
    let stats = summarize(&none, &vec![], &vec![], &vec![]);
    assert_eq!(stats.avg_match_confidence, Fixed { micros: 0 });
}

#[test]
fn summary_of_a_full_store() {
    let storage = Storage::Open(
        Snapshot::new(
            vec![mention_d(1, "A", Some("llm"), Some(950_000)), mention_d(2, "B", None, None)],
            vec![response_d(1, None), response_d(2, Some("boom"))],
            vec![co_mention_d(1)],
            vec![],
            vec![score_d(1, 250_000, Some("high")), score_d(2, 750_000, Some("low"))],
            vec![],
            vec![],
            vec![],
        )
        .unwrap(),
    );
    assert_eq!(
        get_dashboard_stats(&storage),
        Ok(DashboardStats {
            total_brands: 2,
            total_responses: 1,
            total_mentions: 2,
            total_co_mentions: 1,
            avg_reliability: Fixed { micros: 500_000 },
            high_risk_count: 1,
            medium_risk_count: 0,
            low_risk_count: 1,
            llm_match_count: 1,
            regex_match_count: 1,
            avg_match_confidence: Fixed { micros: 950_000 },
        })
    );
}

#[test]
fn summary_reads_unreadable_tables_as_empty_and_skips_unreadable_rows() {
    let snapshot = Snapshot::read(
        Table::Rows(vec![
            Some(mention_d(1, "A", Some("llm"), Some(400_000))),
            None,
            Some(mention_d(2, "B", None, None)),
        ]),
        Table::Unreadable,
        Table::Rows(vec![None, None]),
        Table::Unreadable,
        Table::Rows(vec![Some(score_d(1, 600_000, Some("high"))), None]),
        Table::Unreadable,
        Table::Unreadable,
        Table::Unreadable,
    )
    .unwrap();
    assert_eq!(
        get_dashboard_stats(&Storage::Open(snapshot)),
        Ok(DashboardStats {
            total_brands: 2,
            total_responses: 0,
            total_mentions: 2,
            total_co_mentions: 0,
            avg_reliability: Fixed { micros: 600_000 },
            high_risk_count: 1,
            medium_risk_count: 0,
            low_risk_count: 0,
            llm_match_count: 1,
            regex_match_count: 1,
            avg_match_confidence: Fixed { micros: 400_000 },
        })
    );
}
