use llmseo_ui::db::get_provider_performance;
use llmseo_ui::fixed::{percentage_of, Fixed};
use llmseo_ui::models::{BrandMention, ProviderPerformance, Response};
use llmseo_ui::providers::count_distinct;
use llmseo_ui::storage::{Snapshot, Storage, StorageError};

fn mention_p(id: i64, response_id: i64, rank: i32) -> BrandMention {
    BrandMention {
        id,
        brand_id: 1,
        brand_name: "A".to_string(),
        alias_used: "A".to_string(),
        rank_position: rank,
        explanation: None,
        response_id,
        match_method: None,
        match_confidence: None,
        match_reasoning: None,
    }
}

fn response_p(id: i64, provider: &str, model: &str, error: Option<&str>) -> Response {
    Response {
        id,
        provider_name: provider.to_string(),
        model_name: model.to_string(),
        query_id: None,
        raw_response: None,
        timestamp: Fixed { micros: 0 },
        error_message: error.map(|e| e.to_string()),
    }
}

fn provider_performance(
    responses: &Vec<Response>,
    mentions: &Vec<BrandMention>,
) -> Vec<ProviderPerformance> {
    let snapshot = Snapshot::new(
        mentions.clone(),
        responses.clone(),
        vec![],
        vec![],
        vec![],
        vec![],
        vec![],
        vec![],
    )
    .unwrap();
    get_provider_performance(&Storage::Open(snapshot)).unwrap()
}

fn line(
    provider: &str,
    model: &str,
    mentions: i32,
    avg_rank: Option<i64>,
    responses: i32,
    good: i32,
    rate: i64,
) -> ProviderPerformance {
    ProviderPerformance {
        provider: provider.to_string(),
        model: model.to_string(),
        total_mentions: mentions,
        avg_rank: avg_rank.map(|a| Fixed { micros: a }),
        total_responses: responses,
        successful_responses: good,
        success_rate: Fixed { micros: rate },
    }
}

#[test]
fn success_rate_is_zero_of_no_responses() {
    assert_eq!(percentage_of(0, 0), Fixed { micros: 0 });
    assert_eq!(percentage_of(5, 0), Fixed { micros: 0 });
    assert_eq!(percentage_of(5, -1), Fixed { micros: 0 });
}

#[test]
fn success_rate_is_the_share_in_percent() {
    assert_eq!(percentage_of(1, 1), Fixed { micros: 100_000_000 });
    assert_eq!(percentage_of(1, 2), Fixed { micros: 50_000_000 });
    assert_eq!(percentage_of(1, 3), Fixed { micros: 33_333_333 });
    assert_eq!(percentage_of(2, 3), Fixed { micros: 66_666_666 });
    assert_eq!(percentage_of(0, 7), Fixed { micros: 0 });
    assert_eq!(percentage_of(i32::MAX, i32::MAX), Fixed { micros: 100_000_000 });
    assert_eq!(percentage_of(-1, 3), Fixed { micros: -33_333_334 });
}

#[test]
fn success_rate_stays_between_zero_and_hundred() {
    for whole in 0..40 {
        for part in 0..=whole {
            let rate = percentage_of(part, whole).micros;
            assert!(0 <= rate && rate <= 100_000_000);
            if whole == 0 {
                assert_eq!(rate, 0);
            }
        }
    }
}

#[test]
fn distinct_numbers_are_counted_once() {
    assert_eq!(count_distinct(&vec![]), 0);
    assert_eq!(count_distinct(&vec![7, 7, 7]), 1);
    assert_eq!(count_distinct(&vec![3, 1, 3, 2, 1, i64::MIN, i64::MAX]), 5);
}

#[test]
fn provider_without_mentions_has_no_mean_rank() {
    let responses = vec![response_p(1, "north-ai", "base", None)];
    let report = provider_performance(&responses, &vec![]);
    assert_eq!(report, vec![line("north-ai", "base", 0, None, 1, 1, 100_000_000)]);
}

#[test]
fn provider_figures_are_taken_over_its_own_responses() {
    let responses = vec![
        response_p(1, "north-ai", "base", None),
        response_p(2, "acme-ai", "large", None),
        response_p(3, "north-ai", "base", Some("rate limited")),
        response_p(4, "north-ai", "mini", None),
        response_p(5, "acme-ai", "large", None),
    ];
    let mentions = vec![
        mention_p(1, 1, 1),
        mention_p(2, 1, 2),
        mention_p(3, 2, 4),
        mention_p(4, 5, 1),
        mention_p(5, 5, 2),
        mention_p(6, 99, 1),
    ];
    let report = provider_performance(&responses, &mentions);
    assert_eq!(
        report,
        vec![
            line("acme-ai", "large", 3, Some(2_333_333), 2, 2, 100_000_000),
            line("north-ai", "base", 2, Some(1_500_000), 2, 1, 50_000_000),
            line("north-ai", "mini", 0, None, 1, 1, 100_000_000),
        ]
    );
}

#[test]
fn providers_with_equally_many_mentions_keep_the_order_of_first_response() {
    let responses = vec![
        response_p(1, "b", "x", None),
        response_p(2, "a", "x", None),
        response_p(3, "c", "x", None),
    ];
    let mentions = vec![mention_p(1, 3, 1), mention_p(2, 1, 1), mention_p(3, 2, 1)];
    let report = provider_performance(&responses, &mentions);
    let names: Vec<&str> = report.iter().map(|p| p.provider.as_str()).collect();
    assert_eq!(names, vec!["b", "a", "c"]);
}

#[test]
fn repeated_identities_are_counted_once() {
    let responses =
        vec![response_p(1, "p", "m", None), response_p(1, "p", "m", Some("again"))];
    let mentions = vec![mention_p(1, 1, 2), mention_p(1, 1, 4)];
    let report = provider_performance(&responses, &mentions);
    assert_eq!(report, vec![line("p", "m", 1, Some(3_000_000), 1, 1, 100_000_000)]);
}

#[test]
fn provider_with_failures_only_has_rate_zero() {
    let responses = vec![response_p(1, "p", "m", Some("x")), response_p(2, "p", "m", Some("y"))];
    let report = provider_performance(&responses, &vec![]);
    assert_eq!(report, vec![line("p", "m", 0, None, 2, 0, 0)]);
}

#[test]
fn provider_performance_reads_the_store() {
    let storage = Storage::Open(
        Snapshot::new(
            vec![mention_p(1, 1, 3)],
            vec![response_p(1, "p", "m", None)],
            vec![],
            vec![],
            vec![],
            vec![],
            vec![],
            vec![],
        )
        .unwrap(),
    );
    assert_eq!(
        get_provider_performance(&storage),
        Ok(vec![line("p", "m", 1, Some(3_000_000), 1, 1, 100_000_000)])
    );
    assert_eq!(get_provider_performance(&Storage::Unavailable), Err(StorageError::Unavailable));
    let empty = Storage::Open(
        Snapshot::new(vec![], vec![], vec![], vec![], vec![], vec![], vec![], vec![]).unwrap(),
    );
    assert_eq!(get_provider_performance(&empty), Ok(vec![]));
}
