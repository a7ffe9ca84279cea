use llmseo_ui::fixed::Fixed;
use llmseo_ui::models::{
    BrandMention, CompetitorGraph, CompetitorRelationship, DashboardStats, Response,
};
use llmseo_ui::routes::{
    api_brand_competitors, api_brands, api_confidence_distribution, api_evaluation_stats,
    api_graph, api_hallucinations, api_mentions, api_providers, api_quality, api_rankings,
    api_sources, api_stats, brands_page, competitors_page, empty_graph, hallucinations_page,
    index, providers_page, zero_summary, DASHBOARD_MENTIONS, DEFAULT_MENTION_LIMIT,
    DEFAULT_TOP_N,
};
use llmseo_ui::storage::{Snapshot, Storage};

fn mention_t(id: i64, response_id: i64) -> BrandMention {
    BrandMention {
        id,
        brand_id: 1,
        brand_name: format!("brand-{}", id % 3),
        alias_used: "a".to_string(),
        rank_position: 1,
        explanation: None,
        response_id,
        match_method: None,
        match_confidence: None,
        match_reasoning: None,
    }
}

fn response_t(id: i64) -> Response {
    Response {
        id,
        provider_name: "p".to_string(),
        model_name: "m".to_string(),
        query_id: None,
        raw_response: None,
        timestamp: Fixed { micros: id },
        error_message: None,
    }
}

fn pair_t(other: i32, score: i64) -> CompetitorRelationship {
    CompetitorRelationship {
        brand_name_1: "A".to_string(),
        brand_name_2: format!("B{}", other),
        co_mention_count: other,
        avg_rank_distance: Fixed { micros: 0 },
        strength_score: Fixed { micros: score },
        first_seen: Fixed { micros: 0 },
        last_seen: Fixed { micros: 0 },
    }
}

fn busy_store() -> Storage {
    let mentions: Vec<BrandMention> = (0..60).map(|i| mention_t(i, 1)).collect();
    let rels: Vec<CompetitorRelationship> =
        (0..8).map(|i| pair_t(i, i64::from(i) * 100_000 - 200_000)).collect();
    Storage::Open(
        Snapshot::new(mentions, vec![response_t(1)], vec![], rels, vec![], vec![], vec![], vec![])
            .unwrap(),
    )
}

fn zeros_t() -> DashboardStats {
    DashboardStats {
        total_brands: 0,
        total_responses: 0,
        total_mentions: 0,
        total_co_mentions: 0,
        avg_reliability: Fixed { micros: 0 },
        high_risk_count: 0,
        medium_risk_count: 0,
        low_risk_count: 0,
        llm_match_count: 0,
        regex_match_count: 0,
        avg_match_confidence: Fixed { micros: 0 },
    }
}

fn no_graph() -> CompetitorGraph {
    CompetitorGraph { nodes: vec![], edges: vec![], total_nodes: 0, total_edges: 0 }
}

#[test]
fn defaults_are_five_fifty_and_ten() {
    assert_eq!(DEFAULT_TOP_N, 5);
    assert_eq!(DEFAULT_MENTION_LIMIT, 50);
    assert_eq!(DASHBOARD_MENTIONS, 10);
    assert_eq!(zero_summary(), zeros_t());
    assert_eq!(empty_graph(), no_graph());
}

#[test]
fn api_answers_with_defaults_where_storage_is_unavailable() {
    let gone = Storage::Unavailable;
    assert_eq!(api_stats(&gone), zeros_t());
    assert!(api_brands(&gone).is_empty());
    assert!(api_rankings(&gone).is_empty());
    assert!(api_providers(&gone).is_empty());
    assert_eq!(api_graph(&gone, Some(Fixed { micros: 1 })), no_graph());
    assert_eq!(api_graph(&gone, None), no_graph());
    assert!(api_brand_competitors(&gone, "A", Some(3)).is_empty());
    assert!(api_hallucinations(&gone).is_empty());
    assert!(api_quality(&gone).is_empty());
    assert!(api_sources(&gone, 1).is_empty());
    assert!(api_mentions(&gone, None).is_empty());
    assert!(api_evaluation_stats(&gone).is_empty());
    assert!(api_confidence_distribution(&gone).is_empty());
}

#[test]
fn api_competitors_default_to_five() {
    let storage = busy_store();
    assert_eq!(api_brand_competitors(&storage, "A", None).len(), 5);
    assert_eq!(api_brand_competitors(&storage, "A", Some(7)).len(), 7);
    assert_eq!(api_brand_competitors(&storage, "A", Some(100)).len(), 8);
    assert_eq!(api_brand_competitors(&storage, "A", Some(0)).len(), 0);
    assert_eq!(api_brand_competitors(&storage, "A", None)[0].co_mention_count, 7);
}

#[test]
fn api_mentions_default_to_fifty() {
    let storage = busy_store();
    assert_eq!(api_mentions(&storage, None).len(), 50);
    assert_eq!(api_mentions(&storage, Some(3)).len(), 3);
    assert_eq!(api_mentions(&storage, Some(1000)).len(), 60);
}

#[test]
fn api_graph_defaults_to_threshold_zero() {
    let storage = busy_store();
    assert_eq!(api_graph(&storage, None).total_edges, 6);
    assert_eq!(api_graph(&storage, Some(Fixed { micros: -200_000 })).total_edges, 8);
    assert_eq!(api_graph(&storage, Some(Fixed { micros: 450_000 })).total_edges, 1);
}

#[test]
fn api_reads_the_store() {
    let storage = busy_store();
    assert_eq!(api_stats(&storage).total_mentions, 60);
    assert_eq!(api_stats(&storage).total_brands, 3);
    assert_eq!(api_brands(&storage), vec!["brand-0", "brand-1", "brand-2"]);
    assert_eq!(api_rankings(&storage).len(), 60);
    assert_eq!(api_providers(&storage).len(), 1);
    assert_eq!(api_confidence_distribution(&storage), vec![("none".to_string(), 60)]);
}

#[test]
fn pages_carry_their_titles_and_data() {
    let storage = busy_store();
    let page = index(&storage);
    assert_eq!(page.title, "Dashboard");
    assert_eq!(page.stats.total_mentions, 60);
    assert_eq!(page.recent_mentions.len(), 10);
    assert_eq!(page.providers.len(), 1);
    let page = brands_page(&storage);
    assert_eq!(page.title, "Brand Rankings");
    assert_eq!(page.rankings.len(), 60);
    assert_eq!(page.brands.len(), 3);
    let page = competitors_page(&storage);
    assert_eq!(page.title, "Competitor Graph");
    assert_eq!(page.graph.total_edges, 6);
    assert_eq!(page.brands.len(), 3);
    let page = hallucinations_page(&storage);
    assert_eq!(page.title, "Hallucination Filter");
    assert!(page.scores.is_empty());
    assert!(page.quality.is_empty());
    let page = providers_page(&storage);
    assert_eq!(page.title, "Provider Performance");
    assert_eq!(page.providers.len(), 1);
}

#[test]
fn pages_are_empty_where_storage_is_unavailable() {
    let gone = Storage::Unavailable;
    let page = index(&gone);
    assert_eq!(page.title, "Dashboard");
    assert_eq!(page.stats, zeros_t());
    assert!(page.recent_mentions.is_empty());
    assert!(page.providers.is_empty());
    let page = brands_page(&gone);
    assert!(page.rankings.is_empty() && page.brands.is_empty());
    let page = competitors_page(&gone);
    assert_eq!(page.graph, no_graph());
    assert!(page.brands.is_empty());
    let page = hallucinations_page(&gone);
    assert!(page.scores.is_empty() && page.quality.is_empty());
    assert!(providers_page(&gone).providers.is_empty());
}
