//! What each page and each endpoint shows, with the defaults that apply
//! where a request leaves a number out or the storage is unavailable.

use crate::dashboard::is_summary_of;
use crate::db::{
    get_all_brands, get_brand_competitors, get_brand_rankings, get_competitor_graph,
    get_confidence_distribution, get_dashboard_stats, get_evaluation_stats,
    get_hallucination_scores, get_provider_performance, get_recent_mentions,
    get_response_quality, get_sources_for_mention,
};
use crate::fixed::Fixed;
use crate::graph::is_graph_of;
use crate::listing::{brand_list, cites, is_quality_view, is_scores_view, latest_runs, recent};
use crate::models::{
    BrandMention, BrandRanking, CompetitorGraph, CompetitorRelationship, DashboardStats,
    EvaluationStats, HallucinationScore, ProviderPerformance, ResponseQuality, Source,
};
use crate::providers::is_performance_report;
use crate::ranking::top_competitors;
use crate::rollups::{distribution, entry_of, is_rankings_view};
use crate::storage::Storage;
use crate::text::text_of;
use vstd::prelude::*;

verus! {

/// How many competitors are shown where the request names no number.
pub const DEFAULT_TOP_N: i32 = 5;

/// How many mentions are listed where the request names no number.
pub const DEFAULT_MENTION_LIMIT: i32 = 50;

/// How many recent mentions the dashboard shows.
pub const DASHBOARD_MENTIONS: i32 = 10;

/// What the index page shows.
pub struct IndexPage {
    pub title: String,
    pub stats: DashboardStats,
    pub recent_mentions: Vec<BrandMention>,
    pub providers: Vec<ProviderPerformance>,
}

/// What the brands page shows.
pub struct BrandsPage {
    pub title: String,
    pub rankings: Vec<BrandRanking>,
    pub brands: Vec<String>,
}

/// What the competitors page shows.
pub struct CompetitorsPage {
    pub title: String,
    pub graph: CompetitorGraph,
    pub brands: Vec<String>,
}

/// What the hallucinations page shows.
pub struct HallucinationsPage {
    pub title: String,
    pub scores: Vec<HallucinationScore>,
    pub quality: Vec<ResponseQuality>,
}

/// What the providers page shows.
pub struct ProvidersPage {
    pub title: String,
    pub providers: Vec<ProviderPerformance>,
}

/// The summary with every figure zero.
pub open spec fn is_zero_summary(stats: DashboardStats) -> bool {
    &&& stats.total_brands == 0
    &&& stats.total_responses == 0
    &&& stats.total_mentions == 0
    &&& stats.total_co_mentions == 0
    &&& stats.avg_reliability.micros == 0
    &&& stats.high_risk_count == 0
    &&& stats.medium_risk_count == 0
    &&& stats.low_risk_count == 0
    &&& stats.llm_match_count == 0
    &&& stats.regex_match_count == 0
    &&& stats.avg_match_confidence.micros == 0
}

/// The graph without nodes or edges.
pub open spec fn is_empty_graph(graph: CompetitorGraph) -> bool {
    &&& graph.nodes@.len() == 0
    &&& graph.edges@.len() == 0
    &&& graph.total_nodes == 0
    &&& graph.total_edges == 0
}

/// The summary with every figure zero.
pub fn zero_summary() -> (stats: DashboardStats)
    ensures
        is_zero_summary(stats),
{
    DashboardStats {
        total_brands: 0,
        total_responses: 0,
        total_mentions: 0,
        total_co_mentions: 0,
        avg_reliability: Fixed::zero(),
        high_risk_count: 0,
        medium_risk_count: 0,
        low_risk_count: 0,
        llm_match_count: 0,
        regex_match_count: 0,
        avg_match_confidence: Fixed::zero(),
    }
}

/// The graph without nodes or edges.
pub fn empty_graph() -> (graph: CompetitorGraph)
    ensures
        is_empty_graph(graph),
{
    CompetitorGraph { nodes: Vec::new(), edges: Vec::new(), total_nodes: 0, total_edges: 0 }
}

/// The dashboard summary, or the zero summary where the storage is
/// unavailable.
pub fn api_stats(storage: &Storage) -> (stats: DashboardStats)
    ensures
        match *storage {
            Storage::Unavailable => is_zero_summary(stats),
            Storage::Open(s) => is_summary_of(
                stats,
                s.mentions(),
                s.responses(),
                s.co_mentions(),
                s.scores(),
            ),
        },
{
    match get_dashboard_stats(storage) {
        Ok(stats) => stats,
        Err(_) => zero_summary(),
    }
}

/// The brand names, or none where the storage is unavailable.
pub fn api_brands(storage: &Storage) -> (brands: Vec<String>)
    ensures
        match *storage {
            Storage::Unavailable => brands@.len() == 0,
            Storage::Open(s) => brands@.map_values(text_of()) == brand_list(s.mentions()),
        },
{
    match get_all_brands(storage) {
        Ok(brands) => brands,
        Err(_) => Vec::new(),
    }
}

/// The brand rankings view, or no line where the storage is unavailable.
pub fn api_rankings(storage: &Storage) -> (view: Vec<BrandRanking>)
    ensures
        match *storage {
            Storage::Unavailable => view@.len() == 0,
            Storage::Open(s) => is_rankings_view(view@, s.mentions(), s.responses()),
        },
{
    match get_brand_rankings(storage) {
        Ok(view) => view,
        Err(_) => Vec::new(),
    }
}

/// The provider performance view, or no line where the storage is
/// unavailable.
pub fn api_providers(storage: &Storage) -> (report: Vec<ProviderPerformance>)
    ensures
        match *storage {
            Storage::Unavailable => report@.len() == 0,
            Storage::Open(s) => is_performance_report(report@, s.responses(), s.mentions()),
        },
{
    match get_provider_performance(storage) {
        Ok(report) => report,
        Err(_) => Vec::new(),
    }
}

/// The threshold that a request means: the one it names, else zero.
pub open spec fn threshold_of(min_strength: Option<Fixed>) -> Fixed {
    match min_strength {
        Some(min) => min,
        None => Fixed { micros: 0 },
    }
}

/// The competitor graph at the threshold that the request names, or at zero
/// where it names none; the empty graph where the storage is unavailable.
pub fn api_graph(storage: &Storage, min_strength: Option<Fixed>) -> (graph: CompetitorGraph)
    ensures
        match *storage {
            Storage::Unavailable => is_empty_graph(graph),
            Storage::Open(s) => is_graph_of(graph, s.relationships(), threshold_of(min_strength)),
        },
{
    let min = match min_strength {
        Some(min) => min,
        None => Fixed::zero(),
    };
    match get_competitor_graph(storage, min) {
        Ok(graph) => graph,
        Err(_) => empty_graph(),
    }
}

/// The number that a request means: the one it names, else `default`.
pub open spec fn number_of(named: Option<i32>, default: i32) -> int {
    match named {
        Some(n) => n as int,
        None => default as int,
    }
}

/// The strongest relationships of `brand`, as many as the request names or
/// `DEFAULT_TOP_N` where it names no number; none where the storage is
/// unavailable.
pub fn api_brand_competitors(storage: &Storage, brand: &str, top_n: Option<i32>) -> (top: Vec<
    CompetitorRelationship,
>)
    ensures
        match *storage {
            Storage::Unavailable => top@.len() == 0,
            Storage::Open(s) => top@ == top_competitors(
                s.relationships(),
                brand@,
                number_of(top_n, DEFAULT_TOP_N),
            ),
        },
{
    let n: i32 = match top_n {
        Some(n) => n,
        None => DEFAULT_TOP_N,
    };
    match get_brand_competitors(storage, brand, n) {
        Ok(top) => top,
        Err(_) => Vec::new(),
    }
}

/// The hallucination view, or no line where the storage is unavailable.
pub fn api_hallucinations(storage: &Storage) -> (view: Vec<HallucinationScore>)
    ensures
        match *storage {
            Storage::Unavailable => view@.len() == 0,
            Storage::Open(s) => is_scores_view(view@, s.scores(), s.mentions()),
        },
{
    match get_hallucination_scores(storage) {
        Ok(view) => view,
        Err(_) => Vec::new(),
    }
}

/// The response quality view, or no line where the storage is unavailable.
pub fn api_quality(storage: &Storage) -> (view: Vec<ResponseQuality>)
    ensures
        match *storage {
            Storage::Unavailable => view@.len() == 0,
            Storage::Open(s) => is_quality_view(view@, s.quality(), s.responses()),
        },
{
    match get_response_quality(storage) {
        Ok(view) => view,
        Err(_) => Vec::new(),
    }
}

/// The sources of the mention `mention_id`, or none where the storage is
/// unavailable.
pub fn api_sources(storage: &Storage, mention_id: i64) -> (found: Vec<Source>)
    ensures
        match *storage {
            Storage::Unavailable => found@.len() == 0,
            Storage::Open(s) => found@ == s.sources().filter(cites(mention_id)),
        },
{
    match get_sources_for_mention(storage, mention_id) {
        Ok(found) => found,
        Err(_) => Vec::new(),
    }
}

/// The most recent mentions, as many as the request names or
/// `DEFAULT_MENTION_LIMIT` where it names no number; none where the storage
/// is unavailable.
pub fn api_mentions(storage: &Storage, limit: Option<i32>) -> (found: Vec<BrandMention>)
    ensures
        match *storage {
            Storage::Unavailable => found@.len() == 0,
            Storage::Open(s) => found@ == recent(
                s.mentions(),
                s.responses(),
                number_of(limit, DEFAULT_MENTION_LIMIT),
            ),
        },
{
    let n: i32 = match limit {
        Some(n) => n,
        None => DEFAULT_MENTION_LIMIT,
    };
    match get_recent_mentions(storage, n) {
        Ok(found) => found,
        Err(_) => Vec::new(),
    }
}

/// The latest evaluation runs, or none where the storage is unavailable.
pub fn api_evaluation_stats(storage: &Storage) -> (runs: Vec<EvaluationStats>)
    ensures
        match *storage {
            Storage::Unavailable => runs@.len() == 0,
            Storage::Open(s) => runs@ == latest_runs(s.evaluations()),
        },
{
    match get_evaluation_stats(storage) {
        Ok(runs) => runs,
        Err(_) => Vec::new(),
    }
}

/// The distribution of match confidence, or no line where the storage is
/// unavailable.
pub fn api_confidence_distribution(storage: &Storage) -> (lines: Vec<(String, i32)>)
    ensures
        match *storage {
            Storage::Unavailable => lines@.len() == 0,
            Storage::Open(s) => lines@.map_values(entry_of()) == distribution(s.mentions()),
        },
{
    match get_confidence_distribution(storage) {
        Ok(lines) => lines,
        Err(_) => Vec::new(),
    }
}

/// The index page: the summary, the `DASHBOARD_MENTIONS` most recent
/// mentions and the provider performance view; where the storage is
/// unavailable, the zero summary and empty lists.
pub fn index(storage: &Storage) -> (page: IndexPage)
    ensures
        page.title@ == "Dashboard"@,
        match *storage {
            Storage::Unavailable => {
                &&& is_zero_summary(page.stats)
                &&& page.recent_mentions@.len() == 0
                &&& page.providers@.len() == 0
            },
            Storage::Open(s) => {
                &&& is_summary_of(
                    page.stats,
                    s.mentions(),
                    s.responses(),
                    s.co_mentions(),
                    s.scores(),
                )
                &&& page.recent_mentions@ == recent(
                    s.mentions(),
                    s.responses(),
                    DASHBOARD_MENTIONS as int,
                )
                &&& is_performance_report(page.providers@, s.responses(), s.mentions())
            },
        },
{
    IndexPage {
        title: "Dashboard".to_owned(),
        stats: api_stats(storage),
        recent_mentions: api_mentions(storage, Some(DASHBOARD_MENTIONS)),
        providers: api_providers(storage),
    }
}

/// The brands page: the brand rankings view and the brand names; empty
/// lists where the storage is unavailable.
pub fn brands_page(storage: &Storage) -> (page: BrandsPage)
    ensures
        page.title@ == "Brand Rankings"@,
        match *storage {
            Storage::Unavailable => page.rankings@.len() == 0 && page.brands@.len() == 0,
            Storage::Open(s) => {
                &&& is_rankings_view(page.rankings@, s.mentions(), s.responses())
                &&& page.brands@.map_values(text_of()) == brand_list(s.mentions())
            },
        },
{
    BrandsPage {
        title: "Brand Rankings".to_owned(),
        rankings: api_rankings(storage),
        brands: api_brands(storage),
    }
}

/// The competitors page: the whole competitor graph, taken at threshold
/// zero, and the brand names; the empty graph and no names where the storage
/// is unavailable.
pub fn competitors_page(storage: &Storage) -> (page: CompetitorsPage)
    ensures
        page.title@ == "Competitor Graph"@,
        match *storage {
            Storage::Unavailable => is_empty_graph(page.graph) && page.brands@.len() == 0,
            Storage::Open(s) => {
                &&& is_graph_of(page.graph, s.relationships(), Fixed { micros: 0 })
                &&& page.brands@.map_values(text_of()) == brand_list(s.mentions())
            },
        },
{
    CompetitorsPage {
        title: "Competitor Graph".to_owned(),
        graph: api_graph(storage, None),
        brands: api_brands(storage),
    }
}

/// The hallucinations page: the hallucination view and the response quality
/// view; empty lists where the storage is unavailable.
pub fn hallucinations_page(storage: &Storage) -> (page: HallucinationsPage)
    ensures
        page.title@ == "Hallucination Filter"@,
        match *storage {
            Storage::Unavailable => page.scores@.len() == 0 && page.quality@.len() == 0,
            Storage::Open(s) => {
                &&& is_scores_view(page.scores@, s.scores(), s.mentions())
                &&& is_quality_view(page.quality@, s.quality(), s.responses())
            },
        },
{
    HallucinationsPage {
        title: "Hallucination Filter".to_owned(),
        scores: api_hallucinations(storage),
        quality: api_quality(storage),
    }
}

/// The providers page: the provider performance view; no line where the
/// storage is unavailable.
pub fn providers_page(storage: &Storage) -> (page: ProvidersPage)
    ensures
        page.title@ == "Provider Performance"@,
        match *storage {
            Storage::Unavailable => page.providers@.len() == 0,
            Storage::Open(s) => is_performance_report(page.providers@, s.responses(), s.mentions()),
        },
{
    ProvidersPage { title: "Provider Performance".to_owned(), providers: api_providers(storage) }
}

} // verus!
