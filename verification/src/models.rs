//! The records of the tables and of the reports.

use crate::fixed::Fixed;
use crate::selection::Record;
use vstd::prelude::*;

verus! {

/// A brand's appearance in one provider response.
#[derive(Debug, Clone, PartialEq, Eq)]
pub struct BrandMention {
    pub id: i64,
    pub brand_id: i64,
    pub brand_name: String,
    pub alias_used: String,
    /// Position in the response, counted from 1; smaller is more prominent.
    pub rank_position: i32,
    pub explanation: Option<String>,
    pub response_id: i64,
    /// `llm`, `regex`, or absent.
    pub match_method: Option<String>,
    pub match_confidence: Option<Fixed>,
    pub match_reasoning: Option<String>,
}

/// One provider's answer to one query.
#[derive(Debug, Clone, PartialEq, Eq)]
pub struct Response {
    pub id: i64,
    pub provider_name: String,
    pub model_name: String,
    pub query_id: Option<i64>,
    pub raw_response: Option<String>,
    /// Seconds since the epoch.
    pub timestamp: Fixed,
    /// Present exactly when the response failed.
    pub error_message: Option<String>,
}

/// A tracked brand and the names it goes by.
#[derive(Debug, Clone, PartialEq, Eq)]
pub struct Brand {
    pub id: i64,
    pub name: String,
    pub aliases: Vec<String>,
}

/// A question put to the providers.
#[derive(Debug, Clone, PartialEq, Eq)]
pub struct Query {
    pub id: i64,
    pub text: String,
    pub k: i32,
    pub category: String,
}

/// One line of the brand rankings view.
#[derive(Debug, Clone, PartialEq, Eq)]
pub struct BrandRanking {
    pub brand_name: String,
    pub provider: String,
    pub model: String,
    pub query: String,
    pub rank: i32,
    pub alias_used: String,
    pub explanation: Option<String>,
}

/// Figures for one provider and model.
#[derive(Debug, Clone, PartialEq, Eq)]
pub struct ProviderPerformance {
    pub provider: String,
    pub model: String,
    pub total_mentions: i32,
    /// Absent when the provider has no mentions.
    pub avg_rank: Option<Fixed>,
    pub total_responses: i32,
    pub successful_responses: i32,
    /// Percentage of responses that succeeded.
    pub success_rate: Fixed,
}

/// Two brands named in the same response.
#[derive(Debug, Clone, PartialEq, Eq)]
pub struct CoMention {
    pub id: i64,
    pub response_id: i64,
    pub brand_name_1: String,
    pub brand_name_2: String,
    pub rank_1: i32,
    pub rank_2: i32,
    pub rank_distance: i32,
    pub provider_name: String,
    pub model_name: String,
    pub timestamp: Fixed,
}

/// What is known of one unordered pair of brands, summed over all their
/// co-mentions. The pair is stored in one order only and is to be read as
/// symmetric.
#[derive(Debug, Clone, PartialEq, Eq)]
pub struct CompetitorRelationship {
    pub brand_name_1: String,
    pub brand_name_2: String,
    pub co_mention_count: i32,
    pub avg_rank_distance: Fixed,
    /// Higher means a stronger competitive signal.
    pub strength_score: Fixed,
    pub first_seen: Fixed,
    pub last_seen: Fixed,
}

/// A brand as drawn in the competitor graph.
#[derive(Debug, Clone, PartialEq, Eq)]
pub struct GraphNode {
    pub id: String,
    pub label: String,
    pub size: Option<Fixed>,
}

/// A relationship as drawn in the competitor graph.
#[derive(Debug, Clone, PartialEq, Eq)]
pub struct GraphEdge {
    pub source: String,
    pub target: String,
    pub weight: Fixed,
    pub co_mentions: i32,
    pub avg_distance: Fixed,
}

/// The competitor graph with its cardinalities.
#[derive(Debug, Clone, PartialEq, Eq)]
pub struct CompetitorGraph {
    pub nodes: Vec<GraphNode>,
    pub edges: Vec<GraphEdge>,
    pub total_nodes: usize,
    pub total_edges: usize,
}

/// A citation attached to a mention.
#[derive(Debug, Clone, PartialEq, Eq)]
pub struct Source {
    pub id: i64,
    pub mention_id: i64,
    pub url: Option<String>,
    pub title: Option<String>,
    pub description: Option<String>,
    pub is_valid: bool,
    pub is_accessible: bool,
    pub status_code: Option<i32>,
    pub validation_error: Option<String>,
}

/// The reliability assessment of a mention, as stored.
#[derive(Debug, Clone, PartialEq, Eq)]
pub struct ScoreRecord {
    pub id: i64,
    pub mention_id: i64,
    pub confidence_score: Fixed,
    pub reliability_score: Fixed,
    /// `low`, `medium` or `high`; anything else falls in no risk bucket.
    pub risk_level: Option<String>,
    pub has_source: bool,
    pub source_accessible: bool,
    pub source_count: i32,
}

/// The reliability assessment of a mention, with the brand it is about.
#[derive(Debug, Clone, PartialEq, Eq)]
pub struct HallucinationScore {
    pub id: i64,
    pub mention_id: i64,
    pub brand_name: String,
    pub confidence_score: Fixed,
    pub reliability_score: Fixed,
    pub risk_level: String,
    pub has_source: bool,
    pub source_accessible: bool,
    pub source_count: i32,
}

/// The quality figures of a response, as stored.
#[derive(Debug, Clone, PartialEq, Eq)]
pub struct QualityRecord {
    pub response_id: i64,
    pub avg_reliability: Fixed,
    pub high_risk_count: i32,
    pub medium_risk_count: i32,
    pub low_risk_count: i32,
    pub total_mentions: i32,
    pub overall_quality: String,
}

/// The quality figures of a response, with the provider that gave it.
#[derive(Debug, Clone, PartialEq, Eq)]
pub struct ResponseQuality {
    pub response_id: i64,
    pub provider_name: String,
    pub model_name: String,
    pub avg_reliability: Fixed,
    pub high_risk_count: i32,
    pub medium_risk_count: i32,
    pub low_risk_count: i32,
    pub total_mentions: i32,
    pub overall_quality: String,
}

/// Figures of one evaluation run.
#[derive(Debug, Clone, PartialEq, Eq)]
pub struct EvaluationStats {
    pub id: i64,
    pub run_id: String,
    pub eval_method: String,
    pub total_evaluations: i32,
    pub avg_confidence: Fixed,
    pub high_confidence_count: i32,
    pub low_confidence_count: i32,
    pub fallback_count: i32,
    pub timestamp: Fixed,
}

/// The summary shown on the dashboard.
#[derive(Debug, Clone, PartialEq, Eq)]
pub struct DashboardStats {
    pub total_brands: i32,
    pub total_responses: i32,
    pub total_mentions: i32,
    pub total_co_mentions: i32,
    pub avg_reliability: Fixed,
    pub high_risk_count: i32,
    pub medium_risk_count: i32,
    pub low_risk_count: i32,
    pub llm_match_count: i32,
    pub regex_match_count: i32,
    pub avg_match_confidence: Fixed,
}

/// The edges seen within one window of time.
#[derive(Debug, Clone, PartialEq, Eq)]
pub struct TemporalSnapshot {
    pub window_start: String,
    pub window_end: String,
    pub edges: Vec<GraphEdge>,
    pub edge_count: usize,
}

/// A copy of an optional text.
pub fn copy_text(text: &Option<String>) -> (r: Option<String>)
    ensures
        r == *text,
{
    match text {
        Some(s) => Some(s.clone()),
        None => None,
    }
}

impl Record for BrandMention {
    fn duplicate(&self) -> (r: BrandMention) {
        BrandMention {
            id: self.id,
            brand_id: self.brand_id,
            brand_name: self.brand_name.clone(),
            alias_used: self.alias_used.clone(),
            rank_position: self.rank_position,
            explanation: copy_text(&self.explanation),
            response_id: self.response_id,
            match_method: copy_text(&self.match_method),
            match_confidence: self.match_confidence,
            match_reasoning: copy_text(&self.match_reasoning),
        }
    }
}

impl Record for Response {
    fn duplicate(&self) -> (r: Response) {
        Response {
            id: self.id,
            provider_name: self.provider_name.clone(),
            model_name: self.model_name.clone(),
            query_id: self.query_id,
            raw_response: copy_text(&self.raw_response),
            timestamp: self.timestamp,
            error_message: copy_text(&self.error_message),
        }
    }
}

impl Record for CompetitorRelationship {
    fn duplicate(&self) -> (r: CompetitorRelationship) {
        CompetitorRelationship {
            brand_name_1: self.brand_name_1.clone(),
            brand_name_2: self.brand_name_2.clone(),
            co_mention_count: self.co_mention_count,
            avg_rank_distance: self.avg_rank_distance,
            strength_score: self.strength_score,
            first_seen: self.first_seen,
            last_seen: self.last_seen,
        }
    }
}

impl Record for Source {
    fn duplicate(&self) -> (r: Source) {
        Source {
            id: self.id,
            mention_id: self.mention_id,
            url: copy_text(&self.url),
            title: copy_text(&self.title),
            description: copy_text(&self.description),
            is_valid: self.is_valid,
            is_accessible: self.is_accessible,
            status_code: self.status_code,
            validation_error: copy_text(&self.validation_error),
        }
    }
}

impl Record for EvaluationStats {
    fn duplicate(&self) -> (r: EvaluationStats) {
        EvaluationStats {
            id: self.id,
            run_id: self.run_id.clone(),
            eval_method: self.eval_method.clone(),
            total_evaluations: self.total_evaluations,
            avg_confidence: self.avg_confidence,
            high_confidence_count: self.high_confidence_count,
            low_confidence_count: self.low_confidence_count,
            fallback_count: self.fallback_count,
            timestamp: self.timestamp,
        }
    }
}

impl Record for CoMention {
    fn duplicate(&self) -> (r: CoMention) {
        CoMention {
            id: self.id,
            response_id: self.response_id,
            brand_name_1: self.brand_name_1.clone(),
            brand_name_2: self.brand_name_2.clone(),
            rank_1: self.rank_1,
            rank_2: self.rank_2,
            rank_distance: self.rank_distance,
            provider_name: self.provider_name.clone(),
            model_name: self.model_name.clone(),
            timestamp: self.timestamp,
        }
    }
}

impl Record for ScoreRecord {
    fn duplicate(&self) -> (r: ScoreRecord) {
        ScoreRecord {
            id: self.id,
            mention_id: self.mention_id,
            confidence_score: self.confidence_score,
            reliability_score: self.reliability_score,
            risk_level: copy_text(&self.risk_level),
            has_source: self.has_source,
            source_accessible: self.source_accessible,
            source_count: self.source_count,
        }
    }
}

impl Record for QualityRecord {
    fn duplicate(&self) -> (r: QualityRecord) {
        QualityRecord {
            response_id: self.response_id,
            avg_reliability: self.avg_reliability,
            high_risk_count: self.high_risk_count,
            medium_risk_count: self.medium_risk_count,
            low_risk_count: self.low_risk_count,
            total_mentions: self.total_mentions,
            overall_quality: self.overall_quality.clone(),
        }
    }
}

} // verus!
