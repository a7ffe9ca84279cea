//! The reports, each on a storage handle: a report fails only where the
//! storage is unavailable.

use crate::dashboard::{is_summary_of, summarize};
use crate::fixed::Fixed;
use crate::graph::{build_graph, is_graph_of};
use crate::listing::{
    all_brands, brand_list, cites, evaluation_stats, hallucination_scores, is_quality_view,
    is_scores_view, latest_runs, recent, recent_mentions, response_quality, sources_for_mention,
};
use crate::models::{
    BrandMention, BrandRanking, CompetitorGraph, CompetitorRelationship, DashboardStats,
    EvaluationStats, HallucinationScore, ProviderPerformance, ResponseQuality, Source,
};
use crate::providers::{is_performance_report, provider_performance};
use crate::ranking::{rank_competitors, top_competitors};
use crate::rollups::{
    brand_rankings, confidence_distribution, distribution, entry_of, is_rankings_view,
};
use crate::storage::{Storage, StorageError};
use crate::text::text_of;
use vstd::prelude::*;

verus! {

/// The dashboard summary: how many brands, successful responses, mentions
/// and co-mentions there are, the mean reliability and the number of
/// assessments at each risk level, the number of mentions by match method,
/// and the mean match confidence. Fails only where the storage is
/// unavailable.
pub fn get_dashboard_stats(storage: &Storage) -> (r: Result<DashboardStats, StorageError>)
    ensures
        match *storage {
            Storage::Unavailable => r == Err::<DashboardStats, StorageError>(
                StorageError::Unavailable,
            ),
            Storage::Open(s) => r matches Ok(stats) && is_summary_of(
                stats,
                s.mentions(),
                s.responses(),
                s.co_mentions(),
                s.scores(),
            ),
        },
{
    match storage {
        Storage::Unavailable => Err(StorageError::Unavailable),
        Storage::Open(s) => Ok(
            summarize(s.mention_rows(), s.response_rows(), s.co_mention_rows(), s.score_rows()),
        ),
    }
}

/// The brand rankings view: every mention with the response it was found
/// in, by brand, then provider, then rank. Fails only where the storage is
/// unavailable.
pub fn get_brand_rankings(storage: &Storage) -> (r: Result<Vec<BrandRanking>, StorageError>)
    ensures
        match *storage {
            Storage::Unavailable => r == Err::<Vec<BrandRanking>, StorageError>(
                StorageError::Unavailable,
            ),
            Storage::Open(s) => r matches Ok(view) && is_rankings_view(
                view@,
                s.mentions(),
                s.responses(),
            ),
        },
{
    match storage {
        Storage::Unavailable => Err(StorageError::Unavailable),
        Storage::Open(s) => Ok(brand_rankings(s.mention_rows(), s.response_rows())),
    }
}

/// The provider performance view: one line for each provider and model,
/// those with most mentions first. Fails only where the storage is
/// unavailable.
pub fn get_provider_performance(storage: &Storage) -> (r: Result<
    Vec<ProviderPerformance>,
    StorageError,
>)
    ensures
        match *storage {
            Storage::Unavailable => r == Err::<Vec<ProviderPerformance>, StorageError>(
                StorageError::Unavailable,
            ),
            Storage::Open(s) => r matches Ok(report) && is_performance_report(
                report@,
                s.responses(),
                s.mentions(),
            ),
        },
{
    match storage {
        Storage::Unavailable => Err(StorageError::Unavailable),
        Storage::Open(s) => Ok(provider_performance(s.response_rows(), s.mention_rows())),
    }
}

/// The competitor graph of the relationships whose strength is at least
/// `min_strength`. Fails only where the storage is unavailable.
pub fn get_competitor_graph(storage: &Storage, min_strength: Fixed) -> (r: Result<
    CompetitorGraph,
    StorageError,
>)
    ensures
        match *storage {
            Storage::Unavailable => r == Err::<CompetitorGraph, StorageError>(
                StorageError::Unavailable,
            ),
            Storage::Open(s) => r matches Ok(graph) && is_graph_of(
                graph,
                s.relationships(),
                min_strength,
            ),
        },
{
    match storage {
        Storage::Unavailable => Err(StorageError::Unavailable),
        Storage::Open(s) => Ok(build_graph(s.relationship_rows(), min_strength)),
    }
}

/// The `top_n` strongest relationships that have `brand_name` at either
/// end, strongest first; none where `top_n` is not positive. Fails only
/// where the storage is unavailable.
pub fn get_brand_competitors(storage: &Storage, brand_name: &str, top_n: i32) -> (r: Result<
    Vec<CompetitorRelationship>,
    StorageError,
>)
    ensures
        match *storage {
            Storage::Unavailable => r == Err::<Vec<CompetitorRelationship>, StorageError>(
                StorageError::Unavailable,
            ),
            Storage::Open(s) => r matches Ok(top) && top@ == top_competitors(
                s.relationships(),
                brand_name@,
                top_n as int,
            ),
        },
{
    match storage {
        Storage::Unavailable => Err(StorageError::Unavailable),
        Storage::Open(s) => Ok(rank_competitors(s.relationship_rows(), brand_name, top_n)),
    }
}

/// The hallucination view: every assessment that names a risk level, with
/// the brand of its mention, least reliable first. Fails only where the
/// storage is unavailable.
pub fn get_hallucination_scores(storage: &Storage) -> (r: Result<
    Vec<HallucinationScore>,
    StorageError,
>)
    ensures
        match *storage {
            Storage::Unavailable => r == Err::<Vec<HallucinationScore>, StorageError>(
                StorageError::Unavailable,
            ),
            Storage::Open(s) => r matches Ok(view) && is_scores_view(
                view@,
                s.scores(),
                s.mentions(),
            ),
        },
{
    match storage {
        Storage::Unavailable => Err(StorageError::Unavailable),
        Storage::Open(s) => Ok(hallucination_scores(s.score_rows(), s.mention_rows())),
    }
}

/// The response quality view: the quality figures of every response, with
/// its provider and model, most reliable first. Fails only where the storage
/// is unavailable.
pub fn get_response_quality(storage: &Storage) -> (r: Result<Vec<ResponseQuality>, StorageError>)
    ensures
        match *storage {
            Storage::Unavailable => r == Err::<Vec<ResponseQuality>, StorageError>(
                StorageError::Unavailable,
            ),
            Storage::Open(s) => r matches Ok(view) && is_quality_view(
                view@,
                s.quality(),
                s.responses(),
            ),
        },
{
    match storage {
        Storage::Unavailable => Err(StorageError::Unavailable),
        Storage::Open(s) => Ok(response_quality(s.quality_rows(), s.response_rows())),
    }
}

/// The sources attached to the mention `mention_id`, in storage order. Fails
/// only where the storage is unavailable.
pub fn get_sources_for_mention(storage: &Storage, mention_id: i64) -> (r: Result<
    Vec<Source>,
    StorageError,
>)
    ensures
        match *storage {
            Storage::Unavailable => r == Err::<Vec<Source>, StorageError>(
                StorageError::Unavailable,
            ),
            Storage::Open(s) => r matches Ok(found) && found@ == s.sources().filter(
                cites(mention_id),
            ),
        },
{
    match storage {
        Storage::Unavailable => Err(StorageError::Unavailable),
        Storage::Open(s) => Ok(sources_for_mention(s.source_rows(), mention_id)),
    }
}

/// The brands that the mentions name, each once, in the order of texts.
/// Fails only where the storage is unavailable.
pub fn get_all_brands(storage: &Storage) -> (r: Result<Vec<String>, StorageError>)
    ensures
        match *storage {
            Storage::Unavailable => r == Err::<Vec<String>, StorageError>(
                StorageError::Unavailable,
            ),
            Storage::Open(s) => r matches Ok(brands) && brands@.map_values(text_of())
                == brand_list(s.mentions()),
        },
{
    match storage {
        Storage::Unavailable => Err(StorageError::Unavailable),
        Storage::Open(s) => Ok(all_brands(s.mention_rows())),
    }
}

/// The `limit` mentions whose responses are the most recent, most recent
/// first; all of them where `limit` is negative. Fails only where the
/// storage is unavailable.
pub fn get_recent_mentions(storage: &Storage, limit: i32) -> (r: Result<
    Vec<BrandMention>,
    StorageError,
>)
    ensures
        match *storage {
            Storage::Unavailable => r == Err::<Vec<BrandMention>, StorageError>(
                StorageError::Unavailable,
            ),
            Storage::Open(s) => r matches Ok(found) && found@ == recent(
                s.mentions(),
                s.responses(),
                limit as int,
            ),
        },
{
    match storage {
        Storage::Unavailable => Err(StorageError::Unavailable),
        Storage::Open(s) => Ok(recent_mentions(s.mention_rows(), s.response_rows(), limit)),
    }
}

/// The latest evaluation runs, latest first. Fails only where the storage is
/// unavailable.
pub fn get_evaluation_stats(storage: &Storage) -> (r: Result<Vec<EvaluationStats>, StorageError>)
    ensures
        match *storage {
            Storage::Unavailable => r == Err::<Vec<EvaluationStats>, StorageError>(
                StorageError::Unavailable,
            ),
            Storage::Open(s) => r matches Ok(runs) && runs@ == latest_runs(s.evaluations()),
        },
{
    match storage {
        Storage::Unavailable => Err(StorageError::Unavailable),
        Storage::Open(s) => Ok(evaluation_stats(s.evaluation_rows())),
    }
}

/// The distribution of match confidence over the mentions: the levels that
/// occur, from very high down to none, each with its number of mentions.
/// Fails only where the storage is unavailable.
pub fn get_confidence_distribution(storage: &Storage) -> (r: Result<
    Vec<(String, i32)>,
    StorageError,
>)
    ensures
        match *storage {
            Storage::Unavailable => r == Err::<Vec<(String, i32)>, StorageError>(
                StorageError::Unavailable,
            ),
            Storage::Open(s) => r matches Ok(lines) && lines@.map_values(entry_of())
                == distribution(s.mentions()),
        },
{
    match storage {
        Storage::Unavailable => Err(StorageError::Unavailable),
        Storage::Open(s) => Ok(confidence_distribution(s.mention_rows())),
    }
}

} // verus!
