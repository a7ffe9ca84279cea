//! The dashboard summary: counts, risk levels, match methods and means.

use crate::fixed::{mean, mean_over, Fixed, RowMeasure};
use crate::grouping::{
    first_of_each, lemma_distinct_count, lemma_first_of_each_keys, rows_at, tally, RowKey,
};
use crate::models::{BrandMention, CoMention, DashboardStats, Response, ScoreRecord};
use crate::selection::{count_passing, RowTest};
use crate::storage::MAX_ROWS;
use vstd::prelude::*;

verus! {

/// The brand that a mention names.
pub open spec fn brand_of() -> spec_fn(BrandMention) -> Seq<char> {
    |m: BrandMention| m.brand_name@
}

/// The responses that did not fail.
pub open spec fn succeeded() -> spec_fn(Response) -> bool {
    |r: Response| r.error_message is None
}

/// The assessments whose risk level reads exactly `level`.
pub open spec fn has_risk(level: Seq<char>) -> spec_fn(ScoreRecord) -> bool {
    |s: ScoreRecord|
        match s.risk_level {
            Some(l) => l@ == level,
            None => false,
        }
}

/// The mentions of which the match method reads exactly `method`.
pub open spec fn matched_by(method: Seq<char>) -> spec_fn(BrandMention) -> bool {
    |m: BrandMention|
        match m.match_method {
            Some(x) => x@ == method,
            None => false,
        }
}

/// The mentions matched by pattern: those that say so, and those that name
/// no method.
pub open spec fn matched_by_pattern(method: Seq<char>) -> spec_fn(BrandMention) -> bool {
    |m: BrandMention|
        match m.match_method {
            Some(x) => x@ == method,
            None => true,
        }
}

/// The reliability of an assessment, in millionths.
pub open spec fn reliability_of() -> spec_fn(ScoreRecord) -> Option<int> {
    |s: ScoreRecord| Some(s.reliability_score.micros as int)
}

/// The match confidence of a mention, in millionths, where it has one.
pub open spec fn confidence_of() -> spec_fn(BrandMention) -> Option<int> {
    |m: BrandMention|
        match m.match_confidence {
            Some(c) => Some(c.micros as int),
            None => None,
        }
}

/// `stats` is the summary of the given tables.
pub open spec fn is_summary_of(
    stats: DashboardStats,
    mentions: Seq<BrandMention>,
    responses: Seq<Response>,
    co_mentions: Seq<CoMention>,
    scores: Seq<ScoreRecord>,
) -> bool {
    &&& stats.total_brands == mentions.map_values(brand_of()).to_set().len()
    &&& stats.total_responses == responses.filter(succeeded()).len()
    &&& stats.total_mentions == mentions.len()
    &&& stats.total_co_mentions == co_mentions.len()
    &&& stats.avg_reliability.micros == mean(scores.filter_map(reliability_of()))
    &&& stats.high_risk_count == scores.filter(has_risk("high"@)).len()
    &&& stats.medium_risk_count == scores.filter(has_risk("medium"@)).len()
    &&& stats.low_risk_count == scores.filter(has_risk("low"@)).len()
    &&& stats.llm_match_count == mentions.filter(matched_by("llm"@)).len()
    &&& stats.regex_match_count == mentions.filter(matched_by_pattern("regex"@)).len()
    &&& stats.avg_match_confidence.micros == mean(mentions.filter_map(confidence_of()))
}

/// The summary of empty tables is zero throughout.
pub proof fn lemma_empty_summary(stats: DashboardStats)
    requires
        is_summary_of(stats, Seq::empty(), Seq::empty(), Seq::empty(), Seq::empty()),
    ensures
        stats.total_brands == 0,
        stats.total_responses == 0,
        stats.total_mentions == 0,
        stats.total_co_mentions == 0,
        stats.avg_reliability.micros == 0,
        stats.high_risk_count == 0,
        stats.medium_risk_count == 0,
        stats.low_risk_count == 0,
        stats.llm_match_count == 0,
        stats.regex_match_count == 0,
        stats.avg_match_confidence.micros == 0,
{
    let mentions = Seq::<BrandMention>::empty();
    let responses = Seq::<Response>::empty();
    let scores = Seq::<ScoreRecord>::empty();
    assert(mentions.map_values(brand_of()).to_set() =~= Set::<Seq<char>>::empty());
    responses.lemma_filter_len(succeeded());
    scores.lemma_filter_len(has_risk("high"@));
    scores.lemma_filter_len(has_risk("medium"@));
    scores.lemma_filter_len(has_risk("low"@));
    mentions.lemma_filter_len(matched_by("llm"@));
    mentions.lemma_filter_len(matched_by_pattern("regex"@));
}

/// Groups mentions by the brand they name.
pub struct ByBrand {}

impl RowKey<BrandMention, Seq<char>> for ByBrand {
    open spec fn key(&self) -> spec_fn(BrandMention) -> Seq<char> {
        brand_of()
    }

    fn same_key(&self, a: &BrandMention, b: &BrandMention) -> (r: bool) {
        a.brand_name == b.brand_name
    }
}

/// Passes the responses that did not fail.
pub struct Succeeded {}

impl RowTest<Response> for Succeeded {
    open spec fn test(&self) -> spec_fn(Response) -> bool {
        succeeded()
    }

    fn passes(&self, row: &Response) -> (r: bool) {
        row.error_message.is_none()
    }
}

/// Passes the assessments whose risk level reads exactly `level`.
pub struct HasRisk {
    pub level: String,
}

impl RowTest<ScoreRecord> for HasRisk {
    open spec fn test(&self) -> spec_fn(ScoreRecord) -> bool {
        has_risk(self.level@)
    }

    fn passes(&self, row: &ScoreRecord) -> (r: bool) {
        match &row.risk_level {
            Some(l) => *l == self.level,
            None => false,
        }
    }
}

/// Passes the mentions whose match method reads exactly `method`; with
/// `or_absent`, also those that name no method.
pub struct MatchedBy {
    pub method: String,
    pub or_absent: bool,
}

impl RowTest<BrandMention> for MatchedBy {
    open spec fn test(&self) -> spec_fn(BrandMention) -> bool {
        if self.or_absent {
            matched_by_pattern(self.method@)
        } else {
            matched_by(self.method@)
        }
    }

    fn passes(&self, row: &BrandMention) -> (r: bool) {
        match &row.match_method {
            Some(x) => *x == self.method,
            None => self.or_absent,
        }
    }
}

/// Reads the reliability of an assessment.
pub struct Reliability {}

impl RowMeasure<ScoreRecord> for Reliability {
    open spec fn measure(&self) -> spec_fn(ScoreRecord) -> Option<int> {
        reliability_of()
    }

    fn read(&self, row: &ScoreRecord) -> (r: Option<Fixed>) {
        Some(row.reliability_score)
    }
}

/// Reads the match confidence of a mention.
pub struct Confidence {}

impl RowMeasure<BrandMention> for Confidence {
    open spec fn measure(&self) -> spec_fn(BrandMention) -> Option<int> {
        confidence_of()
    }

    fn read(&self, row: &BrandMention) -> (r: Option<Fixed>) {
        row.match_confidence
    }
}

/// How many different brands the mentions name.
pub fn count_brands(mentions: &Vec<BrandMention>) -> (count: usize)
    ensures
        count == mentions@.map_values(brand_of()).to_set().len(),
        count <= mentions@.len(),
{
    let (firsts, _counts) = tally(mentions, &ByBrand {  });
    proof {
        lemma_first_of_each_keys(mentions@, brand_of());
        lemma_distinct_count(mentions@.map_values(brand_of()));
        assert(rows_at(mentions@, firsts@).len() == first_of_each(mentions@, brand_of()).len());
        assert(first_of_each(mentions@, brand_of()).map_values(brand_of()).len()
            == first_of_each(mentions@, brand_of()).len());
    }
    firsts.len()
}

/// The summary of the given tables.
pub(crate) fn summarize(
    mentions: &Vec<BrandMention>,
    responses: &Vec<Response>,
    co_mentions: &Vec<CoMention>,
    scores: &Vec<ScoreRecord>,
) -> (stats: DashboardStats)
    requires
        mentions@.len() <= MAX_ROWS,
        responses@.len() <= MAX_ROWS,
        co_mentions@.len() <= MAX_ROWS,
        scores@.len() <= MAX_ROWS,
    ensures
        is_summary_of(stats, mentions@, responses@, co_mentions@, scores@),
{
    let total_brands: usize = count_brands(mentions);
    let total_responses: usize = count_passing(responses, &Succeeded {  });
    let avg_reliability = mean_over(scores, &Reliability {  });
    let high: usize = count_passing(scores, &HasRisk { level: "high".to_owned() });
    let medium: usize = count_passing(scores, &HasRisk { level: "medium".to_owned() });
    let low: usize = count_passing(scores, &HasRisk { level: "low".to_owned() });
    let llm: usize = count_passing(
        mentions,
        &MatchedBy { method: "llm".to_owned(), or_absent: false },
    );
    let regex: usize = count_passing(
        mentions,
        &MatchedBy { method: "regex".to_owned(), or_absent: true },
    );
    let avg_match_confidence = mean_over(mentions, &Confidence {  });
    DashboardStats {
        total_brands: total_brands as i32,
        total_responses: total_responses as i32,
        total_mentions: mentions.len() as i32,
        total_co_mentions: co_mentions.len() as i32,
        avg_reliability,
        high_risk_count: high as i32,
        medium_risk_count: medium as i32,
        low_risk_count: low as i32,
        llm_match_count: llm as i32,
        regex_match_count: regex as i32,
        avg_match_confidence,
    }
}

} // verus!
