//! Listings: assessments, response quality, sources, brand names, recent
//! mentions and evaluation runs.

use crate::dashboard::{brand_of, ByBrand};
use crate::fixed::Fixed;
use crate::grouping::{
    distinct, first_of_each, lemma_distinct_count, lemma_distinct_members,
    lemma_first_of_each_keys, rows_at, tally,
};
use crate::joining::{join, join_rows, pairs_at, RowMatch};
use crate::models::{
    BrandMention, EvaluationStats, HallucinationScore, QualityRecord, Response,
    ResponseQuality, ScoreRecord, Source,
};
use crate::rollups::{found_in, FoundIn};
use crate::selection::{first_rows, keep_first, select, Record, RowTest};
use crate::sorting::{
    corresponds, is_ordered, lemma_stable_sort_corresponds, lemma_stable_sort_ordered,
    lemma_stable_sort_rearranges, sort_stable, stable_sort, total_preorder, RowOrder,
};
use crate::text::{
    lemma_text_le_total, lemma_text_le_transitive, text_at_most, text_le, text_of, text_order,
};
use vstd::prelude::*;

verus! {

/// How many evaluation runs the evaluation view shows at most.
pub const EVALUATION_ROWS: usize = 20;

/// An assessment goes with the mention it is about.
pub open spec fn about() -> spec_fn(ScoreRecord, BrandMention) -> bool {
    |s: ScoreRecord, m: BrandMention| s.mention_id == m.id
}

/// The assessments that name a risk level.
pub open spec fn has_level() -> spec_fn((ScoreRecord, BrandMention)) -> bool {
    |p: (ScoreRecord, BrandMention)| p.0.risk_level is Some
}

/// The less reliable of two assessments may stand first.
pub open spec fn least_reliable_first() -> spec_fn(
    (ScoreRecord, BrandMention),
    (ScoreRecord, BrandMention),
) -> bool {
    |a: (ScoreRecord, BrandMention), b: (ScoreRecord, BrandMention)|
        a.0.reliability_score.micros <= b.0.reliability_score.micros
}

/// The less reliable of two lines may stand first.
pub open spec fn least_reliable_line_first() -> spec_fn(
    HallucinationScore,
    HallucinationScore,
) -> bool {
    |a: HallucinationScore, b: HallucinationScore|
        a.reliability_score.micros <= b.reliability_score.micros
}

/// `line` shows assessment `s` of mention `m`.
pub open spec fn is_score_line(line: HallucinationScore, s: ScoreRecord, m: BrandMention) -> bool {
    &&& line.id == s.id
    &&& line.mention_id == s.mention_id
    &&& line.brand_name@ == m.brand_name@
    &&& line.confidence_score == s.confidence_score
    &&& line.reliability_score == s.reliability_score
    &&& s.risk_level matches Some(level)
    &&& line.risk_level@ == level@
    &&& line.has_source == s.has_source
    &&& line.source_accessible == s.source_accessible
    &&& line.source_count == s.source_count
}

/// An assessment with its mention, and the line that shows it.
pub open spec fn scored_as() -> spec_fn((ScoreRecord, BrandMention), HallucinationScore) -> bool {
    |p: (ScoreRecord, BrandMention), line: HallucinationScore| is_score_line(line, p.0, p.1)
}

/// The assessments that name a risk level, each with the mention it is
/// about, least reliable first; equally reliable ones keep the order of the
/// tables.
pub open spec fn ranked_scores(scores: Seq<ScoreRecord>, mentions: Seq<BrandMention>) -> Seq<
    (ScoreRecord, BrandMention),
> {
    stable_sort(least_reliable_first(), join(scores, mentions, about()).filter(has_level()))
}

/// `view` is the hallucination view of the given tables.
pub open spec fn is_scores_view(
    view: Seq<HallucinationScore>,
    scores: Seq<ScoreRecord>,
    mentions: Seq<BrandMention>,
) -> bool {
    corresponds(ranked_scores(scores, mentions), view, scored_as())
}

/// Pairs an assessment with the mention it is about.
pub struct About {}

impl RowMatch<ScoreRecord, BrandMention> for About {
    open spec fn matches(&self) -> spec_fn(ScoreRecord, BrandMention) -> bool {
        about()
    }

    fn is_match(&self, a: &ScoreRecord, b: &BrandMention) -> (r: bool) {
        a.mention_id == b.id
    }
}

/// Ranks lines by reliability, least reliable first.
pub struct LeastReliableFirst {}

impl RowOrder<HallucinationScore> for LeastReliableFirst {
    open spec fn relation(&self) -> spec_fn(HallucinationScore, HallucinationScore) -> bool {
        least_reliable_line_first()
    }

    fn in_order(&self, a: &HallucinationScore, b: &HallucinationScore) -> (r: bool) {
        a.reliability_score.micros <= b.reliability_score.micros
    }
}

/// The hallucination view of the given tables.
pub fn hallucination_scores(scores: &Vec<ScoreRecord>, mentions: &Vec<BrandMention>) -> (view: Vec<
    HallucinationScore,
>)
    ensures
        is_scores_view(view@, scores@, mentions@),
{
    let pairs = join_rows(scores, mentions, &About {  });
    let ghost joined = join(scores@, mentions@, about());
    let mut lines: Vec<HallucinationScore> = Vec::new();
    let n: usize = pairs.len();
    let mut i: usize = 0;
    proof {
        joined.take(0).lemma_filter_len(has_level());
    }
    while i < n
        invariant
            n == pairs@.len(),
            0 <= i <= n,
            joined == pairs_at(scores@, mentions@, pairs@),
            forall|k: int|
                0 <= k < pairs@.len() ==> (#[trigger] pairs@[k]).0 < scores@.len() && pairs@[k].1
                    < mentions@.len(),
            corresponds(joined.take(i as int).filter(has_level()), lines@, scored_as()),
        decreases n - i,
    {
        let s = &scores[pairs[i].0];
        let m = &mentions[pairs[i].1];
        proof {
            assert(joined[i as int] == (*s, *m));
            assert(joined.take(i as int + 1) =~= joined.take(i as int).push(joined[i as int]));
            joined.take(i as int).lemma_filter_push(joined[i as int], has_level());
        }
        match &s.risk_level {
            Some(level) => {
                let line = HallucinationScore {
                    id: s.id,
                    mention_id: s.mention_id,
                    brand_name: m.brand_name.clone(),
                    confidence_score: s.confidence_score,
                    reliability_score: s.reliability_score,
                    risk_level: level.clone(),
                    has_source: s.has_source,
                    source_accessible: s.source_accessible,
                    source_count: s.source_count,
                };
                proof {
                    let rel = scored_as();
                    let kept = joined.take(i as int).filter(has_level());
                    assert forall|k: int| 0 <= k < kept.len() + 1 implies rel(
                        #[trigger] kept.push(joined[i as int])[k],
                        #[trigger] lines@.push(line)[k],
                    ) by {
                        if k < kept.len() {
                            assert(rel(kept[k], lines@[k]));
                        }
                    }
                }
                lines.push(line);
            },
            None => {},
        }
        i = i + 1;
    }
    let ghost unsorted = lines@;
    sort_stable(&mut lines, &LeastReliableFirst {  });
    proof {
        assert(joined.take(n as int) =~= joined);
        lemma_stable_sort_corresponds(
            least_reliable_first(),
            least_reliable_line_first(),
            joined.filter(has_level()),
            unsorted,
            scored_as(),
        );
    }
    lines
}

/// Quality figures go with the response they are about.
pub open spec fn of_response() -> spec_fn(QualityRecord, Response) -> bool {
    |q: QualityRecord, r: Response| q.response_id == r.id
}

/// The more reliable of two responses may stand first.
pub open spec fn most_reliable_first() -> spec_fn(
    (QualityRecord, Response),
    (QualityRecord, Response),
) -> bool {
    |a: (QualityRecord, Response), b: (QualityRecord, Response)|
        a.0.avg_reliability.micros >= b.0.avg_reliability.micros
}

/// The more reliable of two lines may stand first.
pub open spec fn most_reliable_line_first() -> spec_fn(ResponseQuality, ResponseQuality) -> bool {
    |a: ResponseQuality, b: ResponseQuality| a.avg_reliability.micros >= b.avg_reliability.micros
}

/// `line` shows the quality figures `q` of response `r`.
pub open spec fn is_quality_line(line: ResponseQuality, q: QualityRecord, r: Response) -> bool {
    &&& line.response_id == q.response_id
    &&& line.provider_name@ == r.provider_name@
    &&& line.model_name@ == r.model_name@
    &&& line.avg_reliability == q.avg_reliability
    &&& line.high_risk_count == q.high_risk_count
    &&& line.medium_risk_count == q.medium_risk_count
    &&& line.low_risk_count == q.low_risk_count
    &&& line.total_mentions == q.total_mentions
    &&& line.overall_quality@ == q.overall_quality@
}

/// Quality figures with their response, and the line that shows them.
pub open spec fn rated_as() -> spec_fn((QualityRecord, Response), ResponseQuality) -> bool {
    |p: (QualityRecord, Response), line: ResponseQuality| is_quality_line(line, p.0, p.1)
}

/// The quality figures, each with the response it is about, most reliable
/// first; equally reliable ones keep the order of the tables.
pub open spec fn ranked_quality(quality: Seq<QualityRecord>, responses: Seq<Response>) -> Seq<
    (QualityRecord, Response),
> {
    stable_sort(most_reliable_first(), join(quality, responses, of_response()))
}

/// `view` is the response quality view of the given tables.
pub open spec fn is_quality_view(
    view: Seq<ResponseQuality>,
    quality: Seq<QualityRecord>,
    responses: Seq<Response>,
) -> bool {
    corresponds(ranked_quality(quality, responses), view, rated_as())
}

/// Pairs quality figures with the response they are about.
pub struct OfResponse {}

impl RowMatch<QualityRecord, Response> for OfResponse {
    open spec fn matches(&self) -> spec_fn(QualityRecord, Response) -> bool {
        of_response()
    }

    fn is_match(&self, a: &QualityRecord, b: &Response) -> (r: bool) {
        a.response_id == b.id
    }
}

/// Ranks lines by reliability, most reliable first.
pub struct MostReliableFirst {}

impl RowOrder<ResponseQuality> for MostReliableFirst {
    open spec fn relation(&self) -> spec_fn(ResponseQuality, ResponseQuality) -> bool {
        most_reliable_line_first()
    }

    fn in_order(&self, a: &ResponseQuality, b: &ResponseQuality) -> (r: bool) {
        a.avg_reliability.micros >= b.avg_reliability.micros
    }
}

/// The response quality view of the given tables.
pub fn response_quality(quality: &Vec<QualityRecord>, responses: &Vec<Response>) -> (view: Vec<
    ResponseQuality,
>)
    ensures
        is_quality_view(view@, quality@, responses@),
{
    let pairs = join_rows(quality, responses, &OfResponse {  });
    let ghost joined = join(quality@, responses@, of_response());
    let mut lines: Vec<ResponseQuality> = Vec::new();
    let n: usize = pairs.len();
    let mut i: usize = 0;
    while i < n
        invariant
            n == pairs@.len(),
            0 <= i <= n,
            joined == pairs_at(quality@, responses@, pairs@),
            forall|k: int|
                0 <= k < pairs@.len() ==> (#[trigger] pairs@[k]).0 < quality@.len() && pairs@[k].1
                    < responses@.len(),
            corresponds(joined.take(i as int), lines@, rated_as()),
        decreases n - i,
    {
        let q = &quality[pairs[i].0];
        let r = &responses[pairs[i].1];
        let line = ResponseQuality {
            response_id: q.response_id,
            provider_name: r.provider_name.clone(),
            model_name: r.model_name.clone(),
            avg_reliability: q.avg_reliability,
            high_risk_count: q.high_risk_count,
            medium_risk_count: q.medium_risk_count,
            low_risk_count: q.low_risk_count,
            total_mentions: q.total_mentions,
            overall_quality: q.overall_quality.clone(),
        };
        proof {
            let rel = rated_as();
            assert(joined[i as int] == (*q, *r));
            assert forall|k: int| 0 <= k < i + 1 implies rel(
                #[trigger] joined.take(i as int + 1)[k],
                #[trigger] lines@.push(line)[k],
            ) by {
                if k < i {
                    assert(rel(joined.take(i as int)[k], lines@[k]));
                }
            }
        }
        lines.push(line);
        i = i + 1;
    }
    let ghost unsorted = lines@;
    sort_stable(&mut lines, &MostReliableFirst {  });
    proof {
        assert(joined.take(n as int) =~= joined);
        lemma_stable_sort_corresponds(
            most_reliable_first(),
            most_reliable_line_first(),
            joined,
            unsorted,
            rated_as(),
        );
    }
    lines
}

/// The sources attached to the mention `mention_id`.
pub open spec fn cites(mention_id: i64) -> spec_fn(Source) -> bool {
    |s: Source| s.mention_id == mention_id
}

/// Passes the sources attached to the mention `mention_id`.
pub struct Cites {
    pub mention_id: i64,
}

impl RowTest<Source> for Cites {
    open spec fn test(&self) -> spec_fn(Source) -> bool {
        cites(self.mention_id)
    }

    fn passes(&self, row: &Source) -> (r: bool) {
        row.mention_id == self.mention_id
    }
}

/// The sources attached to the mention `mention_id`, in storage order.
pub fn sources_for_mention(sources: &Vec<Source>, mention_id: i64) -> (out: Vec<Source>)
    ensures
        out@ == sources@.filter(cites(mention_id)),
{
    select(sources, &Cites { mention_id })
}

/// The brands that the mentions name, each once, in the order of texts.
pub open spec fn brand_list(mentions: Seq<BrandMention>) -> Seq<Seq<char>> {
    stable_sort(text_order(), distinct(mentions.map_values(brand_of())))
}

/// The brand list is in the order of texts, names exactly the brands that
/// the mentions name, and names each once.
pub proof fn lemma_brand_list(mentions: Seq<BrandMention>)
    ensures
        is_ordered(text_order(), brand_list(mentions)),
        forall|name: Seq<char>|
            brand_list(mentions).contains(name) <==> mentions.map_values(brand_of()).contains(
                name,
            ),
        brand_list(mentions).len() == mentions.map_values(brand_of()).to_set().len(),
{
    let names = mentions.map_values(brand_of());
    assert(total_preorder(text_order())) by {
        assert forall|a: Seq<char>, b: Seq<char>| #[trigger]
            text_order()(a, b) || text_order()(b, a) by {
            lemma_text_le_total(a, b);
        }
        assert forall|a: Seq<char>, b: Seq<char>, c: Seq<char>| #[trigger]
            text_order()(a, b) && #[trigger] text_order()(b, c) implies text_order()(a, c) by {
            lemma_text_le_transitive(a, b, c);
        }
    }
    lemma_stable_sort_ordered(text_order(), distinct(names));
    lemma_stable_sort_rearranges(text_order(), distinct(names));
    lemma_distinct_members(names);
    lemma_distinct_count(names);
}

/// The order of texts, as a ranking of strings.
pub open spec fn string_order() -> spec_fn(String, String) -> bool {
    |a: String, b: String| text_le(a@, b@)
}

/// A string and the text it holds.
pub open spec fn holds_text() -> spec_fn(String, Seq<char>) -> bool {
    |s: String, t: Seq<char>| s@ == t
}

/// Ranks strings by the order of the texts they hold.
pub struct ByTextOrder {}

impl RowOrder<String> for ByTextOrder {
    open spec fn relation(&self) -> spec_fn(String, String) -> bool {
        string_order()
    }

    fn in_order(&self, a: &String, b: &String) -> (r: bool) {
        text_at_most(a.as_str(), b.as_str())
    }
}

/// The brands that the mentions name, each once, in the order of texts.
pub fn all_brands(mentions: &Vec<BrandMention>) -> (out: Vec<String>)
    ensures
        out@.map_values(text_of()) == brand_list(mentions@),
{
    let (firsts, _counts) = tally(mentions, &ByBrand {  });
    let ghost heads = first_of_each(mentions@, brand_of());
    let ghost found = distinct(mentions@.map_values(brand_of()));
    let ghost holds = holds_text();
    let mut names: Vec<String> = Vec::new();
    let n: usize = firsts.len();
    let mut k: usize = 0;
    proof {
        lemma_first_of_each_keys(mentions@, brand_of());
    }
    while k < n
        invariant
            n == firsts@.len(),
            0 <= k <= n,
            rows_at(mentions@, firsts@) == heads,
            heads.map_values(brand_of()) == found,
            forall|j: int| 0 <= j < firsts@.len() ==> #[trigger] firsts@[j] < mentions@.len(),
            names@.len() == k,
            forall|j: int| 0 <= j < k ==> (#[trigger] names@[j])@ == found[j],
        decreases n - k,
    {
        proof {
            assert(rows_at(mentions@, firsts@)[k as int] == mentions@[firsts@[k as int] as int]);
            assert(heads.map_values(brand_of())[k as int] == found[k as int]);
        }
        names.push(mentions[firsts[k]].brand_name.clone());
        k = k + 1;
    }
    let ghost unsorted = names@;
    sort_stable(&mut names, &ByTextOrder {  });
    proof {
        assert(heads.len() == n);
        assert(found.len() == n);
        assert(corresponds(unsorted, found, holds));
        lemma_stable_sort_corresponds(string_order(), text_order(), unsorted, found, holds);
        let sorted = stable_sort(text_order(), found);
        assert(names@.map_values(text_of()) =~= sorted) by {
            assert forall|j: int| 0 <= j < names@.len() implies names@.map_values(text_of())[j]
                == sorted[j] by {
                assert(holds(names@[j], sorted[j]));
            }
        }
    }
    names
}

/// The later of two mentions may stand first.
pub open spec fn latest_first() -> spec_fn(
    (BrandMention, Response),
    (BrandMention, Response),
) -> bool {
    |a: (BrandMention, Response), b: (BrandMention, Response)|
        a.1.timestamp.micros >= b.1.timestamp.micros
}

/// The mentions with the responses they were found in, latest response
/// first; those of one time keep the order of the tables.
pub open spec fn dated_mentions(mentions: Seq<BrandMention>, responses: Seq<Response>) -> Seq<
    (BrandMention, Response),
> {
    stable_sort(latest_first(), join(mentions, responses, found_in()))
}

/// The first `limit` rows of `rows`, or all of them where `limit` is
/// negative.
pub open spec fn limited<T>(rows: Seq<T>, limit: int) -> Seq<T> {
    if limit < 0 {
        rows
    } else {
        first_rows(rows, limit)
    }
}

/// The mention of a mention in a response.
pub open spec fn mention_of() -> spec_fn((BrandMention, Response)) -> BrandMention {
    |p: (BrandMention, Response)| p.0
}

/// The `limit` most recent mentions; all of them where `limit` is negative.
pub open spec fn recent(
    mentions: Seq<BrandMention>,
    responses: Seq<Response>,
    limit: int,
) -> Seq<BrandMention> {
    limited(dated_mentions(mentions, responses), limit).map_values(mention_of())
}

/// A mention in a response, and the place and time that stand for it: the
/// place of the mention in `mentions`, and the time of the response.
pub open spec fn stands_for(mentions: Seq<BrandMention>) -> spec_fn(
    (BrandMention, Response),
    (usize, Fixed),
) -> bool {
    |p: (BrandMention, Response), w: (usize, Fixed)|
        w.0 < mentions.len() && mentions[w.0 as int] == p.0 && w.1 == p.1.timestamp
}

/// The later of two dated places may stand first.
pub open spec fn later_place_first() -> spec_fn((usize, Fixed), (usize, Fixed)) -> bool {
    |a: (usize, Fixed), b: (usize, Fixed)| a.1.micros >= b.1.micros
}

/// Ranks dated places by their time, latest first.
pub struct LatestFirst {}

impl RowOrder<(usize, Fixed)> for LatestFirst {
    open spec fn relation(&self) -> spec_fn((usize, Fixed), (usize, Fixed)) -> bool {
        later_place_first()
    }

    fn in_order(&self, a: &(usize, Fixed), b: &(usize, Fixed)) -> (r: bool) {
        a.1.micros >= b.1.micros
    }
}

/// The `limit` most recent mentions; all of them where `limit` is negative.
pub fn recent_mentions(mentions: &Vec<BrandMention>, responses: &Vec<Response>, limit: i32) -> (out:
    Vec<BrandMention>)
    ensures
        out@ == recent(mentions@, responses@, limit as int),
{
    let pairs = join_rows(mentions, responses, &FoundIn {  });
    let ghost joined = join(mentions@, responses@, found_in());
    let ghost rel = stands_for(mentions@);
    let mut places: Vec<(usize, Fixed)> = Vec::new();
    let n: usize = pairs.len();
    let mut i: usize = 0;
    while i < n
        invariant
            n == pairs@.len(),
            0 <= i <= n,
            joined == pairs_at(mentions@, responses@, pairs@),
            forall|k: int|
                0 <= k < pairs@.len() ==> (#[trigger] pairs@[k]).0 < mentions@.len()
                    && pairs@[k].1 < responses@.len(),
            rel == stands_for(mentions@),
            corresponds(joined.take(i as int), places@, rel),
        decreases n - i,
    {
        let place = (pairs[i].0, responses[pairs[i].1].timestamp);
        proof {
            let at = pairs@[i as int];
            assert(joined[i as int] == (mentions@[at.0 as int], responses@[at.1 as int]));
            assert forall|k: int| 0 <= k < i + 1 implies rel(
                #[trigger] joined.take(i as int + 1)[k],
                #[trigger] places@.push(place)[k],
            ) by {
                if k < i {
                    assert(rel(joined.take(i as int)[k], places@[k]));
                }
            }
        }
        places.push(place);
        i = i + 1;
    }
    let ghost unsorted = places@;
    sort_stable(&mut places, &LatestFirst {  });
    let ghost dated = dated_mentions(mentions@, responses@);
    proof {
        assert(joined.take(n as int) =~= joined);
        lemma_stable_sort_corresponds(
            latest_first(),
            later_place_first(),
            joined,
            unsorted,
            rel,
        );
    }
    if limit >= 0 {
        keep_first(&mut places, limit as usize);
    }
    let ghost kept = limited(dated, limit as int);
    proof {
        assert(corresponds(kept, places@, rel)) by {
            assert(kept.len() == places@.len());
            assert forall|k: int| 0 <= k < kept.len() implies rel(
                #[trigger] kept[k],
                #[trigger] places@[k],
            ) by {
                assert(rel(dated[k], stable_sort(later_place_first(), unsorted)[k]));
            }
        }
    }
    let mut out: Vec<BrandMention> = Vec::new();
    let m: usize = places.len();
    let mut j: usize = 0;
    while j < m
        invariant
            m == places@.len(),
            0 <= j <= m,
            rel == stands_for(mentions@),
            corresponds(kept, places@, rel),
            out@ == kept.take(j as int).map_values(mention_of()),
        decreases m - j,
    {
        proof {
            assert(rel(kept[j as int], places@[j as int]));
            assert(kept.take(j as int + 1).map_values(mention_of()) =~= out@.push(
                kept[j as int].0,
            ));
        }
        out.push(mentions[places[j].0].duplicate());
        j = j + 1;
    }
    proof {
        assert(kept.take(m as int) =~= kept);
    }
    out
}

/// The later of two evaluation runs may stand first.
pub open spec fn latest_run_first() -> spec_fn(EvaluationStats, EvaluationStats) -> bool {
    |a: EvaluationStats, b: EvaluationStats| a.timestamp.micros >= b.timestamp.micros
}

/// Every evaluation run.
pub open spec fn any_run() -> spec_fn(EvaluationStats) -> bool {
    |e: EvaluationStats| true
}

/// The latest evaluation runs, latest first, at most `EVALUATION_ROWS` of
/// them; runs of one time keep their storage order.
pub open spec fn latest_runs(evaluations: Seq<EvaluationStats>) -> Seq<EvaluationStats> {
    first_rows(stable_sort(latest_run_first(), evaluations), EVALUATION_ROWS as int)
}

/// Ranks evaluation runs by their time, latest first.
pub struct LatestRunFirst {}

impl RowOrder<EvaluationStats> for LatestRunFirst {
    open spec fn relation(&self) -> spec_fn(EvaluationStats, EvaluationStats) -> bool {
        latest_run_first()
    }

    fn in_order(&self, a: &EvaluationStats, b: &EvaluationStats) -> (r: bool) {
        a.timestamp.micros >= b.timestamp.micros
    }
}

/// Passes every evaluation run.
pub struct AnyRun {}

impl RowTest<EvaluationStats> for AnyRun {
    open spec fn test(&self) -> spec_fn(EvaluationStats) -> bool {
        any_run()
    }

    fn passes(&self, row: &EvaluationStats) -> (r: bool) {
        true
    }
}

/// Selecting every row keeps them all.
proof fn lemma_filter_all(evaluations: Seq<EvaluationStats>)
    ensures
        evaluations.filter(any_run()) == evaluations,
    decreases evaluations.len(),
{
    if evaluations.len() == 0 {
        evaluations.lemma_filter_len(any_run());
        assert(evaluations.filter(any_run()) =~= evaluations);
    } else {
        lemma_filter_all(evaluations.drop_last());
        evaluations.drop_last().lemma_filter_push(evaluations.last(), any_run());
        assert(evaluations.drop_last().push(evaluations.last()) =~= evaluations);
    }
}

/// The latest evaluation runs.
pub fn evaluation_stats(evaluations: &Vec<EvaluationStats>) -> (out: Vec<EvaluationStats>)
    ensures
        out@ == latest_runs(evaluations@),
{
    let mut rows = select(evaluations, &AnyRun {  });
    proof {
        lemma_filter_all(evaluations@);
    }
    sort_stable(&mut rows, &LatestRunFirst {  });
    keep_first(&mut rows, EVALUATION_ROWS);
    rows
}

} // verus!
