//! The provider performance view.

use crate::dashboard::{succeeded, Succeeded};
use crate::fixed::{mean, mean_of, micros_of, percentage, percentage_of, Fixed, SCALE};
use crate::grouping::{
    first_of_each, lemma_distinct_count, lemma_distinct_members,
    lemma_first_of_each_keys, rows_at, tally, RowKey,
};
use crate::joining::{join, join_rows, lemma_join_members, pairs_at, RowMatch};
use crate::models::{BrandMention, ProviderPerformance, Response};
use crate::selection::{select, RowTest};
use crate::sorting::{
    corresponds, lemma_stable_sort_corresponds, sort_stable, stable_sort, RowOrder,
};
use crate::storage::MAX_ROWS;
use vstd::prelude::*;

verus! {

/// The provider and model that gave a response.
pub open spec fn provider_of() -> spec_fn(Response) -> (Seq<char>, Seq<char>) {
    |r: Response| (r.provider_name@, r.model_name@)
}

/// The responses given by `provider` with `model`.
pub open spec fn served_as(provider: Seq<char>, model: Seq<char>) -> spec_fn(Response) -> bool {
    |r: Response| r.provider_name@ == provider && r.model_name@ == model
}

/// A mention goes with the response it was found in.
pub open spec fn answers() -> spec_fn(Response, BrandMention) -> bool {
    |r: Response, m: BrandMention| m.response_id == r.id
}

/// The identity of a response.
pub open spec fn response_id() -> spec_fn(Response) -> i64 {
    |r: Response| r.id
}

/// The identity of a mention.
pub open spec fn mention_id() -> spec_fn(BrandMention) -> i64 {
    |m: BrandMention| m.id
}

/// The rank of a mention, in millionths.
pub open spec fn rank_of() -> spec_fn(BrandMention) -> int {
    |m: BrandMention| m.rank_position * SCALE
}

/// The responses of the provider and model of `head`.
pub open spec fn group_members(head: Response, responses: Seq<Response>) -> Seq<Response> {
    responses.filter(served_as(head.provider_name@, head.model_name@))
}

/// The mentions found in the responses of the provider and model of `head`,
/// response by response.
pub open spec fn group_mentions(
    head: Response,
    responses: Seq<Response>,
    mentions: Seq<BrandMention>,
) -> Seq<BrandMention> {
    join(group_members(head, responses), mentions, answers()).map_values(
        |p: (Response, BrandMention)| p.1,
    )
}

/// How many different mentions the provider and model of `head` have.
pub open spec fn mention_count(
    head: Response,
    responses: Seq<Response>,
    mentions: Seq<BrandMention>,
) -> nat {
    group_mentions(head, responses, mentions).map_values(mention_id()).to_set().len()
}

/// The provider with more mentions may stand first.
pub open spec fn busier_first(responses: Seq<Response>, mentions: Seq<BrandMention>) -> spec_fn(
    Response,
    Response,
) -> bool {
    |a: Response, b: Response|
        mention_count(a, responses, mentions) >= mention_count(b, responses, mentions)
}

/// The first response of each provider and model, those with most mentions
/// first, those with equally many in the order in which they first respond.
pub open spec fn ranked_providers(
    responses: Seq<Response>,
    mentions: Seq<BrandMention>,
) -> Seq<Response> {
    stable_sort(busier_first(responses, mentions), first_of_each(responses, provider_of()))
}

/// `p` holds the figures of the provider and model of `head`.
pub open spec fn is_performance_of(
    p: ProviderPerformance,
    head: Response,
    responses: Seq<Response>,
    mentions: Seq<BrandMention>,
) -> bool {
    let members = group_members(head, responses);
    let found = group_mentions(head, responses, mentions);
    &&& p.provider@ == head.provider_name@
    &&& p.model@ == head.model_name@
    &&& p.total_mentions == mention_count(head, responses, mentions)
    &&& match p.avg_rank {
        Some(a) => found.len() > 0 && a.micros == mean(found.map_values(rank_of())),
        None => found.len() == 0,
    }
    &&& p.total_responses == members.map_values(response_id()).to_set().len()
    &&& p.successful_responses == members.filter(succeeded()).map_values(
        response_id(),
    ).to_set().len()
    &&& p.success_rate.micros == percentage(
        p.successful_responses as int,
        p.total_responses as int,
    )
}

/// A response and the figures of its provider and model.
pub open spec fn performs(responses: Seq<Response>, mentions: Seq<BrandMention>) -> spec_fn(
    Response,
    ProviderPerformance,
) -> bool {
    |head: Response, p: ProviderPerformance| is_performance_of(p, head, responses, mentions)
}

/// `report` is the provider performance view of the given tables: one line
/// for each provider and model, in the order of `ranked_providers`.
pub open spec fn is_performance_report(
    report: Seq<ProviderPerformance>,
    responses: Seq<Response>,
    mentions: Seq<BrandMention>,
) -> bool {
    corresponds(ranked_providers(responses, mentions), report, performs(responses, mentions))
}

/// The success rate of a line of the view lies between 0 and 100 percent.
pub proof fn lemma_success_rate_bounds(
    p: ProviderPerformance,
    head: Response,
    responses: Seq<Response>,
    mentions: Seq<BrandMention>,
)
    requires
        is_performance_of(p, head, responses, mentions),
    ensures
        0 <= p.successful_responses <= p.total_responses,
        0 <= p.success_rate.micros <= 100 * SCALE,
        p.total_responses == 0 ==> p.success_rate.micros == 0,
{
    let members = group_members(head, responses);
    lemma_subset_ids(members);
    let s = p.successful_responses as int;
    let t = p.total_responses as int;
    if t > 0 {
        assert(0 <= (s * 100 * SCALE) / t <= 100 * SCALE) by (nonlinear_arith)
            requires
                0 <= s <= t,
                t > 0,
                SCALE == 1_000_000,
        ;
    }
}

/// No more different responses succeeded than there are different responses.
proof fn lemma_subset_ids(members: Seq<Response>)
    ensures
        members.filter(succeeded()).map_values(response_id()).to_set().len() <= members.map_values(
            response_id(),
        ).to_set().len(),
        members.map_values(response_id()).to_set().len() <= members.len(),
{
    let all = members.map_values(response_id());
    let good = members.filter(succeeded()).map_values(response_id());
    assert forall|id: i64| good.to_set().contains(id) implies all.to_set().contains(id) by {
        let k = choose|k: int| 0 <= k < good.len() && good[k] == id;
        let r = members.filter(succeeded())[k];
        assert(members.filter(succeeded()).contains(r));
        members.lemma_filter_contains_rev(succeeded(), r);
        let i = choose|i: int| 0 <= i < members.len() && members[i] == r;
        assert(all[i] == id);
    }
    vstd::seq_lib::seq_to_set_is_finite(all);
    vstd::set_lib::lemma_len_subset(good.to_set(), all.to_set());
    lemma_distinct_count(all);
    lemma_distinct_members(all);
}

/// No more different mentions are found in some responses than there are
/// mentions.
proof fn lemma_found_ids(members: Seq<Response>, mentions: Seq<BrandMention>)
    ensures
        join(members, mentions, answers()).map_values(|p: (Response, BrandMention)| p.1).map_values(
            mention_id(),
        ).to_set().len() <= mentions.len(),
{
    let pairs = join(members, mentions, answers());
    let found = pairs.map_values(|p: (Response, BrandMention)| p.1).map_values(mention_id());
    let all = mentions.map_values(mention_id());
    lemma_join_members(members, mentions, answers());
    assert forall|id: i64| found.to_set().contains(id) implies all.to_set().contains(id) by {
        let k = choose|k: int| 0 <= k < found.len() && found[k] == id;
        let m = pairs[k].1;
        assert(mentions.contains(m));
        let i = choose|i: int| 0 <= i < mentions.len() && mentions[i] == m;
        assert(all[i] == id);
    }
    vstd::seq_lib::seq_to_set_is_finite(all);
    vstd::set_lib::lemma_len_subset(found.to_set(), all.to_set());
    lemma_distinct_count(all);
    lemma_distinct_members(all);
}

/// Groups responses by provider and model.
pub struct ByProvider {}

impl RowKey<Response, (Seq<char>, Seq<char>)> for ByProvider {
    open spec fn key(&self) -> spec_fn(Response) -> (Seq<char>, Seq<char>) {
        provider_of()
    }

    fn same_key(&self, a: &Response, b: &Response) -> (r: bool) {
        a.provider_name == b.provider_name && a.model_name == b.model_name
    }
}

/// Groups numbers by their value.
pub struct ByValue {}

impl RowKey<i64, i64> for ByValue {
    open spec fn key(&self) -> spec_fn(i64) -> i64 {
        |x: i64| x
    }

    fn same_key(&self, a: &i64, b: &i64) -> (r: bool) {
        *a == *b
    }
}

/// Passes the responses given by `provider` with `model`.
pub struct ServedAs {
    pub provider: String,
    pub model: String,
}

impl RowTest<Response> for ServedAs {
    open spec fn test(&self) -> spec_fn(Response) -> bool {
        served_as(self.provider@, self.model@)
    }

    fn passes(&self, row: &Response) -> (r: bool) {
        row.provider_name == self.provider && row.model_name == self.model
    }
}

/// Pairs a response with the mentions found in it.
pub struct Answers {}

impl RowMatch<Response, BrandMention> for Answers {
    open spec fn matches(&self) -> spec_fn(Response, BrandMention) -> bool {
        answers()
    }

    fn is_match(&self, a: &Response, b: &BrandMention) -> (r: bool) {
        b.response_id == a.id
    }
}

/// Ranks lines by their number of mentions, most first.
pub struct BusiestFirst {}

/// The line with more mentions may stand first.
pub open spec fn busiest_first() -> spec_fn(ProviderPerformance, ProviderPerformance) -> bool {
    |a: ProviderPerformance, b: ProviderPerformance| a.total_mentions >= b.total_mentions
}

impl RowOrder<ProviderPerformance> for BusiestFirst {
    open spec fn relation(&self) -> spec_fn(ProviderPerformance, ProviderPerformance) -> bool {
        busiest_first()
    }

    fn in_order(&self, a: &ProviderPerformance, b: &ProviderPerformance) -> (r: bool) {
        a.total_mentions >= b.total_mentions
    }
}

/// How many different numbers `ids` holds.
pub fn count_distinct(ids: &Vec<i64>) -> (count: usize)
    ensures
        count == ids@.to_set().len(),
        count <= ids@.len(),
{
    let (firsts, _counts) = tally(ids, &ByValue {  });
    proof {
        let key = |x: i64| x;
        assert(ids@.map_values(key) =~= ids@);
        lemma_first_of_each_keys(ids@, key);
        lemma_distinct_count(ids@);
        assert(rows_at(ids@, firsts@).len() == first_of_each(ids@, key).len());
        assert(first_of_each(ids@, key).map_values(key).len() == first_of_each(ids@, key).len());
    }
    firsts.len()
}

/// The identities of the given responses.
fn response_ids(rows: &Vec<Response>) -> (ids: Vec<i64>)
    ensures
        ids@ == rows@.map_values(response_id()),
{
    let mut ids: Vec<i64> = Vec::new();
    let n: usize = rows.len();
    let mut i: usize = 0;
    while i < n
        invariant
            n == rows@.len(),
            0 <= i <= n,
            ids@ == rows@.take(i as int).map_values(response_id()),
        decreases n - i,
    {
        proof {
            assert(rows@.take(i as int + 1).map_values(response_id()) =~= ids@.push(
                rows@[i as int].id,
            ));
        }
        ids.push(rows[i].id);
        i = i + 1;
    }
    proof {
        assert(rows@.take(n as int) =~= rows@);
    }
    ids
}

/// The figures of the provider and model of `head`.
pub(crate) fn measure_provider(
    head: &Response,
    responses: &Vec<Response>,
    mentions: &Vec<BrandMention>,
) -> (p: ProviderPerformance)
    requires
        responses@.len() <= MAX_ROWS,
        mentions@.len() <= MAX_ROWS,
    ensures
        is_performance_of(p, *head, responses@, mentions@),
{
    let members = select(
        responses,
        &ServedAs { provider: head.provider_name.clone(), model: head.model_name.clone() },
    );
    let pairs = join_rows(&members, mentions, &Answers {  });
    let ghost found = group_mentions(*head, responses@, mentions@);
    let mut ids: Vec<i64> = Vec::new();
    let mut ranks: Vec<Fixed> = Vec::new();
    let n: usize = pairs.len();
    let mut i: usize = 0;
    proof {
        assert(found.len() == n);
        assert(found == pairs_at(members@, mentions@, pairs@).map_values(
            |p: (Response, BrandMention)| p.1,
        ));
    }
    while i < n
        invariant
            n == pairs@.len(),
            n == found.len(),
            0 <= i <= n,
            forall|k: int|
                0 <= k < pairs@.len() ==> (#[trigger] pairs@[k]).0 < members@.len() && pairs@[k].1
                    < mentions@.len(),
            found == pairs_at(members@, mentions@, pairs@).map_values(
                |p: (Response, BrandMention)| p.1,
            ),
            ids@ == found.take(i as int).map_values(mention_id()),
            micros_of(ranks@) == found.take(i as int).map_values(rank_of()),
        decreases n - i,
    {
        let m = &mentions[pairs[i].1];
        let rank = Fixed::from_whole(m.rank_position);
        proof {
            assert(found[i as int] == *m);
            assert(found.take(i as int + 1).map_values(mention_id()) =~= ids@.push(m.id));
            assert(micros_of(ranks@.push(rank)) =~= micros_of(ranks@).push(rank.micros as int));
            assert(rank_of()(found[i as int]) == rank.micros as int);
            assert(found.take(i as int + 1).map_values(rank_of()) =~= found.take(
                i as int,
            ).map_values(rank_of()).push(rank.micros as int));
        }
        ids.push(m.id);
        ranks.push(rank);
        i = i + 1;
    }
    proof {
        assert(found.take(n as int) =~= found);
        lemma_found_ids(members@, mentions@);
        lemma_subset_ids(members@);
        responses@.lemma_filter_len(served_as(head.provider_name@, head.model_name@));
    }
    let total_mentions: usize = count_distinct(&ids);
    let avg_rank = if ranks.len() == 0 {
        None
    } else {
        Some(mean_of(&ranks))
    };
    let member_ids = response_ids(&members);
    let total_responses: usize = count_distinct(&member_ids);
    let good = select(&members, &Succeeded {  });
    let good_ids = response_ids(&good);
    let successful: usize = count_distinct(&good_ids);
    let success_rate = percentage_of(successful as i32, total_responses as i32);
    ProviderPerformance {
        provider: head.provider_name.clone(),
        model: head.model_name.clone(),
        total_mentions: total_mentions as i32,
        avg_rank,
        total_responses: total_responses as i32,
        successful_responses: successful as i32,
        success_rate,
    }
}

/// The provider performance view of the given tables.
pub(crate) fn provider_performance(
    responses: &Vec<Response>,
    mentions: &Vec<BrandMention>,
) -> (report: Vec<ProviderPerformance>)
    requires
        responses@.len() <= MAX_ROWS,
        mentions@.len() <= MAX_ROWS,
    ensures
        is_performance_report(report@, responses@, mentions@),
{
    let (firsts, _counts) = tally(responses, &ByProvider {  });
    let ghost heads = first_of_each(responses@, provider_of());
    let mut lines: Vec<ProviderPerformance> = Vec::new();
    let n: usize = firsts.len();
    let mut k: usize = 0;
    while k < n
        invariant
            n == firsts@.len(),
            0 <= k <= n,
            responses@.len() <= MAX_ROWS,
            mentions@.len() <= MAX_ROWS,
            heads == first_of_each(responses@, provider_of()),
            rows_at(responses@, firsts@) == heads,
            forall|j: int| 0 <= j < firsts@.len() ==> #[trigger] firsts@[j] < responses@.len(),
            corresponds(heads.take(k as int), lines@, performs(responses@, mentions@)),
        decreases n - k,
    {
        let head = &responses[firsts[k]];
        let line = measure_provider(head, responses, mentions);
        proof {
            assert(rows_at(responses@, firsts@)[k as int] == *head);
            let rel = performs(responses@, mentions@);
            assert forall|j: int| 0 <= j < k + 1 implies rel(
                #[trigger] heads.take(k as int + 1)[j],
                #[trigger] lines@.push(line)[j],
            ) by {
                if j < k {
                    assert(rel(heads.take(k as int)[j], lines@[j]));
                }
            }
        }
        lines.push(line);
        k = k + 1;
    }
    let ghost unsorted = lines@;
    sort_stable(&mut lines, &BusiestFirst {  });
    proof {
        assert(heads.take(n as int) =~= heads);
        lemma_stable_sort_corresponds(
            busier_first(responses@, mentions@),
            busiest_first(),
            heads,
            unsorted,
            performs(responses@, mentions@),
        );
    }
    lines
}

} // verus!
