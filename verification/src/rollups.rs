//! The brand rankings view and the distribution of match confidence.

use crate::fixed::{lemma_total_push, total, Fixed};
use crate::joining::{join, join_rows, pairs_at, RowMatch};
use crate::models::{copy_text, BrandMention, BrandRanking, Response};
use crate::selection::{count_passing, RowTest};
use crate::sorting::{
    corresponds, is_ordered, lemma_stable_sort_corresponds, lemma_stable_sort_ordered,
    sort_stable, stable_sort, total_preorder, RowOrder,
};
use crate::storage::MAX_ROWS;
use crate::text::{
    append_decimal, decimal, lemma_text_le_antisymmetric, lemma_text_le_total,
    lemma_text_le_transitive, text_at_most, text_le, text_opt,
};
use vstd::prelude::*;

verus! {

/// A mention goes with the response it was found in.
pub open spec fn found_in() -> spec_fn(BrandMention, Response) -> bool {
    |m: BrandMention, r: Response| m.response_id == r.id
}

/// Order by brand, then by provider, then by rank, each ascending.
pub open spec fn key_le(a: (Seq<char>, Seq<char>, int), b: (Seq<char>, Seq<char>, int)) -> bool {
    if a.0 != b.0 {
        text_le(a.0, b.0)
    } else if a.1 != b.1 {
        text_le(a.1, b.1)
    } else {
        a.2 <= b.2
    }
}

/// What a mention in a response is ranked by.
pub open spec fn pair_key(p: (BrandMention, Response)) -> (Seq<char>, Seq<char>, int) {
    (p.0.brand_name@, p.1.provider_name@, p.0.rank_position as int)
}

/// What a line of the rankings view is ranked by.
pub open spec fn line_key(line: BrandRanking) -> (Seq<char>, Seq<char>, int) {
    (line.brand_name@, line.provider@, line.rank as int)
}

/// The ranking of mentions in responses.
pub open spec fn pair_order() -> spec_fn(
    (BrandMention, Response),
    (BrandMention, Response),
) -> bool {
    |a: (BrandMention, Response), b: (BrandMention, Response)| key_le(pair_key(a), pair_key(b))
}

/// The ranking of lines of the rankings view.
pub open spec fn line_order() -> spec_fn(BrandRanking, BrandRanking) -> bool {
    |a: BrandRanking, b: BrandRanking| key_le(line_key(a), line_key(b))
}

/// The name under which a query is shown.
pub open spec fn query_label(query_id: Option<i64>) -> Seq<char> {
    "Query "@ + decimal(
        match query_id {
            Some(q) => q as int,
            None => 0,
        },
    )
}

/// `line` shows mention `m`, found in response `r`.
pub open spec fn is_ranking_line(line: BrandRanking, m: BrandMention, r: Response) -> bool {
    &&& line.brand_name@ == m.brand_name@
    &&& line.provider@ == r.provider_name@
    &&& line.model@ == r.model_name@
    &&& line.query@ == query_label(r.query_id)
    &&& line.rank == m.rank_position
    &&& line.alias_used@ == m.alias_used@
    &&& text_opt(line.explanation) == text_opt(m.explanation)
}

/// A mention in a response and the line that shows it.
pub open spec fn shown_as() -> spec_fn((BrandMention, Response), BrandRanking) -> bool {
    |p: (BrandMention, Response), line: BrandRanking| is_ranking_line(line, p.0, p.1)
}

/// The mentions with the responses they were found in, by brand, then
/// provider, then rank; what ties keeps the order of the tables.
pub open spec fn ranked_mentions(mentions: Seq<BrandMention>, responses: Seq<Response>) -> Seq<
    (BrandMention, Response),
> {
    stable_sort(pair_order(), join(mentions, responses, found_in()))
}

/// `view` is the brand rankings view of the given tables.
pub open spec fn is_rankings_view(
    view: Seq<BrandRanking>,
    mentions: Seq<BrandMention>,
    responses: Seq<Response>,
) -> bool {
    corresponds(ranked_mentions(mentions, responses), view, shown_as())
}

/// The three-key order relates any two keys, and chains.
pub proof fn lemma_key_le_total_preorder()
    ensures
        forall|a: (Seq<char>, Seq<char>, int), b: (Seq<char>, Seq<char>, int)| #[trigger]
            key_le(a, b) || key_le(b, a),
        forall|
            a: (Seq<char>, Seq<char>, int),
            b: (Seq<char>, Seq<char>, int),
            c: (Seq<char>, Seq<char>, int),
        | #[trigger]
            key_le(a, b) && #[trigger] key_le(b, c) ==> key_le(a, c),
{
    assert forall|a: (Seq<char>, Seq<char>, int), b: (Seq<char>, Seq<char>, int)| #[trigger]
        key_le(a, b) || key_le(b, a) by {
        lemma_text_le_total(a.0, b.0);
        lemma_text_le_total(a.1, b.1);
    }
    assert forall|
        a: (Seq<char>, Seq<char>, int),
        b: (Seq<char>, Seq<char>, int),
        c: (Seq<char>, Seq<char>, int),
    | #[trigger] key_le(a, b) && #[trigger] key_le(b, c) implies key_le(a, c) by {
        lemma_text_le_total(a.0, b.0);
        lemma_text_le_total(b.0, c.0);
        lemma_text_le_total(a.1, b.1);
        lemma_text_le_total(b.1, c.1);
        if text_le(a.0, b.0) && text_le(b.0, c.0) {
            lemma_text_le_transitive(a.0, b.0, c.0);
        }
        if text_le(a.1, b.1) && text_le(b.1, c.1) {
            lemma_text_le_transitive(a.1, b.1, c.1);
        }
        if text_le(a.0, c.0) && text_le(c.0, a.0) {
            lemma_text_le_antisymmetric(a.0, c.0);
        }
        if text_le(a.1, c.1) && text_le(c.1, a.1) {
            lemma_text_le_antisymmetric(a.1, c.1);
        }
        if text_le(a.0, b.0) && text_le(b.0, a.0) {
            lemma_text_le_antisymmetric(a.0, b.0);
        }
        if text_le(b.0, c.0) && text_le(c.0, b.0) {
            lemma_text_le_antisymmetric(b.0, c.0);
        }
        if text_le(a.1, b.1) && text_le(b.1, a.1) {
            lemma_text_le_antisymmetric(a.1, b.1);
        }
        if text_le(b.1, c.1) && text_le(c.1, b.1) {
            lemma_text_le_antisymmetric(b.1, c.1);
        }
        if text_le(c.0, a.0) && text_le(a.0, b.0) {
            lemma_text_le_transitive(c.0, a.0, b.0);
        }
        if text_le(b.0, c.0) && text_le(c.0, a.0) {
            lemma_text_le_transitive(b.0, c.0, a.0);
        }
        if text_le(c.1, a.1) && text_le(a.1, b.1) {
            lemma_text_le_transitive(c.1, a.1, b.1);
        }
        if text_le(b.1, c.1) && text_le(c.1, a.1) {
            lemma_text_le_transitive(b.1, c.1, a.1);
        }
    }
}

/// The lines of a rankings view come by brand, then provider, then rank.
pub proof fn lemma_rankings_view_ordered(
    view: Seq<BrandRanking>,
    mentions: Seq<BrandMention>,
    responses: Seq<Response>,
)
    requires
        is_rankings_view(view, mentions, responses),
    ensures
        is_ordered(line_order(), view),
{
    lemma_key_le_total_preorder();
    assert(total_preorder(pair_order())) by {
        assert forall|a: (BrandMention, Response), b: (BrandMention, Response)| #[trigger]
            pair_order()(a, b) || pair_order()(b, a) by {
            assert(key_le(pair_key(a), pair_key(b)) || key_le(pair_key(b), pair_key(a)));
        }
        assert forall|
            a: (BrandMention, Response),
            b: (BrandMention, Response),
            c: (BrandMention, Response),
        | #[trigger] pair_order()(a, b) && #[trigger] pair_order()(b, c) implies pair_order()(
            a,
            c,
        ) by {
            assert(key_le(pair_key(a), pair_key(b)) && key_le(pair_key(b), pair_key(c))
                ==> key_le(pair_key(a), pair_key(c)));
        }
    }
    let ranked = ranked_mentions(mentions, responses);
    lemma_stable_sort_ordered(pair_order(), join(mentions, responses, found_in()));
    assert forall|i: int, j: int| 0 <= i < j < view.len() implies line_order()(
        #[trigger] view[i],
        #[trigger] view[j],
    ) by {
        assert(shown_as()(ranked[i], view[i]));
        assert(shown_as()(ranked[j], view[j]));
        assert(pair_order()(ranked[i], ranked[j]));
        assert(line_key(view[i]) == pair_key(ranked[i]));
        assert(line_key(view[j]) == pair_key(ranked[j]));
    }
}

/// Pairs a mention with the response it was found in.
pub struct FoundIn {}

impl RowMatch<BrandMention, Response> for FoundIn {
    open spec fn matches(&self) -> spec_fn(BrandMention, Response) -> bool {
        found_in()
    }

    fn is_match(&self, a: &BrandMention, b: &Response) -> (r: bool) {
        a.response_id == b.id
    }
}

/// Ranks lines by brand, then provider, then rank.
pub struct ByBrandProviderRank {}

impl RowOrder<BrandRanking> for ByBrandProviderRank {
    open spec fn relation(&self) -> spec_fn(BrandRanking, BrandRanking) -> bool {
        line_order()
    }

    fn in_order(&self, a: &BrandRanking, b: &BrandRanking) -> (r: bool) {
        if !(a.brand_name == b.brand_name) {
            text_at_most(a.brand_name.as_str(), b.brand_name.as_str())
        } else if !(a.provider == b.provider) {
            text_at_most(a.provider.as_str(), b.provider.as_str())
        } else {
            a.rank <= b.rank
        }
    }
}

/// The line that shows mention `m`, found in response `r`.
pub fn ranking_line(m: &BrandMention, r: &Response) -> (line: BrandRanking)
    ensures
        is_ranking_line(line, *m, *r),
{
    let mut query = "Query ".to_owned();
    let id: i64 = match r.query_id {
        Some(q) => q,
        None => 0,
    };
    append_decimal(&mut query, id);
    BrandRanking {
        brand_name: m.brand_name.clone(),
        provider: r.provider_name.clone(),
        model: r.model_name.clone(),
        query,
        rank: m.rank_position,
        alias_used: m.alias_used.clone(),
        explanation: copy_text(&m.explanation),
    }
}

/// The brand rankings view of the given tables.
pub fn brand_rankings(mentions: &Vec<BrandMention>, responses: &Vec<Response>) -> (view: Vec<
    BrandRanking,
>)
    ensures
        is_rankings_view(view@, mentions@, responses@),
{
    let pairs = join_rows(mentions, responses, &FoundIn {  });
    let ghost joined = join(mentions@, responses@, found_in());
    let mut lines: Vec<BrandRanking> = Vec::new();
    let n: usize = pairs.len();
    let mut i: usize = 0;
    while i < n
        invariant
            n == pairs@.len(),
            0 <= i <= n,
            joined == pairs_at(mentions@, responses@, pairs@),
            forall|k: int|
                0 <= k < pairs@.len() ==> (#[trigger] pairs@[k]).0 < mentions@.len()
                    && pairs@[k].1 < responses@.len(),
            corresponds(joined.take(i as int), lines@, shown_as()),
        decreases n - i,
    {
        let line = ranking_line(&mentions[pairs[i].0], &responses[pairs[i].1]);
        proof {
            let rel = shown_as();
            let at = pairs@[i as int];
            assert(joined[i as int] == (mentions@[at.0 as int], responses@[at.1 as int]));
            assert forall|k: int| 0 <= k < i + 1 implies rel(
                #[trigger] joined.take(i as int + 1)[k],
                #[trigger] lines@.push(line)[k],
            ) by {
                if k < i {
                    assert(rel(joined.take(i as int)[k], lines@[k]));
                }
            }
        }
        lines.push(line);
        i = i + 1;
    }
    let ghost unsorted = lines@;
    sort_stable(&mut lines, &ByBrandProviderRank {  });
    proof {
        assert(joined.take(n as int) =~= joined);
        lemma_stable_sort_corresponds(pair_order(), line_order(), joined, unsorted, shown_as());
    }
    lines
}

/// At or above this, a match confidence is very high.
pub const VERY_HIGH_FROM: i64 = 900_000;

/// At or above this, a match confidence is high.
pub const HIGH_FROM: i64 = 700_000;

/// At or above this, a match confidence is medium.
pub const MEDIUM_FROM: i64 = 500_000;

/// The level of a match confidence, from 0 for very high down to 4 for
/// none. A confidence that is absent, zero or negative has level none.
pub open spec fn level_of(confidence: Option<Fixed>) -> int {
    match confidence {
        Some(c) => if c.micros >= VERY_HIGH_FROM {
            0
        } else if c.micros >= HIGH_FROM {
            1
        } else if c.micros >= MEDIUM_FROM {
            2
        } else if c.micros > 0 {
            3
        } else {
            4
        },
        None => 4,
    }
}

/// The name of a level.
pub open spec fn level_name(level: int) -> Seq<char> {
    if level == 0 {
        "very_high"@
    } else if level == 1 {
        "high"@
    } else if level == 2 {
        "medium"@
    } else if level == 3 {
        "low"@
    } else {
        "none"@
    }
}

/// The mentions whose match confidence has the given level.
pub open spec fn in_level(level: int) -> spec_fn(BrandMention) -> bool {
    |m: BrandMention| level_of(m.match_confidence) == level
}

/// How many mentions have a match confidence of the given level.
pub open spec fn level_count(mentions: Seq<BrandMention>, level: int) -> nat {
    mentions.filter(in_level(level)).len()
}

/// The line of the distribution for one level: its name and count, where
/// any mention has that level.
pub open spec fn level_entry(mentions: Seq<BrandMention>, level: int) -> Seq<(Seq<char>, int)> {
    if level_count(mentions, level) > 0 {
        seq![(level_name(level), level_count(mentions, level) as int)]
    } else {
        Seq::empty()
    }
}

/// The distribution of match confidence: the levels that occur, from very
/// high down to none, each with its number of mentions.
pub open spec fn distribution(mentions: Seq<BrandMention>) -> Seq<(Seq<char>, int)> {
    level_entry(mentions, 0) + level_entry(mentions, 1) + level_entry(mentions, 2) + level_entry(
        mentions,
        3,
    ) + level_entry(mentions, 4)
}

/// What a line of the distribution says.
pub open spec fn entry_of() -> spec_fn((String, i32)) -> (Seq<char>, int) {
    |e: (String, i32)| (e.0@, e.1 as int)
}

/// The count that a line of the distribution gives.
pub open spec fn count_of() -> spec_fn((Seq<char>, int)) -> int {
    |e: (Seq<char>, int)| e.1
}

/// Every mention has exactly one level: the counts of the five levels add
/// up to the number of mentions.
pub proof fn lemma_levels_cover(mentions: Seq<BrandMention>)
    ensures
        level_count(mentions, 0) + level_count(mentions, 1) + level_count(mentions, 2)
            + level_count(mentions, 3) + level_count(mentions, 4) == mentions.len(),
    decreases mentions.len(),
{
    if mentions.len() == 0 {
        mentions.lemma_filter_len(in_level(0));
        mentions.lemma_filter_len(in_level(1));
        mentions.lemma_filter_len(in_level(2));
        mentions.lemma_filter_len(in_level(3));
        mentions.lemma_filter_len(in_level(4));
    } else {
        let front = mentions.drop_last();
        let last = mentions.last();
        lemma_levels_cover(front);
        assert(front.push(last) =~= mentions);
        front.lemma_filter_push(last, in_level(0));
        front.lemma_filter_push(last, in_level(1));
        front.lemma_filter_push(last, in_level(2));
        front.lemma_filter_push(last, in_level(3));
        front.lemma_filter_push(last, in_level(4));
    }
}

/// The counts of a distribution add up to the number of mentions.
pub proof fn lemma_distribution_total(mentions: Seq<BrandMention>)
    ensures
        total(distribution(mentions).map_values(count_of())) == mentions.len(),
{
    lemma_levels_cover(mentions);
    let e0 = level_entry(mentions, 0);
    let e1 = level_entry(mentions, 1);
    let e2 = level_entry(mentions, 2);
    let e3 = level_entry(mentions, 3);
    let e4 = level_entry(mentions, 4);
    lemma_total_entry(Seq::empty(), mentions, 0);
    lemma_total_entry(e0, mentions, 1);
    lemma_total_entry(e0 + e1, mentions, 2);
    lemma_total_entry(e0 + e1 + e2, mentions, 3);
    lemma_total_entry(e0 + e1 + e2 + e3, mentions, 4);
    assert(Seq::<(Seq<char>, int)>::empty() + e0 =~= e0);
    assert(total(Seq::<(Seq<char>, int)>::empty().map_values(count_of())) == 0);
}

/// Adding the line of a level to some lines adds that level's count to
/// their total.
proof fn lemma_total_entry(lines: Seq<(Seq<char>, int)>, mentions: Seq<BrandMention>, level: int)
    ensures
        total((lines + level_entry(mentions, level)).map_values(count_of())) == total(
            lines.map_values(count_of()),
        ) + level_count(mentions, level),
{
    let entry = level_entry(mentions, level);
    if entry.len() == 0 {
        assert(lines + entry =~= lines);
    } else {
        assert((lines + entry).map_values(count_of()) =~= lines.map_values(count_of()).push(
            level_count(mentions, level) as int,
        ));
        lemma_total_push(lines.map_values(count_of()), level_count(mentions, level) as int);
    }
}

/// Passes the mentions whose match confidence has the given level.
pub struct InLevel {
    pub level: u8,
}

impl RowTest<BrandMention> for InLevel {
    open spec fn test(&self) -> spec_fn(BrandMention) -> bool {
        in_level(self.level as int)
    }

    fn passes(&self, row: &BrandMention) -> (r: bool) {
        let level: u8 = match row.match_confidence {
            Some(c) => if c.micros >= VERY_HIGH_FROM {
                0
            } else if c.micros >= HIGH_FROM {
                1
            } else if c.micros >= MEDIUM_FROM {
                2
            } else if c.micros > 0 {
                3
            } else {
                4
            },
            None => 4,
        };
        level == self.level
    }
}

/// The name of the level `level`.
fn name_of_level(level: u8) -> (r: String)
    ensures
        r@ == level_name(level as int),
{
    if level == 0 {
        "very_high".to_owned()
    } else if level == 1 {
        "high".to_owned()
    } else if level == 2 {
        "medium".to_owned()
    } else if level == 3 {
        "low".to_owned()
    } else {
        "none".to_owned()
    }
}

/// The distribution of match confidence over the given mentions.
pub(crate) fn confidence_distribution(mentions: &Vec<BrandMention>) -> (out: Vec<(String, i32)>)
    requires
        mentions@.len() <= MAX_ROWS,
    ensures
        out@.map_values(entry_of()) == distribution(mentions@),
{
    let mut out: Vec<(String, i32)> = Vec::new();
    proof {
        assert(out@.map_values(entry_of()) =~= Seq::<(Seq<char>, int)>::empty());
    }
    let c0: usize = count_passing(mentions, &InLevel { level: 0 });
    if c0 > 0 {
        out.push((name_of_level(0), c0 as i32));
    }
    proof {
        assert(out@.map_values(entry_of()) =~= level_entry(mentions@, 0));
    }
    let c1: usize = count_passing(mentions, &InLevel { level: 1 });
    if c1 > 0 {
        out.push((name_of_level(1), c1 as i32));
    }
    proof {
        assert(out@.map_values(entry_of()) =~= level_entry(mentions@, 0) + level_entry(
            mentions@,
            1,
        ));
    }
    let c2: usize = count_passing(mentions, &InLevel { level: 2 });
    if c2 > 0 {
        out.push((name_of_level(2), c2 as i32));
    }
    proof {
        assert(out@.map_values(entry_of()) =~= level_entry(mentions@, 0) + level_entry(
            mentions@,
            1,
        ) + level_entry(mentions@, 2));
    }
    let c3: usize = count_passing(mentions, &InLevel { level: 3 });
    if c3 > 0 {
        out.push((name_of_level(3), c3 as i32));
    }
    proof {
        assert(out@.map_values(entry_of()) =~= level_entry(mentions@, 0) + level_entry(
            mentions@,
            1,
        ) + level_entry(mentions@, 2) + level_entry(mentions@, 3));
    }
    let c4: usize = count_passing(mentions, &InLevel { level: 4 });
    if c4 > 0 {
        out.push((name_of_level(4), c4 as i32));
    }
    proof {
        assert(out@.map_values(entry_of()) =~= distribution(mentions@));
    }
    out
}

} // verus!
