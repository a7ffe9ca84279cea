//! The strongest competitors of a brand, whichever way round a pair is
//! stored.

use crate::graph::{stronger_first, StrongerFirst};
use crate::models::CompetitorRelationship;
use crate::selection::{first_rows, keep_first, lemma_filter_map, select, RowTest};
use crate::sorting::{
    is_ordered, lemma_stable_sort_map, lemma_stable_sort_ordered, lemma_stable_sort_rearranges,
    sort_stable, stable_sort,
};
use vstd::prelude::*;

verus! {

/// The relationships that have `brand` at either end.
pub open spec fn involves(brand: Seq<char>) -> spec_fn(CompetitorRelationship) -> bool {
    |r: CompetitorRelationship| r.brand_name_1@ == brand || r.brand_name_2@ == brand
}

/// The relationships of `brand`, strongest first, equally strong ones in
/// storage order.
pub open spec fn ranked_competitors(
    rels: Seq<CompetitorRelationship>,
    brand: Seq<char>,
) -> Seq<CompetitorRelationship> {
    stable_sort(stronger_first(), rels.filter(involves(brand)))
}

/// The `n` strongest relationships of `brand`.
pub open spec fn top_competitors(
    rels: Seq<CompetitorRelationship>,
    brand: Seq<char>,
    n: int,
) -> Seq<CompetitorRelationship> {
    first_rows(ranked_competitors(rels, brand), n)
}

/// The brand at the other end of `r`, seen from `brand`.
pub open spec fn other_side(r: CompetitorRelationship, brand: Seq<char>) -> Seq<char> {
    if r.brand_name_1@ == brand {
        r.brand_name_2@
    } else {
        r.brand_name_1@
    }
}

/// `r` with its two ends exchanged.
pub open spec fn mirrored(r: CompetitorRelationship) -> CompetitorRelationship {
    CompetitorRelationship {
        brand_name_1: r.brand_name_2,
        brand_name_2: r.brand_name_1,
        co_mention_count: r.co_mention_count,
        avg_rank_distance: r.avg_rank_distance,
        strength_score: r.strength_score,
        first_seen: r.first_seen,
        last_seen: r.last_seen,
    }
}

/// The top competitors are at most `n`, all have the brand at one end, and
/// come strongest first.
pub proof fn lemma_top_competitors_ranked(
    rels: Seq<CompetitorRelationship>,
    brand: Seq<char>,
    n: int,
)
    ensures
        top_competitors(rels, brand, n).len() <= if n <= 0 {
            0
        } else {
            n
        },
        is_ordered(stronger_first(), top_competitors(rels, brand, n)),
        forall|i: int|
            0 <= i < top_competitors(rels, brand, n).len() ==> involves(brand)(
                #[trigger] top_competitors(rels, brand, n)[i],
            ),
        forall|i: int|
            0 <= i < top_competitors(rels, brand, n).len() ==> rels.contains(
                #[trigger] top_competitors(rels, brand, n)[i],
            ),
{
    let kept = rels.filter(involves(brand));
    let ranked = ranked_competitors(rels, brand);
    let top = top_competitors(rels, brand, n);
    lemma_stable_sort_ordered(stronger_first(), kept);
    lemma_stable_sort_rearranges(stronger_first(), kept);
    assert forall|i: int| 0 <= i < top.len() implies involves(brand)(#[trigger] top[i])
        && rels.contains(top[i]) by {
        assert(top[i] == ranked[i]);
        assert(ranked.contains(ranked[i]));
        assert(kept.contains(ranked[i]));
        let j = choose|j: int| 0 <= j < kept.len() && kept[j] == ranked[i];
        rels.lemma_filter_pred(involves(brand), j);
        rels.lemma_filter_contains_rev(involves(brand), ranked[i]);
    }
    assert forall|i: int, j: int| 0 <= i < j < top.len() implies stronger_first()(
        #[trigger] top[i],
        #[trigger] top[j],
    ) by {
        assert(top[i] == ranked[i] && top[j] == ranked[j]);
    }
}

/// The lookup does not depend on which way round a pair is stored: if every
/// stored relationship is rewritten in a way that keeps its strength and
/// whether `brand` is at one of its ends, the same relationships come back,
/// rewritten.
pub proof fn lemma_lookup_ignores_orientation(
    rels: Seq<CompetitorRelationship>,
    brand: Seq<char>,
    n: int,
    rewrite: spec_fn(CompetitorRelationship) -> CompetitorRelationship,
)
    requires
        forall|r: CompetitorRelationship| #[trigger]
            rewrite(r).strength_score == r.strength_score,
        forall|r: CompetitorRelationship| #[trigger]
            involves(brand)(rewrite(r)) == involves(brand)(r),
    ensures
        top_competitors(rels.map_values(rewrite), brand, n) == top_competitors(
            rels,
            brand,
            n,
        ).map_values(rewrite),
{
    let p = involves(brand);
    let le = stronger_first();
    lemma_filter_map(rels, p, rewrite);
    assert forall|a: CompetitorRelationship, b: CompetitorRelationship| #[trigger]
        le(rewrite(a), rewrite(b)) == le(a, b) by {
        assert(rewrite(a).strength_score == a.strength_score);
        assert(rewrite(b).strength_score == b.strength_score);
    }
    lemma_stable_sort_map(le, rels.filter(p), rewrite);
    let ranked = ranked_competitors(rels, brand);
    assert(ranked_competitors(rels.map_values(rewrite), brand) == ranked.map_values(rewrite));
    assert(first_rows(ranked.map_values(rewrite), n) =~= first_rows(ranked, n).map_values(rewrite));
}

/// The lookup is symmetric: with every pair stored the other way round, the
/// same relationships come back, each the other way round. So a
/// relationship of a brand is found whether it is stored as `(A, B)` or as
/// `(B, A)`.
pub proof fn lemma_lookup_symmetric(rels: Seq<CompetitorRelationship>, brand: Seq<char>, n: int)
    ensures
        top_competitors(
            rels.map_values(|r: CompetitorRelationship| mirrored(r)),
            brand,
            n,
        ) == top_competitors(rels, brand, n).map_values(|r: CompetitorRelationship| mirrored(r)),
{
    lemma_lookup_ignores_orientation(rels, brand, n, |r: CompetitorRelationship| mirrored(r));
}

/// Passes the relationships that have `brand` at either end.
pub struct Involves {
    pub brand: String,
}

impl RowTest<CompetitorRelationship> for Involves {
    open spec fn test(&self) -> spec_fn(CompetitorRelationship) -> bool {
        involves(self.brand@)
    }

    fn passes(&self, row: &CompetitorRelationship) -> (r: bool) {
        row.brand_name_1 == self.brand || row.brand_name_2 == self.brand
    }
}

/// The brand at the other end of `rel`, seen from `brand`: the second name
/// where the first is `brand`, else the first.
pub fn competitor_of(rel: &CompetitorRelationship, brand: &str) -> (r: String)
    ensures
        r@ == other_side(*rel, brand@),
{
    let own = brand.to_owned();
    if rel.brand_name_1 == own {
        rel.brand_name_2.clone()
    } else {
        rel.brand_name_1.clone()
    }
}

/// The `n` strongest relationships of `brand` among `rels`.
pub fn rank_competitors(rels: &Vec<CompetitorRelationship>, brand: &str, n: i32) -> (out: Vec<
    CompetitorRelationship,
>)
    ensures
        out@ == top_competitors(rels@, brand@, n as int),
        out@.len() <= if n <= 0 {
            0
        } else {
            n as int
        },
        is_ordered(stronger_first(), out@),
{
    proof {
        lemma_top_competitors_ranked(rels@, brand@, n as int);
    }
    if n <= 0 {
        return Vec::new();
    }
    let mut rows = select(rels, &Involves { brand: brand.to_owned() });
    sort_stable(&mut rows, &StrongerFirst {  });
    keep_first(&mut rows, n as usize);
    rows
}

} // verus!
