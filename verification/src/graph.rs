//! The competitor graph: edges by strength, nodes sized by degree.

use crate::fixed::{Fixed, SCALE};
use crate::grouping::{
    distinct, first_of_each, lemma_distinct_members, lemma_first_of_each_keys,
    lemma_occurrences_push,
    lemma_occurrences_zero, occurrences, rows_at, tally, RowKey,
};
use crate::models::{CompetitorGraph, CompetitorRelationship, GraphEdge, GraphNode};
use crate::selection::{select, RowTest};
use crate::sorting::{lemma_stable_sort_rearranges, sort_stable, stable_sort, RowOrder};
use crate::storage::MAX_ROWS;
use crate::text::text_of;
use vstd::prelude::*;

verus! {

/// What every node's size starts from, so that a brand with few
/// relationships can still be seen.
pub const BASE_NODE_SIZE: i64 = 10;

/// The relationships whose strength is at least `min`.
pub open spec fn at_least(min: Fixed) -> spec_fn(CompetitorRelationship) -> bool {
    |r: CompetitorRelationship| r.strength_score.micros >= min.micros
}

/// The stronger of two relationships may stand first.
pub open spec fn stronger_first() -> spec_fn(
    CompetitorRelationship,
    CompetitorRelationship,
) -> bool {
    |a: CompetitorRelationship, b: CompetitorRelationship|
        a.strength_score.micros >= b.strength_score.micros
}

/// The edge that stands for a relationship.
pub open spec fn edge_of(r: CompetitorRelationship) -> GraphEdge {
    GraphEdge {
        source: r.brand_name_1,
        target: r.brand_name_2,
        weight: r.strength_score,
        co_mentions: r.co_mention_count,
        avg_distance: r.avg_rank_distance,
    }
}

/// The edges of the graph at threshold `min`: one for each relationship at
/// least that strong, strongest first, equally strong ones in storage order.
pub open spec fn graph_edges(rels: Seq<CompetitorRelationship>, min: Fixed) -> Seq<GraphEdge> {
    stable_sort(stronger_first(), rels.filter(at_least(min))).map_values(
        |r: CompetitorRelationship| edge_of(r),
    )
}

/// The names at the ends of the edges: source, then target, edge by edge.
pub open spec fn endpoints(edges: Seq<GraphEdge>) -> Seq<Seq<char>>
    decreases edges.len(),
{
    if edges.len() == 0 {
        Seq::empty()
    } else {
        endpoints(edges.drop_last()).push(edges.last().source@).push(edges.last().target@)
    }
}

/// The brands that the edges touch, each once, in the order in which the
/// edges first name them.
pub open spec fn node_names(edges: Seq<GraphEdge>) -> Seq<Seq<char>> {
    distinct(endpoints(edges))
}

/// The edges that leave `name`.
pub open spec fn leaves(name: Seq<char>) -> spec_fn(GraphEdge) -> bool {
    |e: GraphEdge| e.source@ == name
}

/// The edges that reach `name`.
pub open spec fn reaches(name: Seq<char>) -> spec_fn(GraphEdge) -> bool {
    |e: GraphEdge| e.target@ == name
}

/// How many ends of edges lie at `name`.
pub open spec fn degree(edges: Seq<GraphEdge>, name: Seq<char>) -> nat {
    edges.filter(leaves(name)).len() + edges.filter(reaches(name)).len()
}

/// `node` is the node of brand `name` in a graph with these edges: it goes
/// by that name, and its size is the brand's degree above the base size.
pub open spec fn is_node_of(node: GraphNode, edges: Seq<GraphEdge>, name: Seq<char>) -> bool {
    &&& node.id@ == name
    &&& node.label@ == name
    &&& node.size matches Some(size)
    &&& size.micros == (degree(edges, name) + BASE_NODE_SIZE) * SCALE
}

/// `graph` is the competitor graph of `rels` at threshold `min`.
pub open spec fn is_graph_of(
    graph: CompetitorGraph,
    rels: Seq<CompetitorRelationship>,
    min: Fixed,
) -> bool {
    &&& graph.edges@ == graph_edges(rels, min)
    &&& graph.nodes@.len() == node_names(graph.edges@).len()
    &&& forall|k: int|
        0 <= k < graph.nodes@.len() ==> is_node_of(
            #[trigger] graph.nodes@[k],
            graph.edges@,
            node_names(graph.edges@)[k],
        )
    &&& graph.total_nodes == graph.nodes@.len()
    &&& graph.total_edges == graph.edges@.len()
}

/// The degree of a brand is the number of times it is named at an end of an
/// edge.
pub proof fn lemma_degree_counts_endpoints(edges: Seq<GraphEdge>, name: Seq<char>)
    ensures
        occurrences(endpoints(edges), name) == degree(edges, name),
        endpoints(edges).len() == 2 * edges.len(),
    decreases edges.len(),
{
    if edges.len() == 0 {
        assert(edges.filter(leaves(name)).len() == 0) by {
            edges.lemma_filter_len(leaves(name));
        }
        assert(edges.filter(reaches(name)).len() == 0) by {
            edges.lemma_filter_len(reaches(name));
        }
        lemma_occurrences_zero(endpoints(edges), name);
    } else {
        let front = edges.drop_last();
        let last = edges.last();
        lemma_degree_counts_endpoints(front, name);
        assert(front.push(last) =~= edges);
        front.lemma_filter_push(last, leaves(name));
        front.lemma_filter_push(last, reaches(name));
        lemma_occurrences_push(endpoints(front), last.source@, name);
        lemma_occurrences_push(endpoints(front).push(last.source@), last.target@, name);
    }
}

/// The nodes are the brands that some edge touches: a brand is among the
/// node names exactly when its degree is positive, and no brand is named
/// twice.
pub proof fn lemma_nodes_are_touched(edges: Seq<GraphEdge>, name: Seq<char>)
    ensures
        node_names(edges).contains(name) <==> degree(edges, name) > 0,
        node_names(edges).no_duplicates(),
{
    lemma_distinct_members(endpoints(edges));
    lemma_occurrences_zero(endpoints(edges), name);
    lemma_degree_counts_endpoints(edges, name);
}

/// Lowering the threshold loses no edge: every edge of the graph at the
/// higher threshold is an edge of the graph at the lower one.
pub proof fn lemma_lower_threshold_keeps_edges(
    rels: Seq<CompetitorRelationship>,
    low: Fixed,
    high: Fixed,
)
    requires
        low.micros <= high.micros,
    ensures
        forall|e: GraphEdge|
            graph_edges(rels, high).contains(e) ==> graph_edges(rels, low).contains(e),
        graph_edges(rels, high).len() <= graph_edges(rels, low).len(),
{
    let kept_high = rels.filter(at_least(high));
    let kept_low = rels.filter(at_least(low));
    let sorted_high = stable_sort(stronger_first(), kept_high);
    let sorted_low = stable_sort(stronger_first(), kept_low);
    lemma_stable_sort_rearranges(stronger_first(), kept_high);
    lemma_stable_sort_rearranges(stronger_first(), kept_low);
    assert forall|e: GraphEdge| graph_edges(rels, high).contains(e) implies graph_edges(
        rels,
        low,
    ).contains(e) by {
        let i = choose|i: int|
            0 <= i < graph_edges(rels, high).len() && graph_edges(rels, high)[i] == e;
        let r = sorted_high[i];
        assert(sorted_high.contains(r));
        assert(kept_high.contains(r));
        let j = choose|j: int| 0 <= j < kept_high.len() && kept_high[j] == r;
        rels.lemma_filter_pred(at_least(high), j);
        rels.lemma_filter_contains_rev(at_least(high), r);
        let k = choose|k: int| 0 <= k < rels.len() && rels[k] == r;
        rels.lemma_filter_contains(at_least(low), k);
        assert(sorted_low.contains(r));
        let m = choose|m: int| 0 <= m < sorted_low.len() && sorted_low[m] == r;
        assert(graph_edges(rels, low)[m] == e);
    }
    lemma_filter_narrows(rels, low, high);
}

/// The relationships at least as strong as a higher threshold are among
/// those at least as strong as a lower one.
proof fn lemma_filter_narrows(rels: Seq<CompetitorRelationship>, low: Fixed, high: Fixed)
    requires
        low.micros <= high.micros,
    ensures
        rels.filter(at_least(high)).len() <= rels.filter(at_least(low)).len(),
    decreases rels.len(),
{
    if rels.len() == 0 {
        rels.lemma_filter_len(at_least(high));
    } else {
        let front = rels.drop_last();
        lemma_filter_narrows(front, low, high);
        assert(front.push(rels.last()) =~= rels);
        front.lemma_filter_push(rels.last(), at_least(high));
        front.lemma_filter_push(rels.last(), at_least(low));
    }
}

/// Ranks relationships by strength, strongest first.
pub struct StrongerFirst {}

impl RowOrder<CompetitorRelationship> for StrongerFirst {
    open spec fn relation(&self) -> spec_fn(
        CompetitorRelationship,
        CompetitorRelationship,
    ) -> bool {
        stronger_first()
    }

    fn in_order(&self, a: &CompetitorRelationship, b: &CompetitorRelationship) -> (r: bool) {
        a.strength_score.micros >= b.strength_score.micros
    }
}

/// Passes the relationships whose strength is at least `min`.
pub struct AtLeast {
    pub min: Fixed,
}

impl RowTest<CompetitorRelationship> for AtLeast {
    open spec fn test(&self) -> spec_fn(CompetitorRelationship) -> bool {
        at_least(self.min)
    }

    fn passes(&self, row: &CompetitorRelationship) -> (r: bool) {
        row.strength_score.micros >= self.min.micros
    }
}

/// Groups strings by the text they hold.
pub struct ByText {}

impl RowKey<String, Seq<char>> for ByText {
    open spec fn key(&self) -> spec_fn(String) -> Seq<char> {
        text_of()
    }

    fn same_key(&self, a: &String, b: &String) -> (r: bool) {
        *a == *b
    }
}

/// The competitor graph of `rels` at threshold `min`.
pub(crate) fn build_graph(rels: &Vec<CompetitorRelationship>, min: Fixed) -> (graph:
    CompetitorGraph)
    requires
        rels@.len() <= MAX_ROWS,
    ensures
        is_graph_of(graph, rels@, min),
{
    let mut rows = select(rels, &AtLeast { min });
    proof {
        rels@.lemma_filter_len(at_least(min));
    }
    sort_stable(&mut rows, &StrongerFirst {  });
    proof {
        lemma_stable_sort_rearranges(stronger_first(), rels@.filter(at_least(min)));
    }
    let mut edges: Vec<GraphEdge> = Vec::new();
    let mut ends: Vec<String> = Vec::new();
    let n: usize = rows.len();
    let mut i: usize = 0;
    while i < n
        invariant
            n == rows@.len(),
            0 <= i <= n,
            edges@ == rows@.take(i as int).map_values(|r: CompetitorRelationship| edge_of(r)),
            ends@.map_values(text_of()) == endpoints(edges@),
        decreases n - i,
    {
        let row = &rows[i];
        let edge = GraphEdge {
            source: row.brand_name_1.clone(),
            target: row.brand_name_2.clone(),
            weight: row.strength_score,
            co_mentions: row.co_mention_count,
            avg_distance: row.avg_rank_distance,
        };
        proof {
            assert(edge == edge_of(rows@[i as int]));
            assert(edges@.push(edge).drop_last() =~= edges@);
            assert(rows@.take(i as int + 1).map_values(|r: CompetitorRelationship| edge_of(r))
                =~= edges@.push(edge));
            assert(ends@.push(edge.source).push(edge.target).map_values(text_of())
                =~= ends@.map_values(text_of()).push(edge.source@).push(edge.target@));
        }
        ends.push(edge.source.clone());
        ends.push(edge.target.clone());
        edges.push(edge);
        i = i + 1;
    }
    proof {
        assert(rows@.take(n as int) =~= rows@);
    }
    let (firsts, counts) = tally(&ends, &ByText {  });
    let ghost names = node_names(edges@);
    proof {
        let heads = first_of_each(ends@, text_of());
        lemma_first_of_each_keys(ends@, text_of());
        assert forall|q: int| 0 <= q < firsts@.len() implies ends@[#[trigger] firsts@[q] as int]@
            == names[q] by {
            assert(rows_at(ends@, firsts@)[q] == heads[q]);
            assert(heads.map_values(text_of())[q] == names[q]);
        }
        assert forall|q: int| 0 <= q < counts@.len() implies #[trigger] counts@[q] == occurrences(
            endpoints(edges@),
            names[q],
        ) by {
            assert(heads.map_values(text_of())[q] == names[q]);
        }
    }
    let mut nodes: Vec<GraphNode> = Vec::new();
    let m: usize = firsts.len();
    let mut j: usize = 0;
    while j < m
        invariant
            m == firsts@.len(),
            m == counts@.len(),
            m == names.len(),
            0 <= j <= m,
            names == node_names(edges@),
            edges@.len() <= MAX_ROWS,
            ends@.map_values(text_of()) == endpoints(edges@),
            forall|q: int|
                0 <= q < m ==> {
                    &&& #[trigger] firsts@[q] < ends@.len()
                    &&& ends@[firsts@[q] as int]@ == names[q]
                },
            forall|q: int|
                0 <= q < m ==> #[trigger] counts@[q] == occurrences(endpoints(edges@), names[q]),
            nodes@.len() == j,
            forall|q: int| 0 <= q < j ==> is_node_of(#[trigger] nodes@[q], edges@, names[q]),
        decreases m - j,
    {
        let name = &ends[firsts[j]];
        proof {
            lemma_degree_counts_endpoints(edges@, names[j as int]);
            lemma_occurrences_zero(endpoints(edges@), names[j as int]);
        }
        let touching: i64 = counts[j] as i64;
        let node = GraphNode {
            id: name.clone(),
            label: name.clone(),
            size: Some(Fixed { micros: (touching + BASE_NODE_SIZE) * SCALE }),
        };
        nodes.push(node);
        j = j + 1;
    }
    let total_nodes: usize = nodes.len();
    let total_edges: usize = edges.len();
    CompetitorGraph { nodes, edges, total_nodes, total_edges }
}

} // verus!
