//! The storage handle: a snapshot of the tables, or the fact that there is
//! none.

use crate::models::{
    BrandMention, CoMention, CompetitorRelationship, EvaluationStats, QualityRecord, Response,
    ScoreRecord, Source,
};
use crate::selection::Record;
use vstd::prelude::*;

verus! {

/// The most rows a table of a snapshot may hold, so that every count over it
/// fits the counters of the reports.
pub const MAX_ROWS: usize = 2_147_483_647;

/// Why a report could not be made.
#[derive(Debug, Clone, Copy, PartialEq, Eq, Structural)]
pub enum StorageError {
    /// The backing store does not exist or could not be opened.
    Unavailable,
}

/// A table as it was read.
pub enum Table<T> {
    /// The table could not be read at all.
    Unreadable,
    /// The rows of the table in storage order, each as the record it was
    /// read as, or nothing where it could not be read as one.
    Rows(Vec<Option<T>>),
}

/// The stored tables as they stood when they were read, each in storage
/// order.
pub struct Snapshot {
    pub(crate) mentions: Vec<BrandMention>,
    pub(crate) responses: Vec<Response>,
    pub(crate) co_mentions: Vec<CoMention>,
    pub(crate) relationships: Vec<CompetitorRelationship>,
    pub(crate) scores: Vec<ScoreRecord>,
    pub(crate) quality: Vec<QualityRecord>,
    pub(crate) sources: Vec<Source>,
    pub(crate) evaluations: Vec<EvaluationStats>,
    pub(crate) skipped: u64,
}

/// The storage handle that every report is given.
pub enum Storage {
    /// The backing store does not exist or could not be opened.
    Unavailable,
    /// The backing store was read.
    Open(Snapshot),
}

impl StorageError {
    /// What went wrong, in words.
    pub fn message(&self) -> (r: String)
        ensures
            r@ == "storage unavailable"@,
    {
        "storage unavailable".to_owned()
    }
}

/// A row as a record, where it was read as one.
pub open spec fn as_record<T>() -> spec_fn(Option<T>) -> Option<T> {
    |row: Option<T>| row
}

impl<T> Table<T> {
    /// How many rows were met.
    pub open spec fn size(self) -> nat {
        match self {
            Table::Unreadable => 0,
            Table::Rows(rows) => rows@.len(),
        }
    }

    /// The records that were read, in storage order. A table that could not
    /// be read gives none, and a row that could not be read as a record is
    /// left out.
    pub open spec fn records(self) -> Seq<T> {
        match self {
            Table::Unreadable => Seq::empty(),
            Table::Rows(rows) => rows@.filter_map(as_record()),
        }
    }

    /// How many rows were left out.
    pub open spec fn left_out(self) -> int {
        self.size() - self.records().len()
    }
}

/// The records of a table and the number of rows left out.
fn take_records<T: Record>(table: &Table<T>) -> (r: (Vec<T>, u64))
    requires
        table.size() <= MAX_ROWS,
    ensures
        r.0@ == table.records(),
        r.1 == table.left_out(),
        r.0@.len() <= MAX_ROWS,
        r.1 <= MAX_ROWS,
{
    let mut records: Vec<T> = Vec::new();
    let mut skipped: u64 = 0;
    match table {
        Table::Unreadable => {},
        Table::Rows(rows) => {
            let n: usize = rows.len();
            let mut i: usize = 0;
            while i < n
                invariant
                    n == rows@.len(),
                    n <= MAX_ROWS,
                    0 <= i <= n,
                    records@ == rows@.take(i as int).filter_map(as_record()),
                    skipped == i - records@.len(),
                    records@.len() <= i,
                decreases n - i,
            {
                proof {
                    rows@.lemma_filter_map_take_succ(as_record(), i as int);
                }
                match &rows[i] {
                    Some(record) => {
                        records.push(record.duplicate());
                    },
                    None => {
                        skipped = skipped + 1;
                        proof {
                            assert(records@ + Seq::<T>::empty() =~= records@);
                        }
                    },
                }
                i = i + 1;
            }
            proof {
                assert(rows@.take(n as int) =~= rows@);
            }
        },
    }
    (records, skipped)
}

/// How many rows were met when `table` was read.
fn table_size<T>(table: &Table<T>) -> (n: usize)
    ensures
        n == table.size(),
{
    match table {
        Table::Unreadable => 0,
        Table::Rows(rows) => rows.len(),
    }
}

impl Snapshot {
    /// No table holds more than `MAX_ROWS` rows.
    #[verifier::type_invariant]
    spec fn within_limits(&self) -> bool {
        &&& self.mentions@.len() <= MAX_ROWS
        &&& self.responses@.len() <= MAX_ROWS
        &&& self.co_mentions@.len() <= MAX_ROWS
        &&& self.relationships@.len() <= MAX_ROWS
        &&& self.scores@.len() <= MAX_ROWS
        &&& self.quality@.len() <= MAX_ROWS
        &&& self.sources@.len() <= MAX_ROWS
        &&& self.evaluations@.len() <= MAX_ROWS
    }

    /// The `mentions` table.
    pub closed spec fn mentions(&self) -> Seq<BrandMention> {
        self.mentions@
    }

    /// The `responses` table.
    pub closed spec fn responses(&self) -> Seq<Response> {
        self.responses@
    }

    /// The `co_mentions` table.
    pub closed spec fn co_mentions(&self) -> Seq<CoMention> {
        self.co_mentions@
    }

    /// The `competitor_relationships` table.
    pub closed spec fn relationships(&self) -> Seq<CompetitorRelationship> {
        self.relationships@
    }

    /// The `hallucination_scores` table.
    pub closed spec fn scores(&self) -> Seq<ScoreRecord> {
        self.scores@
    }

    /// The `response_quality` table.
    pub closed spec fn quality(&self) -> Seq<QualityRecord> {
        self.quality@
    }

    /// The `sources` table.
    pub closed spec fn sources(&self) -> Seq<Source> {
        self.sources@
    }

    /// The `evaluation_stats` table.
    pub closed spec fn evaluations(&self) -> Seq<EvaluationStats> {
        self.evaluations@
    }

    /// How many rows were left out when the tables were read.
    pub closed spec fn skipped(&self) -> int {
        self.skipped as int
    }

    /// A snapshot of the tables as they were read, unless one of them has
    /// more than `MAX_ROWS` rows. A table that could not be read counts as
    /// empty, and a row that could not be read as a record is left out and
    /// counted.
    pub fn read(
        mentions: Table<BrandMention>,
        responses: Table<Response>,
        co_mentions: Table<CoMention>,
        relationships: Table<CompetitorRelationship>,
        scores: Table<ScoreRecord>,
        quality: Table<QualityRecord>,
        sources: Table<Source>,
        evaluations: Table<EvaluationStats>,
    ) -> (r: Option<Snapshot>)
        ensures
            r is Some <==> {
                &&& mentions.size() <= MAX_ROWS
                &&& responses.size() <= MAX_ROWS
                &&& co_mentions.size() <= MAX_ROWS
                &&& relationships.size() <= MAX_ROWS
                &&& scores.size() <= MAX_ROWS
                &&& quality.size() <= MAX_ROWS
                &&& sources.size() <= MAX_ROWS
                &&& evaluations.size() <= MAX_ROWS
            },
            r matches Some(s) ==> {
                &&& s.mentions() == mentions.records()
                &&& s.responses() == responses.records()
                &&& s.co_mentions() == co_mentions.records()
                &&& s.relationships() == relationships.records()
                &&& s.scores() == scores.records()
                &&& s.quality() == quality.records()
                &&& s.sources() == sources.records()
                &&& s.evaluations() == evaluations.records()
                &&& s.skipped() == mentions.left_out() + responses.left_out()
                    + co_mentions.left_out() + relationships.left_out() + scores.left_out()
                    + quality.left_out() + sources.left_out() + evaluations.left_out()
            },
    {
        if table_size(&mentions) <= MAX_ROWS && table_size(&responses) <= MAX_ROWS && table_size(
            &co_mentions,
        ) <= MAX_ROWS && table_size(&relationships) <= MAX_ROWS && table_size(&scores) <= MAX_ROWS
            && table_size(&quality) <= MAX_ROWS && table_size(&sources) <= MAX_ROWS && table_size(
            &evaluations,
        ) <= MAX_ROWS {
            let (mentions, a) = take_records(&mentions);
            let (responses, b) = take_records(&responses);
            let (co_mentions, c) = take_records(&co_mentions);
            let (relationships, d) = take_records(&relationships);
            let (scores, e) = take_records(&scores);
            let (quality, f) = take_records(&quality);
            let (sources, g) = take_records(&sources);
            let (evaluations, h) = take_records(&evaluations);
            Some(
                Snapshot {
                    mentions,
                    responses,
                    co_mentions,
                    relationships,
                    scores,
                    quality,
                    sources,
                    evaluations,
                    skipped: a + b + c + d + e + f + g + h,
                },
            )
        } else {
            None
        }
    }

    /// A snapshot of the given tables, unless one of them holds more than
    /// `MAX_ROWS` rows. No row counts as left out.
    pub fn new(
        mentions: Vec<BrandMention>,
        responses: Vec<Response>,
        co_mentions: Vec<CoMention>,
        relationships: Vec<CompetitorRelationship>,
        scores: Vec<ScoreRecord>,
        quality: Vec<QualityRecord>,
        sources: Vec<Source>,
        evaluations: Vec<EvaluationStats>,
    ) -> (r: Option<Snapshot>)
        ensures
            r is Some <==> {
                &&& mentions@.len() <= MAX_ROWS
                &&& responses@.len() <= MAX_ROWS
                &&& co_mentions@.len() <= MAX_ROWS
                &&& relationships@.len() <= MAX_ROWS
                &&& scores@.len() <= MAX_ROWS
                &&& quality@.len() <= MAX_ROWS
                &&& sources@.len() <= MAX_ROWS
                &&& evaluations@.len() <= MAX_ROWS
            },
            r matches Some(s) ==> {
                &&& s.mentions() == mentions@
                &&& s.responses() == responses@
                &&& s.co_mentions() == co_mentions@
                &&& s.relationships() == relationships@
                &&& s.scores() == scores@
                &&& s.quality() == quality@
                &&& s.sources() == sources@
                &&& s.evaluations() == evaluations@
                &&& s.skipped() == 0
            },
    {
        if mentions.len() <= MAX_ROWS && responses.len() <= MAX_ROWS && co_mentions.len()
            <= MAX_ROWS && relationships.len() <= MAX_ROWS && scores.len() <= MAX_ROWS
            && quality.len() <= MAX_ROWS && sources.len() <= MAX_ROWS && evaluations.len()
            <= MAX_ROWS {
            Some(
                Snapshot {
                    mentions,
                    responses,
                    co_mentions,
                    relationships,
                    scores,
                    quality,
                    sources,
                    evaluations,
                    skipped: 0,
                },
            )
        } else {
            None
        }
    }

    /// How many rows were left out when the tables were read.
    pub fn skipped_rows(&self) -> (r: u64)
        ensures
            r == self.skipped(),
    {
        self.skipped
    }

    /// The rows of the `mentions` table.
    pub fn mention_rows(&self) -> (r: &Vec<BrandMention>)
        ensures
            r@ == self.mentions(),
            r@.len() <= MAX_ROWS,
    {
        proof {
            use_type_invariant(self);
        }
        &self.mentions
    }

    /// The rows of the `responses` table.
    pub fn response_rows(&self) -> (r: &Vec<Response>)
        ensures
            r@ == self.responses(),
            r@.len() <= MAX_ROWS,
    {
        proof {
            use_type_invariant(self);
        }
        &self.responses
    }

    /// The rows of the `co_mentions` table.
    pub fn co_mention_rows(&self) -> (r: &Vec<CoMention>)
        ensures
            r@ == self.co_mentions(),
            r@.len() <= MAX_ROWS,
    {
        proof {
            use_type_invariant(self);
        }
        &self.co_mentions
    }

    /// The rows of the `competitor_relationships` table.
    pub fn relationship_rows(&self) -> (r: &Vec<CompetitorRelationship>)
        ensures
            r@ == self.relationships(),
            r@.len() <= MAX_ROWS,
    {
        proof {
            use_type_invariant(self);
        }
        &self.relationships
    }

    /// The rows of the `hallucination_scores` table.
    pub fn score_rows(&self) -> (r: &Vec<ScoreRecord>)
        ensures
            r@ == self.scores(),
            r@.len() <= MAX_ROWS,
    {
        proof {
            use_type_invariant(self);
        }
        &self.scores
    }

    /// The rows of the `response_quality` table.
    pub fn quality_rows(&self) -> (r: &Vec<QualityRecord>)
        ensures
            r@ == self.quality(),
            r@.len() <= MAX_ROWS,
    {
        proof {
            use_type_invariant(self);
        }
        &self.quality
    }

    /// The rows of the `sources` table.
    pub fn source_rows(&self) -> (r: &Vec<Source>)
        ensures
            r@ == self.sources(),
            r@.len() <= MAX_ROWS,
    {
        proof {
            use_type_invariant(self);
        }
        &self.sources
    }

    /// The rows of the `evaluation_stats` table.
    pub fn evaluation_rows(&self) -> (r: &Vec<EvaluationStats>)
        ensures
            r@ == self.evaluations(),
            r@.len() <= MAX_ROWS,
    {
        proof {
            use_type_invariant(self);
        }
        &self.evaluations
    }
}

} // verus!
