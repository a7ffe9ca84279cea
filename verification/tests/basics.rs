use llmseo_ui::fixed::{floor_div, mean_of, Fixed, SCALE};
use llmseo_ui::graph::{ByText, StrongerFirst};
use llmseo_ui::grouping::tally;
use llmseo_ui::joining::join_rows;
use llmseo_ui::models::{copy_text, BrandMention, CompetitorRelationship, Response};
use llmseo_ui::rollups::FoundIn;
use llmseo_ui::selection::{count_passing, keep_first, select, Record};
use llmseo_ui::sorting::sort_stable;
use llmseo_ui::storage::{Snapshot, StorageError, Table, MAX_ROWS};
use llmseo_ui::text::{append_decimal, text_at_most};

fn amounts(values: &[i64]) -> Vec<Fixed> {
    values.iter().map(|v| Fixed { micros: *v }).collect()
}

fn pair_b(tag: i32, score: i64) -> CompetitorRelationship {
    CompetitorRelationship {
        brand_name_1: "A".to_string(),
        brand_name_2: "B".to_string(),
        co_mention_count: tag,
        avg_rank_distance: Fixed { micros: 0 },
        strength_score: Fixed { micros: score },
        first_seen: Fixed { micros: 0 },
        last_seen: Fixed { micros: 0 },
    }
}

fn mention_b(id: i64, response_id: i64) -> BrandMention {
    BrandMention {
        id,
        brand_id: 1,
        brand_name: "A".to_string(),
        alias_used: "a".to_string(),
        rank_position: 1,
        explanation: Some("e".to_string()),
        response_id,
        match_method: None,
        match_confidence: None,
        match_reasoning: None,
    }
}

fn response_b(id: i64) -> Response {
    Response {
        id,
        provider_name: "p".to_string(),
        model_name: "m".to_string(),
        query_id: Some(1),
        raw_response: None,
        timestamp: Fixed { micros: 0 },
        error_message: Some("e".to_string()),
    }
}

#[test]
fn one_whole_is_a_million() {
    assert_eq!(SCALE, 1_000_000);
    assert_eq!(Fixed::zero(), Fixed { micros: 0 });
    assert_eq!(Fixed::from_whole(3), Fixed { micros: 3_000_000 });
    assert_eq!(Fixed::from_whole(-2), Fixed { micros: -2_000_000 });
    assert_eq!(Fixed::from_whole(i32::MAX), Fixed { micros: 2_147_483_647_000_000 });
    assert_eq!(Fixed::from_whole(i32::MIN), Fixed { micros: -2_147_483_648_000_000 });
}

#[test]
fn quotients_round_down() {
    assert_eq!(floor_div(7, 2), 3);
    assert_eq!(floor_div(-7, 2), -4);
    assert_eq!(floor_div(-8, 2), -4);
    assert_eq!(floor_div(-1, 5), -1);
    assert_eq!(floor_div(0, 5), 0);
    assert_eq!(floor_div(i128::MAX, 1), i128::MAX);
    assert_eq!(floor_div(i128::MIN + 1, 1), i128::MIN + 1);
    assert_eq!(floor_div(i128::MIN, 1), i128::MIN);
    assert_eq!(floor_div(i128::MIN, 2), i128::MIN / 2);
    assert_eq!(floor_div(i128::MIN, 3), i128::MIN / 3 - 1);
    assert_eq!(floor_div(i128::MIN, i128::MAX), -2);
}

#[test]
fn mean_is_the_sum_over_the_number_rounded_down() {
    assert_eq!(mean_of(&amounts(&[])), Fixed { micros: 0 });
    assert_eq!(mean_of(&amounts(&[5])), Fixed { micros: 5 });
    assert_eq!(mean_of(&amounts(&[500_000, 1_000_000])), Fixed { micros: 750_000 });
    assert_eq!(mean_of(&amounts(&[1, 2])), Fixed { micros: 1 });
    assert_eq!(mean_of(&amounts(&[-1, -2])), Fixed { micros: -2 });
    assert_eq!(mean_of(&amounts(&[-3, 3])), Fixed { micros: 0 });
    assert_eq!(mean_of(&amounts(&[i64::MAX, i64::MAX, i64::MAX])), Fixed { micros: i64::MAX });
    assert_eq!(mean_of(&amounts(&[i64::MIN, i64::MIN])), Fixed { micros: i64::MIN });
    assert_eq!(mean_of(&amounts(&[i64::MIN, i64::MAX])), Fixed { micros: -1 });
}

#[test]
fn texts_are_ordered_by_their_bytes() {
    assert!(text_at_most("", ""));
    assert!(text_at_most("", "a"));
    assert!(!text_at_most("a", ""));
    assert!(text_at_most("a", "a"));
    assert!(text_at_most("a", "b"));
    assert!(!text_at_most("b", "a"));
    assert!(text_at_most("ab", "abc"));
    assert!(!text_at_most("abc", "ab"));
    assert!(text_at_most("Z", "a"));
    assert!(!text_at_most("a", "Z"));
    assert!(text_at_most("z", "\u{e9}"));
    assert!(text_at_most("\u{e9}", "\u{4e2d}"));
    assert!(text_at_most("\u{ffff}", "\u{10000}"));
    let words = ["", "A", "B", "a", "ab", "b", "\u{e9}", "\u{4e2d}", "\u{1f600}"];
    for a in words {
        for b in words {
            assert_eq!(text_at_most(a, b), a.as_bytes() <= b.as_bytes());
            assert_eq!(text_at_most(a, b), a <= b);
        }
    }
}

#[test]
fn numbers_are_written_in_decimal() {
    let cases: Vec<(i64, &str)> = vec![
        (0, "0"),
        (7, "7"),
        (10, "10"),
        (909, "909"),
        (-1, "-1"),
        (-120, "-120"),
        (1_000_000, "1000000"),
        (i64::MAX, "9223372036854775807"),
        (i64::MIN, "-9223372036854775808"),
    ];
    for (n, text) in cases {
        let mut out = "n=".to_string();
        append_decimal(&mut out, n);
        assert_eq!(out, format!("n={}", text));
    }
    for n in -1234..1234 {
        let mut out = String::new();
        append_decimal(&mut out, n);
        assert_eq!(out, n.to_string());
    }
}

#[test]
fn sorting_is_stable() {
    let mut rows = vec![
        pair_b(1, 5),
        pair_b(2, 9),
        pair_b(3, 5),
        pair_b(4, 1),
        pair_b(5, 9),
        pair_b(6, 5),
    ];
    sort_stable(&mut rows, &StrongerFirst {});
    let tags: Vec<i32> = rows.iter().map(|r| r.co_mention_count).collect();
    assert_eq!(tags, vec![2, 5, 1, 3, 6, 4]);
    let mut none: Vec<CompetitorRelationship> = vec![];
    sort_stable(&mut none, &StrongerFirst {});
    assert!(none.is_empty());
}

#[test]
fn sorting_handles_every_order_of_a_few_rows() {
    let scores = [3, 1, 2, 1, 3, 2, 2];
    for shift in 0..scores.len() {
        let mut rows: Vec<CompetitorRelationship> = (0..scores.len())
            .map(|i| pair_b(i32::try_from(i).unwrap(), scores[(i + shift) % scores.len()]))
            .collect();
        let mut expected = rows.clone();
        expected.sort_by(|a, b| b.strength_score.micros.cmp(&a.strength_score.micros));
        sort_stable(&mut rows, &StrongerFirst {});
        assert_eq!(rows, expected);
    }
}

#[test]
fn tally_gives_first_places_and_counts() {
    let names: Vec<String> =
        ["b", "a", "b", "c", "a", "b"].iter().map(|s| s.to_string()).collect();
    let (firsts, counts) = tally(&names, &ByText {});
    assert_eq!(firsts, vec![0, 1, 3]);
    assert_eq!(counts, vec![3, 2, 1]);
    let (firsts, counts) = tally(&Vec::<String>::new(), &ByText {});
    assert!(firsts.is_empty() && counts.is_empty());
}

#[test]
fn join_pairs_rows_in_the_order_of_the_tables() {
    let mentions = vec![mention_b(1, 2), mention_b(2, 9), mention_b(3, 1), mention_b(4, 2)];
    let responses = vec![response_b(1), response_b(2), response_b(2)];
    let pairs = join_rows(&mentions, &responses, &FoundIn {});
    assert_eq!(pairs, vec![(0, 1), (0, 2), (2, 0), (3, 1), (3, 2)]);
    assert!(join_rows(&mentions, &vec![], &FoundIn {}).is_empty());
}

#[test]
fn select_count_and_cut() {
    let rows = vec![pair_b(1, 5), pair_b(2, 9), pair_b(3, 5), pair_b(4, 1)];
    let test = llmseo_ui::graph::AtLeast { min: Fixed { micros: 5 } };
    assert_eq!(count_passing(&rows, &test), 3);
    let kept = select(&rows, &test);
    assert_eq!(kept, vec![pair_b(1, 5), pair_b(2, 9), pair_b(3, 5)]);
    let mut cut = rows.clone();
    keep_first(&mut cut, 2);
    assert_eq!(cut, vec![pair_b(1, 5), pair_b(2, 9)]);
    let mut cut = rows.clone();
    keep_first(&mut cut, 9);
    assert_eq!(cut, rows);
    let mut cut = rows.clone();
    keep_first(&mut cut, 0);
    assert!(cut.is_empty());
}

#[test]
fn copies_are_equal_to_their_originals() {
    assert_eq!(copy_text(&None), None);
    assert_eq!(copy_text(&Some("x".to_string())), Some("x".to_string()));
    assert_eq!(mention_b(1, 2).duplicate(), mention_b(1, 2));
    assert_eq!(response_b(4).duplicate(), response_b(4));
    assert_eq!(pair_b(1, 2).duplicate(), pair_b(1, 2));
}

#[test]
fn snapshot_holds_the_tables_in_their_order() {
    assert_eq!(MAX_ROWS, 2_147_483_647);
    let snapshot = Snapshot::new(
        vec![mention_b(2, 1), mention_b(1, 1)],
        vec![response_b(1)],
        vec![],
        vec![pair_b(1, 1)],
        vec![],
        vec![],
        vec![],
        vec![],
    )
    .unwrap();
    assert_eq!(snapshot.mention_rows(), &vec![mention_b(2, 1), mention_b(1, 1)]);
    assert_eq!(snapshot.response_rows(), &vec![response_b(1)]);
    assert_eq!(snapshot.relationship_rows(), &vec![pair_b(1, 1)]);
    assert!(snapshot.co_mention_rows().is_empty());
    assert!(snapshot.score_rows().is_empty());
    assert!(snapshot.quality_rows().is_empty());
    assert!(snapshot.source_rows().is_empty());
    assert!(snapshot.evaluation_rows().is_empty());
}

#[test]
fn snapshot_leaves_out_what_could_not_be_read() {
    let snapshot = Snapshot::read(
        Table::Rows(vec![Some(mention_b(2, 1)), None, Some(mention_b(1, 1)), None]),
        Table::Unreadable,
        Table::Rows(vec![]),
        Table::Rows(vec![None, Some(pair_b(1, 1))]),
        Table::Unreadable,
        Table::Rows(vec![None]),
        Table::Unreadable,
        Table::Unreadable,
    )
    .unwrap();
    assert_eq!(snapshot.mention_rows(), &vec![mention_b(2, 1), mention_b(1, 1)]);
    assert!(snapshot.response_rows().is_empty());
    assert!(snapshot.co_mention_rows().is_empty());
    assert_eq!(snapshot.relationship_rows(), &vec![pair_b(1, 1)]);
    assert!(snapshot.score_rows().is_empty());
    assert!(snapshot.quality_rows().is_empty());
    assert!(snapshot.source_rows().is_empty());
    assert!(snapshot.evaluation_rows().is_empty());
    assert_eq!(snapshot.skipped_rows(), 4);
}

#[test]
fn snapshot_of_records_leaves_nothing_out() {
    let snapshot = Snapshot::new(
        vec![mention_b(2, 1)],
        vec![],
        vec![],
        vec![],
        vec![],
        vec![],
        vec![],
        vec![],
    )
    .unwrap();
    assert_eq!(snapshot.skipped_rows(), 0);
    let unreadable = Snapshot::read(
        Table::Unreadable,
        Table::Unreadable,
        Table::Unreadable,
        Table::Unreadable,
        Table::Unreadable,
        Table::Unreadable,
        Table::Unreadable,
        Table::Unreadable,
    )
    .unwrap();
    assert_eq!(unreadable.skipped_rows(), 0);
    assert!(unreadable.mention_rows().is_empty());
}

#[test]
fn storage_error_says_what_went_wrong() {
    assert_eq!(StorageError::Unavailable.message(), "storage unavailable");
}
