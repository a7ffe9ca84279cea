use llmseo_ui::db::get_brand_competitors;
use llmseo_ui::fixed::Fixed;
use llmseo_ui::models::CompetitorRelationship;
use llmseo_ui::ranking::{competitor_of, rank_competitors};
use llmseo_ui::storage::{Snapshot, Storage, StorageError};

fn pair(a: &str, b: &str, co: i32, score: i64) -> CompetitorRelationship {
    CompetitorRelationship {
        brand_name_1: a.to_string(),
        brand_name_2: b.to_string(),
        co_mention_count: co,
        avg_rank_distance: Fixed { micros: 1_000_000 },
        strength_score: Fixed { micros: score },
        first_seen: Fixed { micros: 10 },
        last_seen: Fixed { micros: 20 },
    }
}

fn mirrored(r: &CompetitorRelationship) -> CompetitorRelationship {
    CompetitorRelationship {
        brand_name_1: r.brand_name_2.clone(),
        brand_name_2: r.brand_name_1.clone(),
        ..r.clone()
    }
}

fn table() -> Vec<CompetitorRelationship> {
    vec![
        pair("A", "B", 1, 300_000),
        pair("C", "A", 2, 900_000),
        pair("B", "C", 3, 950_000),
        pair("A", "D", 4, 300_000),
        pair("E", "A", 5, 600_000),
    ]
}

fn ids(rows: &[CompetitorRelationship]) -> Vec<i32> {
    rows.iter().map(|r| r.co_mention_count).collect()
}

#[test]
fn top_competitors_finds_the_brand_at_either_end() {
    let top = rank_competitors(&table(), "A", 10);
    assert_eq!(ids(&top), vec![2, 5, 1, 4]);
    assert_eq!(top[0], pair("C", "A", 2, 900_000));
}

#[test]
fn top_competitors_cuts_to_the_first_n() {
    assert_eq!(ids(&rank_competitors(&table(), "A", 2)), vec![2, 5]);
    assert_eq!(ids(&rank_competitors(&table(), "A", 4)), vec![2, 5, 1, 4]);
    assert_eq!(ids(&rank_competitors(&table(), "A", 1)), vec![2]);
}

#[test]
fn top_competitors_of_no_or_negative_number_is_empty() {
    assert!(rank_competitors(&table(), "A", 0).is_empty());
    assert!(rank_competitors(&table(), "A", -1).is_empty());
    assert!(rank_competitors(&table(), "A", i32::MIN).is_empty());
}

#[test]
fn top_competitors_of_unknown_brand_is_empty() {
    assert!(rank_competitors(&table(), "Z", 5).is_empty());
    assert!(rank_competitors(&vec![], "A", 5).is_empty());
}

#[test]
fn top_competitors_are_at_most_n_and_sorted() {
    for n in -2..8 {
        for brand in ["A", "B", "C", "D", "E", "F"] {
            let top = rank_competitors(&table(), brand, n);
            let most: usize = if n > 0 { usize::try_from(n).unwrap() } else { 0 };
            assert!(top.len() <= most);
            for w in top.windows(2) {
                assert!(w[0].strength_score.micros >= w[1].strength_score.micros);
            }
            for r in top.iter() {
                assert!(r.brand_name_1 == brand || r.brand_name_2 == brand);
            }
        }
    }
}

#[test]
fn top_competitors_do_not_depend_on_the_stored_direction() {
    let stored = table();
    let turned: Vec<CompetitorRelationship> = stored.iter().map(mirrored).collect();
    for n in 0..6 {
        for brand in ["A", "B", "C", "D", "E"] {
            let a = rank_competitors(&stored, brand, n);
            let b = rank_competitors(&turned, brand, n);
            let a_turned: Vec<CompetitorRelationship> = a.iter().map(mirrored).collect();
            assert_eq!(b, a_turned);
        }
    }
}

#[test]
fn one_pair_is_found_whichever_way_round_it_is_stored() {
    let as_ab = vec![pair("A", "B", 1, 500_000)];
    let as_ba = vec![pair("B", "A", 1, 500_000)];
    assert_eq!(rank_competitors(&as_ab, "A", 5).len(), 1);
    assert_eq!(rank_competitors(&as_ba, "A", 5).len(), 1);
    assert_eq!(rank_competitors(&as_ab, "B", 5).len(), 1);
    assert_eq!(rank_competitors(&as_ba, "B", 5).len(), 1);
}

#[test]
fn competitor_is_the_other_end() {
    assert_eq!(competitor_of(&pair("A", "B", 1, 0), "A"), "B");
    assert_eq!(competitor_of(&pair("A", "B", 1, 0), "B"), "A");
    assert_eq!(competitor_of(&pair("A", "A", 1, 0), "A"), "A");
    assert_eq!(competitor_of(&pair("A", "B", 1, 0), "C"), "A");
}

#[test]
fn brand_competitors_read_the_relationships_of_the_store() {
    let storage = Storage::Open(
        Snapshot::new(vec![], vec![], vec![], table(), vec![], vec![], vec![], vec![]).unwrap(),
    );
    let top = get_brand_competitors(&storage, "C", 5).unwrap();
    assert_eq!(ids(&top), vec![3, 2]);
    assert_eq!(
        get_brand_competitors(&Storage::Unavailable, "C", 5),
        Err(StorageError::Unavailable)
    );
}
