use tracklog::db::placement::{
    assign_track_to_release_at, move_track_down_in_release, move_track_up_in_release,
    remove_track_from_release,
};
use tracklog::db::queries::list_tracks_for_release;
use tracklog::db::releases::create_release_at;
use tracklog::db::store::{Catalog, ReleaseTrackLink};
use tracklog::db::tracks::create_track_at;
use tracklog::models::{ReleaseInput, TrackInput};

fn catalog_with(tracks: usize, releases: usize) -> Catalog {
    let mut db = Catalog::new();
    for i in 1..=tracks {
        let input = TrackInput {
            internal_code: format!("T-{i}"),
            title: format!("Track {i}"),
            status: "Idea".to_string(),
            description: Some(format!("about {i}")),
            lyrics: None,
            notes: None,
            bpm: None,
            key: None,
        };
        create_track_at(&mut db, input, "t0".to_string()).unwrap();
    }
    for i in 1..=releases {
        let input = ReleaseInput {
            internal_code: format!("R-{i}"),
            title: format!("Release {i}"),
            release_type: "EP".to_string(),
            status: "Planned".to_string(),
            description: None,
            image_path: None,
        };
        create_release_at(&mut db, input, "t0".to_string()).unwrap();
    }
    db
}

fn order_of(db: &Catalog, release_id: i64) -> Vec<(i64, i64)> {
    list_tracks_for_release(db, release_id)
        .iter()
        .map(|row| (row.track_order, row.track_id))
        .collect()
}

#[test]
fn assign_appends_positions() {
    let mut db = catalog_with(3, 1);
    assign_track_to_release_at(&mut db, 2, 1, "t1".to_string()).unwrap();
    assign_track_to_release_at(&mut db, 1, 1, "t1".to_string()).unwrap();
    assign_track_to_release_at(&mut db, 3, 1, "t1".to_string()).unwrap();
    assert_eq!(order_of(&db, 1), vec![(1, 2), (2, 1), (3, 3)]);
    let rows = list_tracks_for_release(&db, 1);
    assert_eq!(rows[0].internal_code, "T-2");
    assert_eq!(rows[0].description, Some("about 2".to_string()));
}

#[test]
fn assign_errors() {
    let mut db = catalog_with(2, 2);
    assert_eq!(assign_track_to_release_at(&mut db, 9, 1, "t".to_string()).unwrap_err(), "Track not found");
    assert_eq!(assign_track_to_release_at(&mut db, 1, 9, "t".to_string()).unwrap_err(), "Release not found");
    assign_track_to_release_at(&mut db, 1, 1, "t".to_string()).unwrap();
    assert_eq!(
        assign_track_to_release_at(&mut db, 1, 2, "t".to_string()).unwrap_err(),
        "Track is already assigned to a release"
    );
    assert_eq!(db.links.len(), 1);
}

#[test]
fn remove_closes_the_gap() {
    let mut db = catalog_with(3, 1);
    for id in 1..=3 {
        assign_track_to_release_at(&mut db, id, 1, "t".to_string()).unwrap();
    }
    remove_track_from_release(&mut db, 2, 1).unwrap();
    assert_eq!(order_of(&db, 1), vec![(1, 1), (2, 3)]);
    assert_eq!(
        remove_track_from_release(&mut db, 2, 1).unwrap_err(),
        "Track is not assigned to this release"
    );
}

#[test]
fn moves_swap_neighbours() {
    let mut db = catalog_with(3, 1);
    for id in 1..=3 {
        assign_track_to_release_at(&mut db, id, 1, "t".to_string()).unwrap();
    }
    move_track_up_in_release(&mut db, 3, 1).unwrap();
    assert_eq!(order_of(&db, 1), vec![(1, 1), (2, 3), (3, 2)]);
    move_track_down_in_release(&mut db, 1, 1).unwrap();
    assert_eq!(order_of(&db, 1), vec![(1, 3), (2, 1), (3, 2)]);
    // at the edges nothing moves
    move_track_up_in_release(&mut db, 3, 1).unwrap();
    move_track_down_in_release(&mut db, 2, 1).unwrap();
    assert_eq!(order_of(&db, 1), vec![(1, 3), (2, 1), (3, 2)]);
    assert_eq!(
        move_track_up_in_release(&mut db, 1, 2).unwrap_err(),
        "Track is not assigned to this release"
    );
}

#[test]
fn assign_then_remove_restores_positions() {
    let mut db = catalog_with(3, 1);
    assign_track_to_release_at(&mut db, 1, 1, "t".to_string()).unwrap();
    assign_track_to_release_at(&mut db, 2, 1, "t".to_string()).unwrap();
    let before = order_of(&db, 1);
    assign_track_to_release_at(&mut db, 3, 1, "t".to_string()).unwrap();
    remove_track_from_release(&mut db, 3, 1).unwrap();
    assert_eq!(order_of(&db, 1), before);
}

#[test]
fn move_down_then_up_restores_positions() {
    let mut db = catalog_with(2, 1);
    assign_track_to_release_at(&mut db, 1, 1, "t".to_string()).unwrap();
    assign_track_to_release_at(&mut db, 2, 1, "t".to_string()).unwrap();
    move_track_down_in_release(&mut db, 1, 1).unwrap();
    assert_eq!(order_of(&db, 1), vec![(1, 2), (2, 1)]);
    move_track_up_in_release(&mut db, 1, 1).unwrap();
    assert_eq!(order_of(&db, 1), vec![(1, 1), (2, 2)]);
}

#[test]
fn positions_reach_the_largest_integer() {
    let mut db = catalog_with(3, 1);
    let high = ReleaseTrackLink { release_id: 1, track_id: 1, track_order: i64::MAX - 1, created_at: "t".to_string() };
    let mut db = Catalog::from_rows(std::mem::take(&mut db.tracks), std::mem::take(&mut db.releases), vec![high]).unwrap();
    assign_track_to_release_at(&mut db, 2, 1, "t".to_string()).unwrap();
    assert_eq!(order_of(&db, 1), vec![(i64::MAX - 1, 1), (i64::MAX, 2)]);
    move_track_down_in_release(&mut db, 2, 1).unwrap();
    assert_eq!(order_of(&db, 1), vec![(i64::MAX - 1, 1), (i64::MAX, 2)]);
    assert_eq!(
        assign_track_to_release_at(&mut db, 3, 1, "t".to_string()).unwrap_err(),
        "Release has no free track position"
    );
}
