use moviedb::history::LATEST_NIGHTS;
use moviedb::ordering::sort_by_key;
use moviedb::stats::Scope;
use moviedb::watchlist::removal_outcome;
use moviedb::{Mean, Store, StoreError};

const T: i64 = 1_700_000_000_000;

fn cinema() -> Store {
    let mut s = Store::new();
    s.insert_movie(1, String::from("Inception")).unwrap();
    s.insert_movie(2, String::from("Arrival")).unwrap();
    s.insert_person(10, String::from("Alice")).unwrap();
    s.insert_person(11, String::from("Bob")).unwrap();
    s.insert_person(12, String::from("Carol")).unwrap();
    s
}

#[test]
fn inception_night_scenario() {
    let mut s = cinema();
    let rec = s.record_night_with(100, &vec![200, 201], &vec![10, 11], 1, T, None).unwrap();
    assert_eq!(rec.night, 100);
    assert_eq!(rec.views.len(), 2);
    assert_eq!((rec.views[0].person, rec.views[0].view), (10, 200));
    assert_eq!((rec.views[1].person, rec.views[1].view), (11, 201));
    assert_eq!(s.record_rating_with(300, 200, 850, T + 1), Ok(300));
    assert_eq!(s.record_rating_with(301, 201, 700, T + 2), Ok(301));

    let night = s.night_details(100).unwrap();
    assert_eq!(night.movie.id, 1);
    assert_eq!(night.movie.name, "Inception");
    assert_eq!(night.persons.len(), 2);
    assert_eq!(night.persons[0].name, "Alice");
    assert_eq!(night.persons[0].mean, Mean { total: 850, count: 1 });
    assert_eq!(night.persons[1].name, "Bob");
    assert_eq!(night.persons[1].mean, Mean { total: 700, count: 1 });

    let movie = s.movie_details(1).unwrap();
    assert_eq!(movie.movie.name, "Inception");
    assert_eq!(movie.nights.len(), 1);
    assert_eq!(movie.nights[0].night, 100);
    assert_eq!(movie.nights[0].time, T);
    assert_eq!(movie.nights[0].mean, Some(Mean { total: 1550, count: 2 }));
    assert_eq!(movie.mean, Some(Mean { total: 1550, count: 2 }));
    // 1550 hundredths over two ratings is 7.75
    assert_eq!(movie.mean.unwrap().total as f64 / 100.0 / movie.mean.unwrap().count as f64, 7.75);
}

#[test]
fn weekend_watchlist_scenario() {
    let mut s = cinema();
    s.create_watchlist_with(50, String::from("Weekend"), None, None).unwrap();
    assert_eq!(s.add_watchlist_entry(50, 1, None), Ok(0));
    assert_eq!(s.add_watchlist_entry(50, 2, None), Ok(1));
    assert_eq!(s.remove_watchlist_entry(50, 0), Ok(()));
    let w = s.watchlist_details(50).unwrap();
    assert_eq!(w.watchlist.name, "Weekend");
    assert_eq!(w.entries.len(), 1);
    assert_eq!(w.entries[0].movie.id, 2);
    assert_eq!(w.entries[0].movie.name, "Arrival");
    assert_eq!(w.entries[0].idx, 1);
}

#[test]
fn failed_night_leaves_no_rows() {
    let mut s = cinema();
    // the third participant does not exist
    let r = s.record_night_with(100, &vec![200, 201, 202], &vec![10, 11, 99], 1, T, None);
    assert_eq!(r.unwrap_err(), StoreError::ConstraintViolation);
    assert_eq!(s.nights.len(), 0);
    assert_eq!(s.views.len(), 0);
    // two participants would share a view id
    let r = s.record_night_with(100, &vec![200, 200], &vec![10, 11], 1, T, None);
    assert_eq!(r.unwrap_err(), StoreError::ConstraintViolation);
    assert_eq!(s.nights.len(), 0);
    assert_eq!(s.views.len(), 0);
    // the movie does not exist
    let r = s.record_night_with(100, &vec![200], &vec![10], 7, T, None);
    assert_eq!(r.unwrap_err(), StoreError::ConstraintViolation);
    assert!(s.night_details(100).is_err());
    // ids and participants differ in number
    let r = s.record_night_with(100, &vec![200], &vec![10, 11], 1, T, None);
    assert_eq!(r.unwrap_err(), StoreError::ValidationFailure);
    // a view id already in use fails the whole night
    s.record_night_with(100, &vec![200], &vec![10], 1, T, None).unwrap();
    let r = s.record_night_with(101, &vec![201, 200], &vec![11, 12], 1, T, None);
    assert_eq!(r.unwrap_err(), StoreError::ConstraintViolation);
    assert_eq!(s.nights.len(), 1);
    assert_eq!(s.views.len(), 1);
    // a night id already in use
    let r = s.record_night_with(100, &vec![205], &vec![11], 1, T, None);
    assert_eq!(r.unwrap_err(), StoreError::ConstraintViolation);
}

#[test]
fn rating_reaches_night_and_movie() {
    let mut s = cinema();
    s.record_night_with(100, &vec![200, 201], &vec![10, 11], 1, T, None).unwrap();
    s.record_night_with(101, &vec![202], &vec![12], 1, T + 10, None).unwrap();
    s.record_night_with(102, &vec![203], &vec![10], 2, T + 20, None).unwrap();
    s.record_rating_with(300, 200, 900, T).unwrap();
    s.record_rating_with(301, 202, 400, T).unwrap();
    s.record_rating_with(302, 203, 100, T).unwrap();
    assert_eq!(s.mean_over(Scope::Night(100)), Some(Mean { total: 900, count: 1 }));
    assert_eq!(s.mean_over(Scope::Night(101)), Some(Mean { total: 400, count: 1 }));
    assert_eq!(s.mean_over(Scope::Movie(1)), Some(Mean { total: 1300, count: 2 }));
    assert_eq!(s.mean_over(Scope::Movie(2)), Some(Mean { total: 100, count: 1 }));
    s.record_rating_with(303, 201, 600, T).unwrap();
    assert_eq!(s.mean_over(Scope::Night(100)), Some(Mean { total: 1500, count: 2 }));
    assert_eq!(s.mean_over(Scope::Movie(1)), Some(Mean { total: 1900, count: 3 }));
    let m = s.movie_details(1).unwrap();
    assert_eq!(m.nights.len(), 2);
    assert_eq!(m.nights[0].mean, Some(Mean { total: 1500, count: 2 }));
    assert_eq!(m.nights[1].mean, Some(Mean { total: 400, count: 1 }));
}

#[test]
fn unrated_movie_has_no_mean() {
    let mut s = cinema();
    s.record_night_with(100, &vec![200], &vec![10], 1, T, None).unwrap();
    s.record_night_with(101, &vec![201], &vec![11], 1, T + 5, None).unwrap();
    s.record_rating_with(300, 201, 650, T + 6).unwrap();
    let m = s.movie_details(2).unwrap();
    assert_eq!(m.mean, None);
    assert_eq!(m.nights.len(), 0);
    // every night of a movie is listed, an unrated one without a mean
    let m = s.movie_details(1).unwrap();
    assert_eq!(m.nights.len(), 2);
    assert_eq!((m.nights[0].night, m.nights[0].mean), (100, None));
    assert_eq!((m.nights[1].night, m.nights[1].mean), (101, Some(Mean { total: 650, count: 1 })));
    let mut t = cinema();
    t.record_night_with(100, &vec![200], &vec![10], 1, T, None).unwrap();
    let m = t.movie_details(1).unwrap();
    assert_eq!(m.mean, None);
    assert_eq!(m.nights.len(), 1);
    assert_eq!(m.nights[0].mean, None);
}

#[test]
fn repeated_participant_is_refused() {
    let mut s = cinema();
    let r = s.record_night_with(100, &vec![200, 201], &vec![10, 10], 1, T, None);
    assert_eq!(r.unwrap_err(), StoreError::ValidationFailure);
    let r = s.record_night_with(100, &vec![200, 201, 202], &vec![10, 11, 10], 1, T, None);
    assert_eq!(r.unwrap_err(), StoreError::ValidationFailure);
    assert_eq!(s.nights.len(), 0);
    assert_eq!(s.views.len(), 0);
    let r = s.record_night(&vec![11, 11], 1, Some(T), None);
    assert_eq!(r.unwrap_err(), StoreError::ValidationFailure);
    assert_eq!(s.nights.len(), 0);
    // the same person may take part in two different nights
    s.record_night_with(100, &vec![200], &vec![10], 1, T, None).unwrap();
    s.record_night_with(101, &vec![201], &vec![10], 1, T, None).unwrap();
    assert_eq!(s.views.len(), 2);
}

#[test]
fn two_ratings_of_one_view_both_count() {
    let mut s = cinema();
    s.record_night_with(100, &vec![200], &vec![10], 1, T, None).unwrap();
    s.record_rating_with(300, 200, 800, T).unwrap();
    s.record_rating_with(301, 200, 600, T + 3_600_000).unwrap();
    assert_eq!(s.movie_details(1).unwrap().mean, Some(Mean { total: 1400, count: 2 }));
    let n = s.night_details(100).unwrap();
    assert_eq!(n.persons.len(), 1);
    assert_eq!(n.persons[0].mean, Mean { total: 1400, count: 2 });
}

#[test]
fn night_breakdown_omits_unrated_persons() {
    let mut s = cinema();
    s.record_night_with(100, &vec![200, 201], &vec![10, 11], 1, T, None).unwrap();
    s.record_rating_with(300, 201, 500, T).unwrap();
    let n = s.night_details(100).unwrap();
    assert_eq!(n.persons.len(), 1);
    assert_eq!(n.persons[0].person, 11);
}

#[test]
fn auto_index_ignores_lower_explicit_entries() {
    let mut s = cinema();
    s.create_watchlist_with(50, String::from("Weekend"), None, None).unwrap();
    s.create_watchlist_with(51, String::from("Later"), None, None).unwrap();
    assert_eq!(s.add_watchlist_entry(50, 1, None), Ok(0));
    assert_eq!(s.add_watchlist_entry(50, 2, Some(-3)), Ok(-3));
    assert_eq!(s.add_watchlist_entry(51, 2, Some(40)), Ok(40));
    assert_eq!(s.add_watchlist_entry(50, 2, None), Ok(1));
}

#[test]
fn auto_index_follows_largest_index() {
    let mut s = cinema();
    s.create_watchlist_with(50, String::from("Weekend"), None, None).unwrap();
    assert_eq!(s.add_watchlist_entry(50, 1, Some(5)), Ok(5));
    assert_eq!(s.add_watchlist_entry(50, 2, None), Ok(6));
    assert_eq!(s.add_watchlist_entry(50, 2, Some(i32::MAX)), Ok(i32::MAX));
    assert_eq!(s.add_watchlist_entry(50, 2, None), Err(StoreError::ValidationFailure));
    assert_eq!(s.entries.len(), 3);
}

#[test]
fn explicit_index_must_be_free() {
    let mut s = cinema();
    s.create_watchlist_with(50, String::from("Weekend"), None, None).unwrap();
    assert_eq!(s.add_watchlist_entry(50, 1, Some(2)), Ok(2));
    assert_eq!(s.add_watchlist_entry(50, 2, Some(2)), Err(StoreError::ConstraintViolation));
    assert_eq!(s.add_watchlist_entry(99, 2, None), Err(StoreError::ConstraintViolation));
    assert_eq!(s.add_watchlist_entry(50, 99, None), Err(StoreError::ConstraintViolation));
    assert_eq!(s.entries.len(), 1);
}

#[test]
fn removal_touches_one_entry() {
    let mut s = cinema();
    s.create_watchlist_with(50, String::from("Weekend"), None, None).unwrap();
    s.create_watchlist_with(51, String::from("Later"), None, None).unwrap();
    s.add_watchlist_entry(50, 1, None).unwrap();
    s.add_watchlist_entry(50, 2, None).unwrap();
    s.add_watchlist_entry(51, 1, None).unwrap();
    assert_eq!(s.remove_watchlist_entry(50, 7), Err(StoreError::NotFound));
    assert_eq!(s.entries.len(), 3);
    assert_eq!(s.remove_watchlist_entry(50, 0), Ok(()));
    assert_eq!(s.entries.len(), 2);
    assert_eq!(s.watchlist_details(51).unwrap().entries.len(), 1);
    assert_eq!(s.watchlist_details(51).unwrap().entries[0].idx, 0);
    assert_eq!(s.remove_watchlist_entry(50, 0), Err(StoreError::NotFound));
}

#[test]
fn removal_outcomes() {
    assert_eq!(removal_outcome(0), Err(StoreError::NotFound));
    assert_eq!(removal_outcome(1), Ok(()));
    assert_eq!(removal_outcome(2), Err(StoreError::ConsistencyViolation));
}

#[test]
fn watchlist_lists_by_index() {
    let mut s = cinema();
    s.create_watchlist_with(50, String::from("Weekend"), Some(String::from("films")), Some(10)).unwrap();
    s.add_watchlist_entry(50, 1, Some(9)).unwrap();
    s.add_watchlist_entry(50, 2, Some(-1)).unwrap();
    s.add_watchlist_entry(50, 1, Some(4)).unwrap();
    let w = s.watchlist_details(50).unwrap();
    let idx: Vec<i32> = w.entries.iter().map(|e| e.idx).collect();
    assert_eq!(idx, vec![-1, 4, 9]);
    assert_eq!(w.watchlist.description, Some(String::from("films")));
    assert_eq!(w.watchlist.owner, Some(10));
    assert_eq!(s.watchlists(), vec![(50, String::from("Weekend"))]);
    assert_eq!(s.create_watchlist_with(50, String::from("Again"), None, None), Err(StoreError::ConstraintViolation));
}

#[test]
fn rating_validation() {
    let mut s = cinema();
    s.record_night_with(100, &vec![200], &vec![10], 1, T, None).unwrap();
    assert_eq!(s.record_rating_with(300, 200, 1001, T), Err(StoreError::ValidationFailure));
    assert_eq!(s.record_rating_with(300, 999, 500, T), Err(StoreError::ConstraintViolation));
    assert_eq!(s.record_rating_with(300, 200, 1000, T), Ok(300));
    assert_eq!(s.record_rating_with(300, 200, 0, T), Err(StoreError::ConstraintViolation));
    assert_eq!(s.ratings.len(), 1);
}

#[test]
fn lookups_of_missing_rows() {
    let s = cinema();
    assert_eq!(s.movie_details(9).unwrap_err(), StoreError::NotFound);
    assert_eq!(s.night_details(9).unwrap_err(), StoreError::NotFound);
    assert_eq!(s.person_details(9).unwrap_err(), StoreError::NotFound);
    assert_eq!(s.watchlist_details(9).unwrap_err(), StoreError::NotFound);
    let mut s = cinema();
    assert_eq!(s.insert_movie(1, String::from("Copy")), Err(StoreError::ConstraintViolation));
    assert_eq!(s.insert_person(10, String::from("Copy")), Err(StoreError::ConstraintViolation));
}

#[test]
fn person_sees_latest_nights_first() {
    let mut s = cinema();
    for i in 0..25u128 {
        let time = T + ((i as i64 * 7) % 25) * 1000;
        s.record_night_with(100 + i, &vec![1000 + i], &vec![10], 1 + (i % 2), time, None).unwrap();
    }
    s.record_night_with(500, &vec![2000], &vec![11], 1, T + 999_999, None).unwrap();
    let d = s.person_details(10).unwrap();
    assert_eq!(d.person.name, "Alice");
    assert_eq!(d.latest_nights.len(), LATEST_NIGHTS);
    for w in d.latest_nights.windows(2) {
        assert!(w[0].time > w[1].time);
    }
    assert_eq!(d.latest_nights[0].time, T + 24_000);
    assert_eq!(d.latest_nights[LATEST_NIGHTS - 1].time, T + 5_000);
    let first = &d.latest_nights[0];
    assert_eq!(first.movie_name, if first.movie == 1 { "Inception" } else { "Arrival" });
    assert_eq!(s.person_details(12).unwrap().latest_nights.len(), 0);
}

#[test]
fn night_ratings_in_time_order() {
    let mut s = cinema();
    s.record_night_with(100, &vec![200, 201], &vec![10, 11], 1, T, None).unwrap();
    s.record_night_with(101, &vec![202], &vec![12], 1, T, None).unwrap();
    s.record_rating_with(300, 200, 500, T + 30).unwrap();
    s.record_rating_with(301, 201, 600, T + 10).unwrap();
    s.record_rating_with(302, 202, 700, T + 5).unwrap();
    s.record_rating_with(303, 200, 800, T + 10).unwrap();
    let rs = s.night_ratings(100);
    let got: Vec<(i64, u32, &str)> = rs.iter().map(|r| (r.time, r.value, r.person_name.as_str())).collect();
    assert_eq!(got, vec![(T + 10, 600, "Bob"), (T + 10, 800, "Alice"), (T + 30, 500, "Alice")]);
    assert_eq!(s.night_ratings(999).len(), 0);
}

#[test]
fn stable_key_order() {
    let keys = vec![(3i128, 0usize), (1, 1), (3, 2), (-2, 3), (1, 4)];
    assert_eq!(sort_by_key(&keys), vec![(-2, 3), (1, 1), (1, 4), (3, 0), (3, 2)]);
}

#[test]
fn drawn_ids_are_random_uuids() {
    let mut s = Store::new();
    let movie = s.add_movie(String::from("Inception")).unwrap();
    let alice = s.add_person(String::from("Alice")).unwrap();
    let bob = s.add_person(String::from("Bob")).unwrap();
    assert_eq!((movie >> 76) & 0xF, 4);
    assert_ne!(alice, bob);
    let rec = s.record_night(&vec![alice, bob], movie, None, Some(String::from("pizza"))).unwrap();
    assert_ne!(rec.views[0].view, rec.views[1].view);
    assert_eq!(rec.views[0].person, alice);
    assert_eq!((rec.night >> 76) & 0xF, 4);
    let night = s.night_details(rec.night).unwrap();
    assert!(night.night.time > T);
    assert_eq!(night.night.description, Some(String::from("pizza")));
    let id = s.record_rating(rec.views[0].view, 850, Some(T)).unwrap();
    assert_eq!(s.ratings[0].id, id);
    assert_eq!(s.ratings[0].time, T);
    assert_eq!(s.record_rating(12345, 850, None), Err(StoreError::ConstraintViolation));
    let wl = s.create_watchlist(String::from("Weekend"), None, None).unwrap();
    assert_eq!(s.watchlists()[0].0, wl);
    assert!(s.record_night(&vec![alice, 7], movie, Some(T), None).is_err());
    assert_eq!(s.nights.len(), 1);
}
