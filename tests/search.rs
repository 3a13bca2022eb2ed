use moviedb::search::{contains_text, paging, MovieColumn};
use moviedb::{Store, StoreError};

fn shelf() -> Store {
    let mut s = Store::new();
    s.insert_movie(1, String::from("Inception")).unwrap();
    s.insert_movie(2, String::from("Arrival")).unwrap();
    s.insert_movie(3, String::from("Interstellar")).unwrap();
    s.movies[0].actors = Some(String::from("Leonardo DiCaprio, Elliot Page"));
    s.movies[2].actors = Some(String::from("Matthew McConaughey"));
    s.insert_person(10, String::from("Alice")).unwrap();
    s.insert_person(11, String::from("Bob")).unwrap();
    s.insert_person(12, String::from("Malika")).unwrap();
    s
}

fn names(v: &[moviedb::MovieStub]) -> Vec<&str> {
    v.iter().map(|m| m.name.as_str()).collect()
}

#[test]
fn search_ignores_case() {
    let s = shelf();
    let r = s.search_movies(MovieColumn::Name, &Some(String::from("incep")), 0, 10).unwrap();
    assert_eq!(names(&r), vec!["Inception"]);
    let r = s.search_movies(MovieColumn::Name, &Some(String::from("IN")), 0, 10).unwrap();
    assert_eq!(names(&r), vec!["Inception", "Interstellar"]);
}

#[test]
fn search_without_query_pages_all() {
    let s = shelf();
    assert_eq!(names(&s.search_movies(MovieColumn::Name, &None, 0, 10).unwrap()), vec!["Inception", "Arrival", "Interstellar"]);
    assert_eq!(names(&s.search_movies(MovieColumn::Name, &None, 1, 1).unwrap()), vec!["Arrival"]);
    assert_eq!(names(&s.search_movies(MovieColumn::Name, &None, 1, 2).unwrap()), vec!["Interstellar"]);
    assert_eq!(s.search_movies(MovieColumn::Name, &None, 5, 2).unwrap().len(), 0);
    assert_eq!(s.search_movies(MovieColumn::Name, &None, 0, 0).unwrap().len(), 0);
}

#[test]
fn search_by_actor_skips_movies_without_actors() {
    let s = shelf();
    let r = s.search_movies(MovieColumn::Actors, &Some(String::from("dicap")), 0, 10).unwrap();
    assert_eq!(names(&r), vec!["Inception"]);
    let r = s.search_movies(MovieColumn::Actors, &Some(String::from("")), 0, 10).unwrap();
    assert_eq!(names(&r), vec!["Inception", "Interstellar"]);
    let r = s.search_movies(MovieColumn::Actors, &None, 0, 10).unwrap();
    assert_eq!(r.len(), 3);
}

#[test]
fn search_persons_by_name() {
    let s = shelf();
    let r = s.search_persons(&Some(String::from("ali")), 0, 10).unwrap();
    let got: Vec<&str> = r.iter().map(|p| p.name.as_str()).collect();
    assert_eq!(got, vec!["Alice", "Malika"]);
    let r = s.search_persons(&Some(String::from("ali")), 1, 1).unwrap();
    assert_eq!(r[0].id, 12);
}

#[test]
fn paging_rejects_bad_pages() {
    let s = shelf();
    assert_eq!(s.search_movies(MovieColumn::Name, &None, -1, 10).unwrap_err(), StoreError::ValidationFailure);
    assert_eq!(s.search_persons(&None, 0, -5).unwrap_err(), StoreError::ValidationFailure);
    assert_eq!(paging(65536, 65536), Err(StoreError::ValidationFailure));
    assert_eq!(paging(3, 7), Ok((21, 7)));
    assert_eq!(paging(i32::MAX, 1), Ok((i32::MAX as usize, 1)));
}

#[test]
fn text_containment() {
    assert!(contains_text("Inception", "cept"));
    assert!(contains_text("abc", ""));
    assert!(!contains_text("abc", "bd"));
    assert!(!contains_text("ab", "abc"));
    assert!(contains_text("Ünïcödé", "cöd"));
}
