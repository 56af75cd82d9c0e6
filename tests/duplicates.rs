use openfairdb::duplicates::{
    find_duplicate_places, find_duplicates, in_close_proximity, is_duplicate, levenshtein_distance,
    min3, similar_title, words_equal_except_k_words, DuplicateType,
};
use openfairdb::entities::{Activity, Location, Place, ReviewStatus};
use openfairdb::geo::{Distance, MapPoint};

fn fixed(deg: f64) -> i64 {
    (deg * 1e7).round() as i64
}

fn point(lat: f64, lng: f64) -> MapPoint {
    MapPoint { lat: fixed(lat), lng: fixed(lng) }
}

// Great-circle distance on a sphere with the mean earth radius.
fn distance(a: MapPoint, b: MapPoint) -> Option<Distance> {
    let r = 6_371_008.8_f64;
    let (lat1, lng1) = ((a.lat as f64 / 1e7).to_radians(), (a.lng as f64 / 1e7).to_radians());
    let (lat2, lng2) = ((b.lat as f64 / 1e7).to_radians(), (b.lng as f64 / 1e7).to_radians());
    let h = ((lat2 - lat1) / 2.0).sin().powi(2)
        + lat1.cos() * lat2.cos() * ((lng2 - lng1) / 2.0).sin().powi(2);
    let d = 2.0 * r * h.sqrt().asin();
    Some(Distance { millimeters: (d * 1000.0).round() as u64 })
}

fn new_place(title: &str, description: &str, pos: MapPoint) -> Place {
    Place {
        id: title.to_string(),
        license: String::new(),
        revision: 1,
        created: Activity { at: 0, by: None },
        title: title.to_string(),
        description: description.to_string(),
        location: Location { pos, address: None },
        contact: None,
        opening_hours: None,
        links: None,
        tags: vec![],
    }
}

fn dup(a: &Place, b: &Place) -> Option<DuplicateType> {
    is_duplicate(a, b, distance(a.location.pos, b.location.pos))
}

#[test]
fn test_in_close_proximity() {
    let e1 = new_place("Entry 1", "Punkt1", point(48.23153745093964, 8.003816366195679));
    let e2 = new_place("Entry 2", "Punkt2", point(48.23167056421013, 8.003558874130248));
    let d = distance(e1.location.pos, e2.location.pos);
    assert!(in_close_proximity(d, Distance::from_meters(30)));
    assert!(!in_close_proximity(d, Distance::from_meters(10)));
}

#[test]
fn test_similar_title() {
    let e1 = new_place("0123456789", "Hallo! Ein Eintrag", point(48.23153745093964, 6.003816366195679));
    let e2 = new_place("01234567", "allo! Ein Eintra", point(48.23153745093964, 6.003816366195679));
    let e3 = new_place("eins zwei drei", "allo! Ein Eintra", point(48.23153745093964, 6.003816366195679));
    let e4 = new_place("eins zwei fünf sechs", "allo! Ein Eintra", point(48.23153745093964, 6.003816366195679));

    assert_eq!(true, similar_title(&e1.title, &e2.title, 20, 0)); // only 2 characters changed
    // The allowed distance is ⌈8 · 10%⌉ + 1 = 2, so two changed characters
    // still count as similar.
    assert_eq!(true, similar_title(&e1.title, &e2.title, 10, 0));
    assert_eq!(false, similar_title(&e1.title, &e2.title, 0, 0));
    assert_eq!(true, similar_title(&e3.title, &e4.title, 0, 2)); // only 2 words changed
    assert_eq!(false, similar_title(&e3.title, &e4.title, 0, 1)); // more than 1 word changed
}

#[test]
fn test_is_duplicate() {
    let e1 = new_place("Ein Eintrag Blablabla", "Hallo! Ein Eintrag", point(47.23153745093964, 5.003816366195679));
    let e2 = new_place("Eintrag", "Hallo! Ein Eintrag", point(47.23153745093970, 5.003816366195679));
    let e3 = new_place("Enn Eintrxg Blablalx", "Hallo! Ein Eintrag", point(47.23153745093955, 5.003816366195679));
    let e4 = new_place("En Eintrg Blablala", "Hallo! Ein Eintrag", point(47.23153745093955, 5.003816366195679));
    let e5 = new_place("Ein Eintrag Blabla", "Hallo! Ein Eintrag", point(40.23153745093960, 5.003816366195670));

    // titles have a word that is equal
    assert_eq!(Some(DuplicateType::SimilarWords), dup(&e1, &e2));
    // titles similar: small levenshtein distance
    assert_eq!(Some(DuplicateType::SimilarChars), dup(&e1, &e4));
    // titles similar: small hamming distance
    assert_eq!(Some(DuplicateType::SimilarChars), dup(&e1, &e3));
    // titles not similar
    assert_eq!(None, dup(&e2, &e4));
    // places not located close together
    assert_eq!(None, dup(&e4, &e5));
}

#[test]
fn test_min() {
    assert_eq!(1, min3(1, 2, 3));
    assert_eq!(2, min3(3, 2, 3));
    assert_eq!(2, min3(3, 3, 2));
    assert_eq!(1, min3(1, 1, 1));
}

#[test]
fn test_words_equal() {
    assert_eq!(true, words_equal_except_k_words("ab abc a", "ab abc b", 1));
    assert_eq!(true, words_equal_except_k_words("ab abc a", "abc ab", 1));
    assert_eq!(true, words_equal_except_k_words("ab ac a", "abc ab ab", 2));
    assert_eq!(false, words_equal_except_k_words("a a a", "ab abc", 2));
}

#[test]
fn test_levenshtein_distance() {
    assert_eq!(3, levenshtein_distance("012a34c", "0a3c")); // delete 1,2 and 4
    assert_eq!(1, levenshtein_distance("12345", "a12345")); // insert a
    assert_eq!(1, levenshtein_distance("aabaa", "aacaa")); // replace b by c
}

#[test]
fn levenshtein_counts_characters_not_bytes() {
    assert_eq!(2, levenshtein_distance("Grüße", "Grüsse"));
    assert_eq!(1, levenshtein_distance("ü", "u"));
    assert_eq!(0, levenshtein_distance("", ""));
    assert_eq!(4, levenshtein_distance("", "abcd"));
}

#[test]
fn single_words_are_never_similar_by_words() {
    assert!(!words_equal_except_k_words("Eintrag", "Anderes", 2));
    assert!(words_equal_except_k_words("  a \t b ", "b a", 0));
}

#[test]
fn duplicates_by_character_similarity() {
    let a = new_place("Ein Eintrag Blablabla", "", point(47.2315374, 5.0038164));
    let b = new_place("En Eintrg Blablala", "", point(47.2315374, 5.0038164));
    let places = vec![(a.clone(), ReviewStatus::Created), (b.clone(), ReviewStatus::Created)];
    let dists: Vec<Vec<Option<Distance>>> = places
        .iter()
        .map(|(p, _)| places.iter().map(|(q, _)| distance(p.location.pos, q.location.pos)).collect())
        .collect();
    let found = find_duplicates(&places, &places, &dists);
    assert_eq!(found, vec![(a.id.clone(), b.id.clone(), DuplicateType::SimilarChars)]);
}

#[test]
fn duplicates_far_apart_are_not_reported() {
    let a = new_place("Ein Eintrag Blablabla", "", point(47.2315374, 5.0038164));
    // about 100 km further north
    let b = new_place("En Eintrg Blablala", "", point(48.13086, 5.0038164));
    let places = vec![(a.clone(), ReviewStatus::Created), (b.clone(), ReviewStatus::Created)];
    let dists: Vec<Vec<Option<Distance>>> = places
        .iter()
        .map(|(p, _)| places.iter().map(|(q, _)| distance(p.location.pos, q.location.pos)).collect())
        .collect();
    assert!(find_duplicates(&places, &places, &dists).is_empty());
}

#[test]
fn duplicates_without_coordinates_are_not_reported() {
    let a = new_place("Ein Eintrag Blablabla", "", point(47.2315374, 5.0038164));
    let b = new_place("Ein Eintrag Blablabla", "", point(47.2315374, 5.0038164));
    assert_eq!(None, is_duplicate(&a, &b, None));
}

#[test]
fn duplicate_places_of_a_new_place() {
    let n = new_place("Ein Eintrag Blablabla", "", point(47.2315374, 5.0038164));
    let others = vec![
        (new_place("Eintrag", "", point(47.2315374, 5.0038164)), ReviewStatus::Created),
        (new_place("Etwas ganz anderes", "", point(47.2315374, 5.0038164)), ReviewStatus::Confirmed),
        (new_place("Ein Eintrag Blablabla", "", point(47.2315374, 5.0038164)), ReviewStatus::Created),
    ];
    let dists: Vec<Option<Distance>> = others.iter().map(|(p, _)| distance(n.location.pos, p.location.pos)).collect();
    let found = find_duplicate_places(&n, &others, &dists);
    assert_eq!(
        found,
        vec![
            ("Eintrag".to_string(), DuplicateType::SimilarWords),
            ("Ein Eintrag Blablabla".to_string(), DuplicateType::SimilarChars),
        ]
    );
}

#[test]
fn shared_words_alone_make_similar_words() {
    let a = new_place("ab cd", "", point(47.2315374, 5.0038164));
    let b = new_place("cd ab", "", point(47.2315374, 5.0038164));
    assert_eq!(levenshtein_distance("ab cd", "cd ab"), 4);
    assert_eq!(Some(DuplicateType::SimilarWords), dup(&a, &b));
}
