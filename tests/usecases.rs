use std::str::FromStr;

use openfairdb::create_event::{create_new_event, registration_type_from_lowercase, NewEvent};
use openfairdb::create_place::parse_url_param;
use openfairdb::db::MemoryDb;
use openfairdb::entities::{
    Activity, BboxSubscription, Contact, Event, Location, Place, RatingContext, RegistrationType, Role,
    User,
};
use openfairdb::error::{Error, ParameterError, RepoError};
use openfairdb::events::EventQuery;
use openfairdb::geo::{MapBbox, MapPoint};
use openfairdb::rating_usecases::{archive_ratings, archive_ratings_of_places, load_ratings_with_comments, rate_place, RatePlace};
use openfairdb::search::{extend_bbox, split_search_results, IndexedEntry};
use openfairdb::ratings::AvgRatings;
use openfairdb::tags::prepare_tag_list;
use openfairdb::usecases::{
    authorize_user_by_email, bbox_subscriptions_by_coordinate, check_and_count_owned_tags,
    confirm_email_address, delete_user, email_addresses_by_coordinate, get_bbox_subscriptions,
    get_event, get_user, subscribe_to_bbox, unsubscribe_all_bboxes,
};
use openfairdb::user_communication::{changed_entry_email, email_confirmation_email, new_entry_email};
use openfairdb::users::{new_nonce, EmailNonce};
use uuid::Uuid;

fn user(email: &str, confirmed: bool, role: Role) -> User {
    User {
        email: email.into(),
        username: email.replace('@', "").replace('.', ""),
        password: "secret".into(),
        email_confirmed: confirmed,
        role,
    }
}

fn new_event(created_by: Option<&str>) -> NewEvent {
    NewEvent {
        title: "foo".into(),
        description: Some("bar".into()),
        start: 9999,
        end: None,
        lat: None,
        lng: None,
        street: None,
        zip: None,
        city: None,
        country: None,
        email: None,
        telephone: None,
        homepage: None,
        tags: None,
        created_by: created_by.map(Into::into),
        token: None,
        registration: None,
        organizer: None,
    }
}

fn pt(lat: i64, lng: i64) -> MapPoint {
    MapPoint { lat, lng }
}

fn bbox(sw: (i64, i64), ne: (i64, i64)) -> MapBbox {
    MapBbox::new(pt(sw.0, sw.1), pt(ne.0, ne.1))
}

#[test]
fn confirm_email_of_existing_user() {
    let mut db = MemoryDb::new();
    let email = "a@foo.bar";
    assert!(db.users.create_user(user(email, false, Role::Guest)));
    let email_nonce = EmailNonce { email: email.into(), nonce: new_nonce() };
    assert!(confirm_email_address(&mut db, &email_nonce.encode_to_string()).is_ok());
    assert_eq!(db.users.users[0].email_confirmed, true);
    assert_eq!(db.users.users[0].role, Role::User);
}

#[test]
fn confirm_email_with_bad_token_fails() {
    let mut db = MemoryDb::new();
    assert_eq!(
        confirm_email_address(&mut db, "not a token"),
        Err(Error::Parameter(ParameterError::TokenInvalid))
    );
    let unknown = EmailNonce { email: "x@y.z".into(), nonce: new_nonce() };
    assert_eq!(
        confirm_email_address(&mut db, &unknown.encode_to_string()),
        Err(Error::Repo(RepoError::NotFound))
    );
}

#[test]
fn email_nonce_round_trip() {
    let n = EmailNonce { email: "someone@example.org".into(), nonce: new_nonce() };
    let encoded = n.encode_to_string();
    assert_eq!(EmailNonce::decode_from_str(&encoded), Some(n.clone()));
    assert_eq!(n.nonce.len(), 32);
    assert!(n.nonce.chars().all(|c| c.is_ascii_hexdigit() && !c.is_ascii_uppercase()));
    assert_eq!(EmailNonce::decode_from_str("0123"), None);
}

#[test]
fn registration_type_from_str() {
    assert_eq!(RegistrationType::from_str("email").unwrap(), RegistrationType::Email);
    assert_eq!(RegistrationType::from_str("eMail").unwrap(), RegistrationType::Email);
    assert_eq!(RegistrationType::from_str("telephone").unwrap(), RegistrationType::Phone);
    assert_eq!(RegistrationType::from_str("Telephone").unwrap(), RegistrationType::Phone);
    assert_eq!(RegistrationType::from_str("homepage").unwrap(), RegistrationType::Homepage);
    assert_eq!(RegistrationType::from_str("Homepage").unwrap(), RegistrationType::Homepage);
    assert!(RegistrationType::from_str("foo").is_err());
    assert!(RegistrationType::from_str("").is_err());
}

#[test]
fn registration_type_from_lowercase_name() {
    assert_eq!(registration_type_from_lowercase("telephone"), Ok(RegistrationType::Phone));
    assert_eq!(
        registration_type_from_lowercase("Telephone"),
        Err(Error::Parameter(ParameterError::RegistrationType))
    );
}

#[test]
fn create_new_valid_event() {
    let mut x = new_event(Some("foo@bar.com"));
    x.tags = Some(vec!["foo".into(), "bar".into()]);
    let mut mock_db = MemoryDb::new();
    let id = create_new_event(&mut mock_db, x).unwrap();
    assert!(Uuid::parse_str(&id).is_ok());
    assert_eq!(mock_db.events.events.len(), 1);
    assert_eq!(mock_db.tags.tags.len(), 2);
    let x = &mock_db.events.events[0];
    assert_eq!(x.title, "foo");
    assert_eq!(x.start, 9999);
    assert!(x.location.is_none());
    assert_eq!(x.description.as_ref().unwrap(), "bar");
    assert!(Uuid::parse_str(&x.id).is_ok());
    assert_eq!(x.id, id);
}

#[test]
fn create_event_with_invalid_email() {
    let mut x = new_event(None);
    x.email = Some("fooo-not-ok".into());
    let mut mock_db = MemoryDb::new();
    assert!(create_new_event(&mut mock_db, x).is_err());
}

#[test]
fn create_event_without_creator_fails() {
    let mut mock_db = MemoryDb::new();
    assert_eq!(
        create_new_event(&mut mock_db, new_event(None)),
        Err(Error::Parameter(ParameterError::CreatorEmail))
    );
    assert!(mock_db.events.events.is_empty());
}

#[test]
fn create_event_with_valid_non_existing_creator_email() {
    let x = new_event(Some("fooo@bar.tld"));
    let mut mock_db = MemoryDb::new();
    assert!(create_new_event(&mut mock_db, x).is_ok());
    let users = &mock_db.users.users;
    assert_eq!(users.len(), 1);
    assert_eq!(&users[0].email, "fooo@bar.tld");
    assert_eq!(&users[0].username, "fooobartld");
}

#[test]
fn create_event_with_valid_existing_creator_email() {
    let mut mock_db = MemoryDb::new();
    assert!(mock_db.users.create_user(User {
        email: "fooo@bar.tld".into(),
        username: "foo".into(),
        password: "secret".into(),
        email_confirmed: true,
        role: Role::User,
    }));
    assert_eq!(mock_db.users.users.len(), 1);
    let x = new_event(Some("fooo@bar.tld"));
    assert!(create_new_event(&mut mock_db, x).is_ok());
    assert_eq!(mock_db.users.users.len(), 1);
}

#[test]
fn registration_needs_matching_contact() {
    let mut db = MemoryDb::new();
    let mut x = new_event(Some("a@b.cd"));
    x.registration = Some("email".into());
    x.telephone = Some("0123".into());
    assert_eq!(create_new_event(&mut db, x.clone()), Err(Error::Parameter(ParameterError::Email)));
    x.telephone = None;
    assert_eq!(create_new_event(&mut db, x.clone()), Err(Error::Parameter(ParameterError::Email)));
    let mut phone = new_event(Some("a@b.cd"));
    phone.registration = Some("telephone".into());
    assert_eq!(create_new_event(&mut db, phone.clone()), Err(Error::Parameter(ParameterError::Contact)));
    phone.email = Some("info@example.com".into());
    assert_eq!(create_new_event(&mut db, phone), Err(Error::Parameter(ParameterError::Phone)));
    x.email = Some("info@example.com".into());
    assert!(create_new_event(&mut db, x.clone()).is_ok());
    let mut y = new_event(Some("a@b.cd"));
    y.registration = Some("homepage".into());
    assert_eq!(create_new_event(&mut db, y.clone()), Err(Error::Parameter(ParameterError::Url)));
    y.registration = Some("fax".into());
    assert_eq!(
        create_new_event(&mut db, y),
        Err(Error::Parameter(ParameterError::RegistrationType))
    );
    assert_eq!(db.events.events.len(), 1);
    assert_eq!(db.events.events[0].registration, Some(RegistrationType::Email));
}

#[test]
fn event_fields_are_normalized() {
    let mut db = MemoryDb::new();
    let mut x = new_event(Some("a@b.cd"));
    x.lat = Some(482_000_000);
    x.lng = Some(79_000_000);
    x.city = Some("Freiburg".into());
    x.organizer = Some("  Org  ".into());
    x.homepage = Some("".into());
    x.tags = Some(vec!["#b a".into()]);
    let id = create_new_event(&mut db, x).unwrap();
    let e = get_event(&db, &id).unwrap();
    assert_eq!(e.location.as_ref().unwrap().pos, pt(482_000_000, 79_000_000));
    assert_eq!(e.organizer.as_deref(), Some("Org"));
    assert_eq!(e.homepage, None);
    assert_eq!(e.tags, vec!["a", "b"]);
    assert_eq!(get_event(&db, "nope").err(), Some(Error::Repo(RepoError::NotFound)));
}

fn stored_event(id: &str, tags: Vec<&str>, archived: Option<i64>) -> Event {
    Event {
        id: id.into(),
        title: "t".into(),
        description: None,
        start: 0,
        end: None,
        location: None,
        contact: None,
        homepage: None,
        tags: tags.into_iter().map(Into::into).collect(),
        created_by: None,
        registration: None,
        organizer: None,
        archived,
    }
}

#[test]
fn archiving_events_is_idempotent() {
    let mut db = MemoryDb::new();
    assert!(db.events.create_event(stored_event("e", vec![], None)));
    assert!(db.events.create_event(stored_event("f", vec![], Some(1))));
    assert_eq!(db.events.archive_events(&vec!["f".to_string()], 7), 0);
    assert_eq!(db.events.events[1].archived, Some(1));
    assert_eq!(db.events.archive_events(&vec!["e".to_string()], 7), 1);
    assert_eq!(db.events.events[0].archived, Some(7));
    assert_eq!(db.events.archive_events(&vec!["e".to_string()], 8), 0);
    assert_eq!(db.events.events[0].archived, Some(7));
}

#[test]
fn deleting_events_with_a_tag_filter() {
    let mut db = MemoryDb::new();
    assert!(db.events.create_event(stored_event("e", vec!["a", "b"], None)));
    assert!(db.events.create_event(stored_event("f", vec!["c"], None)));
    assert_eq!(db.events.delete_event_with_matching_tags("e", &vec!["x".to_string()]), Ok(None));
    assert_eq!(db.events.delete_event_with_matching_tags("e", &vec!["b".to_string()]), Ok(Some(())));
    assert_eq!(db.events.delete_event_with_matching_tags("f", &vec![]), Ok(Some(())));
    assert_eq!(db.events.delete_event_with_matching_tags("g", &vec![]), Err(RepoError::NotFound));
    assert!(db.events.events.is_empty());
}

#[test]
fn event_locations_follow_geocoding() {
    let mut db = MemoryDb::new();
    let mut with_address = stored_event("e", vec![], None);
    with_address.location = Some(Location {
        pos: pt(0, 0),
        address: Some(openfairdb::entities::Address { city: Some("X".into()), ..Default::default() }),
    });
    assert!(db.events.create_event(with_address));
    assert!(db.events.create_event(stored_event("f", vec![], None)));
    db.events.update_event_locations(&vec![Some((10, 20)), Some((30, 40))]);
    assert_eq!(db.events.events[0].location.as_ref().unwrap().pos, pt(10, 20));
    assert!(db.events.events[1].location.is_none());
}

#[test]
fn event_query_is_empty() {
    let q = EventQuery::default();
    assert!(q.is_empty());
    let q = EventQuery { limit: Some(3), ..Default::default() };
    assert!(!q.is_empty());
}

#[test]
fn subscription_fan_out_notifies_each_address_once() {
    let mut db = MemoryDb::new();
    subscribe_to_bbox(&mut db, "a@x.org".into(), bbox((480_000_000, 70_000_000), (490_000_000, 80_000_000))).unwrap();
    subscribe_to_bbox(&mut db, "b@x.org".into(), bbox((470_000_000, 75_000_000), (485_000_000, 85_000_000))).unwrap();
    db.subscriptions.create_bbox_subscription(BboxSubscription {
        id: "extra".into(),
        user_email: "a@x.org".into(),
        bbox: bbox((400_000_000, 0), (500_000_000, 100_000_000)),
    });
    let mut emails = email_addresses_by_coordinate(&db, pt(482_000_000, 79_000_000));
    emails.sort();
    assert_eq!(emails, vec!["a@x.org".to_string(), "b@x.org".to_string()]);
    assert_eq!(bbox_subscriptions_by_coordinate(&db, pt(482_000_000, 79_000_000)).len(), 3);
    assert!(email_addresses_by_coordinate(&db, pt(0, 0)).is_empty());
}

#[test]
fn subscribing_replaces_earlier_subscriptions() {
    let mut db = MemoryDb::new();
    subscribe_to_bbox(&mut db, "a@x.org".into(), bbox((0, 0), (10, 10))).unwrap();
    subscribe_to_bbox(&mut db, "a@x.org".into(), bbox((20, 20), (30, 30))).unwrap();
    let subs = get_bbox_subscriptions(&db, "a@x.org");
    assert_eq!(subs.len(), 1);
    assert_eq!(subs[0].bbox, bbox((20, 20), (30, 30)));
    assert_eq!(
        subscribe_to_bbox(&mut db, "a@x.org".into(), bbox((30, 0), (10, 10))),
        Err(Error::Parameter(ParameterError::Bbox))
    );
    unsubscribe_all_bboxes(&mut db, "a@x.org");
    assert!(get_bbox_subscriptions(&db, "a@x.org").is_empty());
}

#[test]
fn bbox_across_the_antimeridian() {
    let b = bbox((-100, 1_700_000_000), (100, -1_700_000_000));
    assert!(b.contains_point(pt(0, 1_750_000_000)));
    assert!(b.contains_point(pt(0, -1_750_000_000)));
    assert!(!b.contains_point(pt(0, 0)));
    assert!(!b.contains_point(pt(200, 1_750_000_000)));
}

#[test]
fn extended_bbox_has_a_margin() {
    let b = extend_bbox(&bbox((100, 200), (200, 400)));
    assert_eq!(b, bbox((90, 180), (210, 420)));
    let edge = extend_bbox(&bbox((800_000_000, 0), (900_000_000, 10)));
    assert_eq!(edge.north_east.lat, 900_000_000);
    assert_eq!(edge.south_west.lat, 790_000_000);
}

fn indexed(id: &str, pos: MapPoint) -> IndexedEntry {
    IndexedEntry {
        id: id.into(),
        pos,
        title: String::new(),
        description: String::new(),
        categories: vec![],
        tags: vec![],
        ratings: AvgRatings { contexts: vec![] },
    }
}

#[test]
fn search_results_split_by_visibility() {
    let mut entries = vec![indexed("in1", pt(5, 5))];
    for k in 0..7 {
        entries.push(indexed(&format!("out{}", k), pt(50, 50)));
    }
    entries.push(indexed("in2", pt(6, 6)));
    let (visible, invisible) = split_search_results(entries, &bbox((0, 0), (10, 10)));
    let v: Vec<&str> = visible.iter().map(|e| e.id.as_str()).collect();
    let i: Vec<&str> = invisible.iter().map(|e| e.id.as_str()).collect();
    assert_eq!(v, vec!["in1", "in2"]);
    assert_eq!(i, vec!["out0", "out1", "out2", "out3", "out4"]);
}

fn rated_place(db: &mut MemoryDb, id: &str) {
    db.places
        .create_or_update_place(Place {
            id: id.into(),
            license: "CC0-1.0".into(),
            revision: 1,
            created: Activity { at: 0, by: None },
            title: "t".into(),
            description: "d".into(),
            location: Location { pos: pt(0, 0), address: None },
            contact: Some(Contact { email: None, phone: None }),
            opening_hours: None,
            links: None,
            tags: vec![],
        })
        .unwrap();
}

fn rate(place: &str, value: i8, ctx: RatingContext) -> RatePlace {
    RatePlace {
        place_id: place.into(),
        title: "r".into(),
        value,
        context: ctx,
        comment: "c".into(),
        source: None,
    }
}

#[test]
fn rating_average_of_a_context() {
    let mut db = MemoryDb::new();
    rated_place(&mut db, "p");
    for (k, v) in [-1i8, 0, 2].iter().enumerate() {
        rate_place(&mut db, rate("p", *v, RatingContext::Diversity), format!("r{}", k), format!("c{}", k), 1).unwrap();
    }
    rate_place(&mut db, rate("p", 2, RatingContext::Fairness), "r9".into(), "c9".into(), 1).unwrap();
    let avg = db.ratings.avg_ratings("p");
    let d = avg.contexts[0];
    let value = d.sum as f64 / d.denominator() as f64;
    assert!((value - 1.0 / 3.0).abs() < 1e-9);
    assert_eq!(avg.contexts[2].sum, 2);
    assert_eq!(avg.contexts[1].count, 0);
    assert_eq!(avg.contexts[1].denominator(), 1);
}

#[test]
fn rating_out_of_range_or_for_unknown_place_fails() {
    let mut db = MemoryDb::new();
    rated_place(&mut db, "p");
    assert_eq!(
        rate_place(&mut db, rate("p", 3, RatingContext::Humanity), "r".into(), "c".into(), 1),
        Err(Error::Parameter(ParameterError::RatingValue))
    );
    assert_eq!(
        rate_place(&mut db, rate("q", 1, RatingContext::Humanity), "r".into(), "c".into(), 1),
        Err(Error::Repo(RepoError::NotFound))
    );
    assert!(db.ratings.ratings.is_empty());
}

#[test]
fn archiving_a_place_archives_its_ratings_and_comments() {
    let mut db = MemoryDb::new();
    rated_place(&mut db, "p");
    rated_place(&mut db, "q");
    rate_place(&mut db, rate("p", 1, RatingContext::Renewable), "r1".into(), "c1".into(), 1).unwrap();
    rate_place(&mut db, rate("q", 1, RatingContext::Renewable), "r2".into(), "c2".into(), 1).unwrap();
    assert_eq!(archive_ratings_of_places(&mut db, &vec!["p".to_string()], 50), 1);
    assert_eq!(db.ratings.ratings[0].archived_at, Some(50));
    assert_eq!(db.ratings.comments[0].archived_at, Some(50));
    assert_eq!(db.ratings.ratings[1].archived_at, None);
    assert_eq!(db.ratings.comments[1].archived_at, None);
    assert!(db.ratings.load_ratings_of_place("p").is_empty());
    assert_eq!(db.ratings.load_ratings_of_place("q").len(), 1);
    assert_eq!(archive_ratings_of_places(&mut db, &vec!["p".to_string()], 60), 0);
    assert_eq!(db.ratings.ratings[0].archived_at, Some(50));
    assert_eq!(archive_ratings(&mut db, &vec!["r2".to_string()], 70), 1);
    assert_eq!(db.ratings.comments[1].archived_at, Some(70));
}

#[test]
fn ratings_load_with_their_comments() {
    let mut db = MemoryDb::new();
    rated_place(&mut db, "p");
    rate_place(&mut db, rate("p", 1, RatingContext::Solidarity), "r1".into(), "c1".into(), 1).unwrap();
    rate_place(&mut db, rate("p", 0, RatingContext::Transparency), "r2".into(), "c2".into(), 1).unwrap();
    let loaded = load_ratings_with_comments(&db, &vec!["r2".to_string(), "nope".to_string()]);
    assert_eq!(loaded.len(), 1);
    assert_eq!(loaded[0].0.id, "r2");
    assert_eq!(loaded[0].1.len(), 1);
    assert_eq!(loaded[0].1[0].id, "c2");
}

#[test]
fn users_are_read_and_deleted_by_themselves_only() {
    let mut db = MemoryDb::new();
    assert!(db.users.create_user(user("a@x.org", true, Role::Scout)));
    assert!(!db.users.create_user(user("a@x.org", true, Role::Admin)));
    assert_eq!(get_user(&db, "b@x.org", "a@x.org").err(), Some(Error::Parameter(ParameterError::Forbidden)));
    assert_eq!(get_user(&db, "a@x.org", "a@x.org").unwrap().role, Role::Scout);
    assert!(authorize_user_by_email(&db, "a@x.org", Role::User).is_ok());
    assert_eq!(
        authorize_user_by_email(&db, "a@x.org", Role::Admin).err(),
        Some(Error::Parameter(ParameterError::Unauthorized))
    );
    assert_eq!(delete_user(&mut db, "b@x.org", "a@x.org"), Err(Error::Parameter(ParameterError::Forbidden)));
    assert_eq!(delete_user(&mut db, "a@x.org", "a@x.org"), Ok(()));
    assert!(db.users.users.is_empty());
}

#[test]
fn owned_tags_are_counted() {
    let mut db = MemoryDb::new();
    db.orgs.create_org(openfairdb::entities::Organization {
        id: "o".into(),
        name: "O".into(),
        api_token: "t".into(),
        owned_tags: vec!["bio".into(), "fair".into()],
    });
    let tags = vec!["bio".to_string(), "vegan".to_string(), "fair".to_string()];
    assert_eq!(check_and_count_owned_tags(&db, &tags, None), Err(Error::Parameter(ParameterError::OwnedTag)));
    let org = db.orgs.orgs[0].clone();
    assert_eq!(check_and_count_owned_tags(&db, &tags, Some(&org)), Ok(2));
    assert_eq!(check_and_count_owned_tags(&db, &vec!["vegan".to_string()], None), Ok(0));
}

#[test]
fn tag_lists_are_normalized() {
    let raw = vec![" foo  #bar ".to_string(), "baz foo".to_string(), "###".to_string(), "a\tb".to_string()];
    let once = prepare_tag_list(raw);
    assert_eq!(once, vec!["a\tb", "bar", "baz", "foo"]);
    let twice = prepare_tag_list(once.clone());
    assert_eq!(twice, once);
    assert!(prepare_tag_list(vec![]).is_empty());
    assert_eq!(prepare_tag_list(vec!["Ä".into(), "b".into(), "B".into()]), vec!["B", "b", "Ä"]);
}

#[test]
fn url_parameters() {
    assert_eq!(parse_url_param(Some("img2".into())), Ok(Some("https://www.img2/".into())));
    assert_eq!(parse_url_param(Some("http://imglink".into())), Ok(Some("http://imglink/".into())));
    assert_eq!(parse_url_param(Some("".into())), Ok(None));
    assert_eq!(parse_url_param(None), Ok(None));
}

#[test]
fn error_statuses() {
    assert_eq!(Error::Parameter(ParameterError::Credentials).http_status(), 401);
    assert_eq!(Error::Parameter(ParameterError::OwnedTag).http_status(), 403);
    assert_eq!(Error::Parameter(ParameterError::EmailNotConfirmed).http_status(), 403);
    assert_eq!(Error::Parameter(ParameterError::Url).http_status(), 400);
    assert_eq!(Error::Parameter(ParameterError::UserExists).http_status(), 400);
    assert_eq!(Error::Repo(RepoError::NotFound).http_status(), 404);
    assert_eq!(Error::Repo(RepoError::InvalidVersion).http_status(), 500);
}

fn sample_place() -> Place {
    Place {
        id: "abc".into(),
        license: "CC0-1.0".into(),
        revision: 1,
        created: Activity { at: 0, by: None },
        title: "Laden".into(),
        description: "Ein Laden".into(),
        location: Location {
            pos: pt(0, 0),
            address: Some(openfairdb::entities::Address {
                street: Some("Hauptstr. 1".into()),
                zip: Some("79098".into()),
                city: Some("Freiburg".into()),
                country: None,
                state: None,
            }),
        },
        contact: Some(Contact { email: Some("info@laden.de".into()), phone: None }),
        opening_hours: None,
        links: None,
        tags: vec!["bio".into(), "fair".into()],
    }
}

#[test]
fn e_mail_texts() {
    let c = email_confirmation_email("https://x/confirm");
    assert!(c.starts_with("Na du Weltverbesserer*,\n"));
    assert!(c.contains("\nhttps://x/confirm\n\neuphorische Grüße"));
    let n = new_entry_email(&sample_place(), &vec!["Initiative".to_string()]);
    assert!(n.starts_with("Hallo,\nein neuer Eintrag auf der Karte von morgen wurde erstellt:\n\nLaden (Initiative)\nEin Laden\n\n    Tags: bio, fair\n    Adresse: Hauptstr. 1, 79098 Freiburg, \n    Webseite: \n    Email-Adresse: info@laden.de\n    Telefon: \n"));
    assert!(n.contains("https://kartevonmorgen.org/#/?entry=abc\n"));
    let m = changed_entry_email(&sample_place(), &vec![]);
    assert!(m.starts_with("Hallo,\nfolgender Eintrag der Karte von morgen wurde verändert:\n\nLaden ()\n"));
}

struct FixedIndex(Vec<IndexedEntry>);

impl openfairdb::search::EntryIndex for FixedIndex {
    fn query_entries(
        &self,
        query: &openfairdb::search::EntryIndexQuery,
        limit: usize,
    ) -> Result<Vec<IndexedEntry>, Error> {
        assert_eq!(query.bbox, Some(bbox((-1, -1), (11, 11))));
        Ok(self.0.iter().take(limit).cloned().collect())
    }
}

#[test]
fn search_asks_the_index_with_a_margin() {
    let index = FixedIndex(vec![indexed("a", pt(50, 50)), indexed("b", pt(5, 5))]);
    let req = openfairdb::search::SearchRequest {
        bbox: bbox((0, 0), (10, 10)),
        categories: vec![],
        text: None,
        tags: vec![],
    };
    let (visible, invisible) = openfairdb::search::search(&index, req, Some(10)).unwrap();
    assert_eq!(visible.len(), 1);
    assert_eq!(visible[0].id, "b");
    assert_eq!(invisible[0].id, "a");
}

#[test]
fn registering_users() {
    let mut db = MemoryDb::new();
    assert_eq!(openfairdb::usecases::create_new_user(&mut db, "Foo.Bar@Example.org", "hash".into()), Ok(()));
    assert_eq!(db.users.users[0].username, "foobarexampleorg");
    assert_eq!(db.users.users[0].role, Role::Guest);
    assert!(!db.users.users[0].email_confirmed);
    assert_eq!(
        openfairdb::usecases::create_new_user(&mut db, "Foo.Bar@Example.org", "x".into()),
        Err(Error::Parameter(ParameterError::UserExists))
    );
    assert_eq!(
        openfairdb::usecases::create_new_user(&mut db, "no-address", "x".into()),
        Err(Error::Parameter(ParameterError::Email))
    );
    assert_eq!(db.users.users.len(), 1);
}

#[test]
fn small_helpers() {
    assert_eq!(openfairdb::entities::ReviewStatus::try_from_i16(1), Some(openfairdb::entities::ReviewStatus::Confirmed));
    assert_eq!(openfairdb::entities::ReviewStatus::try_from_i16(-1), Some(openfairdb::entities::ReviewStatus::Rejected));
    assert_eq!(openfairdb::entities::ReviewStatus::try_from_i16(2), None);
    assert_eq!(openfairdb::search::map_bbox(pt(0, 0), pt(10, 10)), Some(bbox((0, 0), (10, 10))));
    assert_eq!(openfairdb::search::map_bbox(pt(900_000_001, 0), pt(10, 10)), None);
    assert!(openfairdb::duplicates::levenshtein_distance_small("kitten", "sitting", 3));
    assert!(!openfairdb::duplicates::levenshtein_distance_small("kitten", "sitting", 2));
}

#[test]
fn events_are_prepared_and_updated() {
    let mut db = MemoryDb::new();
    let mut x = new_event(Some("new@x.org"));
    x.tags = Some(vec!["a".into()]);
    let ev = openfairdb::create_event::try_into_new_event(&mut db, x, "ev1".into()).unwrap();
    assert_eq!(ev.id, "ev1");
    assert_eq!(db.users.users.len(), 1);
    assert_eq!(db.tags.tags, vec!["a".to_string()]);
    assert!(db.events.events.is_empty());
    assert!(db.events.create_event(ev.clone()));
    let mut changed = ev;
    changed.title = "neu".into();
    assert_eq!(db.events.update_event(changed), Ok(()));
    assert_eq!(db.events.events[0].title, "neu");
    assert_eq!(db.events.update_event(stored_event("zz", vec![], None)), Err(RepoError::NotFound));
}

#[test]
fn addresses_are_unique_regardless_of_case() {
    let mut db = MemoryDb::new();
    assert_eq!(openfairdb::usecases::create_new_user(&mut db, "Anna@Example.org", "h".into()), Ok(()));
    assert_eq!(
        openfairdb::usecases::create_new_user(&mut db, "anna@example.ORG", "h".into()),
        Err(Error::Parameter(ParameterError::UserExists))
    );
    assert_eq!(db.users.get_user_by_email("ANNA@example.org").unwrap().email, "Anna@Example.org");
}

#[test]
fn user_names_keep_ascii_letters_and_digits() {
    assert_eq!(openfairdb::create_event::ascii_alnum_chars("a.B-9@ü"), "aB9");
    assert_eq!(openfairdb::create_event::username_from_email("Foo.Bar@X.org"), "foobarxorg");
}

fn rated(id: &str, pos: MapPoint, sums: [(i128, usize); 6]) -> IndexedEntry {
    let mut e = indexed(id, pos);
    e.ratings = AvgRatings {
        contexts: sums.iter().map(|&(sum, count)| openfairdb::ratings::ContextAverage { sum, count }).collect(),
    };
    e
}

#[test]
fn search_orders_by_average_rating() {
    let none = [(0, 0); 6];
    let mut good = none;
    good[0] = (4, 2); // average 2
    let mut fair = none;
    fair[1] = (1, 3); // average 1/3
    let mut bad = none;
    bad[2] = (-1, 1);
    let entries = vec![
        rated("bad", pt(5, 5), bad),
        rated("plain", pt(5, 5), none),
        rated("fair", pt(50, 50), fair),
        rated("good", pt(5, 5), good),
        rated("plain2", pt(5, 5), none),
    ];
    let sorted = openfairdb::search::sort_by_avg_rating(entries);
    let ids: Vec<&str> = sorted.iter().map(|e| e.id.as_str()).collect();
    assert_eq!(ids, vec!["good", "fair", "plain", "plain2", "bad"]);
    assert_eq!(openfairdb::search::entry_rating_score(&sorted[1]), 333_333_333);
    let index = FixedIndex(sorted.into_iter().rev().collect());
    let req = openfairdb::search::SearchRequest {
        bbox: bbox((0, 0), (10, 10)),
        categories: vec![],
        text: None,
        tags: vec![],
    };
    let (visible, invisible) = openfairdb::search::search(&index, req, None).unwrap();
    let v: Vec<&str> = visible.iter().map(|e| e.id.as_str()).collect();
    assert_eq!(v, vec!["good", "plain2", "plain", "bad"]);
    assert_eq!(invisible[0].id, "fair");
}

#[test]
fn event_creation_registers_the_creator() {
    let mut db = MemoryDb::new();
    create_new_event(&mut db, new_event(Some("Fooo@Bar.tld"))).unwrap();
    assert_eq!(db.users.users.len(), 1);
    assert_eq!(db.users.users[0].username, "fooobartld");
    assert_eq!(db.users.users[0].role, Role::Guest);
    create_new_event(&mut db, new_event(Some("fooo@bar.tld"))).unwrap();
    assert_eq!(db.users.users.len(), 1);
}

#[test]
fn archive_counts_only_live_ratings() {
    let mut db = MemoryDb::new();
    rated_place(&mut db, "p");
    for k in 0..3 {
        rate_place(&mut db, rate("p", 1, RatingContext::Fairness), format!("r{}", k), format!("c{}", k), 1).unwrap();
    }
    assert_eq!(archive_ratings(&mut db, &vec!["r1".to_string()], 5), 1);
    assert_eq!(archive_ratings_of_places(&mut db, &vec!["p".to_string()], 6), 2);
    assert_eq!(db.ratings.ratings[1].archived_at, Some(5));
    assert!(db.ratings.ratings.iter().all(|r| r.archived_at.is_some()));
}

#[test]
fn events_must_not_end_before_they_start() {
    let mut db = MemoryDb::new();
    let mut x = new_event(Some("a@b.cd"));
    x.end = Some(100);
    assert_eq!(create_new_event(&mut db, x.clone()), Err(Error::Parameter(ParameterError::EndDateBeforeStart)));
    assert!(db.users.users.is_empty());
    x.end = Some(9999);
    assert!(create_new_event(&mut db, x).is_ok());
}

#[test]
fn event_ids_are_unique() {
    let mut db = MemoryDb::new();
    assert!(db.events.create_event(stored_event("e", vec![], None)));
    assert!(!db.events.create_event(stored_event("e", vec!["x"], None)));
    assert_eq!(db.events.events.len(), 1);
    assert_eq!(
        openfairdb::create_event::create_event_with_id(&mut db, new_event(Some("a@b.cd")), "e".into()),
        Err(Error::Repo(RepoError::InvalidVersion))
    );
    assert!(db.users.users.is_empty());
    assert_eq!(
        openfairdb::create_event::create_event_with_id(&mut db, new_event(Some("a@b.cd")), "f".into()),
        Ok(())
    );
}

#[test]
fn failed_confirmation_changes_nothing() {
    let mut db = MemoryDb::new();
    assert!(db.users.create_user(user("a@foo.bar", false, Role::Guest)));
    assert!(confirm_email_address(&mut db, "garbage").is_err());
    assert!(!db.users.users[0].email_confirmed);
    assert_eq!(db.users.users[0].role, Role::Guest);
}
