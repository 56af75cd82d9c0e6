use std::cell::RefCell;

use openfairdb::create_event::NewEvent;
use openfairdb::create_place::NewEntry;
use openfairdb::db::MemoryDb;
use openfairdb::entities::{Activity, ActivityLog, Event, Place, ReviewStatus, Role, User};
use openfairdb::error::{Error, ParameterError, RepoError};
use openfairdb::events::EventQuery;
use openfairdb::flows::{add_place, create_event, update_place, NotificationGateway};
use openfairdb::geo::{MapBbox, MapPoint};
use openfairdb::query_events::query_events;
use openfairdb::update_place::UpdatePlace;
use openfairdb::usecases::{request_user_token, reset_password_with_email_nonce, subscribe_to_bbox};

#[derive(Default)]
struct Recorder {
    added: RefCell<Vec<(Vec<String>, String)>>,
    updated: RefCell<Vec<(Vec<String>, String)>>,
    events: RefCell<Vec<(Vec<String>, String)>>,
}

impl NotificationGateway for Recorder {
    fn place_added(&self, email_addresses: &Vec<String>, place: &Place) {
        self.added.borrow_mut().push((email_addresses.clone(), place.id.clone()));
    }
    fn place_updated(&self, email_addresses: &Vec<String>, place: &Place) {
        self.updated.borrow_mut().push((email_addresses.clone(), place.id.clone()));
    }
    fn event_created(&self, email_addresses: &Vec<String>, event: &Event) {
        self.events.borrow_mut().push((email_addresses.clone(), event.id.clone()));
    }
}

fn entry_at(lat: i64, lng: i64) -> NewEntry {
    NewEntry {
        title: "Hofladen".into(),
        description: "Gemüse".into(),
        lat,
        lng,
        street: None,
        zip: None,
        city: None,
        country: None,
        email: None,
        telephone: None,
        homepage: None,
        categories: vec![],
        tags: vec!["bio".into()],
        license: "CC0-1.0".into(),
        image_url: None,
        image_link_url: None,
    }
}

fn bbox(sw: (i64, i64), ne: (i64, i64)) -> MapBbox {
    MapBbox::new(MapPoint { lat: sw.0, lng: sw.1 }, MapPoint { lat: ne.0, lng: ne.1 })
}

#[test]
fn subscribers_are_notified_once_with_all_addresses() {
    let mut db = MemoryDb::new();
    subscribe_to_bbox(&mut db, "a@x.org".into(), bbox((480_000_000, 70_000_000), (490_000_000, 80_000_000))).unwrap();
    subscribe_to_bbox(&mut db, "b@x.org".into(), bbox((470_000_000, 75_000_000), (485_000_000, 85_000_000))).unwrap();
    let rec = Recorder::default();
    let id = add_place(&mut db, &rec, entry_at(482_000_000, 79_000_000)).unwrap();
    let added = rec.added.borrow();
    assert_eq!(added.len(), 1);
    let mut emails = added[0].0.clone();
    emails.sort();
    assert_eq!(emails, vec!["a@x.org".to_string(), "b@x.org".to_string()]);
    assert_eq!(added[0].1, id);

    let upd = UpdatePlace {
        version: 2,
        title: "Hofladen".into(),
        description: "Obst".into(),
        lat: 100,
        lng: 100,
        street: None,
        zip: None,
        city: None,
        country: None,
        state: None,
        email: None,
        telephone: None,
        homepage: None,
        opening_hours: None,
        categories: vec![],
        tags: vec!["bio".into()],
        image_url: None,
        image_link_url: None,
    };
    update_place(&mut db, &rec, id.clone(), upd, None, None).unwrap();
    let updated = rec.updated.borrow();
    assert_eq!(updated.len(), 1);
    assert!(updated[0].0.is_empty());
    let history = db.places.get_place_history(&id).unwrap();
    assert_eq!(history.len(), 2);
    assert_eq!(history[0].0.revision, 2);
    assert_eq!(history[1].0.revision, 1);
    assert_eq!(history[0].2.len(), 1);
}

#[test]
fn failed_writes_notify_nobody() {
    let mut db = MemoryDb::new();
    let rec = Recorder::default();
    let r = add_place(&mut db, &rec, entry_at(1_000_000_000, 0));
    assert_eq!(r, Err(Error::Parameter(ParameterError::InvalidPosition)));
    assert!(rec.added.borrow().is_empty());
    assert!(db.places.places.is_empty());
}

fn event_at(lat: Option<i64>, start: i64, tags: Vec<&str>) -> NewEvent {
    NewEvent {
        title: "Markt".into(),
        description: None,
        start,
        end: None,
        lat,
        lng: lat.map(|_| 79_000_000),
        street: None,
        zip: None,
        city: None,
        country: None,
        email: None,
        telephone: None,
        homepage: None,
        tags: Some(tags.into_iter().map(Into::into).collect()),
        created_by: Some("org@x.org".into()),
        token: None,
        registration: None,
        organizer: None,
    }
}

#[test]
fn events_are_queried_in_start_order() {
    let mut db = MemoryDb::new();
    subscribe_to_bbox(&mut db, "a@x.org".into(), bbox((480_000_000, 70_000_000), (490_000_000, 80_000_000))).unwrap();
    let rec = Recorder::default();
    let late = create_event(&mut db, &rec, event_at(Some(482_000_000), 300, vec!["markt"])).unwrap();
    let early = create_event(&mut db, &rec, event_at(None, 100, vec!["markt", "bio"])).unwrap();
    let middle = create_event(&mut db, &rec, event_at(Some(482_000_000), 200, vec!["kultur"])).unwrap();
    assert_eq!(rec.events.borrow().len(), 2);
    assert_eq!(rec.events.borrow()[0].0, vec!["a@x.org".to_string()]);

    let all = query_events(&db, &EventQuery::default(), None).unwrap();
    let ids: Vec<&str> = all.iter().map(|e| e.id.as_str()).collect();
    assert_eq!(ids, vec![early.as_str(), middle.as_str(), late.as_str()]);

    let q = EventQuery { tags: Some(vec!["markt".into()]), limit: Some(1), ..Default::default() };
    let ids: Vec<String> = query_events(&db, &q, None).unwrap().iter().map(|e| e.id.clone()).collect();
    assert_eq!(ids, vec![early.clone()]);

    let q = EventQuery { bbox: Some(bbox((481_000_000, 78_000_000), (483_000_000, 80_000_000))), start_min: Some(250), ..Default::default() };
    let ids: Vec<String> = query_events(&db, &q, None).unwrap().iter().map(|e| e.id.clone()).collect();
    assert_eq!(ids, vec![late.clone()]);

    let q = EventQuery { created_by: Some("nobody@x.org".into()), ..Default::default() };
    assert!(query_events(&db, &q, None).unwrap().is_empty());
    assert_eq!(
        query_events(&db, &EventQuery::default(), Some("bad token")).err(),
        Some(Error::Parameter(ParameterError::Unauthorized))
    );
    let q = EventQuery { bbox: Some(bbox((10, 0), (0, 0))), ..Default::default() };
    assert_eq!(query_events(&db, &q, None).err(), Some(Error::Parameter(ParameterError::Bbox)));
}

#[test]
fn password_reset_consumes_the_token() {
    let mut db = MemoryDb::new();
    assert!(db.users.create_user(User {
        email: "a@x.org".into(),
        username: "axorg".into(),
        password: "old".into(),
        email_confirmed: false,
        role: Role::Guest,
    }));
    assert_eq!(request_user_token(&mut db, "b@x.org", 100).err(), Some(Error::Repo(RepoError::NotFound)));
    let first = request_user_token(&mut db, "a@x.org", 100).unwrap();
    let second = request_user_token(&mut db, "a@x.org", 100).unwrap();
    assert_eq!(db.user_tokens.tokens.len(), 1);
    assert_eq!(
        reset_password_with_email_nonce(&mut db, &first, "new".into(), 50),
        Err(Error::Parameter(ParameterError::TokenInvalid))
    );
    assert_eq!(reset_password_with_email_nonce(&mut db, &second, "new".into(), 50), Ok(()));
    assert_eq!(db.users.users[0].password, "new");
    assert!(db.users.users[0].email_confirmed);
    assert_eq!(db.users.users[0].role, Role::User);
    assert!(db.user_tokens.tokens.is_empty());
    assert_eq!(
        reset_password_with_email_nonce(&mut db, &second, "again".into(), 50),
        Err(Error::Parameter(ParameterError::TokenInvalid))
    );
    let expired = request_user_token(&mut db, "a@x.org", 10).unwrap();
    assert_eq!(
        reset_password_with_email_nonce(&mut db, &expired, "late".into(), 50),
        Err(Error::Parameter(ParameterError::TokenInvalid))
    );
    assert!(db.user_tokens.tokens.is_empty());
    assert_eq!(db.users.users[0].password, "new");
}

#[test]
fn history_lists_reviews_newest_first() {
    let mut db = MemoryDb::new();
    let p = Place {
        id: "h".into(),
        license: "CC0-1.0".into(),
        revision: 1,
        created: Activity { at: 1, by: None },
        title: "t".into(),
        description: "d".into(),
        location: openfairdb::entities::Location { pos: MapPoint { lat: 0, lng: 0 }, address: None },
        contact: None,
        opening_hours: None,
        links: None,
        tags: vec![],
    };
    db.places.create_or_update_place(p).unwrap();
    let log = ActivityLog { activity: Activity { at: 2, by: None }, context: None, comment: Some("ok".into()) };
    db.places.review_places(&vec!["h".to_string()], ReviewStatus::Rejected, &log);
    let history = db.places.get_place_history("h").unwrap();
    assert_eq!(history.len(), 1);
    assert_eq!(history[0].1, ReviewStatus::Rejected);
    let revs: Vec<u64> = history[0].2.iter().map(|r| r.rev).collect();
    assert_eq!(revs, vec![2, 1]);
    assert!(db.places.get_place_history("nope").is_err());
}

#[test]
fn expired_tokens_are_removed() {
    let mut db = MemoryDb::new();
    for (email, exp) in [("a@x.org", 10i64), ("b@x.org", 50), ("c@x.org", 5)] {
        assert!(db.users.create_user(User {
            email: email.into(),
            username: email.into(),
            password: String::new(),
            email_confirmed: true,
            role: Role::User,
        }));
        request_user_token(&mut db, email, exp).unwrap();
    }
    assert_eq!(db.user_tokens.delete_expired_user_tokens(20), 2);
    assert_eq!(db.user_tokens.tokens.len(), 1);
    assert_eq!(db.user_tokens.tokens[0].email_nonce.email, "b@x.org");
}

#[test]
fn a_taken_id_is_refused() {
    let mut db = MemoryDb::new();
    let rec = Recorder::default();
    assert_eq!(openfairdb::flows::add_place_with_id(&mut db, &rec, entry_at(0, 0), "x".into(), 5), Ok(()));
    assert_eq!(
        openfairdb::flows::add_place_with_id(&mut db, &rec, entry_at(0, 0), "x".into(), 6),
        Err(Error::Repo(RepoError::InvalidVersion))
    );
    assert_eq!(db.places.places.len(), 1);
    assert_eq!(rec.added.borrow().len(), 1);
}
