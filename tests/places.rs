use openfairdb::recent_changes::recently_changed_places;
use openfairdb::popular_tags::most_popular_place_revision_tags;
use openfairdb::create_place::{prepare_new_entry, store_new_entry, NewEntry};
use openfairdb::db::MemoryDb;
use openfairdb::entities::{Activity, ActivityLog, Links, Location, Organization, Place, ReviewStatus};
use openfairdb::error::{Error, ParameterError, RepoError};
use openfairdb::geo::MapPoint;
use openfairdb::update_place::{prepare_updated_place, store_updated_place, UpdatePlace};
use uuid::Uuid;

fn new_entry(email: Option<&str>, tags: Vec<&str>) -> NewEntry {
    NewEntry {
        title: "foo".into(),
        description: "bar".into(),
        lat: 0,
        lng: 0,
        street: None,
        zip: None,
        city: None,
        country: None,
        email: email.map(Into::into),
        telephone: None,
        homepage: None,
        categories: vec![],
        tags: tags.into_iter().map(Into::into).collect(),
        license: "CC0-1.0".into(),
        image_url: None,
        image_link_url: None,
    }
}

fn place(id: &str, revision: u64, tags: Vec<&str>) -> Place {
    Place {
        id: id.into(),
        license: "CC0-1.0".into(),
        revision,
        created: Activity { at: 0, by: None },
        title: "foo".into(),
        description: "bar".into(),
        location: Location { pos: MapPoint { lat: 0, lng: 0 }, address: None },
        contact: None,
        opening_hours: None,
        links: None,
        tags: tags.into_iter().map(Into::into).collect(),
    }
}

fn update(version: u64, tags: Vec<&str>) -> UpdatePlace {
    UpdatePlace {
        version,
        title: "foo".into(),
        description: "bar".into(),
        lat: 0,
        lng: 0,
        street: Some("street".into()),
        zip: None,
        city: None,
        country: None,
        state: None,
        email: None,
        telephone: None,
        homepage: None,
        opening_hours: None,
        categories: vec![],
        tags: tags.into_iter().map(Into::into).collect(),
        image_url: None,
        image_link_url: None,
    }
}

/// A store holding the place `id` at the given revision.
fn db_with_place(id: &str, revision: u64, tags: Vec<&str>) -> MemoryDb {
    let mut db = MemoryDb::new();
    for rev in 1..=revision {
        db.places.create_or_update_place(place(id, rev, tags.clone())).unwrap();
    }
    for t in tags {
        db.tags.create_tag_if_it_does_not_exist(t);
    }
    db
}

#[test]
fn create_new_valid_entry() {
    let x = new_entry(None, vec![]);
    let mut mock_db = MemoryDb::new();
    let now = chrono::Utc::now().timestamp_millis();
    let e = prepare_new_entry(&mock_db, x).unwrap();
    let id = store_new_entry(&mut mock_db, e).unwrap();
    assert!(mock_db.ratings.load_ratings_of_place(&id).is_empty());
    assert!(Uuid::parse_str(&id).is_ok());
    assert_eq!(mock_db.places.places.len(), 1);
    let (x, status) = mock_db.places.get_place(&id).unwrap();
    assert_eq!(x.title, "foo");
    assert_eq!(x.description, "bar");
    assert_eq!(x.revision, 1);
    assert_eq!(status, ReviewStatus::Created);
    assert!(x.created.at >= now);
    assert!(Uuid::parse_str(&x.id).is_ok());
    assert_eq!(x.id, id);
    assert_eq!(x.id.len(), 32);
}

#[test]
fn create_entry_with_invalid_email() {
    let x = new_entry(Some("fooo-not-ok"), vec![]);
    let mock_db = MemoryDb::new();
    assert!(prepare_new_entry(&mock_db, x).is_err());
}

#[test]
fn add_new_valid_entry_with_tags() {
    let x = new_entry(None, vec!["foo", "bar"]);
    let mut mock_db = MemoryDb::new();
    let e = prepare_new_entry(&mock_db, x).unwrap();
    assert!(store_new_entry(&mut mock_db, e).is_ok());
    assert_eq!(mock_db.tags.tags.len(), 2);
    assert_eq!(mock_db.places.places.len(), 1);
}

#[test]
fn new_entry_tags_are_normalized() {
    let mut x = new_entry(None, vec![" #vegan  bio", "#bio", "", "fair#trade"]);
    x.categories = vec!["initiative".into()];
    let mock_db = MemoryDb::new();
    let e = prepare_new_entry(&mock_db, x).unwrap();
    assert_eq!(e.0.tags, vec!["bio", "fairtrade", "initiative", "vegan"]);
}

#[test]
fn new_entry_with_invalid_position_fails() {
    let mut x = new_entry(None, vec![]);
    x.lat = 900_000_001;
    let mock_db = MemoryDb::new();
    assert_eq!(
        prepare_new_entry(&mock_db, x).err(),
        Some(Error::Parameter(ParameterError::InvalidPosition))
    );
}

#[test]
fn new_entry_with_owned_tag_fails() {
    let x = new_entry(None, vec!["bio"]);
    let mut mock_db = MemoryDb::new();
    mock_db.orgs.create_org(Organization {
        id: "o".into(),
        name: "Org".into(),
        api_token: "secret".into(),
        owned_tags: vec!["bio".into()],
    });
    assert_eq!(
        prepare_new_entry(&mock_db, x).err(),
        Some(Error::Parameter(ParameterError::OwnedTag))
    );
}

#[test]
fn new_entry_with_unparsable_url_fails() {
    let mut x = new_entry(None, vec![]);
    x.homepage = Some("exa mple".into());
    let mock_db = MemoryDb::new();
    assert_eq!(
        prepare_new_entry(&mock_db, x).err(),
        Some(Error::Parameter(ParameterError::Url))
    );
}

#[test]
fn update_place_valid() {
    let id = "b1f1cc7a2a2b4bd38a5a7c0b6e7a1d11";
    let mut old = place(id, 1, vec![]);
    old.links = Some(Links {
        homepage: None,
        image: Some("http://img/".into()),
        image_href: Some("http://imglink/".into()),
    });
    let mut new = update(2, vec![]);
    new.image_url = Some("img2".into());
    new.image_link_url = old.links.as_ref().and_then(|l| l.image_href.clone());
    let mut mock_db = MemoryDb::new();
    mock_db.places.create_or_update_place(old).unwrap();
    let now = chrono::Utc::now().timestamp_millis();
    let storable =
        prepare_updated_place(&mock_db, id.into(), new, Some("test@example.com".into()), None).unwrap();
    assert!(store_updated_place(&mut mock_db, storable).is_ok());
    assert_eq!(mock_db.places.places.len(), 1);
    let (x, _) = mock_db.places.get_place(id).unwrap();
    assert_eq!(
        "street",
        x.location.address.as_ref().unwrap().street.as_ref().unwrap()
    );
    assert_eq!("bar", x.description);
    assert_eq!(2, x.revision);
    assert!(x.created.at >= now);
    assert_eq!(Some("test@example.com"), x.created.by.as_deref());
    assert_eq!(
        Some("https://www.img2/"),
        x.links.as_ref().and_then(|l| l.image.as_deref())
    );
    assert_eq!(
        Some("http://imglink/"),
        x.links.as_ref().and_then(|l| l.image_href.as_deref())
    );
}

#[test]
fn update_place_with_invalid_version() {
    let id = "p3";
    let new = update(3, vec![]);
    let mut mock_db = db_with_place(id, 3, vec![]);
    let err = match prepare_updated_place(&mock_db, id.into(), new, None, None) {
        Ok(storable) => store_updated_place(&mut mock_db, storable).err(),
        Err(err) => Some(err),
    };
    assert!(err.is_some());
    match err.unwrap() {
        Error::Repo(RepoError::InvalidVersion) => {}
        e => panic!("Unexpected error: {:?}", e),
    }
    assert_eq!(mock_db.places.places.len(), 1);
}

#[test]
fn update_non_existing_place() {
    let new = update(4, vec![]);
    let mock_db = MemoryDb::new();
    let result = prepare_updated_place(&mock_db, "nothing".into(), new, None, None);
    assert!(result.is_err());
    match result.err().unwrap() {
        Error::Repo(RepoError::NotFound) => {}
        _ => panic!("invalid error type"),
    }
    assert_eq!(mock_db.places.places.len(), 0);
}

#[test]
fn update_place_with_tags() {
    let id = "p1";
    let mut mock_db = db_with_place(id, 1, vec!["bio", "fair"]);
    let new = update(2, vec!["vegan"]);
    let storable = prepare_updated_place(&mock_db, id.into(), new, None, None).unwrap();
    assert!(store_updated_place(&mut mock_db, storable).is_ok());
    let (e, _) = mock_db.places.get_place(id).unwrap();
    assert_eq!(e.tags, vec!["vegan"]);
    assert_eq!(mock_db.tags.tags.len(), 3);
}

#[test]
fn optimistic_lock_lets_one_of_two_writers_win() {
    let id = "p3";
    let mut db = db_with_place(id, 3, vec![]);
    let first = prepare_updated_place(&db, id.into(), update(4, vec![]), None, None).unwrap();
    let second = prepare_updated_place(&db, id.into(), update(4, vec![]), None, None).unwrap();
    assert!(store_updated_place(&mut db, first).is_ok());
    assert_eq!(
        store_updated_place(&mut db, second).err(),
        Some(Error::Repo(RepoError::InvalidVersion))
    );
    let (p, _) = db.places.get_place(id).unwrap();
    assert_eq!(p.revision, 4);
    assert_eq!(db.places.places[0].revisions.len(), 4);
}

#[test]
fn creating_the_same_place_twice_fails() {
    let mut db = MemoryDb::new();
    assert!(db.places.create_or_update_place(place("a", 1, vec![])).is_ok());
    assert_eq!(
        db.places.create_or_update_place(place("a", 1, vec![])),
        Err(RepoError::InvalidVersion)
    );
    assert_eq!(
        db.places.create_or_update_place(place("b", 2, vec![])),
        Err(RepoError::NotFound)
    );
    assert_eq!(
        db.places.create_or_update_place(place("a", 0, vec![])),
        Err(RepoError::InvalidVersion)
    );
}

fn org_owning_bio() -> Organization {
    Organization {
        id: "org1".into(),
        name: "Bio Org".into(),
        api_token: "token1".into(),
        owned_tags: vec!["bio".into()],
    }
}

#[test]
fn owned_tag_needs_the_owners_token() {
    let id = "p1";
    let mut db = db_with_place(id, 1, vec!["fair"]);
    db.orgs.create_org(org_owning_bio());
    let without = prepare_updated_place(&db, id.into(), update(2, vec!["fair", "bio"]), None, None);
    assert_eq!(without.err(), Some(Error::Parameter(ParameterError::OwnedTag)));
    let with = prepare_updated_place(&db, id.into(), update(2, vec!["fair", "bio"]), None, Some("token1"))
        .unwrap();
    assert_eq!(with.auth_org_ids, vec!["org1".to_string()]);
    assert!(store_updated_place(&mut db, with).is_ok());
    assert_eq!(db.pending_authorizations.len(), 1);
    assert_eq!(db.pending_authorizations[0].org_id, "org1");
    assert_eq!(db.pending_authorizations[0].place_id, id);
    assert_eq!(db.pending_authorizations[0].last_authorized_revision, 1);
}

#[test]
fn unknown_token_is_unauthorized() {
    let id = "p1";
    let db = db_with_place(id, 1, vec![]);
    let r = prepare_updated_place(&db, id.into(), update(2, vec![]), None, Some("nope"));
    assert_eq!(r.err(), Some(Error::Parameter(ParameterError::Unauthorized)));
}

#[test]
fn removing_an_owned_tag_needs_authorization() {
    let id = "p1";
    let mut db = db_with_place(id, 1, vec!["bio"]);
    db.orgs.create_org(org_owning_bio());
    let r = prepare_updated_place(&db, id.into(), update(2, vec![]), None, None);
    assert_eq!(r.err(), Some(Error::Parameter(ParameterError::OwnedTag)));
    let unchanged = prepare_updated_place(&db, id.into(), update(2, vec!["bio"]), None, None).unwrap();
    assert!(unchanged.auth_org_ids.is_empty());
}

#[test]
fn written_place_reads_back() {
    let mut db = MemoryDb::new();
    let p = place("x", 1, vec!["a", "b"]);
    db.places.create_or_update_place(p.clone()).unwrap();
    let (q, status) = db.places.get_place("x").unwrap();
    assert_eq!(*q, p);
    assert_eq!(status, ReviewStatus::Created);
}

#[test]
fn reviews_append_to_the_current_revision() {
    let mut db = db_with_place("p", 2, vec![]);
    db.places.create_or_update_place(place("q", 1, vec![])).unwrap();
    let log = ActivityLog {
        activity: Activity { at: 5, by: Some("scout@example.com".into()) },
        context: Some("ctx".into()),
        comment: Some("looks good".into()),
    };
    let ids = vec!["p".to_string(), "q".to_string()];
    assert_eq!(db.places.review_places(&ids, ReviewStatus::Confirmed, &log), 2);
    assert_eq!(db.places.review_places(&ids, ReviewStatus::Confirmed, &log), 0);
    assert_eq!(db.places.review_places(&vec!["p".to_string()], ReviewStatus::Archived, &log), 1);
    let rec = &db.places.places[0];
    assert_eq!(rec.revisions.len(), 2);
    for (k, r) in rec.revisions.iter().enumerate() {
        assert_eq!(r.place.revision, k as u64 + 1);
    }
    let current = &rec.revisions[1];
    assert_eq!(current.status, ReviewStatus::Archived);
    let revs: Vec<u64> = current.reviews.iter().map(|r| r.rev).collect();
    assert_eq!(revs, vec![1, 2, 3]);
    assert_eq!(current.reviews[0].activity.comment.as_deref(), Some("created"));
    assert_eq!(current.reviews[2].status, ReviewStatus::Archived);
    assert_eq!(rec.revisions[0].reviews.len(), 1);
    assert_eq!(ReviewStatus::Archived.to_i16(), -2);
    assert!(!ReviewStatus::Archived.is_visible());
    assert!(ReviewStatus::Created.is_visible());
}

#[test]
fn tag_frequencies_of_confirmed_places() {
    let mut db = MemoryDb::new();
    db.places.create_or_update_place(place("a", 1, vec!["bio", "fair"])).unwrap();
    db.places.create_or_update_place(place("b", 1, vec!["bio", "vegan"])).unwrap();
    db.places.create_or_update_place(place("c", 1, vec!["fair", "zero"])).unwrap();
    db.places.create_or_update_place(place("d", 1, vec!["bio"])).unwrap();
    db.places.create_or_update_place(place("e", 1, vec!["bio", "vegan"])).unwrap();
    let log = ActivityLog { activity: Activity { at: 1, by: None }, context: None, comment: None };
    let confirmed: Vec<String> = vec!["a".into(), "b".into(), "c".into()];
    db.places.review_places(&confirmed, ReviewStatus::Confirmed, &log);
    db.places.review_places(&vec!["e".to_string()], ReviewStatus::Rejected, &log);
    let all = most_popular_place_revision_tags(&db.places, None, None, 0, None);
    let pairs: Vec<(&str, usize)> = all.iter().map(|f| (f.tag.as_str(), f.count)).collect();
    assert_eq!(pairs, vec![("bio", 3), ("fair", 2), ("vegan", 1), ("zero", 1)]);
    let page = most_popular_place_revision_tags(&db.places, None, None, 1, Some(2));
    let pairs: Vec<(&str, usize)> = page.iter().map(|f| (f.tag.as_str(), f.count)).collect();
    assert_eq!(pairs, vec![("fair", 2), ("vegan", 1)]);
    let rare = most_popular_place_revision_tags(&db.places, None, Some(1), 0, None);
    assert_eq!(rare.len(), 2);
    assert!(most_popular_place_revision_tags(&db.places, Some(4), None, 0, None).is_empty());
    assert!(most_popular_place_revision_tags(&db.places, None, None, 9, None).is_empty());
    assert_eq!(db.places.count_places(), 4);
    db.places.review_places(&vec!["d".to_string()], ReviewStatus::Rejected, &log);
    assert_eq!(db.places.count_places(), 3);
}

#[test]
fn recent_changes_newest_first() {
    let mut db = MemoryDb::new();
    let mut a = place("a", 1, vec![]);
    a.created.at = 10;
    db.places.create_or_update_place(a).unwrap();
    let mut b = place("b", 1, vec![]);
    b.created.at = 20;
    db.places.create_or_update_place(b).unwrap();
    let log = ActivityLog { activity: Activity { at: 30, by: None }, context: None, comment: None };
    db.places.review_places(&vec!["a".to_string()], ReviewStatus::Confirmed, &log);
    let rows = recently_changed_places(&db.places, None, None, 0, None);
    let seen: Vec<(&str, u64, i64)> = rows.iter().map(|(p, r)| (p.id.as_str(), r.rev, r.activity.activity.at)).collect();
    assert_eq!(seen, vec![("a", 2, 30), ("b", 1, 20), ("a", 1, 10)]);
    let window = recently_changed_places(&db.places, Some(15), Some(30), 0, None);
    assert_eq!(window.len(), 1);
    assert_eq!(window[0].0.id, "b");
    let paged = recently_changed_places(&db.places, None, None, 1, Some(1));
    assert_eq!(paged.len(), 1);
    assert_eq!(paged[0].1.activity.activity.at, 20);
}

#[test]
fn failed_store_leaves_the_tags_alone() {
    let mut db = db_with_place("p", 2, vec![]);
    let stale = prepare_updated_place(&db, "p".into(), update(3, vec!["new"]), None, None).unwrap();
    db.places.create_or_update_place(place("p", 3, vec![])).unwrap();
    assert_eq!(store_updated_place(&mut db, stale).err(), Some(Error::Repo(RepoError::InvalidVersion)));
    assert!(db.tags.tags.is_empty());
    let mut again = MemoryDb::new();
    again.places.create_or_update_place(place("x", 1, vec![])).unwrap();
    let dup = openfairdb::create_place::Storable(place("x", 1, vec!["t"]));
    assert_eq!(store_new_entry(&mut again, dup).err(), Some(Error::Repo(RepoError::InvalidVersion)));
    assert!(again.tags.tags.is_empty());
}

#[test]
fn export_lists_places_in_the_box_with_category_names() {
    let mut db = MemoryDb::new();
    let mut inside = place("in", 1, vec!["initiative", "bio"]);
    inside.location.pos = MapPoint { lat: 5, lng: 5 };
    let mut outside = place("out", 1, vec!["company"]);
    outside.location.pos = MapPoint { lat: 50, lng: 50 };
    db.places.create_or_update_place(inside).unwrap();
    db.places.create_or_update_place(outside).unwrap();
    let bbox = openfairdb::geo::MapBbox::new(MapPoint { lat: 0, lng: 0 }, MapPoint { lat: 10, lng: 10 });
    let found = openfairdb::export::places_in_bbox(&db.places, &bbox);
    assert_eq!(found.len(), 1);
    assert_eq!(found[0].id, "in");
    let cats = vec![
        ("company".to_string(), "Unternehmen".to_string()),
        ("initiative".to_string(), "Initiative".to_string()),
    ];
    assert_eq!(openfairdb::export::category_names(found[0], &cats), vec!["Initiative".to_string()]);
}
