//! Flows: a use case, then the notification of the subscribers whose boxes
//! contain the changed place or event.
use vstd::prelude::*;
use crate::create_event::{NewEvent, create_new_event, event_error, event_of, fresh_event_error};
use crate::create_place::{NewEntry, Storable as NewPlace, build_new_place, entry_place, new_entry_error, store_new_entry};
use crate::outside::{new_id, now_ms};
use crate::users::is_nonce;
use crate::db::MemoryDb;
use crate::entities::{Event, Place};
use crate::error::{Error, RepoError};
use crate::places::{lemma_revisions_contiguous, place_index, place_written, write_error};
use crate::update_place::{
    Storable, UpdatePlace, current_place, pending_rows, prepare_updated_place, store_updated_place,
    update_error, updated_place,
};
use crate::usecases::email_addresses_by_coordinate;

verus! {

/// Where notifications about changes go; e-mail delivery is up to the
/// implementation.
pub trait NotificationGateway {
    fn place_added(&self, email_addresses: &Vec<String>, place: &Place);

    fn place_updated(&self, email_addresses: &Vec<String>, place: &Place);

    fn event_created(&self, email_addresses: &Vec<String>, event: &Event);
}

/// Creates a place with the given id and creation time and notifies, once,
/// the subscribers whose boxes contain it. A taken id gives
/// `InvalidVersion`; on failure the store is unchanged.
pub fn add_place_with_id<N: NotificationGateway>(
    db: &mut MemoryDb,
    notify: &N,
    e: NewEntry,
    id: String,
    now: i64,
) -> (r: Result<(), Error>)
    requires
        old(db).wf(),
    ensures
        final(db).wf(),
        r is Err <==> (new_entry_error(*old(db), e) is Some || place_index(old(db).places.places@, id@) >= 0),
        r matches Err(x) ==> *final(db) == *old(db) && if new_entry_error(*old(db), e) is Some {
            new_entry_error(*old(db), e) == Some(x)
        } else {
            x == Error::Repo(RepoError::InvalidVersion)
        },
        r is Ok ==> {
            let i = place_index(final(db).places.places@, id@);
            &&& i >= 0
            &&& entry_place(e, final(db).places.places@[i].current().place)
            &&& final(db).places.places@[i].current().place.id == id
            &&& final(db).places.places@[i].current().place.created.at == now
        },
{
    let ghost idv = id@;
    let p = match build_new_place(db, e, id, now) {
        Ok(p) => p,
        Err(x) => {
            return Err(x);
        },
    };
    let pos = p.location.pos;
    let ghost pg = p;
    let ghost old_places = db.places.places@;
    let stored_id = match store_new_entry(db, NewPlace(p)) {
        Ok(x) => x,
        Err(x) => {
            return Err(x);
        },
    };
    proof {
        crate::places::lemma_write_then_read(old_places, db.places.places@, pg);
    }
    let emails = email_addresses_by_coordinate(db, pos);
    if let Ok((place, _)) = db.places.get_place(stored_id.as_str()) {
        notify.place_added(&emails, place);
    }
    Ok(())
}

/// Creates a place with a fresh id and notifies, once, the subscribers
/// whose boxes contain it. Returns the new id.
pub fn add_place<N: NotificationGateway>(db: &mut MemoryDb, notify: &N, e: NewEntry) -> (r: Result<String, Error>)
    requires
        old(db).wf(),
    ensures
        final(db).wf(),
        new_entry_error(*old(db), e) matches Some(x) ==> r == Err::<String, Error>(x) && *final(db) == *old(db),
        r matches Err(x) ==> *final(db) == *old(db) && (new_entry_error(*old(db), e) == Some(x) || (
            new_entry_error(*old(db), e) is None && x == Error::Repo(RepoError::InvalidVersion)
                && exists|id: Seq<char>| is_nonce(id) && #[trigger] place_index(old(db).places.places@, id) >= 0)),
        r matches Ok(id) ==> is_nonce(id@) && place_index(final(db).places.places@, id@) >= 0 && entry_place(
            e,
            final(db).places.places@[place_index(final(db).places.places@, id@)].current().place,
        ),
{
    let id = new_id();
    let now = now_ms();
    let ghost idv = id@;
    let copy = id.clone();
    match add_place_with_id(db, notify, e, id, now) {
        Ok(()) => Ok(copy),
        Err(x) => {
            proof {
                if new_entry_error(*old(db), e) is None {
                    assert(place_index(old(db).places.places@, idv) >= 0);
                }
            }
            Err(x)
        },
    }
}

/// Stores the next revision of a place and notifies, once, the subscribers
/// whose boxes contain it. A checked update always succeeds: its version
/// and its place were checked against the same store.
pub fn update_place<N: NotificationGateway>(
    db: &mut MemoryDb,
    notify: &N,
    place_id: String,
    e: UpdatePlace,
    updated_by: Option<String>,
    token: Option<&str>,
) -> (r: Result<(), Error>)
    requires
        old(db).wf(),
    ensures
        final(db).wf(),
        r is Err <==> update_error(old(db), place_id@, e, token) is Some,
        r matches Err(x) ==> update_error(old(db), place_id@, e, token) == Some(x) && *final(db) == *old(db),
        r is Ok ==> exists|s: Storable|
            #[trigger] updated_place(
                *old(db),
                current_place(*old(db), place_id@),
                e,
                s,
                old(db).places.places@[place_index(old(db).places.places@, place_id@)].current().status,
                updated_by,
            ) && place_written(old(db).places.places@, final(db).places.places@, s.place)
                && final(db).pending_authorizations@ == old(db).pending_authorizations@ + pending_rows(s),
{
    let ghost places0 = db.places.places@;
    let s = prepare_updated_place(db, place_id, e, updated_by, token)?;
    let ghost sg = s;
    proof {
        let i = place_index(places0, place_id@);
        lemma_revisions_contiguous(places0, i);
        let rec = places0[i];
        let last = rec.revisions@.len() - 1;
        assert(rec.revisions@[last].wf(last + 1, rec.id()));
        assert(sg.place.id@ == place_id@);
        assert(write_error(places0, sg.place) is None);
    }
    let pos = s.place.location.pos;
    let id = s.place.id.clone();
    let stored = store_updated_place(db, s);
    assert(stored is Ok);
    proof {
        crate::places::lemma_write_then_read(places0, db.places.places@, sg.place);
    }
    let emails = email_addresses_by_coordinate(db, pos);
    if let Ok((place, _)) = db.places.get_place(id.as_str()) {
        notify.place_updated(&emails, place);
    }
    Ok(())
}

/// Creates an event and, when it has a location, notifies the subscribers
/// whose boxes contain it. Returns the new id.
pub fn create_event<N: NotificationGateway>(db: &mut MemoryDb, notify: &N, e: NewEvent) -> (r: Result<String, Error>)
    requires
        old(db).wf(),
    ensures
        final(db).wf(),
        (event_error(old(db), e) is Some || e.created_by is None) ==> r is Err,
        r matches Err(x) ==> *final(db) == *old(db) && fresh_event_error(old(db), e, x),
        r matches Ok(id) ==> final(db).events.events@.last().id == id && event_of(e, final(db).events.events@.last()),
{
    let id = create_new_event(db, e)?;
    let last = db.events.events.len() - 1;
    let event = &db.events.events[last];
    if let Some(loc) = &event.location {
        let emails = email_addresses_by_coordinate(db, loc.pos);
        notify.event_created(&emails, event);
    }
    Ok(id)
}

} // verus!
