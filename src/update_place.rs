//! Updating a place: a new revision that must follow the current one and
//! respect tag ownership.
use vstd::prelude::*;
use crate::create_place::{address_of, links_match, opt_url_param, parse_url_param, raw_tags, valid_pos};
use crate::db::{MemoryDb, org_index};
use crate::entities::{Activity, Address, Contact, Links, Location, Organization, PendingAuthorization, Place, ReviewStatus};
use crate::error::{Error, ParameterError, RepoError};
use crate::geo::MapPoint;
use crate::outside::now_ms;
use crate::places::{place_index, place_written, write_error};
use crate::tags::{clone_strings, is_normalization_of, prepare_tag_list, str_views, tag_of_list, tags_normalized};
use crate::usecases::{affected_orgs, authorize_editing, is_valid_email, is_valid_email_address, tag_changed, unauthorized};
use crate::create_place::register_tags;

verus! {

/// The input of a place update. Coordinates are in 1e-7 degrees; `version`
/// is the revision that the update creates.
#[derive(Clone, Debug)]
pub struct UpdatePlace {
    pub version: u64,
    pub title: String,
    pub description: String,
    pub lat: i64,
    pub lng: i64,
    pub street: Option<String>,
    pub zip: Option<String>,
    pub city: Option<String>,
    pub country: Option<String>,
    pub state: Option<String>,
    pub email: Option<String>,
    pub telephone: Option<String>,
    pub homepage: Option<String>,
    pub opening_hours: Option<String>,
    pub categories: Vec<String>,
    pub tags: Vec<String>,
    pub image_url: Option<String>,
    pub image_link_url: Option<String>,
}

/// The organization that an api token names, if a token is given.
pub open spec fn token_org<'a>(db: &'a MemoryDb, token: Option<&str>) -> Option<&'a Organization> {
    match token {
        None => None,
        Some(t) => if org_index(db.orgs.orgs@, t@) >= 0 {
            Some(&db.orgs.orgs@[org_index(db.orgs.orgs@, t@)])
        } else {
            None
        },
    }
}

/// The current revision of the place `id` in the store.
pub open spec fn current_place(db: MemoryDb, id: Seq<char>) -> Place {
    db.places.places@[place_index(db.places.places@, id)].current().place
}

/// Why an update is refused, if it is: checks in this order.
pub open spec fn update_error(db: &MemoryDb, place_id: Seq<char>, e: UpdatePlace, token: Option<&str>) -> Option<Error> {
    let i = place_index(db.places.places@, place_id);
    let old = current_place(*db, place_id);
    let raws = raw_tags(e.categories@, e.tags@);
    if !valid_pos(e.lat, e.lng) {
        Some(Error::Parameter(ParameterError::InvalidPosition))
    } else if i < 0 {
        Some(Error::Repo(RepoError::NotFound))
    } else if e.version as int != old.revision + 1 {
        Some(Error::Repo(RepoError::InvalidVersion))
    } else if token is Some && token_org(db, token) is None {
        Some(Error::Parameter(ParameterError::Unauthorized))
    } else if exists|t: Seq<char>|
        str_views(old.tags@).contains(t) != tag_of_list(raws, t) && unauthorized(
            db.orgs.orgs@,
            token_org(db, token),
            t,
        ) {
        Some(Error::Parameter(ParameterError::OwnedTag))
    } else if opt_url_param(e.homepage) is None || opt_url_param(e.image_url) is None
        || opt_url_param(e.image_link_url) is None {
        Some(Error::Parameter(ParameterError::Url))
    } else if e.email matches Some(m) && !is_valid_email(m@) {
        Some(Error::Parameter(ParameterError::Email))
    } else {
        None
    }
}

/// A checked place revision, ready to be stored, with the organizations
/// whose authorization it waits for and the revision they last authorized.
#[derive(Debug)]
pub struct Storable {
    pub place: Place,
    pub auth_org_ids: Vec<String>,
    pub last_authorized_revision: u64,
    pub last_authorized_status: ReviewStatus,
}

/// `s` is the revision that `e` makes of the place `old`, apart from time.
pub open spec fn updated_place(db: MemoryDb, old: Place, e: UpdatePlace, s: Storable, status: ReviewStatus, updated_by: Option<String>) -> bool {
    let p = s.place;
    &&& p.id == old.id
    &&& p.license == old.license
    &&& p.revision == e.version
    &&& p.created.by == updated_by
    &&& p.title == e.title
    &&& p.description == e.description
    &&& p.location.pos == (MapPoint { lat: e.lat, lng: e.lng })
    &&& p.location.address == address_of(e.street, e.zip, e.city, e.country, e.state)
    &&& p.contact == Some(Contact { email: e.email, phone: e.telephone })
    &&& p.opening_hours == e.opening_hours
    &&& links_match(
        p.links,
        opt_url_param(e.homepage)->0,
        opt_url_param(e.image_url)->0,
        opt_url_param(e.image_link_url)->0,
    )
    &&& is_normalization_of(raw_tags(e.categories@, e.tags@), str_views(p.tags@))
    &&& tags_normalized(str_views(p.tags@))
    &&& str_views(s.auth_org_ids@) == affected_orgs(
        db.orgs.orgs@,
        str_views(old.tags@),
        str_views(p.tags@),
        db.orgs.orgs@.len() as int,
    )
    &&& s.last_authorized_revision == old.revision
    &&& s.last_authorized_status == status
}

fn links_from(homepage: Option<String>, image: Option<String>, image_href: Option<String>) -> (r: Option<Links>)
    ensures
        links_match(r, crate::entities::opt_view(homepage), crate::entities::opt_view(image), crate::entities::opt_view(image_href)),
{
    if homepage.is_some() || image.is_some() || image_href.is_some() {
        Some(Links { homepage, image, image_href })
    } else {
        None
    }
}

/// Builds the next revision of the place `place_id` from `e`, created at
/// `now` by `updated_by`; `token` names the organization that acts.
pub fn build_updated_place(
    db: &MemoryDb,
    place_id: String,
    e: UpdatePlace,
    updated_by: Option<String>,
    token: Option<&str>,
    now: i64,
) -> (r: Result<Storable, Error>)
    requires
        db.wf(),
    ensures
        r is Err <==> update_error(db, place_id@, e, token) is Some,
        r matches Err(x) ==> update_error(db, place_id@, e, token) == Some(x),
        r matches Ok(s) ==> {
            let i = place_index(db.places.places@, place_id@);
            &&& updated_place(*db, current_place(*db, place_id@), e, s, db.places.places@[i].current().status, updated_by)
            &&& s.place.created.at == now
        },
{
    let UpdatePlace {
        version,
        title,
        description,
        lat,
        lng,
        street,
        zip,
        city,
        country,
        state,
        email,
        telephone,
        homepage,
        opening_hours,
        categories,
        tags,
        image_url,
        image_link_url,
    } = e;
    let pos = match MapPoint::try_from_lat_lng(lat, lng) {
        None => {
            return Err(Error::Parameter(ParameterError::InvalidPosition));
        },
        Some(pos) => pos,
    };
    let (old_place, status) = match db.places.get_place(place_id.as_str()) {
        Err(x) => {
            return Err(Error::Repo(x));
        },
        Ok(x) => x,
    };
    if version == 0 || version - 1 != old_place.revision {
        return Err(Error::Repo(RepoError::InvalidVersion));
    }
    let org = match token {
        None => None,
        Some(t) => match db.orgs.get_org_by_api_token(t) {
            Ok(o) => Some(o),
            Err(_) => {
                return Err(Error::Parameter(ParameterError::Unauthorized));
            },
        },
    };
    assert(org == token_org(db, token));
    let ghost raws = raw_tags(categories@, tags@);
    let mut merged = categories;
    let mut tags = tags;
    merged.append(&mut tags);
    assert(str_views(merged@) == raws);
    let new_tags = prepare_tag_list(merged);
    let ghost nv = str_views(new_tags@);
    let ghost ov = str_views(old_place.tags@);
    let auth_org_ids = match authorize_editing(db, &old_place.tags, &new_tags, org) {
        Ok(ids) => ids,
        Err(x) => {
            proof {
                let t = choose|t: Seq<char>| tag_changed(ov, nv, t) && unauthorized(db.orgs.orgs@, org, t);
                assert(nv.contains(t) == tag_of_list(raws, t));
            }
            return Err(x);
        },
    };
    proof {
        assert forall|t: Seq<char>|
            ov.contains(t) != tag_of_list(raws, t) implies !unauthorized(db.orgs.orgs@, org, t) by {
            assert(nv.contains(t) == tag_of_list(raws, t));
        }
    }
    let homepage = parse_url_param(homepage)?;
    let image = parse_url_param(image_url)?;
    let image_href = parse_url_param(image_link_url)?;
    if let Some(m) = &email {
        if !is_valid_email_address(m.as_str()) {
            return Err(Error::Parameter(ParameterError::Email));
        }
    }
    let address = if street.is_some() || zip.is_some() || city.is_some() || country.is_some() || state.is_some() {
        Some(Address { street, zip, city, country, state })
    } else {
        None
    };
    let place = Place {
        id: old_place.id.clone(),
        license: old_place.license.clone(),
        revision: version,
        created: Activity { at: now, by: updated_by },
        title,
        description,
        location: Location { pos, address },
        contact: Some(Contact { email, phone: telephone }),
        opening_hours,
        links: links_from(homepage, image, image_href),
        tags: new_tags,
    };
    Ok(Storable {
        place,
        auth_org_ids,
        last_authorized_revision: old_place.revision,
        last_authorized_status: status,
    })
}

/// Checks and builds the next revision of a place at the current time.
pub fn prepare_updated_place(
    db: &MemoryDb,
    place_id: String,
    e: UpdatePlace,
    updated_by: Option<String>,
    token: Option<&str>,
) -> (r: Result<Storable, Error>)
    requires
        db.wf(),
    ensures
        r is Err <==> update_error(db, place_id@, e, token) is Some,
        r matches Err(x) ==> update_error(db, place_id@, e, token) == Some(x),
        r matches Ok(s) ==> updated_place(
            *db,
            current_place(*db, place_id@),
            e,
            s,
            db.places.places@[place_index(db.places.places@, place_id@)].current().status,
            updated_by,
        ),
{
    let now = now_ms();
    build_updated_place(db, place_id, e, updated_by, token, now)
}

/// The pending-authorization rows for a stored revision, one per
/// organization, in order.
pub open spec fn pending_rows(s: Storable) -> Seq<PendingAuthorization> {
    s.auth_org_ids@.map_values(|o: String| PendingAuthorization {
        org_id: o,
        place_id: s.place.id,
        created_at: s.place.created.at,
        last_authorized_revision: s.last_authorized_revision,
        last_authorized_status: s.last_authorized_status,
    })
}

/// Stores the revision, registers its tags and records a pending
/// authorization for each organization that owns a changed tag.
pub fn store_updated_place(db: &mut MemoryDb, s: Storable) -> (r: Result<(), Error>)
    requires
        old(db).wf(),
        tags_normalized(str_views(s.place.tags@)),
    ensures
        final(db).wf(),
        r is Err <==> write_error(old(db).places.places@, s.place) is Some,
        r matches Err(e) ==> e is Repo && Some(e->Repo_0) == write_error(old(db).places.places@, s.place)
            && *final(db) == *old(db),
        r is Ok ==> place_written(old(db).places.places@, final(db).places.places@, s.place)
            && final(db).pending_authorizations@ == old(db).pending_authorizations@ + pending_rows(s),
{
    let ghost s0 = s;
    let Storable { place, auth_org_ids, last_authorized_revision, last_authorized_status } = s;
    let tags = clone_strings(&place.tags);
    let place_id = place.id.clone();
    let created_at = place.created.at;
    match db.places.create_or_update_place(place) {
        Ok(()) => {},
        Err(e) => {
            return Err(Error::Repo(e));
        },
    }
    register_tags(db, &tags);
    let ghost p0 = db.pending_authorizations@;
    let ghost db1 = *db;
    let mut i: usize = 0;
    while i < auth_org_ids.len()
        invariant
            db1.wf(),
            *db == (MemoryDb { pending_authorizations: db.pending_authorizations, ..db1 }),
            i <= auth_org_ids@.len(),
            auth_org_ids == s0.auth_org_ids,
            place_id == s0.place.id,
            created_at == s0.place.created.at,
            last_authorized_revision == s0.last_authorized_revision,
            last_authorized_status == s0.last_authorized_status,
            db.pending_authorizations@ == p0 + pending_rows(s0).subrange(0, i as int),
        decreases auth_org_ids@.len() - i,
    {
        db.pending_authorizations.push(PendingAuthorization {
            org_id: auth_org_ids[i].clone(),
            place_id: place_id.clone(),
            created_at,
            last_authorized_revision,
            last_authorized_status,
        });
        assert(pending_rows(s0).subrange(0, i + 1) =~= pending_rows(s0).subrange(0, i as int).push(pending_rows(s0)[i as int]));
        assert(db.pending_authorizations@ =~= p0 + pending_rows(s0).subrange(0, i + 1));
        i += 1;
    }
    assert(pending_rows(s0).subrange(0, auth_org_ids@.len() as int) =~= pending_rows(s0));
    Ok(())
}

} // verus!
