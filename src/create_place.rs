//! Creating a place: the input is checked and normalized into revision 1.
use vstd::prelude::*;
use crate::db::{MemoryDb, owned_by_any};
use crate::entities::{Activity, Address, Contact, Links, Location, Place, opt_view};
use crate::error::{Error, ParameterError};
use crate::geo::{MAX_LAT, MAX_LNG, MapPoint};
use crate::outside::{new_id, now_ms, parse_url, url_parsed};
use crate::places::{place_written, write_error};
use crate::tags::{clone_strings, is_normalization_of, prepare_tag_list, str_views, tag_of_list, tags_normalized};
use crate::usecases::{check_and_count_owned_tags, is_valid_email, is_valid_email_address};
use crate::users::is_nonce;

verus! {

/// What a URL parameter stands for: nothing when empty, else the URL that it
/// parses to, either as it is or with `https://www.` in front. `None` when
/// neither parses.
pub open spec fn url_param(s: Seq<char>) -> Option<Option<Seq<char>>> {
    if s.len() == 0 {
        Some(None)
    } else if url_parsed(s) is Some {
        Some(url_parsed(s))
    } else if url_parsed("https://www."@ + s) is Some {
        Some(url_parsed("https://www."@ + s))
    } else {
        None
    }
}

pub open spec fn opt_url_param(o: Option<String>) -> Option<Option<Seq<char>>> {
    match o {
        None => Some(None),
        Some(s) => url_param(s@),
    }
}

/// Parses an optional URL parameter (see `url_param`); fails with `Url`.
pub fn parse_url_param(o: Option<String>) -> (r: Result<Option<String>, Error>)
    ensures
        r is Err <==> opt_url_param(o) is None,
        r matches Ok(u) ==> opt_url_param(o) == Some(opt_view(u)),
        r matches Err(e) ==> e == Error::Parameter(ParameterError::Url),
{
    let s = match o {
        None => {
            return Ok(None);
        },
        Some(s) => s,
    };
    if s.as_str().unicode_len() == 0 {
        return Ok(None);
    }
    if let Some(u) = parse_url(s.as_str()) {
        return Ok(Some(u));
    }
    let mut prefixed = "https://www.".to_owned();
    prefixed.append(s.as_str());
    proof {
        reveal_strlit("https://www.");
    }
    match parse_url(prefixed.as_str()) {
        Some(u) => Ok(Some(u)),
        None => Err(Error::Parameter(ParameterError::Url)),
    }
}

/// The input of a new place. Coordinates are in 1e-7 degrees.
#[derive(Clone, Debug)]
pub struct NewEntry {
    pub title: String,
    pub description: String,
    pub lat: i64,
    pub lng: i64,
    pub street: Option<String>,
    pub zip: Option<String>,
    pub city: Option<String>,
    pub country: Option<String>,
    pub email: Option<String>,
    pub telephone: Option<String>,
    pub homepage: Option<String>,
    pub categories: Vec<String>,
    pub tags: Vec<String>,
    pub license: String,
    pub image_url: Option<String>,
    pub image_link_url: Option<String>,
}

/// The raw tags of an input: its category ids followed by its tags.
pub open spec fn raw_tags(categories: Seq<String>, tags: Seq<String>) -> Seq<Seq<char>> {
    str_views(categories + tags)
}

pub open spec fn valid_pos(lat: i64, lng: i64) -> bool {
    -MAX_LAT <= lat <= MAX_LAT && -MAX_LNG <= lng <= MAX_LNG
}

/// Why a new place is refused, if it is: checks in this order.
pub open spec fn new_entry_error(db: MemoryDb, e: NewEntry) -> Option<Error> {
    if !valid_pos(e.lat, e.lng) {
        Some(Error::Parameter(ParameterError::InvalidPosition))
    } else if exists|t: Seq<char>|
        tag_of_list(raw_tags(e.categories@, e.tags@), t) && owned_by_any(db.orgs.orgs@, t) {
        Some(Error::Parameter(ParameterError::OwnedTag))
    } else if opt_url_param(e.homepage) is None || opt_url_param(e.image_url) is None
        || opt_url_param(e.image_link_url) is None {
        Some(Error::Parameter(ParameterError::Url))
    } else if e.email matches Some(m) && !is_valid_email(m@) {
        Some(Error::Parameter(ParameterError::Email))
    } else {
        None
    }
}

/// The address made of the parts given, or `None` when all are absent.
pub open spec fn address_of(street: Option<String>, zip: Option<String>, city: Option<String>, country: Option<String>, state: Option<String>) -> Option<Address> {
    let a = Address { street, zip, city, country, state };
    if a.spec_is_empty() {
        None
    } else {
        Some(a)
    }
}

/// The links given, or `None` when none is.
pub open spec fn links_match(l: Option<Links>, homepage: Option<Seq<char>>, image: Option<Seq<char>>, image_href: Option<Seq<char>>) -> bool {
    if homepage is None && image is None && image_href is None {
        l is None
    } else {
        l matches Some(x) && opt_view(x.homepage) == homepage && opt_view(x.image) == image
            && opt_view(x.image_href) == image_href
    }
}

/// `p` is revision 1 of a place made from `e`, apart from its id and time.
pub open spec fn entry_place(e: NewEntry, p: Place) -> bool {
    &&& p.license == e.license
    &&& p.revision == 1
    &&& p.created.by is None
    &&& p.title == e.title
    &&& p.description == e.description
    &&& p.location.pos == (MapPoint { lat: e.lat, lng: e.lng })
    &&& p.location.address == address_of(e.street, e.zip, e.city, e.country, None)
    &&& p.contact == if e.email is None && e.telephone is None {
        None
    } else {
        Some(Contact { email: e.email, phone: e.telephone })
    }
    &&& p.opening_hours is None
    &&& links_match(
        p.links,
        opt_url_param(e.homepage)->0,
        opt_url_param(e.image_url)->0,
        opt_url_param(e.image_link_url)->0,
    )
    &&& is_normalization_of(raw_tags(e.categories@, e.tags@), str_views(p.tags@))
    &&& tags_normalized(str_views(p.tags@))
}

fn concat_strings(a: Vec<String>, b: Vec<String>) -> (r: Vec<String>)
    ensures
        r@ == a@ + b@,
{
    let mut r = a;
    let mut b = b;
    r.append(&mut b);
    r
}

fn links_from(homepage: Option<String>, image: Option<String>, image_href: Option<String>) -> (r: Option<Links>)
    ensures
        links_match(r, opt_view(homepage), opt_view(image), opt_view(image_href)),
{
    if homepage.is_some() || image.is_some() || image_href.is_some() {
        Some(Links { homepage, image, image_href })
    } else {
        None
    }
}

fn address_from(street: Option<String>, zip: Option<String>, city: Option<String>, country: Option<String>, state: Option<String>) -> (r: Option<Address>)
    ensures
        r == address_of(street, zip, city, country, state),
{
    let a = Address { street, zip, city, country, state };
    if a.is_empty() {
        None
    } else {
        Some(a)
    }
}

/// Builds revision 1 of a new place with the given id and creation time.
pub fn build_new_place(db: &MemoryDb, e: NewEntry, id: String, now: i64) -> (r: Result<Place, Error>)
    ensures
        r is Err <==> new_entry_error(*db, e) is Some,
        r matches Err(x) ==> new_entry_error(*db, e) == Some(x),
        r matches Ok(p) ==> entry_place(e, p) && p.id == id && p.created.at == now,
{
    let NewEntry {
        title,
        description,
        lat,
        lng,
        street,
        zip,
        city,
        country,
        email,
        telephone,
        homepage,
        categories,
        tags,
        license,
        image_url,
        image_link_url,
    } = e;
    let pos = match MapPoint::try_from_lat_lng(lat, lng) {
        None => {
            return Err(Error::Parameter(ParameterError::InvalidPosition));
        },
        Some(pos) => pos,
    };
    let ghost raws = raw_tags(categories@, tags@);
    let merged = concat_strings(categories, tags);
    assert(str_views(merged@) == raws);
    let tags = prepare_tag_list(merged);
    let ghost tv = str_views(tags@);
    if check_and_count_owned_tags(db, &tags, None).is_err() {
        proof {
            let i = choose|i: int| 0 <= i < tags@.len() && owned_by_any(db.orgs.orgs@, #[trigger] tags@[i]@);
            assert(tv[i] == tags@[i]@);
            assert(tv.contains(tags@[i]@));
        }
        return Err(Error::Parameter(ParameterError::OwnedTag));
    }
    proof {
        assert forall|t: Seq<char>| tag_of_list(raws, t) implies !owned_by_any(db.orgs.orgs@, t) by {
            assert(tv.contains(t));
            let i = choose|i: int| 0 <= i < tv.len() && tv[i] == t;
            assert(tv[i] == tags@[i]@);
        }
    }
    let homepage = parse_url_param(homepage)?;
    let image = parse_url_param(image_url)?;
    let image_href = parse_url_param(image_link_url)?;
    if let Some(m) = &email {
        if !is_valid_email_address(m.as_str()) {
            return Err(Error::Parameter(ParameterError::Email));
        }
    }
    let address = address_from(street, zip, city, country, None);
    let contact = if email.is_some() || telephone.is_some() {
        Some(Contact { email, phone: telephone })
    } else {
        None
    };
    let links = links_from(homepage, image, image_href);
    Ok(Place {
        id,
        license,
        revision: 1,
        created: Activity { at: now, by: None },
        title,
        description,
        location: Location { pos, address },
        contact,
        opening_hours: None,
        links,
        tags,
    })
}

/// A checked new place, ready to be stored.
#[derive(Debug)]
pub struct Storable(pub Place);

/// Checks and normalizes a new place; it gets a fresh id and the current
/// time.
pub fn prepare_new_entry(db: &MemoryDb, e: NewEntry) -> (r: Result<Storable, Error>)
    ensures
        r is Err <==> new_entry_error(*db, e) is Some,
        r matches Err(x) ==> new_entry_error(*db, e) == Some(x),
        r matches Ok(s) ==> entry_place(e, s.0) && is_nonce(s.0.id@),
{
    let id = new_id();
    let now = now_ms();
    match build_new_place(db, e, id, now) {
        Ok(p) => Ok(Storable(p)),
        Err(x) => Err(x),
    }
}

/// Registers the tags of a place that a store is about to hold.
pub fn register_tags(db: &mut MemoryDb, tags: &Vec<String>)
    requires
        old(db).wf(),
    ensures
        final(db).wf(),
        *final(db) == (MemoryDb { tags: final(db).tags, ..*old(db) }),
        forall|i: int| 0 <= i < tags@.len() ==> str_views(final(db).tags.tags@).contains(#[trigger] tags@[i]@),
{
    let mut i: usize = 0;
    while i < tags.len()
        invariant
            db.wf(),
            i <= tags@.len(),
            *db == (MemoryDb { tags: db.tags, ..*old(db) }),
            forall|k: int| 0 <= k < i ==> str_views(db.tags.tags@).contains(#[trigger] tags@[k]@),
        decreases tags@.len() - i,
    {
        let ghost before = str_views(db.tags.tags@);
        db.tags.create_tag_if_it_does_not_exist(tags[i].as_str());
        proof {
            assert forall|k: int| 0 <= k <= i implies str_views(db.tags.tags@).contains(#[trigger] tags@[k]@) by {
                if !before.contains(tags@[i as int]@) {
                    crate::tags::lemma_contains_push(before, tags@[i as int]@, tags@[k]@);
                }
            }
        }
        i += 1;
    }
}

/// Stores a new place as revision 1 and registers its tags; returns its id.
pub fn store_new_entry(db: &mut MemoryDb, s: Storable) -> (r: Result<String, Error>)
    requires
        old(db).wf(),
        tags_normalized(str_views(s.0.tags@)),
    ensures
        final(db).wf(),
        r is Err <==> write_error(old(db).places.places@, s.0) is Some,
        r matches Err(e) ==> Some(e->Repo_0) == write_error(old(db).places.places@, s.0)
            && e is Repo && *final(db) == *old(db),
        r matches Ok(id) ==> id == s.0.id && place_written(old(db).places.places@, final(db).places.places@, s.0)
            && forall|i: int| 0 <= i < s.0.tags@.len() ==> str_views(final(db).tags.tags@).contains(#[trigger] s.0.tags@[i]@),
{
    let Storable(place) = s;
    let tags = clone_strings(&place.tags);
    let id = place.id.clone();
    match db.places.create_or_update_place(place) {
        Ok(()) => {},
        Err(e) => {
            return Err(Error::Repo(e));
        },
    }
    register_tags(db, &tags);
    Ok(id)
}

} // verus!
