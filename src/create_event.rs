//! Creating events: the input is checked, normalized and stored; the creator
//! is registered as a user when unknown.
use vstd::prelude::*;
use crate::create_place::{parse_url_param, register_tags, url_param};
use crate::db::{MemoryDb, org_index};
use crate::entities::{Address, Contact, Event, Location, Organization, RegistrationType, Role, User};
use crate::error::{Error, ParameterError, RepoError};
use crate::events::event_index;
use crate::geo::MapPoint;
use crate::outside::{lower_of, new_id, to_lowercase};
use crate::tags::{is_normalization_of, prepare_tag_list, str_views, tag_of_list, tags_normalized, trim, trim_str};
use crate::text::str_eq;
use crate::usecases::{check_and_count_owned_tags, is_valid_email, is_valid_email_address, unauthorized};
use crate::users::{is_nonce, user_index};

verus! {

/// The registration type that a lowercase name stands for.
pub open spec fn registration_of(s: Seq<char>) -> Option<RegistrationType> {
    if s == "email"@ {
        Some(RegistrationType::Email)
    } else if s == "telephone"@ {
        Some(RegistrationType::Phone)
    } else if s == "homepage"@ {
        Some(RegistrationType::Homepage)
    } else {
        None
    }
}

/// The registration type that an already lowercase name stands for; fails
/// with `RegistrationType`.
pub fn registration_type_from_lowercase(s: &str) -> (r: Result<RegistrationType, Error>)
    ensures
        r matches Ok(t) ==> registration_of(s@) == Some(t),
        r is Err ==> registration_of(s@) is None && r == Err::<RegistrationType, Error>(
            Error::Parameter(ParameterError::RegistrationType),
        ),
{
    proof {
        reveal_strlit("email");
        reveal_strlit("telephone");
        reveal_strlit("homepage");
    }
    if str_eq(s, "email") {
        Ok(RegistrationType::Email)
    } else if str_eq(s, "telephone") {
        Ok(RegistrationType::Phone)
    } else if str_eq(s, "homepage") {
        Ok(RegistrationType::Homepage)
    } else {
        Err(Error::Parameter(ParameterError::RegistrationType))
    }
}

/// Parses a registration type by name, ignoring case.
pub fn parse_registration_type(s: &str) -> (r: Result<RegistrationType, Error>)
    ensures
        r matches Ok(t) ==> registration_of(lower_of(s@)) == Some(t),
        r is Err ==> registration_of(lower_of(s@)) is None && r == Err::<RegistrationType, Error>(
            Error::Parameter(ParameterError::RegistrationType),
        ),
{
    let lower = to_lowercase(s);
    registration_type_from_lowercase(lower.as_str())
}

impl std::str::FromStr for RegistrationType {
    type Err = Error;

    fn from_str(s: &str) -> Result<RegistrationType, Error> {
        parse_registration_type(s)
    }
}

pub open spec fn is_ascii_alnum(c: char) -> bool {
    ('0' <= c && c <= '9') || ('a' <= c && c <= 'z') || ('A' <= c && c <= 'Z')
}

/// The ASCII letters and digits of `s`, in order.
pub open spec fn ascii_alnum_of(s: Seq<char>) -> Seq<char>
    decreases s.len(),
{
    if s.len() == 0 {
        s
    } else if is_ascii_alnum(s.last()) {
        ascii_alnum_of(s.drop_last()).push(s.last())
    } else {
        ascii_alnum_of(s.drop_last())
    }
}

/// The ASCII letters and digits of `s`, in order.
pub fn ascii_alnum_chars(s: &str) -> (r: String)
    ensures
        r@ == ascii_alnum_of(s@),
{
    let n = s.unicode_len();
    let mut r = String::new();
    let mut i: usize = 0;
    while i < n
        invariant
            n == s@.len(),
            i <= n,
            r@ == ascii_alnum_of(s@.subrange(0, i as int)),
        decreases n - i,
    {
        let c = s.get_char(i);
        assert(s@.subrange(0, i + 1).drop_last() =~= s@.subrange(0, i as int));
        if ('0' <= c && c <= '9') || ('a' <= c && c <= 'z') || ('A' <= c && c <= 'Z') {
            let one = s.substring_char(i, i + 1);
            assert(one@ =~= seq![c]);
            r.append(one);
        }
        i += 1;
    }
    assert(s@.subrange(0, n as int) =~= s@);
    r
}

/// The user name made from an address: lowercased, keeping ASCII letters and
/// digits only.
pub fn username_from_email(email: &str) -> (r: String)
    ensures
        r@ == ascii_alnum_of(lower_of(email@)),
{
    let lower = to_lowercase(email);
    ascii_alnum_chars(lower.as_str())
}

/// The input of a new event. Coordinates are in 1e-7 degrees, times in
/// seconds since the epoch.
#[derive(Clone, Debug)]
pub struct NewEvent {
    pub title: String,
    pub description: Option<String>,
    pub start: i64,
    pub end: Option<i64>,
    pub lat: Option<i64>,
    pub lng: Option<i64>,
    pub street: Option<String>,
    pub zip: Option<String>,
    pub city: Option<String>,
    pub country: Option<String>,
    pub email: Option<String>,
    pub telephone: Option<String>,
    pub homepage: Option<String>,
    pub tags: Option<Vec<String>>,
    pub created_by: Option<String>,
    pub token: Option<String>,
    pub registration: Option<String>,
    pub organizer: Option<String>,
}

/// The organization that an event's api token names, if a token is given.
pub open spec fn event_org<'a>(db: &'a MemoryDb, token: Option<String>) -> Option<&'a Organization> {
    match token {
        None => None,
        Some(t) => if org_index(db.orgs.orgs@, t@) >= 0 {
            Some(&db.orgs.orgs@[org_index(db.orgs.orgs@, t@)])
        } else {
            None
        },
    }
}

pub open spec fn event_raw_tags(tags: Option<Vec<String>>) -> Seq<Seq<char>> {
    match tags {
        None => Seq::empty(),
        Some(v) => str_views(v@),
    }
}

/// The homepage of an event: an empty one counts as absent.
pub open spec fn homepage_param(h: Option<String>) -> Option<Option<Seq<char>>> {
    match h {
        None => Some(None),
        Some(s) => url_param(s@),
    }
}

/// Why the registration type of an event is refused, if it is.
pub open spec fn registration_error(e: NewEvent) -> Option<Error> {
    match e.registration {
        None => None,
        Some(r) => if r@.len() == 0 {
            None
        } else {
            let has_contact = e.email is Some || e.telephone is Some;
            match registration_of(lower_of(r@)) {
                None => Some(Error::Parameter(ParameterError::RegistrationType)),
                Some(RegistrationType::Email) => if e.email is None {
                    Some(Error::Parameter(ParameterError::Email))
                } else {
                    None
                },
                Some(RegistrationType::Phone) => if !has_contact {
                    Some(Error::Parameter(ParameterError::Contact))
                } else if e.telephone is None {
                    Some(Error::Parameter(ParameterError::Phone))
                } else {
                    None
                },
                Some(RegistrationType::Homepage) => if homepage_param(e.homepage)->0 is None {
                    Some(Error::Parameter(ParameterError::Url))
                } else {
                    None
                },
            }
        },
    }
}

/// Why a new event is refused, if it is: checks in this order.
pub open spec fn event_error(db: &MemoryDb, e: NewEvent) -> Option<Error> {
    if e.token is Some && event_org(db, e.token) is None {
        Some(Error::Parameter(ParameterError::Unauthorized))
    } else if exists|t: Seq<char>|
        tag_of_list(event_raw_tags(e.tags), t) && unauthorized(db.orgs.orgs@, event_org(db, e.token), t) {
        Some(Error::Parameter(ParameterError::OwnedTag))
    } else if homepage_param(e.homepage) is None {
        Some(Error::Parameter(ParameterError::Url))
    } else if e.created_by matches Some(m) && !is_valid_email(m@) {
        Some(Error::Parameter(ParameterError::Email))
    } else if registration_error(e) is Some {
        registration_error(e)
    } else if e.email matches Some(m) && !is_valid_email(m@) {
        Some(Error::Parameter(ParameterError::Email))
    } else if e.end matches Some(x) && x < e.start {
        Some(Error::Parameter(ParameterError::EndDateBeforeStart))
    } else {
        None
    }
}

/// The position of an event: given only when both coordinates are, and
/// valid.
pub open spec fn event_pos(lat: Option<i64>, lng: Option<i64>) -> Option<MapPoint> {
    match (lat, lng) {
        (Some(a), Some(b)) => if (MapPoint { lat: a, lng: b }).valid() {
            Some(MapPoint { lat: a, lng: b })
        } else {
            None
        },
        _ => None,
    }
}

/// `ev` is the event that `e` describes, apart from its tags and id.
pub open spec fn event_of(e: NewEvent, ev: Event) -> bool {
    let pos = event_pos(e.lat, e.lng);
    let has_address = e.street is Some || e.zip is Some || e.city is Some || e.country is Some;
    &&& ev.title == e.title
    &&& ev.description == e.description
    &&& ev.start == e.start
    &&& ev.end == e.end
    &&& ev.location == if pos is None && !has_address {
        None
    } else {
        Some(Location {
            pos: match pos { Some(p) => p, None => MapPoint { lat: 0, lng: 0 } },
            address: if has_address {
                Some(Address { street: e.street, zip: e.zip, city: e.city, country: e.country, state: None })
            } else {
                None
            },
        })
    }
    &&& ev.contact == if e.email is None && e.telephone is None {
        None
    } else {
        Some(Contact { email: e.email, phone: e.telephone })
    }
    &&& crate::entities::opt_view(ev.homepage) == homepage_param(e.homepage)->0
    &&& ev.created_by == e.created_by
    &&& ev.registration == match e.registration {
        None => None,
        Some(r) => if r@.len() == 0 { None } else { registration_of(lower_of(r@)) },
    }
    &&& crate::entities::opt_view(ev.organizer) == match e.organizer {
        None => None,
        Some(o) => if trim(o@).len() == 0 { None } else { Some(trim(o@)) },
    }
    &&& ev.archived is None
    &&& is_normalization_of(event_raw_tags(e.tags), str_views(ev.tags@))
    &&& tags_normalized(str_views(ev.tags@))
}

fn event_tags(tags: Option<Vec<String>>) -> (r: Vec<String>)
    ensures
        str_views(r@) == event_raw_tags(tags),
{
    match tags {
        None => {
            let r: Vec<String> = Vec::new();
            assert(str_views(r@) =~= Seq::<Seq<char>>::empty());
            r
        },
        Some(v) => v,
    }
}

/// Checks and builds the event that `e` describes, with id `id`; the store
/// is not changed.
pub fn build_event(db: &MemoryDb, e: NewEvent, id: String) -> (r: Result<Event, Error>)
    ensures
        r is Err <==> event_error(db, e) is Some,
        r matches Err(x) ==> event_error(db, e) == Some(x),
        r matches Ok(ev) ==> event_of(e, ev) && ev.id == id,
{
    let ghost e0 = e;
    let NewEvent {
        title,
        description,
        start,
        end,
        lat,
        lng,
        street,
        zip,
        city,
        country,
        email,
        telephone,
        homepage,
        tags,
        created_by,
        token,
        registration,
        organizer,
    } = e;
    let org = match &token {
        None => None,
        Some(t) => match db.orgs.get_org_by_api_token(t.as_str()) {
            Ok(o) => Some(o),
            Err(_) => {
                return Err(Error::Parameter(ParameterError::Unauthorized));
            },
        },
    };
    assert(org == event_org(db, e0.token));
    let raw = event_tags(tags);
    let ghost raws = str_views(raw@);
    let tags = prepare_tag_list(raw);
    let ghost tv = str_views(tags@);
    if check_and_count_owned_tags(db, &tags, org).is_err() {
        proof {
            let i = choose|i: int| 0 <= i < tags@.len() && unauthorized(db.orgs.orgs@, org, #[trigger] tags@[i]@);
            assert(tv[i] == tags@[i]@);
            assert(tv.contains(tags@[i]@));
        }
        return Err(Error::Parameter(ParameterError::OwnedTag));
    }
    proof {
        assert forall|t: Seq<char>| tag_of_list(raws, t) implies !unauthorized(db.orgs.orgs@, org, t) by {
            assert(tv.contains(t));
            let i = choose|i: int| 0 <= i < tv.len() && tv[i] == t;
            assert(tv[i] == tags@[i]@);
        }
    }
    let homepage = parse_url_param(homepage)?;
    if let Some(m) = &created_by {
        if !is_valid_email_address(m.as_str()) {
            return Err(Error::Parameter(ParameterError::Email));
        }
    }
    let has_contact = email.is_some() || telephone.is_some();
    let registration = match registration {
        None => None,
        Some(r) => {
            if r.as_str().unicode_len() == 0 {
                None
            } else {
                let t = parse_registration_type(r.as_str())?;
                match t {
                    RegistrationType::Email => {
                        if email.is_none() {
                            return Err(Error::Parameter(ParameterError::Email));
                        }
                    },
                    RegistrationType::Phone => {
                        if !has_contact {
                            return Err(Error::Parameter(ParameterError::Contact));
                        }
                        if telephone.is_none() {
                            return Err(Error::Parameter(ParameterError::Phone));
                        }
                    },
                    RegistrationType::Homepage => {
                        if homepage.is_none() {
                            return Err(Error::Parameter(ParameterError::Url));
                        }
                    },
                }
                Some(t)
            }
        },
    };
    if let Some(m) = &email {
        if !is_valid_email_address(m.as_str()) {
            return Err(Error::Parameter(ParameterError::Email));
        }
    }
    if let Some(x) = end {
        if x < start {
            return Err(Error::Parameter(ParameterError::EndDateBeforeStart));
        }
    }
    let has_address = street.is_some() || zip.is_some() || city.is_some() || country.is_some();
    let address = if has_address {
        Some(Address { street, zip, city, country, state: None })
    } else {
        None
    };
    let pos = match (lat, lng) {
        (Some(a), Some(b)) => MapPoint::try_from_lat_lng(a, b),
        _ => None,
    };
    let location = if pos.is_some() || address.is_some() {
        Some(Location { pos: match pos { Some(p) => p, None => MapPoint { lat: 0, lng: 0 } }, address })
    } else {
        None
    };
    let contact = if has_contact {
        Some(Contact { email, phone: telephone })
    } else {
        None
    };
    let organizer = match organizer {
        None => None,
        Some(o) => {
            let t = trim_str(o.as_str());
            if t.as_str().unicode_len() == 0 {
                None
            } else {
                Some(t)
            }
        },
    };
    Ok(Event {
        id,
        title,
        description,
        start,
        end,
        location,
        contact,
        homepage,
        tags,
        created_by,
        registration,
        organizer,
        archived: None,
    })
}

/// The users after the creator `m` was registered: unchanged when a user
/// with that address exists, else one more user, an unconfirmed guest with
/// the address, the user name made from it and an empty password.
pub open spec fn creator_registered(old: Seq<User>, new: Seq<User>, m: Seq<char>) -> bool {
    if user_index(old, m) >= 0 {
        new == old
    } else {
        &&& new.len() == old.len() + 1
        &&& new.drop_last() == old
        &&& new.last().email@ == m
        &&& new.last().username@ == ascii_alnum_of(lower_of(m))
        &&& new.last().password@.len() == 0
        &&& !new.last().email_confirmed
        &&& new.last().role == Role::Guest
    }
}

/// The users after an event by `created_by` was stored.
pub open spec fn creator_users(old: Seq<User>, new: Seq<User>, created_by: Option<String>) -> bool {
    match created_by {
        None => new == old,
        Some(m) => creator_registered(old, new, m@),
    }
}

/// Registers a user for the address `email` unless one exists: the user
/// name is made from the address, the user is an unconfirmed guest.
pub fn create_user_from_email(db: &mut MemoryDb, email: &str)
    requires
        old(db).wf(),
    ensures
        final(db).wf(),
        *final(db) == (MemoryDb { users: final(db).users, ..*old(db) }),
        user_index(old(db).users.users@, email@) >= 0 ==> final(db).users == old(db).users,
        user_index(old(db).users.users@, email@) < 0 ==> final(db).users.users@ == old(db).users.users@.push(
            User {
                email: final(db).users.users@.last().email,
                username: final(db).users.users@.last().username,
                password: final(db).users.users@.last().password,
                email_confirmed: false,
                role: Role::Guest,
            },
        ) && final(db).users.users@.last().email@ == email@
            && final(db).users.users@.last().username@ == ascii_alnum_of(lower_of(email@))
            && final(db).users.users@.last().password@.len() == 0,
{
    if db.users.find(email).is_some() {
        return;
    }
    let user = User {
        email: email.to_owned(),
        username: username_from_email(email),
        password: String::new(),
        email_confirmed: false,
        role: Role::Guest,
    };
    let ok = db.users.create_user(user);
    assert(ok);
}

/// Checks and builds a new event with id `id`, registering its creator and
/// its tags. On failure the store is unchanged.
pub fn try_into_new_event(db: &mut MemoryDb, e: NewEvent, id: String) -> (r: Result<Event, Error>)
    requires
        old(db).wf(),
    ensures
        final(db).wf(),
        r is Err <==> event_error(old(db), e) is Some,
        r matches Err(x) ==> event_error(old(db), e) == Some(x) && *final(db) == *old(db),
        r matches Ok(ev) ==> event_of(e, ev) && ev.id == id
            && final(db).places == old(db).places && final(db).events == old(db).events
            && creator_users(old(db).users.users@, final(db).users.users@, e.created_by)
            && (e.created_by matches Some(m) ==> user_index(final(db).users.users@, m@) >= 0)
            && forall|i: int| 0 <= i < ev.tags@.len() ==> str_views(final(db).tags.tags@).contains(#[trigger] ev.tags@[i]@),
{
    let ev = build_event(db, e, id)?;
    if let Some(m) = &ev.created_by {
        let ghost u0 = db.users.users@;
        create_user_from_email(db, m.as_str());
        proof {
            if user_index(u0, m@) < 0 {
                assert(db.users.users@.drop_last() =~= u0);
                let n = db.users.users@.len() - 1;
                assert(db.users.users@[n].email@ == m@);
                crate::users::lemma_user_index(db.users.users@, m@, n);
            }
        }
    }
    let ghost users1 = db.users;
    register_tags(db, &ev.tags);
    assert(db.users == users1);
    Ok(ev)
}

/// Why storing an event with id `id` is refused, if it is: the event is
/// checked first, then it must name its creator (`CreatorEmail`), then its id
/// must be free (`InvalidVersion`).
pub open spec fn new_event_error(db: &MemoryDb, e: NewEvent, id: Seq<char>) -> Option<Error> {
    if event_error(db, e) is Some {
        event_error(db, e)
    } else if e.created_by is None {
        Some(Error::Parameter(ParameterError::CreatorEmail))
    } else if event_index(db.events.events@, id) >= 0 {
        Some(Error::Repo(RepoError::InvalidVersion))
    } else {
        None
    }
}

/// Creates the event with the given id, registering its creator and its
/// tags. On failure the store is unchanged.
pub fn create_event_with_id(db: &mut MemoryDb, e: NewEvent, id: String) -> (r: Result<(), Error>)
    requires
        old(db).wf(),
    ensures
        final(db).wf(),
        r is Err <==> new_event_error(old(db), e, id@) is Some,
        r matches Err(x) ==> new_event_error(old(db), e, id@) == Some(x) && *final(db) == *old(db),
        r is Ok ==> final(db).places == old(db).places
            && final(db).events.events@.len() == old(db).events.events@.len() + 1
            && final(db).events.events@.drop_last() == old(db).events.events@
            && event_of(e, final(db).events.events@.last())
            && final(db).events.events@.last().id == id
            && creator_users(old(db).users.users@, final(db).users.users@, e.created_by),
{
    let ghost id0 = id;
    let ev = build_event(db, e, id)?;
    if ev.created_by.is_none() {
        return Err(Error::Parameter(ParameterError::CreatorEmail));
    }
    if db.events.find(ev.id.as_str()).is_some() {
        return Err(Error::Repo(RepoError::InvalidVersion));
    }
    if let Some(m) = &ev.created_by {
        let ghost u0 = db.users.users@;
        create_user_from_email(db, m.as_str());
        proof {
            if user_index(u0, m@) < 0 {
                assert(db.users.users@.drop_last() =~= u0);
            }
        }
    }
    register_tags(db, &ev.tags);
    let created = db.events.create_event(ev);
    assert(created);
    proof {
        assert(db.events.events@.drop_last() =~= old(db).events.events@);
    }
    Ok(())
}

/// What a failed creation of an event with a fresh id reports: the error of
/// the checks, else `CreatorEmail`, else `InvalidVersion`, which needs the
/// drawn id to be taken, so some nonce must already name an event.
pub open spec fn fresh_event_error(db: &MemoryDb, e: NewEvent, x: Error) -> bool {
    if event_error(db, e) is Some {
        event_error(db, e) == Some(x)
    } else if e.created_by is None {
        x == Error::Parameter(ParameterError::CreatorEmail)
    } else {
        x == Error::Repo(RepoError::InvalidVersion) && exists|id: Seq<char>|
            is_nonce(id) && #[trigger] event_index(db.events.events@, id) >= 0
    }
}

/// Creates an event with a fresh id; it must name its creator
/// (`CreatorEmail`). Returns the id.
pub fn create_new_event(db: &mut MemoryDb, e: NewEvent) -> (r: Result<String, Error>)
    requires
        old(db).wf(),
    ensures
        final(db).wf(),
        r matches Err(x) ==> *final(db) == *old(db) && fresh_event_error(old(db), e, x),
        (event_error(old(db), e) is Some || e.created_by is None) ==> r is Err,
        r matches Ok(id) ==> is_nonce(id@) && new_event_error(old(db), e, id@) is None
            && final(db).places == old(db).places
            && final(db).events.events@.len() == old(db).events.events@.len() + 1
            && final(db).events.events@.drop_last() == old(db).events.events@
            && event_of(e, final(db).events.events@.last())
            && final(db).events.events@.last().id == id
            && creator_users(old(db).users.users@, final(db).users.users@, e.created_by),
{
    let id = new_id();
    let ghost idv = id@;
    let stored = id.clone();
    match create_event_with_id(db, e, id) {
        Ok(()) => Ok(stored),
        Err(x) => {
            proof {
                if event_error(old(db), e) is None && e.created_by is Some {
                    assert(event_index(old(db).events.events@, idv) >= 0);
                }
            }
            Err(x)
        },
    }
}

} // verus!
