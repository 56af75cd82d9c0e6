//! The entity model: places, events, users, ratings, comments,
//! organizations, subscriptions and tokens.
use vstd::prelude::*;
use crate::geo::{MapBbox, MapPoint};

verus! {

/// A postal address; every part is optional.
#[derive(Clone, Debug, PartialEq, Eq, Default)]
pub struct Address {
    pub street: Option<String>,
    pub zip: Option<String>,
    pub city: Option<String>,
    pub country: Option<String>,
    pub state: Option<String>,
}

impl Address {
    pub open spec fn spec_is_empty(&self) -> bool {
        self.street is None && self.zip is None && self.city is None && self.country is None
            && self.state is None
    }

    pub fn is_empty(&self) -> (r: bool)
        ensures
            r == self.spec_is_empty(),
    {
        self.street.is_none() && self.zip.is_none() && self.city.is_none()
            && self.country.is_none() && self.state.is_none()
    }
}

/// Where a place or an event is.
#[derive(Clone, Debug, PartialEq, Eq)]
pub struct Location {
    pub pos: MapPoint,
    pub address: Option<Address>,
}

/// How to reach the people behind a place or an event.
#[derive(Clone, Debug, PartialEq, Eq, Default)]
pub struct Contact {
    pub email: Option<String>,
    pub phone: Option<String>,
}

/// Web links of a place.
#[derive(Clone, Debug, PartialEq, Eq, Default)]
pub struct Links {
    pub homepage: Option<String>,
    pub image: Option<String>,
    pub image_href: Option<String>,
}

/// Who did something and when (milliseconds since the epoch).
#[derive(Clone, Debug, PartialEq, Eq)]
pub struct Activity {
    pub at: i64,
    pub by: Option<String>,
}

/// One revision of a place.
#[derive(Clone, Debug, PartialEq, Eq)]
pub struct Place {
    pub id: String,
    pub license: String,
    pub revision: u64,
    pub created: Activity,
    pub title: String,
    pub description: String,
    pub location: Location,
    pub contact: Option<Contact>,
    pub opening_hours: Option<String>,
    pub links: Option<Links>,
    pub tags: Vec<String>,
}

/// The moderation status of a place revision. The variants are declared in
/// the order of their persisted values: -2, -1, 0, 1.
#[derive(Clone, Copy, Debug, PartialEq, Eq, Structural, Hash)]
pub enum ReviewStatus {
    Archived,
    Rejected,
    Created,
    Confirmed,
}

impl ReviewStatus {
    pub open spec fn value(self) -> int {
        match self {
            ReviewStatus::Archived => -2,
            ReviewStatus::Rejected => -1,
            ReviewStatus::Created => 0,
            ReviewStatus::Confirmed => 1,
        }
    }

    /// The persisted value of the status.
    pub fn to_i16(self) -> (r: i16)
        ensures
            r == self.value(),
    {
        match self {
            ReviewStatus::Archived => -2,
            ReviewStatus::Rejected => -1,
            ReviewStatus::Created => 0,
            ReviewStatus::Confirmed => 1,
        }
    }

    /// The status that a persisted value stands for, if any.
    pub fn try_from_i16(v: i16) -> (r: Option<ReviewStatus>)
        ensures
            r is Some <==> -2 <= v <= 1,
            r matches Some(s) ==> s.value() == v,
    {
        match v {
            -2 => Some(ReviewStatus::Archived),
            -1 => Some(ReviewStatus::Rejected),
            0 => Some(ReviewStatus::Created),
            1 => Some(ReviewStatus::Confirmed),
            _ => None,
        }
    }

    /// Visible places are those whose status is at least `Created`.
    pub fn is_visible(self) -> (r: bool)
        ensures
            r == (self.value() >= 0),
    {
        match self {
            ReviewStatus::Created | ReviewStatus::Confirmed => true,
            _ => false,
        }
    }
}

/// The view of an optional string.
pub open spec fn opt_view(o: Option<String>) -> Option<Seq<char>> {
    match o {
        Some(s) => Some(s@),
        None => None,
    }
}

pub fn clone_opt(o: &Option<String>) -> (r: Option<String>)
    ensures
        opt_view(r) == opt_view(*o),
{
    match o {
        Some(s) => Some(s.clone()),
        None => None,
    }
}

impl Activity {
    pub open spec fn same_as(self, o: Activity) -> bool {
        self.at == o.at && opt_view(self.by) == opt_view(o.by)
    }

    pub fn duplicate(&self) -> (r: Activity)
        ensures
            r.same_as(*self),
    {
        Activity { at: self.at, by: clone_opt(&self.by) }
    }
}

/// A moderation action: who, when, in which context and why.
#[derive(Clone, Debug, PartialEq, Eq)]
pub struct ActivityLog {
    pub activity: Activity,
    pub context: Option<String>,
    pub comment: Option<String>,
}

impl ActivityLog {
    pub open spec fn same_as(self, o: ActivityLog) -> bool {
        self.activity.same_as(o.activity) && opt_view(self.context) == opt_view(o.context)
            && opt_view(self.comment) == opt_view(o.comment)
    }

    pub fn duplicate(&self) -> (r: ActivityLog)
        ensures
            r.same_as(*self),
    {
        ActivityLog {
            activity: self.activity.duplicate(),
            context: clone_opt(&self.context),
            comment: clone_opt(&self.comment),
        }
    }
}

/// One entry of the review chain of a place revision.
#[derive(Clone, Debug, PartialEq, Eq)]
pub struct ReviewStatusLog {
    pub rev: u64,
    pub status: ReviewStatus,
    pub activity: ActivityLog,
}

/// The role of a user; the variants are declared in increasing order.
#[derive(Clone, Copy, Debug, PartialEq, Eq, Structural, Hash)]
pub enum Role {
    Guest,
    User,
    Scout,
    Admin,
}

impl Role {
    pub open spec fn rank(self) -> int {
        match self {
            Role::Guest => 0,
            Role::User => 1,
            Role::Scout => 2,
            Role::Admin => 3,
        }
    }

    pub fn at_least(self, min: Role) -> (r: bool)
        ensures
            r == (self.rank() >= min.rank()),
    {
        let a: u8 = match self {
            Role::Guest => 0,
            Role::User => 1,
            Role::Scout => 2,
            Role::Admin => 3,
        };
        let b: u8 = match min {
            Role::Guest => 0,
            Role::User => 1,
            Role::Scout => 2,
            Role::Admin => 3,
        };
        a >= b
    }
}

/// A registered user. The password is held as its hash.
#[derive(Clone, Debug, PartialEq, Eq)]
pub struct User {
    pub email: String,
    pub username: String,
    pub password: String,
    pub email_confirmed: bool,
    pub role: Role,
}

/// How to register for an event.
#[derive(Clone, Copy, Debug, PartialEq, Eq, Structural, Hash)]
pub enum RegistrationType {
    Email,
    Phone,
    Homepage,
}

/// A time-bounded event; times are seconds since the epoch.
#[derive(Clone, Debug, PartialEq, Eq)]
pub struct Event {
    pub id: String,
    pub title: String,
    pub description: Option<String>,
    pub start: i64,
    pub end: Option<i64>,
    pub location: Option<Location>,
    pub contact: Option<Contact>,
    pub homepage: Option<String>,
    pub tags: Vec<String>,
    pub created_by: Option<String>,
    pub registration: Option<RegistrationType>,
    pub organizer: Option<String>,
    pub archived: Option<i64>,
}

/// The aspect of a place that a rating judges.
#[derive(Clone, Copy, Debug, PartialEq, Eq, Structural, Hash)]
pub enum RatingContext {
    Diversity,
    Renewable,
    Fairness,
    Humanity,
    Transparency,
    Solidarity,
}

impl RatingContext {
    pub open spec fn index(self) -> int {
        match self {
            RatingContext::Diversity => 0,
            RatingContext::Renewable => 1,
            RatingContext::Fairness => 2,
            RatingContext::Humanity => 3,
            RatingContext::Transparency => 4,
            RatingContext::Solidarity => 5,
        }
    }

    pub fn to_index(self) -> (r: usize)
        ensures
            r == self.index(),
    {
        match self {
            RatingContext::Diversity => 0,
            RatingContext::Renewable => 1,
            RatingContext::Fairness => 2,
            RatingContext::Humanity => 3,
            RatingContext::Transparency => 4,
            RatingContext::Solidarity => 5,
        }
    }
}

/// A rating of a place, from -1 to 2; live while `archived_at` is absent.
#[derive(Clone, Debug, PartialEq, Eq)]
pub struct Rating {
    pub id: String,
    pub place_id: String,
    pub created_at: i64,
    pub archived_at: Option<i64>,
    pub title: String,
    pub value: i8,
    pub context: RatingContext,
    pub source: Option<String>,
}

/// A comment on a rating; live while `archived_at` is absent.
#[derive(Clone, Debug, PartialEq, Eq)]
pub struct Comment {
    pub id: String,
    pub rating_id: String,
    pub created_at: i64,
    pub archived_at: Option<i64>,
    pub text: String,
}

/// An organization and the tags it owns.
#[derive(Clone, Debug, PartialEq, Eq)]
pub struct Organization {
    pub id: String,
    pub name: String,
    pub api_token: String,
    pub owned_tags: Vec<String>,
}

/// A user's subscription to the changes inside a bounding box.
#[derive(Clone, Debug, PartialEq, Eq)]
pub struct BboxSubscription {
    pub id: String,
    pub user_email: String,
    pub bbox: MapBbox,
}

/// A marker that a place revision touched owned tags and waits for the
/// owners' decision.
#[derive(Clone, Debug, PartialEq, Eq)]
pub struct PendingAuthorization {
    pub org_id: String,
    pub place_id: String,
    pub created_at: i64,
    pub last_authorized_revision: u64,
    pub last_authorized_status: ReviewStatus,
}

} // verus!
