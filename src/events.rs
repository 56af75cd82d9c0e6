//! The event store and its queries.
use vstd::prelude::*;
use crate::entities::{Event, Location};
use crate::error::RepoError;
use crate::geo::{MapBbox, MapPoint};
use crate::tags::{contains_str, str_views};
use crate::text::str_eq;

verus! {

/// Filters for listing events; every field is optional.
#[derive(Clone, Debug, Default)]
pub struct EventQuery {
    pub bbox: Option<MapBbox>,
    pub created_by: Option<String>,
    pub start_min: Option<i64>,
    pub start_max: Option<i64>,
    pub tags: Option<Vec<String>>,
    pub text: Option<String>,
    pub limit: Option<usize>,
}

impl EventQuery {
    /// Whether no filter is set.
    pub fn is_empty(&self) -> (r: bool)
        ensures
            r == (self.bbox is None && self.created_by is None && self.start_min is None
                && self.start_max is None && self.tags is None && self.text is None
                && self.limit is None),
    {
        self.bbox.is_none() && self.created_by.is_none() && self.start_min.is_none()
            && self.start_max.is_none() && self.tags.is_none() && self.text.is_none()
            && self.limit.is_none()
    }
}

/// The position of the first event with id `id`, or -1.
pub open spec fn event_index(events: Seq<Event>, id: Seq<char>) -> int {
    if exists|i: int| 0 <= i < events.len() && (#[trigger] events[i]).id@ == id {
        choose|i: int|
            0 <= i < events.len() && (#[trigger] events[i]).id@ == id && forall|k: int|
                0 <= k < i ==> (#[trigger] events[k]).id@ != id
    } else {
        -1
    }
}

pub proof fn lemma_event_index(events: Seq<Event>, id: Seq<char>, i: int)
    requires
        0 <= i < events.len(),
        events[i].id@ == id,
        forall|k: int| 0 <= k < i ==> (#[trigger] events[k]).id@ != id,
    ensures
        event_index(events, id) == i,
        0 <= event_index(events, id) < events.len(),
{
    let j = choose|j: int|
        0 <= j < events.len() && (#[trigger] events[j]).id@ == id && forall|k: int|
            0 <= k < j ==> (#[trigger] events[k]).id@ != id;
    if j < i {
        assert(events[j].id@ != id);
    } else if j > i {
        assert(events[i].id@ != id);
    }
}

/// The event is one of `ids` and not archived yet.
pub open spec fn archive_applies(e: Event, ids: Seq<Seq<char>>) -> bool {
    ids.contains(e.id@) && e.archived is None
}

/// How many of the first `n` events an archive call changes.
pub open spec fn count_archived(events: Seq<Event>, ids: Seq<Seq<char>>, n: int) -> nat
    decreases n,
{
    if n <= 0 {
        0
    } else {
        count_archived(events, ids, n - 1) + if archive_applies(events[n - 1], ids) {
            1nat
        } else {
            0nat
        }
    }
}

/// The event carries one of `tags`.
pub open spec fn has_any_tag(e: Event, tags: Seq<Seq<char>>) -> bool {
    exists|t: Seq<char>| str_views(e.tags@).contains(t) && tags.contains(t)
}

/// The event after a geocoding result: an event with an address gets the
/// resolved position when it is valid; every other event stays as it was.
pub open spec fn relocated(e: Event, resolved: Option<(i64, i64)>) -> Event {
    match (e.location, resolved) {
        (Some(loc), Some((lat, lng))) => if loc.address is Some && (MapPoint { lat, lng }).valid() {
            Event { location: Some(Location { pos: MapPoint { lat, lng }, ..loc }), ..e }
        } else {
            e
        },
        _ => e,
    }
}

/// No two events share an id.
pub open spec fn events_wf(events: Seq<Event>) -> bool {
    forall|i: int, j: int|
        0 <= i < events.len() && 0 <= j < events.len() && i != j ==> (#[trigger] events[i]).id@
            != (#[trigger] events[j]).id@
}

/// Two lists of events that hold the same ids at the same positions.
pub open spec fn same_ids(a: Seq<Event>, b: Seq<Event>) -> bool {
    a.len() == b.len() && forall|k: int| 0 <= k < a.len() ==> (#[trigger] a[k]).id@ == b[k].id@
}

pub proof fn lemma_same_ids_wf(a: Seq<Event>, b: Seq<Event>)
    requires
        events_wf(a),
        same_ids(a, b),
    ensures
        events_wf(b),
{
    assert forall|i: int, j: int|
        0 <= i < b.len() && 0 <= j < b.len() && i != j implies (#[trigger] b[i]).id@ != (#[trigger] b[j]).id@ by {
        assert(a[i].id@ == b[i].id@ && a[j].id@ == b[j].id@);
    }
}

/// The store of events; ids are unique.
#[derive(Debug)]
pub struct EventRepo {
    pub events: Vec<Event>,
}

impl EventRepo {
    pub open spec fn wf(&self) -> bool {
        events_wf(self.events@)
    }

    pub fn new() -> (r: EventRepo)
        ensures
            r.wf(),
            r.events@.len() == 0,
    {
        EventRepo { events: Vec::new() }
    }

    pub fn find(&self, id: &str) -> (r: Option<usize>)
        ensures
            r matches Some(i) ==> i == event_index(self.events@, id@) && i < self.events@.len(),
            r is None ==> event_index(self.events@, id@) == -1,
    {
        let mut i: usize = 0;
        while i < self.events.len()
            invariant
                i <= self.events@.len(),
                forall|k: int| 0 <= k < i ==> (#[trigger] self.events@[k]).id@ != id@,
            decreases self.events@.len() - i,
        {
            if str_eq(self.events[i].id.as_str(), id) {
                proof {
                    lemma_event_index(self.events@, id@, i as int);
                }
                return Some(i);
            }
            i += 1;
        }
        None
    }

    /// Stores a new event; refused when its id is taken.
    pub fn create_event(&mut self, event: Event) -> (r: bool)
        requires
            old(self).wf(),
        ensures
            final(self).wf(),
            r == (event_index(old(self).events@, event.id@) < 0),
            r ==> final(self).events@ == old(self).events@.push(event),
            !r ==> final(self).events@ == old(self).events@,
    {
        if self.find(event.id.as_str()).is_some() {
            return false;
        }
        let ghost e0 = self.events@;
        self.events.push(event);
        proof {
            assert forall|i: int, j: int|
                0 <= i < self.events@.len() && 0 <= j < self.events@.len() && i != j implies (
            #[trigger] self.events@[i]).id@ != (#[trigger] self.events@[j]).id@ by {
                if i < e0.len() {
                    assert(self.events@[i] == e0[i]);
                }
                if j < e0.len() {
                    assert(self.events@[j] == e0[j]);
                }
            }
        }
        true
    }

    pub fn get_event(&self, id: &str) -> (r: Result<&Event, RepoError>)
        ensures
            r is Err <==> event_index(self.events@, id@) < 0,
            r matches Err(e) ==> e == RepoError::NotFound,
            r matches Ok(e) ==> *e == self.events@[event_index(self.events@, id@)],
    {
        match self.find(id) {
            Some(i) => Ok(&self.events[i]),
            None => Err(RepoError::NotFound),
        }
    }

    /// Replaces the stored event with the same id.
    pub fn update_event(&mut self, event: Event) -> (r: Result<(), RepoError>)
        requires
            old(self).wf(),
        ensures
            final(self).wf(),
            r is Err <==> event_index(old(self).events@, event.id@) < 0,
            r matches Err(e) ==> e == RepoError::NotFound && final(self).events@ == old(self).events@,
            r is Ok ==> final(self).events@ == old(self).events@.update(
                event_index(old(self).events@, event.id@),
                event,
            ),
    {
        match self.find(event.id.as_str()) {
            None => Err(RepoError::NotFound),
            Some(i) => {
                let ghost e0 = self.events@;
                self.events.set(i, event);
                proof {
                    assert(same_ids(e0, self.events@));
                    lemma_same_ids_wf(e0, self.events@);
                }
                Ok(())
            },
        }
    }

    /// Archives, at `archived`, the events of `ids` that are not archived
    /// yet; returns how many were archived.
    pub fn archive_events(&mut self, ids: &Vec<String>, archived: i64) -> (r: usize)
        requires
            old(self).wf(),
        ensures
            final(self).wf(),
            final(self).events@.len() == old(self).events@.len(),
            forall|i: int|
                0 <= i < old(self).events@.len() ==> if archive_applies(
                    #[trigger] old(self).events@[i],
                    str_views(ids@),
                ) {
                    final(self).events@[i] == (Event { archived: Some(archived), ..old(self).events@[i] })
                } else {
                    final(self).events@[i] == old(self).events@[i]
                },
            r == count_archived(old(self).events@, str_views(ids@), old(self).events@.len() as int),
    {
        let ghost e0 = self.events@;
        let mut count: usize = 0;
        let mut i: usize = 0;
        while i < self.events.len()
            invariant
                e0 == old(self).events@,
                events_wf(e0),
                same_ids(e0, self.events@),
                self.events@.len() == e0.len(),
                i <= e0.len(),
                count <= i,
                count == count_archived(e0, str_views(ids@), i as int),
                forall|k: int| i <= k < e0.len() ==> self.events@[k] == e0[k],
                forall|k: int|
                    0 <= k < i ==> if archive_applies(#[trigger] e0[k], str_views(ids@)) {
                        self.events@[k] == (Event { archived: Some(archived), ..e0[k] })
                    } else {
                        self.events@[k] == e0[k]
                    },
            decreases e0.len() - i,
        {
            if self.events[i].archived.is_none() && contains_str(ids, self.events[i].id.as_str()) {
                self.events[i].archived = Some(archived);
                count += 1;
            }
            i += 1;
        }
        proof {
            lemma_same_ids_wf(e0, self.events@);
        }
        count
    }

    /// Applies geocoding results: `resolved[i]` is the point found for the
    /// address of the `i`-th event, if any. An event with an address moves
    /// there when the point is valid; no other event changes.
    pub fn update_event_locations(&mut self, resolved: &Vec<Option<(i64, i64)>>)
        requires
            old(self).wf(),
            resolved@.len() == old(self).events@.len(),
        ensures
            final(self).wf(),
            final(self).events@.len() == old(self).events@.len(),
            forall|i: int|
                0 <= i < old(self).events@.len() ==> #[trigger] final(self).events@[i] == relocated(
                    old(self).events@[i],
                    resolved@[i],
                ),
    {
        let ghost e0 = self.events@;
        let mut i: usize = 0;
        while i < self.events.len()
            invariant
                e0 == old(self).events@,
                events_wf(e0),
                same_ids(e0, self.events@),
                resolved@.len() == e0.len(),
                self.events@.len() == e0.len(),
                i <= e0.len(),
                forall|k: int| i <= k < e0.len() ==> self.events@[k] == e0[k],
                forall|k: int| 0 <= k < i ==> #[trigger] self.events@[k] == relocated(e0[k], resolved@[k]),
            decreases e0.len() - i,
        {
            if let Some((lat, lng)) = resolved[i] {
                let has_address = match &self.events[i].location {
                    Some(loc) => loc.address.is_some(),
                    None => false,
                };
                if has_address {
                    if let Some(pos) = MapPoint::try_from_lat_lng(lat, lng) {
                        if let Some(loc) = &mut self.events[i].location {
                            loc.pos = pos;
                        }
                    }
                }
            }
            i += 1;
        }
        proof {
            lemma_same_ids_wf(e0, self.events@);
        }
    }

    /// Deletes the event `id` if the filter is empty or the event carries
    /// one of `tags`; `Ok(None)` when the filter did not match.
    pub fn delete_event_with_matching_tags(&mut self, id: &str, tags: &Vec<String>) -> (r: Result<Option<()>, RepoError>)
        requires
            old(self).wf(),
        ensures
            final(self).wf(),
            ({
                let i = event_index(old(self).events@, id@);
                let matches = tags@.len() == 0 || has_any_tag(old(self).events@[i], str_views(tags@));
                &&& r is Err <==> i < 0
                &&& r matches Err(e) ==> e == RepoError::NotFound
                &&& r == Ok::<Option<()>, RepoError>(None) <==> (i >= 0 && !matches)
                &&& r == Ok::<Option<()>, RepoError>(Some(())) ==> final(self).events@ == old(self).events@.remove(i)
                &&& r != Ok::<Option<()>, RepoError>(Some(())) ==> final(self).events@ == old(self).events@
                &&& (i >= 0 && matches) ==> r == Ok::<Option<()>, RepoError>(Some(()))
            }),
    {
        let i = match self.find(id) {
            None => {
                return Err(RepoError::NotFound);
            },
            Some(i) => i,
        };
        if tags.len() > 0 {
            let ev = &self.events[i];
            let mut found = false;
            let mut k: usize = 0;
            while k < ev.tags.len()
                invariant
                    k <= ev.tags@.len(),
                    found ==> has_any_tag(*ev, str_views(tags@)),
                    !found ==> forall|m: int|
                        0 <= m < k ==> !str_views(tags@).contains(#[trigger] ev.tags@[m]@),
                decreases ev.tags@.len() - k,
            {
                if contains_str(tags, ev.tags[k].as_str()) {
                    assert(str_views(ev.tags@)[k as int] == ev.tags@[k as int]@);
                    found = true;
                }
                k += 1;
            }
            if !found {
                proof {
                    if has_any_tag(*ev, str_views(tags@)) {
                        let t = choose|t: Seq<char>|
                            str_views(ev.tags@).contains(t) && str_views(tags@).contains(t);
                        let m = choose|m: int| 0 <= m < ev.tags@.len() && str_views(ev.tags@)[m] == t;
                        assert(str_views(ev.tags@)[m] == ev.tags@[m]@);
                    }
                }
                return Ok(None);
            }
        }
        let ghost e0 = self.events@;
        self.events.remove(i);
        proof {
            assert forall|a: int, b: int|
                0 <= a < self.events@.len() && 0 <= b < self.events@.len() && a != b implies (
            #[trigger] self.events@[a]).id@ != (#[trigger] self.events@[b]).id@ by {
                let a0 = if a < i { a } else { a + 1 };
                let b0 = if b < i { b } else { b + 1 };
                assert(self.events@[a] == e0[a0]);
                assert(self.events@[b] == e0[b0]);
            }
        }
        Ok(Some(()))
    }
}

} // verus!
