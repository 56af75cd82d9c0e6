//! Listing events by time range, box, tags and creator, ordered by start.
use vstd::prelude::*;
use crate::db::MemoryDb;
use crate::entities::Event;
use crate::error::{Error, ParameterError};
use crate::events::EventQuery;
use crate::search::{extend_bbox, extended};
use crate::tags::{contains_str, str_views};
use crate::text::str_eq;
use crate::update_place::token_org;

verus! {

/// The event passes every filter of the query; the box is widened by a
/// margin first.
pub open spec fn event_matches(q: EventQuery, e: Event) -> bool {
    &&& (q.start_min matches Some(m) ==> e.start >= m)
    &&& (q.start_max matches Some(m) ==> e.start <= m)
    &&& (q.bbox matches Some(b) ==> e.location matches Some(l) && extended(b).spec_contains(l.pos))
    &&& (q.tags matches Some(ts) ==> exists|t: Seq<char>|
        str_views(ts@).contains(t) && str_views(e.tags@).contains(t))
    &&& (q.created_by matches Some(c) ==> e.created_by matches Some(x) && x@ == c@)
}

/// The events among the first `n` that the query matches, in store order.
pub open spec fn matching_events(events: Seq<Event>, q: EventQuery, n: int) -> Seq<Event>
    decreases n,
{
    if n <= 0 {
        Seq::empty()
    } else {
        let prev = matching_events(events, q, n - 1);
        if event_matches(q, events[n - 1]) {
            prev.push(events[n - 1])
        } else {
            prev
        }
    }
}

/// Inserts `x` into a list ordered by start, after every event that starts
/// no later than `x`.
pub open spec fn insert_by_start(s: Seq<Event>, x: Event) -> Seq<Event>
    decreases s.len(),
{
    if s.len() == 0 {
        seq![x]
    } else if s.last().start <= x.start {
        s.push(x)
    } else {
        insert_by_start(s.drop_last(), x).push(s.last())
    }
}

/// The events ordered by start; events with equal starts keep their order.
pub open spec fn sorted_by_start(s: Seq<Event>) -> Seq<Event>
    decreases s.len(),
{
    if s.len() == 0 {
        s
    } else {
        insert_by_start(sorted_by_start(s.drop_last()), s.last())
    }
}

pub open spec fn refs_view(v: Seq<&Event>) -> Seq<Event> {
    v.map_values(|e: &Event| *e)
}

fn has_any_tag(e: &Event, tags: &Vec<String>) -> (r: bool)
    ensures
        r == exists|t: Seq<char>| str_views(tags@).contains(t) && str_views(e.tags@).contains(t),
{
    let mut i: usize = 0;
    while i < e.tags.len()
        invariant
            i <= e.tags@.len(),
            forall|k: int| 0 <= k < i ==> !str_views(tags@).contains(#[trigger] e.tags@[k]@),
        decreases e.tags@.len() - i,
    {
        if contains_str(tags, e.tags[i].as_str()) {
            assert(str_views(e.tags@)[i as int] == e.tags@[i as int]@);
            assert(str_views(e.tags@).contains(e.tags@[i as int]@));
            return true;
        }
        i += 1;
    }
    proof {
        if exists|t: Seq<char>| str_views(tags@).contains(t) && str_views(e.tags@).contains(t) {
            let t = choose|t: Seq<char>| str_views(tags@).contains(t) && str_views(e.tags@).contains(t);
            let k = choose|k: int| 0 <= k < str_views(e.tags@).len() && str_views(e.tags@)[k] == t;
            assert(str_views(e.tags@)[k] == e.tags@[k]@);
        }
    }
    false
}

fn matches(q: &EventQuery, e: &Event) -> (r: bool)
    requires
        q.bbox matches Some(b) ==> b.valid(),
    ensures
        r == event_matches(*q, *e),
{
    if let Some(m) = q.start_min {
        if e.start < m {
            return false;
        }
    }
    if let Some(m) = q.start_max {
        if e.start > m {
            return false;
        }
    }
    if let Some(b) = &q.bbox {
        let wide = extend_bbox(b);
        match &e.location {
            None => {
                return false;
            },
            Some(l) => {
                if !wide.contains_point(l.pos) {
                    return false;
                }
            },
        }
    }
    if let Some(ts) = &q.tags {
        if !has_any_tag(e, ts) {
            return false;
        }
    }
    if let Some(c) = &q.created_by {
        match &e.created_by {
            None => {
                return false;
            },
            Some(x) => {
                if !str_eq(x.as_str(), c.as_str()) {
                    return false;
                }
            },
        }
    }
    true
}

fn insert_sorted_by_start<'a>(out: &mut Vec<&'a Event>, x: &'a Event)
    ensures
        refs_view(final(out)@) == insert_by_start(refs_view(old(out)@), *x),
{
    let ghost s0 = refs_view(out@);
    let mut p: usize = out.len();
    assert(s0.subrange(0, p as int) =~= s0);
    assert(s0.subrange(p as int, s0.len() as int) =~= Seq::<Event>::empty());
    while p > 0 && out[p - 1].start > x.start
        invariant
            p <= out@.len(),
            s0 == refs_view(out@),
            insert_by_start(s0, *x) == insert_by_start(s0.subrange(0, p as int), *x) + s0.subrange(
                p as int,
                s0.len() as int,
            ),
        decreases p,
    {
        proof {
            let pre = s0.subrange(0, p as int);
            assert(pre.drop_last() =~= s0.subrange(0, p - 1));
            assert(pre.last() == s0[p - 1]);
            assert(s0.subrange(p - 1, s0.len() as int) =~= seq![s0[p - 1]] + s0.subrange(p as int, s0.len() as int));
            assert(insert_by_start(s0.subrange(0, p - 1), *x).push(s0[p - 1]) + s0.subrange(p as int, s0.len() as int)
                =~= insert_by_start(s0.subrange(0, p - 1), *x) + s0.subrange(p - 1, s0.len() as int));
        }
        p -= 1;
    }
    out.insert(p, x);
    proof {
        let pre = s0.subrange(0, p as int);
        if p > 0 {
            assert(pre.last() == s0[p - 1]);
        }
        assert(insert_by_start(pre, *x) =~= pre.push(*x));
        assert(refs_view(out@) =~= s0.insert(p as int, *x));
        assert(s0.insert(p as int, *x) =~= pre.push(*x) + s0.subrange(p as int, s0.len() as int));
    }
}

/// The events that the query matches, ordered by start (equal starts in
/// store order), at most `limit` of them. An unknown api token gives
/// `Unauthorized`, an invalid box `Bbox`.
pub fn query_events<'a>(db: &'a MemoryDb, query: &EventQuery, token: Option<&str>) -> (r: Result<Vec<&'a Event>, Error>)
    ensures
        token is Some && token_org(db, token) is None ==> r == Err::<Vec<&Event>, Error>(
            Error::Parameter(ParameterError::Unauthorized),
        ),
        (token is None || token_org(db, token) is Some) && (query.bbox matches Some(b) && !b.valid())
            ==> r == Err::<Vec<&Event>, Error>(Error::Parameter(ParameterError::Bbox)),
        r is Ok <==> ((token is None || token_org(db, token) is Some) && !(query.bbox matches Some(b)
            && !b.valid())),
        r matches Ok(v) ==> {
            let all = sorted_by_start(matching_events(db.events.events@, *query, db.events.events@.len() as int));
            refs_view(v@) == match query.limit {
                None => all,
                Some(l) => if l < all.len() { all.subrange(0, l as int) } else { all },
            }
        },
{
    if let Some(t) = token {
        if db.orgs.get_org_by_api_token(t).is_err() {
            return Err(Error::Parameter(ParameterError::Unauthorized));
        }
    }
    if let Some(b) = &query.bbox {
        if !b.is_valid() {
            return Err(Error::Parameter(ParameterError::Bbox));
        }
    }
    let events = &db.events.events;
    let ghost filtered_all = matching_events(events@, *query, events@.len() as int);
    let mut out: Vec<&Event> = Vec::new();
    let mut i: usize = 0;
    while i < events.len()
        invariant
            i <= events@.len(),
            query.bbox matches Some(b) ==> b.valid(),
            refs_view(out@) == sorted_by_start(matching_events(events@, *query, i as int)),
        decreases events@.len() - i,
    {
        let e = &events[i];
        if matches(query, e) {
            proof {
                let m = matching_events(events@, *query, i as int);
                assert(m.push(*e).drop_last() =~= m);
            }
            insert_sorted_by_start(&mut out, e);
        }
        i += 1;
    }
    if let Some(l) = query.limit {
        if l < out.len() {
            out.truncate(l);
            assert(refs_view(out@) =~= sorted_by_start(filtered_all).subrange(0, l as int));
        }
    }
    Ok(out)
}

} // verus!
