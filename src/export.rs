//! What the CSV export lists: the current revisions inside a box, each with
//! the names of its categories.
use vstd::prelude::*;
use crate::entities::Place;
use crate::geo::MapBbox;
use crate::places::{PlaceRecord, PlaceRepo};
use crate::tags::{contains_str, str_views};

verus! {

/// The current revisions of the first `n` places whose position lies in the
/// box, in store order.
pub open spec fn places_in(places: Seq<PlaceRecord>, bbox: MapBbox, n: int) -> Seq<Place>
    decreases n,
{
    if n <= 0 {
        Seq::empty()
    } else {
        let prev = places_in(places, bbox, n - 1);
        let p = places[n - 1].current().place;
        if bbox.spec_contains(p.location.pos) {
            prev.push(p)
        } else {
            prev
        }
    }
}

pub open spec fn place_refs(v: Seq<&Place>) -> Seq<Place> {
    v.map_values(|p: &Place| *p)
}

/// The current revisions of the places inside `bbox`, in store order.
pub fn places_in_bbox<'a>(repo: &'a PlaceRepo, bbox: &MapBbox) -> (r: Vec<&'a Place>)
    requires
        repo.wf(),
    ensures
        place_refs(r@) == places_in(repo.places@, *bbox, repo.places@.len() as int),
{
    let places = &repo.places;
    let mut out: Vec<&Place> = Vec::new();
    let mut i: usize = 0;
    while i < places.len()
        invariant
            repo.wf(),
            *places == repo.places,
            i <= places@.len(),
            place_refs(out@) == places_in(places@, *bbox, i as int),
        decreases places@.len() - i,
    {
        let rec = &places[i];
        assert(rec.wf());
        let p = &rec.revisions[rec.revisions.len() - 1].place;
        if bbox.contains_point(p.location.pos) {
            let ghost before = place_refs(out@);
            out.push(p);
            assert(place_refs(out@) =~= before.push(*p));
        }
        i += 1;
    }
    out
}

/// The names, among the first `n` (id, name) pairs, of the categories whose
/// ids are among the tags.
pub open spec fn names_of(categories: Seq<(String, String)>, tags: Seq<Seq<char>>, n: int) -> Seq<Seq<char>>
    decreases n,
{
    if n <= 0 {
        Seq::empty()
    } else {
        let prev = names_of(categories, tags, n - 1);
        if tags.contains(categories[n - 1].0@) {
            prev.push(categories[n - 1].1@)
        } else {
            prev
        }
    }
}

/// The names of the categories of a place: those whose ids are among its
/// tags, in the order of `categories` (pairs of id and name).
pub fn category_names(place: &Place, categories: &Vec<(String, String)>) -> (r: Vec<String>)
    ensures
        str_views(r@) == names_of(categories@, str_views(place.tags@), categories@.len() as int),
{
    let mut out: Vec<String> = Vec::new();
    let mut i: usize = 0;
    while i < categories.len()
        invariant
            i <= categories@.len(),
            str_views(out@) == names_of(categories@, str_views(place.tags@), i as int),
        decreases categories@.len() - i,
    {
        if contains_str(&place.tags, categories[i].0.as_str()) {
            let ghost before = str_views(out@);
            out.push(categories[i].1.clone());
            assert(str_views(out@) =~= before.push(categories@[i as int].1@));
        }
        i += 1;
    }
    out
}

} // verus!
