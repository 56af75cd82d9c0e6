//! Use cases around ratings and comments: rating a place, loading ratings
//! with their comments, and archiving with cascade.
use vstd::prelude::*;
use crate::db::MemoryDb;
use crate::entities::{Comment, Rating, RatingContext};
use crate::error::{Error, ParameterError, RepoError};
use crate::places::place_index;
use crate::ratings::{CommentSelector, count_archivable, RatingSelector, comment_archived, comment_of_places, live_comments_of, rating_archived};
use crate::tags::str_views;
use crate::text::str_eq;

verus! {

/// A new rating of a place, with the comment that explains it.
#[derive(Clone, Debug)]
pub struct RatePlace {
    pub place_id: String,
    pub title: String,
    pub value: i8,
    pub context: RatingContext,
    pub comment: String,
    pub source: Option<String>,
}

/// Rates a place: stores the rating and its first comment, created at `now`
/// with the given ids. Fails with `RatingValue` outside -1..=2 and with
/// `NotFound` for an unknown place.
pub fn rate_place(db: &mut MemoryDb, rate: RatePlace, rating_id: String, comment_id: String, now: i64) -> (r: Result<(), Error>)
    requires
        old(db).wf(),
    ensures
        final(db).wf(),
        !(-1 <= rate.value <= 2) ==> r == Err::<(), Error>(Error::Parameter(ParameterError::RatingValue)),
        (-1 <= rate.value <= 2 && place_index(old(db).places.places@, rate.place_id@) < 0) ==> r == Err::<
            (),
            Error,
        >(Error::Repo(RepoError::NotFound)),
        r is Err ==> *final(db) == *old(db),
        r is Ok <==> (-1 <= rate.value <= 2 && place_index(old(db).places.places@, rate.place_id@) >= 0),
        r is Ok ==> final(db).ratings.ratings@ == old(db).ratings.ratings@.push(
            Rating {
                id: rating_id,
                place_id: rate.place_id,
                created_at: now,
                archived_at: None,
                title: rate.title,
                value: rate.value,
                context: rate.context,
                source: rate.source,
            },
        ) && final(db).ratings.comments@.len() == old(db).ratings.comments@.len() + 1
            && final(db).ratings.comments@.drop_last() == old(db).ratings.comments@
            && final(db).ratings.comments@.last() == (Comment {
                id: comment_id,
                rating_id: rating_id,
                created_at: now,
                archived_at: None,
                text: rate.comment,
            }),
{
    if rate.value < -1 || rate.value > 2 {
        return Err(Error::Parameter(ParameterError::RatingValue));
    }
    if db.places.find(rate.place_id.as_str()).is_none() {
        return Err(Error::Repo(RepoError::NotFound));
    }
    let RatePlace { place_id, title, value, context, comment, source } = rate;
    let comment = Comment {
        id: comment_id,
        rating_id: rating_id.clone(),
        created_at: now,
        archived_at: None,
        text: comment,
    };
    let rating = Rating {
        id: rating_id,
        place_id,
        created_at: now,
        archived_at: None,
        title,
        value,
        context,
        source,
    };
    db.ratings.create_rating(rating);
    db.ratings.create_comment(comment);
    proof {
        assert(db.ratings.comments@.drop_last() =~= old(db).ratings.comments@);
    }
    Ok(())
}

/// The live ratings with the given ids, in the order of the ids, each with
/// its live comments; ids without a live rating are skipped.
pub fn load_ratings_with_comments<'a>(db: &'a MemoryDb, rating_ids: &Vec<String>) -> (r: Vec<(&'a Rating, Vec<&'a Comment>)>)
    ensures
        forall|k: int|
            0 <= k < r@.len() ==> str_views(rating_ids@).contains((#[trigger] r@[k]).0.id@) && r@[k].0.archived_at is None
                && db.ratings.ratings@.contains(*r@[k].0) && r@[k].1@.map_values(|c: &Comment| *c) == live_comments_of(
                db.ratings.comments@,
                r@[k].0.id@,
                db.ratings.comments@.len() as int,
            ),
        forall|j: int, i: int|
            0 <= j < rating_ids@.len() && 0 <= i < db.ratings.ratings@.len()
                && #[trigger] db.ratings.ratings@[i].id@ == #[trigger] rating_ids@[j]@
                && db.ratings.ratings@[i].archived_at is None ==> exists|k: int|
                0 <= k < r@.len() && r@[k].0.id@ == rating_ids@[j]@,
{
    let mut out: Vec<(&Rating, Vec<&Comment>)> = Vec::new();
    let mut j: usize = 0;
    while j < rating_ids.len()
        invariant
            j <= rating_ids@.len(),
            forall|k: int|
                0 <= k < out@.len() ==> str_views(rating_ids@).contains((#[trigger] out@[k]).0.id@)
                    && out@[k].0.archived_at is None && db.ratings.ratings@.contains(*out@[k].0)
                    && out@[k].1@.map_values(|c: &Comment| *c) == live_comments_of(
                    db.ratings.comments@,
                    out@[k].0.id@,
                    db.ratings.comments@.len() as int,
                ),
            forall|jj: int, i: int|
                0 <= jj < j && 0 <= i < db.ratings.ratings@.len()
                    && #[trigger] db.ratings.ratings@[i].id@ == #[trigger] rating_ids@[jj]@
                    && db.ratings.ratings@[i].archived_at is None ==> exists|k: int|
                    0 <= k < out@.len() && out@[k].0.id@ == rating_ids@[jj]@,
        decreases rating_ids@.len() - j,
    {
        let id = rating_ids[j].as_str();
        let ratings = &db.ratings.ratings;
        let mut i: usize = 0;
        let mut found: Option<usize> = None;
        while i < ratings.len()
            invariant
                i <= ratings@.len(),
                found matches Some(f) ==> f < ratings@.len() && ratings@[f as int].id@ == id@
                    && ratings@[f as int].archived_at is None,
                found is None ==> forall|m: int|
                    0 <= m < i ==> !((#[trigger] ratings@[m]).id@ == id@ && ratings@[m].archived_at is None),
            decreases ratings@.len() - i,
        {
            if found.is_none() && ratings[i].archived_at.is_none() && str_eq(ratings[i].id.as_str(), id) {
                found = Some(i);
            }
            i += 1;
        }
        if let Some(f) = found {
            let rating = &ratings[f];
            let comments = db.ratings.load_comments_of_rating(rating.id.as_str());
            let ghost before = out@;
            assert(str_views(rating_ids@)[j as int] == id@);
            assert(db.ratings.ratings@[f as int] == *rating);
            out.push((rating, comments));
            proof {
                assert forall|k: int| 0 <= k < out@.len() implies str_views(rating_ids@).contains(
                    (#[trigger] out@[k]).0.id@,
                ) && out@[k].0.archived_at is None && db.ratings.ratings@.contains(*out@[k].0)
                    && out@[k].1@.map_values(|c: &Comment| *c) == live_comments_of(
                    db.ratings.comments@,
                    out@[k].0.id@,
                    db.ratings.comments@.len() as int,
                ) by {
                    if k < before.len() {
                        assert(out@[k] == before[k]);
                    }
                }
                assert forall|jj: int, ii: int|
                    0 <= jj < j + 1 && 0 <= ii < db.ratings.ratings@.len()
                        && #[trigger] db.ratings.ratings@[ii].id@ == #[trigger] rating_ids@[jj]@
                        && db.ratings.ratings@[ii].archived_at is None implies exists|k: int|
                    0 <= k < out@.len() && out@[k].0.id@ == rating_ids@[jj]@ by {
                    if jj < j {
                        let k = choose|k: int| 0 <= k < before.len() && before[k].0.id@ == rating_ids@[jj]@;
                        assert(out@[k] == before[k]);
                    } else {
                        assert(out@[before.len() as int].0.id@ == rating_ids@[jj]@);
                    }
                }
            }
        }
        j += 1;
    }
    out
}

/// Archives, at `at`, the live ratings of the places `place_ids` and the
/// live comments on them; returns how many ratings were archived.
pub fn archive_ratings_of_places(db: &mut MemoryDb, place_ids: &Vec<String>, at: i64) -> (r: usize)
    requires
        old(db).wf(),
    ensures
        final(db).wf(),
        final(db).places == old(db).places,
        final(db).ratings.ratings@.len() == old(db).ratings.ratings@.len(),
        final(db).ratings.comments@.len() == old(db).ratings.comments@.len(),
        r == count_archivable(old(db).ratings.ratings@, RatingSelector::ByPlace, str_views(place_ids@), old(db).ratings.ratings@.len() as int),
        forall|i: int|
            0 <= i < old(db).ratings.ratings@.len() ==> rating_archived(
                #[trigger] old(db).ratings.ratings@[i],
                final(db).ratings.ratings@[i],
                str_views(place_ids@).contains(old(db).ratings.ratings@[i].place_id@),
                at,
            ),
        forall|i: int|
            0 <= i < old(db).ratings.comments@.len() ==> comment_archived(
                #[trigger] old(db).ratings.comments@[i],
                final(db).ratings.comments@[i],
                comment_of_places(old(db).ratings.comments@[i], old(db).ratings.ratings@, str_views(place_ids@)),
                at,
            ),
{
    db.ratings.archive_comments(CommentSelector::ByPlace, place_ids, at);
    db.ratings.archive_ratings(RatingSelector::ByPlace, place_ids, at)
}

/// Archives, at `at`, the ratings with the given ids and the comments on
/// them; returns how many ratings were archived.
pub fn archive_ratings(db: &mut MemoryDb, ids: &Vec<String>, at: i64) -> (r: usize)
    requires
        old(db).wf(),
    ensures
        final(db).wf(),
        final(db).places == old(db).places,
        final(db).ratings.ratings@.len() == old(db).ratings.ratings@.len(),
        final(db).ratings.comments@.len() == old(db).ratings.comments@.len(),
        r == count_archivable(old(db).ratings.ratings@, RatingSelector::ById, str_views(ids@), old(db).ratings.ratings@.len() as int),
        forall|i: int|
            0 <= i < old(db).ratings.ratings@.len() ==> rating_archived(
                #[trigger] old(db).ratings.ratings@[i],
                final(db).ratings.ratings@[i],
                str_views(ids@).contains(old(db).ratings.ratings@[i].id@),
                at,
            ),
        forall|i: int|
            0 <= i < old(db).ratings.comments@.len() ==> comment_archived(
                #[trigger] old(db).ratings.comments@[i],
                final(db).ratings.comments@[i],
                str_views(ids@).contains(old(db).ratings.comments@[i].rating_id@),
                at,
            ),
{
    db.ratings.archive_comments(CommentSelector::ByRating, ids, at);
    db.ratings.archive_ratings(RatingSelector::ById, ids, at)
}

/// After the ratings of some places were archived, none of their ratings is
/// live, every rating archived before stays archived, and no live rating was
/// archived unless it belongs to one of those places.
pub proof fn lemma_archived_places_have_no_live_ratings(
    old: Seq<Rating>,
    new: Seq<Rating>,
    place_ids: Seq<Seq<char>>,
    at: i64,
)
    requires
        new.len() == old.len(),
        forall|i: int|
            0 <= i < old.len() ==> rating_archived(
                #[trigger] old[i],
                new[i],
                place_ids.contains(old[i].place_id@),
                at,
            ),
    ensures
        forall|i: int| 0 <= i < new.len() && place_ids.contains(new[i].place_id@) ==> (#[trigger] new[i]).archived_at is Some,
        forall|i: int| 0 <= i < old.len() && (#[trigger] old[i]).archived_at is Some ==> new[i] == old[i],
        forall|i: int|
            0 <= i < old.len() && old[i].archived_at is None && (#[trigger] new[i]).archived_at is Some ==> place_ids.contains(
                old[i].place_id@,
            ),
{
    assert forall|i: int| 0 <= i < new.len() && place_ids.contains(new[i].place_id@) implies (
    #[trigger] new[i]).archived_at is Some by {
        assert(rating_archived(old[i], new[i], place_ids.contains(old[i].place_id@), at));
    }
}

} // verus!
