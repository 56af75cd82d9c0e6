//! Ratings of places, comments on ratings, archiving and averages.
use vstd::prelude::*;
use crate::entities::{Comment, Rating, RatingContext};
use crate::tags::{contains_str, str_views};
use crate::text::str_eq;

verus! {

pub open spec fn is_live_rating(r: Rating) -> bool {
    r.archived_at is None
}

/// The live ratings of place `place_id` among the first `n`.
pub open spec fn live_ratings_of(ratings: Seq<Rating>, place_id: Seq<char>, n: int) -> Seq<Rating>
    decreases n,
{
    if n <= 0 {
        Seq::empty()
    } else {
        let prev = live_ratings_of(ratings, place_id, n - 1);
        let r = ratings[n - 1];
        if r.place_id@ == place_id && is_live_rating(r) {
            prev.push(r)
        } else {
            prev
        }
    }
}

/// The sum of the values of the live ratings of a place in one context,
/// among the first `n`.
pub open spec fn context_sum(ratings: Seq<Rating>, place_id: Seq<char>, ctx: RatingContext, n: int) -> int
    decreases n,
{
    if n <= 0 {
        0
    } else {
        let r = ratings[n - 1];
        context_sum(ratings, place_id, ctx, n - 1) + if r.place_id@ == place_id && is_live_rating(r)
            && r.context == ctx {
            r.value as int
        } else {
            0
        }
    }
}

/// The number of live ratings of a place in one context, among the first `n`.
pub open spec fn context_count(ratings: Seq<Rating>, place_id: Seq<char>, ctx: RatingContext, n: int) -> nat
    decreases n,
{
    if n <= 0 {
        0
    } else {
        let r = ratings[n - 1];
        context_count(ratings, place_id, ctx, n - 1) + if r.place_id@ == place_id && is_live_rating(r)
            && r.context == ctx {
            1nat
        } else {
            0nat
        }
    }
}

/// The live comments of rating `rating_id` among the first `n`.
pub open spec fn live_comments_of(comments: Seq<Comment>, rating_id: Seq<char>, n: int) -> Seq<Comment>
    decreases n,
{
    if n <= 0 {
        Seq::empty()
    } else {
        let prev = live_comments_of(comments, rating_id, n - 1);
        let c = comments[n - 1];
        if c.rating_id@ == rating_id && c.archived_at is None {
            prev.push(c)
        } else {
            prev
        }
    }
}

/// The average of one context as a fraction: `sum / max(1, count)`.
#[derive(Clone, Copy, Debug, PartialEq, Eq, Structural)]
pub struct ContextAverage {
    pub sum: i128,
    pub count: usize,
}

impl ContextAverage {
    /// The denominator of the average, `max(1, count)`.
    pub fn denominator(&self) -> (r: usize)
        ensures
            r == if self.count == 0 { 1 } else { self.count as int },
    {
        if self.count == 0 {
            1
        } else {
            self.count
        }
    }
}

/// The per-context averages of the live ratings of a place, indexed as
/// `RatingContext::index`.
#[derive(Clone, Debug, PartialEq, Eq)]
pub struct AvgRatings {
    pub contexts: Vec<ContextAverage>,
}

/// A rating or comment is archived at `at` when it matches and is still
/// live; otherwise it stays as it was.
pub open spec fn rating_archived(old: Rating, new: Rating, applies: bool, at: i64) -> bool {
    if applies && old.archived_at is None {
        new == (Rating { archived_at: Some(at), ..old })
    } else {
        new == old
    }
}

pub open spec fn comment_archived(old: Comment, new: Comment, applies: bool, at: i64) -> bool {
    if applies && old.archived_at is None {
        new == (Comment { archived_at: Some(at), ..old })
    } else {
        new == old
    }
}

/// Which ratings an archive call targets.
pub enum RatingSelector {
    /// The ratings with these ids.
    ById,
    /// The ratings of the places with these ids.
    ByPlace,
}

pub open spec fn rating_selected(r: Rating, sel: RatingSelector, ids: Seq<Seq<char>>) -> bool {
    match sel {
        RatingSelector::ById => ids.contains(r.id@),
        RatingSelector::ByPlace => ids.contains(r.place_id@),
    }
}

/// How many of the first `n` ratings an archive call selects while they are
/// still live.
pub open spec fn count_archivable(ratings: Seq<Rating>, sel: RatingSelector, ids: Seq<Seq<char>>, n: int) -> nat
    decreases n,
{
    if n <= 0 {
        0
    } else {
        count_archivable(ratings, sel, ids, n - 1) + if rating_selected(ratings[n - 1], sel, ids)
            && ratings[n - 1].archived_at is None {
            1nat
        } else {
            0nat
        }
    }
}

/// Whether the comment belongs to a rating of one of the places `place_ids`.
pub open spec fn comment_of_places(c: Comment, ratings: Seq<Rating>, place_ids: Seq<Seq<char>>) -> bool {
    exists|i: int|
        0 <= i < ratings.len() && (#[trigger] ratings[i]).id@ == c.rating_id@ && place_ids.contains(
            ratings[i].place_id@,
        )
}

/// The store of ratings and comments. Rating values lie in -1..=2.
#[derive(Debug)]
pub struct RatingRepo {
    pub ratings: Vec<Rating>,
    pub comments: Vec<Comment>,
}

pub open spec fn ratings_wf(ratings: Seq<Rating>) -> bool {
    forall|i: int| 0 <= i < ratings.len() ==> -1 <= (#[trigger] ratings[i]).value <= 2
}

impl RatingRepo {
    pub open spec fn wf(&self) -> bool {
        ratings_wf(self.ratings@)
    }

    pub fn new() -> (r: RatingRepo)
        ensures
            r.wf(),
            r.ratings@.len() == 0,
            r.comments@.len() == 0,
    {
        RatingRepo { ratings: Vec::new(), comments: Vec::new() }
    }

    pub fn create_rating(&mut self, rating: Rating)
        requires
            old(self).wf(),
            -1 <= rating.value <= 2,
        ensures
            final(self).wf(),
            final(self).ratings@ == old(self).ratings@.push(rating),
            final(self).comments@ == old(self).comments@,
    {
        self.ratings.push(rating);
        assert(self.ratings@[self.ratings@.len() - 1] == rating);
    }

    pub fn create_comment(&mut self, comment: Comment)
        ensures
            final(self).comments@ == old(self).comments@.push(comment),
            final(self).ratings@ == old(self).ratings@,
    {
        self.comments.push(comment);
    }

    /// The live ratings of a place, in insertion order.
    pub fn load_ratings_of_place(&self, place_id: &str) -> (r: Vec<&Rating>)
        ensures
            r@.map_values(|x: &Rating| *x) == live_ratings_of(
                self.ratings@,
                place_id@,
                self.ratings@.len() as int,
            ),
    {
        let mut out: Vec<&Rating> = Vec::new();
        let mut i: usize = 0;
        while i < self.ratings.len()
            invariant
                i <= self.ratings@.len(),
                out@.map_values(|x: &Rating| *x) == live_ratings_of(self.ratings@, place_id@, i as int),
            decreases self.ratings@.len() - i,
        {
            let r = &self.ratings[i];
            if r.archived_at.is_none() && str_eq(r.place_id.as_str(), place_id) {
                let ghost before = out@.map_values(|x: &Rating| *x);
                out.push(r);
                assert(out@.map_values(|x: &Rating| *x) =~= before.push(*r));
            }
            i += 1;
        }
        out
    }

    /// The live comments of a rating, in insertion order.
    pub fn load_comments_of_rating(&self, rating_id: &str) -> (r: Vec<&Comment>)
        ensures
            r@.map_values(|x: &Comment| *x) == live_comments_of(
                self.comments@,
                rating_id@,
                self.comments@.len() as int,
            ),
    {
        let mut out: Vec<&Comment> = Vec::new();
        let mut i: usize = 0;
        while i < self.comments.len()
            invariant
                i <= self.comments@.len(),
                out@.map_values(|x: &Comment| *x) == live_comments_of(self.comments@, rating_id@, i as int),
            decreases self.comments@.len() - i,
        {
            let c = &self.comments[i];
            if c.archived_at.is_none() && str_eq(c.rating_id.as_str(), rating_id) {
                let ghost before = out@.map_values(|x: &Comment| *x);
                out.push(c);
                assert(out@.map_values(|x: &Comment| *x) =~= before.push(*c));
            }
            i += 1;
        }
        out
    }

    /// Archives, at `at`, the live ratings that `sel` and `ids` select;
    /// returns how many were archived.
    pub fn archive_ratings(&mut self, sel: RatingSelector, ids: &Vec<String>, at: i64) -> (r: usize)
        requires
            old(self).wf(),
        ensures
            final(self).wf(),
            final(self).comments@ == old(self).comments@,
            final(self).ratings@.len() == old(self).ratings@.len(),
            r == count_archivable(old(self).ratings@, sel, str_views(ids@), old(self).ratings@.len() as int),
            forall|i: int|
                0 <= i < old(self).ratings@.len() ==> rating_archived(
                    #[trigger] old(self).ratings@[i],
                    final(self).ratings@[i],
                    rating_selected(old(self).ratings@[i], sel, str_views(ids@)),
                    at,
                ),
            forall|i: int|
                0 <= i < old(self).ratings@.len() && rating_selected(
                    old(self).ratings@[i],
                    sel,
                    str_views(ids@),
                ) ==> (#[trigger] final(self).ratings@[i]).archived_at is Some,
    {
        let ghost r0 = self.ratings@;
        let mut count: usize = 0;
        let mut i: usize = 0;
        while i < self.ratings.len()
            invariant
                r0 == old(self).ratings@,
                self.comments@ == old(self).comments@,
                self.ratings@.len() == r0.len(),
                i <= r0.len(),
                count <= i,
                count == count_archivable(r0, sel, str_views(ids@), i as int),
                forall|k: int| i <= k < r0.len() ==> self.ratings@[k] == r0[k],
                forall|k: int|
                    0 <= k < i ==> rating_archived(
                        #[trigger] r0[k],
                        self.ratings@[k],
                        rating_selected(r0[k], sel, str_views(ids@)),
                        at,
                    ),
                ratings_wf(r0),
                ratings_wf(self.ratings@),
            decreases r0.len() - i,
        {
            let selected = match sel {
                RatingSelector::ById => contains_str(ids, self.ratings[i].id.as_str()),
                RatingSelector::ByPlace => contains_str(ids, self.ratings[i].place_id.as_str()),
            };
            if selected && self.ratings[i].archived_at.is_none() {
                self.ratings[i].archived_at = Some(at);
                count += 1;
            }
            i += 1;
        }
        count
    }

    /// Archives, at `at`, the live comments with the given ids, of the given
    /// ratings, or of the ratings of the given places.
    pub fn archive_comments(&mut self, sel: CommentSelector, ids: &Vec<String>, at: i64) -> (r: usize)
        ensures
            final(self).ratings@ == old(self).ratings@,
            final(self).comments@.len() == old(self).comments@.len(),
            r <= old(self).comments@.len(),
            forall|i: int|
                0 <= i < old(self).comments@.len() ==> comment_archived(
                    #[trigger] old(self).comments@[i],
                    final(self).comments@[i],
                    comment_selected(old(self).comments@[i], sel, str_views(ids@), old(self).ratings@),
                    at,
                ),
    {
        let ghost c0 = self.comments@;
        let mut count: usize = 0;
        let mut i: usize = 0;
        while i < self.comments.len()
            invariant
                c0 == old(self).comments@,
                self.ratings@ == old(self).ratings@,
                self.comments@.len() == c0.len(),
                i <= c0.len(),
                count <= i,
                forall|k: int| i <= k < c0.len() ==> self.comments@[k] == c0[k],
                forall|k: int|
                    0 <= k < i ==> comment_archived(
                        #[trigger] c0[k],
                        self.comments@[k],
                        comment_selected(c0[k], sel, str_views(ids@), self.ratings@),
                        at,
                    ),
            decreases c0.len() - i,
        {
            let selected = match sel {
                CommentSelector::ById => contains_str(ids, self.comments[i].id.as_str()),
                CommentSelector::ByRating => contains_str(ids, self.comments[i].rating_id.as_str()),
                CommentSelector::ByPlace => self.rating_of_places(self.comments[i].rating_id.as_str(), ids),
            };
            if selected && self.comments[i].archived_at.is_none() {
                self.comments[i].archived_at = Some(at);
                count += 1;
            }
            i += 1;
        }
        count
    }

    /// Whether a rating with id `rating_id` belongs to one of `place_ids`.
    fn rating_of_places(&self, rating_id: &str, place_ids: &Vec<String>) -> (r: bool)
        ensures
            r == exists|i: int|
                0 <= i < self.ratings@.len() && (#[trigger] self.ratings@[i]).id@ == rating_id@
                    && str_views(place_ids@).contains(self.ratings@[i].place_id@),
    {
        let mut i: usize = 0;
        while i < self.ratings.len()
            invariant
                i <= self.ratings@.len(),
                forall|k: int|
                    0 <= k < i ==> !((#[trigger] self.ratings@[k]).id@ == rating_id@ && str_views(
                        place_ids@,
                    ).contains(self.ratings@[k].place_id@)),
            decreases self.ratings@.len() - i,
        {
            if str_eq(self.ratings[i].id.as_str(), rating_id) && contains_str(
                place_ids,
                self.ratings[i].place_id.as_str(),
            ) {
                return true;
            }
            i += 1;
        }
        false
    }

    /// The per-context averages of the live ratings of a place.
    pub fn avg_ratings(&self, place_id: &str) -> (r: AvgRatings)
        requires
            self.wf(),
        ensures
            r.contexts@.len() == 6,
            forall|c: RatingContext|
                #![trigger c.index()]
                r.contexts@[c.index()].sum == context_sum(
                    self.ratings@,
                    place_id@,
                    c,
                    self.ratings@.len() as int,
                ) && r.contexts@[c.index()].count == context_count(
                    self.ratings@,
                    place_id@,
                    c,
                    self.ratings@.len() as int,
                ),
            forall|k: int|
                0 <= k < 6 ==> -(#[trigger] r.contexts@[k]).count <= r.contexts@[k].sum <= 2
                    * r.contexts@[k].count,
    {
        let mut contexts: Vec<ContextAverage> = Vec::new();
        let mut k: usize = 0;
        while k < 6
            invariant
                k <= 6,
                contexts@.len() == k,
                forall|m: int| 0 <= m < k ==> (#[trigger] contexts@[m]) == (ContextAverage { sum: 0, count: 0 }),
            decreases 6 - k,
        {
            contexts.push(ContextAverage { sum: 0, count: 0 });
            k += 1;
        }
        let mut i: usize = 0;
        while i < self.ratings.len()
            invariant
                self.wf(),
                i <= self.ratings@.len(),
                contexts@.len() == 6,
                forall|c: RatingContext|
                    #![trigger c.index()]
                    contexts@[c.index()].sum == context_sum(self.ratings@, place_id@, c, i as int)
                        && contexts@[c.index()].count == context_count(
                        self.ratings@,
                        place_id@,
                        c,
                        i as int,
                    ),
                forall|m: int|
                    0 <= m < 6 ==> -(#[trigger] contexts@[m]).count <= contexts@[m].sum <= 2
                        * contexts@[m].count && contexts@[m].count <= i,
            decreases self.ratings@.len() - i,
        {
            let r = &self.ratings[i];
            assert(-1 <= r.value <= 2);
            if r.archived_at.is_none() && str_eq(r.place_id.as_str(), place_id) {
                let k = r.context.to_index();
                let old_c = contexts[k];
                let ghost before = contexts@;
                contexts.set(k, ContextAverage { sum: old_c.sum + r.value as i128, count: old_c.count + 1 });
                proof {
                    assert forall|c: RatingContext|
                        #![trigger c.index()]
                        contexts@[c.index()].sum == context_sum(self.ratings@, place_id@, c, i + 1)
                            && contexts@[c.index()].count == context_count(
                            self.ratings@,
                            place_id@,
                            c,
                            i + 1,
                        ) by {
                        if c != r.context {
                            assert(c.index() != r.context.index());
                        }
                    }
                }
            }
            i += 1;
        }
        AvgRatings { contexts }
    }
}

/// Which comments an archive call targets.
pub enum CommentSelector {
    /// The comments with these ids.
    ById,
    /// The comments of the ratings with these ids.
    ByRating,
    /// The comments of the ratings of the places with these ids.
    ByPlace,
}

pub open spec fn comment_selected(
    c: Comment,
    sel: CommentSelector,
    ids: Seq<Seq<char>>,
    ratings: Seq<Rating>,
) -> bool {
    match sel {
        CommentSelector::ById => ids.contains(c.id@),
        CommentSelector::ByRating => ids.contains(c.rating_id@),
        CommentSelector::ByPlace => comment_of_places(c, ratings, ids),
    }
}

} // verus!
