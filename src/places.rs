//! The revisioned place store: every place keeps all its revisions, and every
//! revision its chain of reviews.
use vstd::prelude::*;
use crate::entities::{ActivityLog, Place, ReviewStatus, ReviewStatusLog, opt_view};
use crate::error::RepoError;
use crate::tags::{contains_str, str_views, tags_normalized};
use crate::text::str_eq;

verus! {

/// A stored revision of a place with its moderation status and review chain
/// (oldest first).
#[derive(Debug)]
pub struct PlaceRevisionRecord {
    pub place: Place,
    pub status: ReviewStatus,
    pub reviews: Vec<ReviewStatusLog>,
}

/// A place with all its revisions, oldest first.
#[derive(Debug)]
pub struct PlaceRecord {
    pub revisions: Vec<PlaceRevisionRecord>,
}

impl PlaceRevisionRecord {
    /// The record is revision `rev` of the place `id`, its review records are
    /// numbered 1..N and its status is that of review N.
    pub open spec fn wf(self, rev: int, id: Seq<char>) -> bool {
        &&& self.place.revision == rev
        &&& self.place.id@ == id
        &&& self.reviews@.len() >= 1
        &&& self.reviews@.len() <= u64::MAX
        &&& forall|m: int| 0 <= m < self.reviews@.len() ==> #[trigger] self.reviews@[m].rev == m + 1
        &&& self.reviews@.last().status == self.status
        &&& tags_normalized(str_views(self.place.tags@))
    }
}

impl PlaceRecord {
    pub open spec fn id(self) -> Seq<char> {
        self.revisions@[0].place.id@
    }

    pub open spec fn current_rev(self) -> nat {
        self.revisions@.len()
    }

    pub open spec fn current(self) -> PlaceRevisionRecord {
        self.revisions@.last()
    }

    /// Revisions are numbered 1..current_rev without gaps.
    pub open spec fn wf(self) -> bool {
        &&& self.revisions@.len() >= 1
        &&& self.revisions@.len() <= u64::MAX
        &&& forall|k: int|
            0 <= k < self.revisions@.len() ==> (#[trigger] self.revisions@[k]).wf(k + 1, self.id())
    }
}

/// The review chain that a new revision starts with.
pub open spec fn fresh_revision(rr: PlaceRevisionRecord, place: Place) -> bool {
    &&& rr.place == place
    &&& rr.status == ReviewStatus::Created
    &&& rr.reviews@.len() == 1
    &&& rr.reviews@[0].rev == 1
    &&& rr.reviews@[0].status == ReviewStatus::Created
    &&& rr.reviews@[0].activity.activity.same_as(place.created)
    &&& opt_view(rr.reviews@[0].activity.context) == None::<Seq<char>>
    &&& opt_view(rr.reviews@[0].activity.comment) == Some("created"@)
}

/// The position of the place `id`, or -1.
pub open spec fn place_index(places: Seq<PlaceRecord>, id: Seq<char>) -> int {
    if exists|i: int| 0 <= i < places.len() && (#[trigger] places[i]).id() == id {
        choose|i: int| 0 <= i < places.len() && (#[trigger] places[i]).id() == id
    } else {
        -1
    }
}

/// Why writing `place` into `places` fails, if it does. Revision 1 creates a
/// place; revision N+1 extends a place whose current revision is N.
pub open spec fn write_error(places: Seq<PlaceRecord>, place: Place) -> Option<RepoError> {
    let i = place_index(places, place.id@);
    if place.revision == 0 {
        Some(RepoError::InvalidVersion)
    } else if place.revision == 1 {
        if i >= 0 {
            Some(RepoError::InvalidVersion)
        } else {
            None
        }
    } else if i < 0 {
        Some(RepoError::NotFound)
    } else if places[i].current_rev() + 1 != place.revision {
        Some(RepoError::InvalidVersion)
    } else {
        None
    }
}

/// `new` is `old` after `place` was written as a new revision.
pub open spec fn place_written(old: Seq<PlaceRecord>, new: Seq<PlaceRecord>, place: Place) -> bool {
    let i = place_index(old, place.id@);
    if i < 0 {
        &&& new.len() == old.len() + 1
        &&& new.drop_last() == old
        &&& new.last().revisions@.len() == 1
        &&& fresh_revision(new.last().revisions@[0], place)
    } else {
        &&& new.len() == old.len()
        &&& forall|j: int| 0 <= j < old.len() && j != i ==> new[j] == old[j]
        &&& new[i].revisions@.len() == old[i].revisions@.len() + 1
        &&& new[i].revisions@.drop_last() == old[i].revisions@
        &&& fresh_revision(new[i].revisions@.last(), place)
    }
}

/// `rec` is one of the places `ids` and its current status differs from
/// `status`.
pub open spec fn review_applies(rec: PlaceRecord, ids: Seq<Seq<char>>, status: ReviewStatus) -> bool {
    ids.contains(rec.id()) && rec.current().status != status
}

/// `new` is `old` after its current revision moved to `status`, with one more
/// review record.
pub open spec fn reviewed(
    old: PlaceRecord,
    new: PlaceRecord,
    status: ReviewStatus,
    log: ActivityLog,
) -> bool {
    let n = old.revisions@.len() - 1;
    let oc = old.current();
    let nc = new.current();
    &&& new.revisions@.len() == old.revisions@.len()
    &&& forall|k: int| 0 <= k < n ==> new.revisions@[k] == old.revisions@[k]
    &&& nc.place == oc.place
    &&& nc.status == status
    &&& nc.reviews@.len() == oc.reviews@.len() + 1
    &&& nc.reviews@.drop_last() == oc.reviews@
    &&& nc.reviews@.last().rev == oc.reviews@.len() + 1
    &&& nc.reviews@.last().status == status
    &&& nc.reviews@.last().activity.same_as(log)
}

/// How many of the first `n` places a review to `status` changes.
pub open spec fn count_reviewed(
    places: Seq<PlaceRecord>,
    ids: Seq<Seq<char>>,
    status: ReviewStatus,
    n: int,
) -> nat
    decreases n,
{
    if n <= 0 {
        0
    } else {
        count_reviewed(places, ids, status, n - 1) + if review_applies(places[n - 1], ids, status) {
            1nat
        } else {
            0nat
        }
    }
}


/// In a well-formed store the revisions of every place are numbered
/// 1..current_rev without gaps, and the current revision is the highest.
pub proof fn lemma_revisions_contiguous(places: Seq<PlaceRecord>, i: int)
    requires
        places_wf(places),
        0 <= i < places.len(),
    ensures
        forall|k: int|
            0 <= k < places[i].current_rev() ==> (#[trigger] places[i].revisions@[k]).place.revision
                == k + 1,
        places[i].current().place.revision == places[i].current_rev(),
        forall|k: int|
            0 <= k < places[i].current_rev() ==> places[i].revisions@[k].place.revision
                <= places[i].current().place.revision,
{
    assert(places[i].wf());
    let n = places[i].revisions@.len() - 1;
    assert(places[i].revisions@[n].wf(n + 1, places[i].id()));
    assert forall|k: int| 0 <= k < places[i].current_rev() implies (
    #[trigger] places[i].revisions@[k]).place.revision == k + 1 by {
        assert(places[i].revisions@[k].wf(k + 1, places[i].id()));
    }
}

/// In a well-formed store the review records of every revision are numbered
/// 1..N without gaps, and the revision's status is that of review N.
pub proof fn lemma_reviews_contiguous(places: Seq<PlaceRecord>, i: int, k: int)
    requires
        places_wf(places),
        0 <= i < places.len(),
        0 <= k < places[i].current_rev(),
    ensures
        forall|m: int|
            0 <= m < places[i].revisions@[k].reviews@.len() ==> (
            #[trigger] places[i].revisions@[k].reviews@[m]).rev == m + 1,
        places[i].revisions@[k].reviews@.len() >= 1,
        places[i].revisions@[k].status == places[i].revisions@[k].reviews@.last().status,
{
    assert(places[i].wf());
    assert(places[i].revisions@[k].wf(k + 1, places[i].id()));
}

/// Of two writes that both claim the same revision of a place, the one that
/// comes second fails with `InvalidVersion` once the first has succeeded.
pub proof fn lemma_optimistic_lock(
    old: Seq<PlaceRecord>,
    mid: Seq<PlaceRecord>,
    first: Place,
    second: Place,
)
    requires
        places_wf(old),
        places_wf(mid),
        write_error(old, first) is None,
        place_written(old, mid, first),
        second.id@ == first.id@,
        second.revision == first.revision,
    ensures
        write_error(mid, second) == Some(RepoError::InvalidVersion),
{
    let i = place_index(old, first.id@);
    if i < 0 {
        let n = old.len() as int;
        assert(mid[n].revisions@[0].place == first);
        lemma_place_index(mid, first.id@, n);
    } else {
        assert(old[i].wf());
        assert(mid[i].revisions@[0] == old[i].revisions@[0]);
        lemma_place_index(mid, first.id@, i);
    }
}

/// Reading a place right after it was written yields the written revision,
/// with status `Created`.
pub proof fn lemma_write_then_read(old: Seq<PlaceRecord>, new: Seq<PlaceRecord>, place: Place)
    requires
        places_wf(old),
        places_wf(new),
        write_error(old, place) is None,
        place_written(old, new, place),
    ensures
        place_index(new, place.id@) >= 0,
        new[place_index(new, place.id@)].current().place == place,
        new[place_index(new, place.id@)].current().status == ReviewStatus::Created,
{
    let i = place_index(old, place.id@);
    if i < 0 {
        let n = old.len() as int;
        assert(new[n].revisions@[0].place == place);
        lemma_place_index(new, place.id@, n);
    } else {
        assert(old[i].wf());
        assert(new[i].revisions@[0] == old[i].revisions@[0]);
        lemma_place_index(new, place.id@, i);
    }
}

/// How many of the first `n` places are visible: their current status is at
/// least `Created`.
pub open spec fn count_visible(places: Seq<PlaceRecord>, n: int) -> nat
    decreases n,
{
    if n <= 0 {
        0
    } else {
        count_visible(places, n - 1) + if places[n - 1].current().status.value() >= 0 {
            1nat
        } else {
            0nat
        }
    }
}

/// The store of all places.
#[derive(Debug)]
pub struct PlaceRepo {
    pub places: Vec<PlaceRecord>,
}

pub open spec fn places_wf(places: Seq<PlaceRecord>) -> bool {
    &&& forall|i: int| 0 <= i < places.len() ==> (#[trigger] places[i]).wf()
    &&& forall|i: int, j: int|
        0 <= i < places.len() && 0 <= j < places.len() && i != j ==> (#[trigger] places[i]).id()
            != (#[trigger] places[j]).id()
}

pub proof fn lemma_place_index(places: Seq<PlaceRecord>, id: Seq<char>, i: int)
    requires
        places_wf(places),
        0 <= i < places.len(),
        places[i].id() == id,
    ensures
        place_index(places, id) == i,
{
}

impl PlaceRepo {
    pub open spec fn wf(&self) -> bool {
        places_wf(self.places@)
    }

    pub fn new() -> (r: PlaceRepo)
        ensures
            r.wf(),
            r.places@.len() == 0,
    {
        PlaceRepo { places: Vec::new() }
    }

    /// The position of the place `id`.
    pub fn find(&self, id: &str) -> (r: Option<usize>)
        requires
            self.wf(),
        ensures
            r matches Some(i) ==> i == place_index(self.places@, id@),
            r is None ==> place_index(self.places@, id@) == -1,
    {
        let mut i: usize = 0;
        while i < self.places.len()
            invariant
                self.wf(),
                i <= self.places@.len(),
                forall|k: int| 0 <= k < i ==> (#[trigger] self.places@[k]).id() != id@,
            decreases self.places@.len() - i,
        {
            let rec = &self.places[i];
            assert(rec.revisions@[0].wf(1, rec.id()));
            if str_eq(rec.revisions[0].place.id.as_str(), id) {
                proof {
                    lemma_place_index(self.places@, id@, i as int);
                }
                return Some(i);
            }
            i += 1;
        }
        None
    }

    /// Stores `place` as a new revision: revision 1 creates the place, and
    /// revision N+1 is accepted only while the current revision is N.
    pub fn create_or_update_place(&mut self, place: Place) -> (r: Result<(), RepoError>)
        requires
            old(self).wf(),
            tags_normalized(str_views(place.tags@)),
        ensures
            final(self).wf(),
            r matches Err(e) ==> write_error(old(self).places@, place) == Some(e)
                && *final(self) == *old(self),
            r is Ok ==> write_error(old(self).places@, place) is None && place_written(
                old(self).places@,
                final(self).places@,
                place,
            ),
    {
        let ghost p0 = place;
        let idx = self.find(place.id.as_str());
        if place.revision == 0 {
            return Err(RepoError::InvalidVersion);
        }
        if place.revision == 1 && idx.is_some() {
            return Err(RepoError::InvalidVersion);
        }
        if place.revision > 1 {
            match idx {
                None => {
                    return Err(RepoError::NotFound);
                },
                Some(i) => {
                    if place.revision - 1 != self.places[i].revisions.len() as u64 {
                        return Err(RepoError::InvalidVersion);
                    }
                },
            }
        }
        let seed = ReviewStatusLog {
            rev: 1,
            status: ReviewStatus::Created,
            activity: ActivityLog {
                activity: place.created.duplicate(),
                context: None,
                comment: Some("created".to_owned()),
            },
        };
        proof {
            reveal_strlit("created");
        }
        let mut reviews: Vec<ReviewStatusLog> = Vec::new();
        reviews.push(seed);
        let rr = PlaceRevisionRecord { place, status: ReviewStatus::Created, reviews };
        assert(fresh_revision(rr, p0));
        let ghost old_places = self.places@;
        match idx {
            None => {
                let mut revisions: Vec<PlaceRevisionRecord> = Vec::new();
                revisions.push(rr);
                self.places.push(PlaceRecord { revisions });
                proof {
                    assert(self.places@.drop_last() =~= old_places);
                    let n = old_places.len() as int;
                    assert(self.places@[n].revisions@[0].wf(1, self.places@[n].id()));
                    assert forall|i: int, j: int|
                        0 <= i < self.places@.len() && 0 <= j < self.places@.len() && i != j
                            implies (#[trigger] self.places@[i]).id() != (
                        #[trigger] self.places@[j]).id() by {
                        if i == n {
                            assert(self.places@[j] == old_places[j]);
                        } else if j == n {
                            assert(self.places@[i] == old_places[i]);
                        } else {
                            assert(self.places@[i] == old_places[i]);
                            assert(self.places@[j] == old_places[j]);
                        }
                    }
                }
            },
            Some(i) => {
                let ghost old_revs = self.places@[i as int].revisions@;
                let ghost old_id = self.places@[i as int].id();
                self.places[i].revisions.push(rr);
                proof {
                    let rec = self.places@[i as int];
                    assert(rec.revisions@.drop_last() =~= old_revs);
                    assert(rec.revisions@[0] == old_revs[0]);
                    assert(rec.id() == old_id);
                    assert forall|k: int| 0 <= k < rec.revisions@.len() implies (
                    #[trigger] rec.revisions@[k]).wf(k + 1, rec.id()) by {
                        if k < old_revs.len() {
                            assert(rec.revisions@[k] == old_revs[k]);
                        }
                    }
                    assert forall|a: int, b: int|
                        0 <= a < self.places@.len() && 0 <= b < self.places@.len() && a != b
                            implies (#[trigger] self.places@[a]).id() != (
                        #[trigger] self.places@[b]).id() by {
                        assert(old_places[a].id() != old_places[b].id());
                        if a == i {
                            assert(self.places@[b] == old_places[b]);
                        } else if b == i {
                            assert(self.places@[a] == old_places[a]);
                        } else {
                            assert(self.places@[a] == old_places[a]);
                            assert(self.places@[b] == old_places[b]);
                        }
                    }
                }
            },
        }
        Ok(())
    }

    /// Moves the current revision of each of the places `ids` to `status`
    /// where its status differs, appending one review record to each; returns
    /// how many places changed.
    pub fn review_places(&mut self, ids: &Vec<String>, status: ReviewStatus, log: &ActivityLog) -> (r: usize)
        requires
            old(self).wf(),
            forall|i: int|
                0 <= i < old(self).places@.len() ==> (#[trigger] old(self).places@[i]).current().reviews@.len()
                    < u64::MAX,
        ensures
            final(self).wf(),
            final(self).places@.len() == old(self).places@.len(),
            forall|i: int|
                0 <= i < old(self).places@.len() ==> if review_applies(
                    #[trigger] old(self).places@[i],
                    str_views(ids@),
                    status,
                ) {
                    reviewed(old(self).places@[i], final(self).places@[i], status, *log)
                } else {
                    final(self).places@[i] == old(self).places@[i]
                },
            r == count_reviewed(old(self).places@, str_views(ids@), status, old(self).places@.len() as int),
    {
        let ghost old_places = self.places@;
        let mut count: usize = 0;
        let mut i: usize = 0;
        while i < self.places.len()
            invariant
                old_places == old(self).places@,
                places_wf(old_places),
                self.places@.len() == old_places.len(),
                i <= self.places@.len(),
                count <= i,
                count == count_reviewed(old_places, str_views(ids@), status, i as int),
                forall|k: int|
                    0 <= k < old_places.len() ==> (#[trigger] old_places[k]).current().reviews@.len()
                        < u64::MAX,
                forall|k: int| i <= k < old_places.len() ==> self.places@[k] == old_places[k],
                forall|k: int|
                    0 <= k < i ==> if review_applies(#[trigger] old_places[k], str_views(ids@), status) {
                        reviewed(old_places[k], self.places@[k], status, *log)
                    } else {
                        self.places@[k] == old_places[k]
                    },
                forall|k: int| 0 <= k < self.places@.len() ==> (#[trigger] self.places@[k]).wf(),
                forall|k: int| 0 <= k < self.places@.len() ==> (#[trigger] self.places@[k]).id() == old_places[k].id(),
            decreases old_places.len() - i,
        {
            let last = self.places[i].revisions.len() - 1;
            assert(self.places@[i as int].revisions@[0].wf(1, self.places@[i as int].id()));
            let applies = contains_str(ids, self.places[i].revisions[0].place.id.as_str())
                && self.places[i].revisions[last].status != status;
            if applies {
                let ghost old_rec = self.places@[i as int];
                let next_rev = self.places[i].revisions[last].reviews.len() as u64 + 1;
                let review = ReviewStatusLog { rev: next_rev, status, activity: log.duplicate() };
                self.places[i].revisions[last].status = status;
                self.places[i].revisions[last].reviews.push(review);
                count += 1;
                proof {
                    let rec = self.places@[i as int];
                    assert(rec.revisions@[last as int].reviews@.drop_last() =~= old_rec.revisions@[last as int].reviews@);
                    assert(last == 0 ==> rec.revisions@[0].place == old_rec.revisions@[0].place);
                    assert(rec.revisions@[0].place == old_rec.revisions@[0].place);
                    assert(rec.id() == old_rec.id());
                    assert forall|k: int| 0 <= k < rec.revisions@.len() implies (
                    #[trigger] rec.revisions@[k]).wf(k + 1, rec.id()) by {
                        assert(old_rec.revisions@[k].wf(k + 1, old_rec.id()));
                        if k == last {
                            let rv = rec.revisions@[k].reviews@;
                            assert forall|m: int| 0 <= m < rv.len() implies #[trigger] rv[m].rev == m + 1 by {
                                if m < rv.len() - 1 {
                                    assert(rv[m] == old_rec.revisions@[k].reviews@[m]);
                                }
                            }
                        }
                    }
                }
            }
            i += 1;
        }
        proof {
            assert forall|a: int, b: int|
                0 <= a < self.places@.len() && 0 <= b < self.places@.len() && a != b implies (
            #[trigger] self.places@[a]).id() != (#[trigger] self.places@[b]).id() by {
                assert(old_places[a].id() != old_places[b].id());
            }
        }
        count
    }

    /// Every revision of the place `id`, newest first, each with its status
    /// and its review chain, newest first.
    pub fn get_place_history(&self, id: &str) -> (r: Result<Vec<(&Place, ReviewStatus, Vec<&ReviewStatusLog>)>, RepoError>)
        requires
            self.wf(),
        ensures
            r is Err <==> place_index(self.places@, id@) < 0,
            r matches Err(e) ==> e == RepoError::NotFound,
            r matches Ok(h) ==> {
                let revs = self.places@[place_index(self.places@, id@)].revisions@;
                &&& h@.len() == revs.len()
                &&& forall|k: int|
                    0 <= k < h@.len() ==> {
                        let rr = revs[revs.len() - 1 - k];
                        &&& *(#[trigger] h@[k]).0 == rr.place
                        &&& h@[k].1 == rr.status
                        &&& h@[k].2@.len() == rr.reviews@.len()
                        &&& forall|m: int|
                            0 <= m < rr.reviews@.len() ==> *(#[trigger] h@[k].2@[m]) == rr.reviews@[rr.reviews@.len() - 1 - m]
                    }
            },
    {
        let i = match self.find(id) {
            None => {
                return Err(RepoError::NotFound);
            },
            Some(i) => i,
        };
        let revs = &self.places[i].revisions;
        let mut out: Vec<(&Place, ReviewStatus, Vec<&ReviewStatusLog>)> = Vec::new();
        let mut k: usize = revs.len();
        while k > 0
            invariant
                k <= revs@.len(),
                out@.len() == revs@.len() - k,
                forall|j: int|
                    0 <= j < out@.len() ==> {
                        let rr = revs@[revs@.len() - 1 - j];
                        &&& *(#[trigger] out@[j]).0 == rr.place
                        &&& out@[j].1 == rr.status
                        &&& out@[j].2@.len() == rr.reviews@.len()
                        &&& forall|m: int|
                            0 <= m < rr.reviews@.len() ==> *(#[trigger] out@[j].2@[m]) == rr.reviews@[rr.reviews@.len() - 1 - m]
                    },
            decreases k,
        {
            k -= 1;
            let rr = &revs[k];
            let mut reviews: Vec<&ReviewStatusLog> = Vec::new();
            let mut m: usize = rr.reviews.len();
            while m > 0
                invariant
                    m <= rr.reviews@.len(),
                    reviews@.len() == rr.reviews@.len() - m,
                    forall|x: int|
                        0 <= x < reviews@.len() ==> *(#[trigger] reviews@[x]) == rr.reviews@[rr.reviews@.len() - 1 - x],
                decreases m,
            {
                m -= 1;
                reviews.push(&rr.reviews[m]);
            }
            let ghost before = out@;
            out.push((&rr.place, rr.status, reviews));
            proof {
                assert forall|j: int| 0 <= j < out@.len() implies {
                    let rr2 = revs@[revs@.len() - 1 - j];
                    &&& *(#[trigger] out@[j]).0 == rr2.place
                    &&& out@[j].1 == rr2.status
                    &&& out@[j].2@.len() == rr2.reviews@.len()
                    &&& forall|m: int|
                        0 <= m < rr2.reviews@.len() ==> *(#[trigger] out@[j].2@[m]) == rr2.reviews@[rr2.reviews@.len() - 1 - m]
                } by {
                    if j < before.len() {
                        assert(out@[j] == before[j]);
                    }
                }
            }
        }
        Ok(out)
    }

    /// The number of visible places.
    pub fn count_places(&self) -> (r: usize)
        requires
            self.wf(),
        ensures
            r == count_visible(self.places@, self.places@.len() as int),
    {
        let mut count: usize = 0;
        let mut i: usize = 0;
        while i < self.places.len()
            invariant
                self.wf(),
                i <= self.places@.len(),
                count <= i,
                count == count_visible(self.places@, i as int),
            decreases self.places@.len() - i,
        {
            let rec = &self.places[i];
            assert(rec.wf());
            let last = rec.revisions.len() - 1;
            if rec.revisions[last].status.is_visible() {
                count += 1;
            }
            i += 1;
        }
        count
    }

    /// The current revision of the place `id` with its status.
    pub fn get_place(&self, id: &str) -> (r: Result<(&Place, ReviewStatus), RepoError>)
        requires
            self.wf(),
        ensures
            r is Err <==> place_index(self.places@, id@) < 0,
            r matches Err(e) ==> e == RepoError::NotFound,
            r matches Ok(x) ==> {
                let i = place_index(self.places@, id@);
                *x.0 == self.places@[i].current().place && x.1 == self.places@[i].current().status
            },
    {
        match self.find(id) {
            None => Err(RepoError::NotFound),
            Some(i) => {
                let rec = &self.places[i];
                let last = &rec.revisions[rec.revisions.len() - 1];
                Ok((&last.place, last.status))
            },
        }
    }
}

} // verus!
