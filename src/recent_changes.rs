//! The moderation log of current place revisions, newest first.
use vstd::prelude::*;
use crate::entities::{Place, ReviewStatusLog};
use crate::places::{PlaceRecord, PlaceRepo, places_wf};
use crate::popular_tags::page;

verus! {

/// A review lies in the window: at or after `since`, before `until`.
pub open spec fn in_window(r: ReviewStatusLog, since: Option<i64>, until: Option<i64>) -> bool {
    (since matches Some(s) ==> r.activity.activity.at >= s) && (until matches Some(u) ==> r.activity.activity.at < u)
}

/// The rows (place, review) of the first `m` reviews of the current
/// revision of `rec` that lie in the window.
pub open spec fn review_rows(rec: PlaceRecord, since: Option<i64>, until: Option<i64>, m: int) -> Seq<(Place, ReviewStatusLog)>
    decreases m,
{
    if m <= 0 {
        Seq::empty()
    } else {
        let prev = review_rows(rec, since, until, m - 1);
        let r = rec.current().reviews@[m - 1];
        if in_window(r, since, until) {
            prev.push((rec.current().place, r))
        } else {
            prev
        }
    }
}

/// The rows of the first `n` places, place by place.
pub open spec fn change_rows(places: Seq<PlaceRecord>, since: Option<i64>, until: Option<i64>, n: int) -> Seq<(Place, ReviewStatusLog)>
    decreases n,
{
    if n <= 0 {
        Seq::empty()
    } else {
        change_rows(places, since, until, n - 1) + review_rows(
            places[n - 1],
            since,
            until,
            places[n - 1].current().reviews@.len() as int,
        )
    }
}

/// `a` is newer than `b`: a later time, or the same time and a higher
/// review number.
pub open spec fn newer(a: (Place, ReviewStatusLog), b: (Place, ReviewStatusLog)) -> bool {
    a.1.activity.activity.at > b.1.activity.activity.at || (a.1.activity.activity.at
        == b.1.activity.activity.at && a.1.rev > b.1.rev)
}

/// Inserts `x` into a list ordered newest first, after every row that is
/// not older than it.
pub open spec fn insert_change(s: Seq<(Place, ReviewStatusLog)>, x: (Place, ReviewStatusLog)) -> Seq<(Place, ReviewStatusLog)>
    decreases s.len(),
{
    if s.len() == 0 {
        seq![x]
    } else if !newer(x, s.last()) {
        s.push(x)
    } else {
        insert_change(s.drop_last(), x).push(s.last())
    }
}

/// The rows ordered newest first; rows that neither is newer keep their
/// order.
pub open spec fn newest_first(s: Seq<(Place, ReviewStatusLog)>) -> Seq<(Place, ReviewStatusLog)>
    decreases s.len(),
{
    if s.len() == 0 {
        s
    } else {
        insert_change(newest_first(s.drop_last()), s.last())
    }
}

pub open spec fn row_views(v: Seq<(&Place, &ReviewStatusLog)>) -> Seq<(Place, ReviewStatusLog)> {
    v.map_values(|x: (&Place, &ReviewStatusLog)| (*x.0, *x.1))
}

fn is_newer(a: (&Place, &ReviewStatusLog), b: (&Place, &ReviewStatusLog)) -> (r: bool)
    ensures
        r == newer((*a.0, *a.1), (*b.0, *b.1)),
{
    a.1.activity.activity.at > b.1.activity.activity.at || (a.1.activity.activity.at
        == b.1.activity.activity.at && a.1.rev > b.1.rev)
}

fn insert_newest_first<'a>(out: &mut Vec<(&'a Place, &'a ReviewStatusLog)>, x: (&'a Place, &'a ReviewStatusLog))
    ensures
        row_views(final(out)@) == insert_change(row_views(old(out)@), (*x.0, *x.1)),
{
    let ghost s0 = row_views(out@);
    let ghost xv = (*x.0, *x.1);
    let mut p: usize = out.len();
    assert(s0.subrange(0, p as int) =~= s0);
    assert(s0.subrange(p as int, s0.len() as int) =~= Seq::<(Place, ReviewStatusLog)>::empty());
    while p > 0 && is_newer(x, out[p - 1])
        invariant
            p <= out@.len(),
            s0 == row_views(out@),
            xv == (*x.0, *x.1),
            insert_change(s0, xv) == insert_change(s0.subrange(0, p as int), xv) + s0.subrange(
                p as int,
                s0.len() as int,
            ),
        decreases p,
    {
        proof {
            let pre = s0.subrange(0, p as int);
            assert(pre.drop_last() =~= s0.subrange(0, p - 1));
            assert(pre.last() == s0[p - 1]);
            assert(s0.subrange(p - 1, s0.len() as int) =~= seq![s0[p - 1]] + s0.subrange(p as int, s0.len() as int));
            assert(insert_change(s0.subrange(0, p - 1), xv).push(s0[p - 1]) + s0.subrange(p as int, s0.len() as int)
                =~= insert_change(s0.subrange(0, p - 1), xv) + s0.subrange(p - 1, s0.len() as int));
        }
        p -= 1;
    }
    out.insert(p, x);
    proof {
        let pre = s0.subrange(0, p as int);
        if p > 0 {
            assert(pre.last() == s0[p - 1]);
        }
        assert(insert_change(pre, xv) =~= pre.push(xv));
        assert(row_views(out@) =~= s0.insert(p as int, xv));
        assert(s0.insert(p as int, xv) =~= pre.push(xv) + s0.subrange(p as int, s0.len() as int));
    }
}

/// The reviews of current place revisions made in the window `since..until`,
/// each with its place, newest first, from `offset` on and at most `limit`
/// of them.
pub fn recently_changed_places(
    repo: &PlaceRepo,
    since: Option<i64>,
    until: Option<i64>,
    offset: usize,
    limit: Option<usize>,
) -> (r: Vec<(&Place, &ReviewStatusLog)>)
    requires
        repo.wf(),
    ensures
        row_views(r@) == page(
            newest_first(change_rows(repo.places@, since, until, repo.places@.len() as int)),
            offset,
            limit,
        ),
{
    let places = &repo.places;
    let mut out: Vec<(&Place, &ReviewStatusLog)> = Vec::new();
    let mut i: usize = 0;
    while i < places.len()
        invariant
            places_wf(places@),
            i <= places@.len(),
            row_views(out@) == newest_first(change_rows(places@, since, until, i as int)),
        decreases places@.len() - i,
    {
        let rec = &places[i];
        assert(rec.wf());
        let last = rec.revisions.len() - 1;
        let cur = &rec.revisions[last];
        let ghost base = change_rows(places@, since, until, i as int);
        let mut m: usize = 0;
        while m < cur.reviews.len()
            invariant
                i < places@.len(),
                *rec == places@[i as int],
                *cur == rec.current(),
                base == change_rows(places@, since, until, i as int),
                m <= cur.reviews@.len(),
                row_views(out@) == newest_first(base + review_rows(*rec, since, until, m as int)),
            decreases cur.reviews@.len() - m,
        {
            let r = &cur.reviews[m];
            let at = r.activity.activity.at;
            let inside = match since {
                Some(s) => at >= s,
                None => true,
            } && match until {
                Some(u) => at < u,
                None => true,
            };
            if inside {
                proof {
                    let rows = base + review_rows(*rec, since, until, m as int);
                    let x = (cur.place, *r);
                    assert((base + review_rows(*rec, since, until, m + 1)) =~= rows.push(x));
                    assert(rows.push(x).drop_last() =~= rows);
                }
                insert_newest_first(&mut out, (&cur.place, r));
            } else {
                assert(base + review_rows(*rec, since, until, m + 1) =~= base + review_rows(*rec, since, until, m as int));
            }
            m += 1;
        }
        i += 1;
    }
    let ghost full = row_views(out@);
    let len = out.len();
    let start = if offset <= len { offset } else { len };
    let mut tail = out.split_off(start);
    let rest = len - start;
    let keep = match limit {
        None => rest,
        Some(l) => if l <= rest { l } else { rest },
    };
    tail.truncate(keep);
    assert(row_views(tail@) =~= page(full, offset, limit));
    tail
}

} // verus!
