//! The contract with the search index and the use case that splits its
//! results into those inside the visible box and a few outside it.
use vstd::prelude::*;
use crate::geo::{MAX_LAT, MAX_LNG, MapBbox, MapPoint};
use crate::error::Error;
use crate::ratings::{AvgRatings, ContextAverage};

verus! {

/// How many results outside the visible box a search returns at most.
pub const MAX_INVISIBLE_RESULTS: usize = 5;

/// A place as the search index holds it.
#[derive(Debug, Clone)]
pub struct IndexedEntry {
    pub id: String,
    pub pos: MapPoint,
    pub title: String,
    pub description: String,
    pub categories: Vec<String>,
    pub tags: Vec<String>,
    pub ratings: AvgRatings,
}

/// A query to the search index.
#[derive(Debug, Clone)]
pub struct EntryIndexQuery {
    pub bbox: Option<MapBbox>,
    pub text: Option<String>,
    pub categories: Vec<String>,
    pub tags: Vec<String>,
}

/// A search as a user asks for it.
#[derive(Debug, Clone)]
pub struct SearchRequest {
    pub bbox: MapBbox,
    pub categories: Vec<String>,
    pub text: Option<String>,
    pub tags: Vec<String>,
}

/// The box spanned by two corners, or `None` when one of them is not a valid
/// point.
pub fn map_bbox(south_west: MapPoint, north_east: MapPoint) -> (r: Option<MapBbox>)
    ensures
        r is Some <==> south_west.valid() && north_east.valid(),
        r matches Some(b) ==> b.south_west == south_west && b.north_east == north_east,
{
    if south_west.is_valid() && north_east.is_valid() {
        Some(MapBbox::new(south_west, north_east))
    } else {
        None
    }
}

pub open spec fn clamp(v: int, lo: int, hi: int) -> int {
    if v < lo { lo } else if v > hi { hi } else { v }
}

/// The box grown by a tenth of its height on each side in latitude, and by a
/// tenth of its width in longitude unless it wraps, within the valid range.
pub open spec fn extended(b: MapBbox) -> MapBbox {
    let dlat: int = (b.north_east.lat - b.south_west.lat) / 10;
    let dlng: int = if b.wraps() { 0 } else { (b.north_east.lng - b.south_west.lng) / 10 };
    MapBbox {
        south_west: MapPoint {
            lat: clamp(b.south_west.lat - dlat, -MAX_LAT as int, MAX_LAT as int) as i64,
            lng: clamp(b.south_west.lng - dlng, -MAX_LNG as int, MAX_LNG as int) as i64,
        },
        north_east: MapPoint {
            lat: clamp(b.north_east.lat + dlat, -MAX_LAT as int, MAX_LAT as int) as i64,
            lng: clamp(b.north_east.lng + dlng, -MAX_LNG as int, MAX_LNG as int) as i64,
        },
    }
}

fn clamp_i64(v: i64, lo: i64, hi: i64) -> (r: i64)
    requires
        lo <= hi,
    ensures
        r == clamp(v as int, lo as int, hi as int),
{
    if v < lo {
        lo
    } else if v > hi {
        hi
    } else {
        v
    }
}

/// Grows a valid box by a margin (see `extended`).
pub fn extend_bbox(b: &MapBbox) -> (r: MapBbox)
    requires
        b.valid(),
    ensures
        r == extended(*b),
        r.valid(),
{
    let dlat = (b.north_east.lat - b.south_west.lat) / 10;
    let dlng = if b.north_east.lng < b.south_west.lng {
        0
    } else {
        (b.north_east.lng - b.south_west.lng) / 10
    };
    MapBbox {
        south_west: MapPoint {
            lat: clamp_i64(b.south_west.lat - dlat, -MAX_LAT, MAX_LAT),
            lng: clamp_i64(b.south_west.lng - dlng, -MAX_LNG, MAX_LNG),
        },
        north_east: MapPoint {
            lat: clamp_i64(b.north_east.lat + dlat, -MAX_LAT, MAX_LAT),
            lng: clamp_i64(b.north_east.lng + dlng, -MAX_LNG, MAX_LNG),
        },
    }
}

/// The index query for a search: without text and tags the box is extended
/// by a margin, else the whole map is searched.
pub fn search_query(req: SearchRequest) -> (r: EntryIndexQuery)
    requires
        req.bbox.valid(),
    ensures
        r.bbox == if (req.text is None || req.text->0@.len() == 0) && req.tags@.len() == 0 {
            Some(extended(req.bbox))
        } else {
            None::<MapBbox>
        },
        r.text == req.text,
        r.categories == req.categories,
        r.tags == req.tags,
{
    let no_text = match &req.text {
        None => true,
        Some(t) => t.as_str().unicode_len() == 0,
    };
    let bbox = if no_text && req.tags.len() == 0 {
        Some(extend_bbox(&req.bbox))
    } else {
        None
    };
    EntryIndexQuery { bbox, text: req.text, categories: req.categories, tags: req.tags }
}

/// The entries among the first `n` whose position is inside (`inside`) or
/// outside (`!inside`) the box, in order.
pub open spec fn entries_where(entries: Seq<IndexedEntry>, bbox: MapBbox, inside: bool, n: int) -> Seq<IndexedEntry>
    decreases n,
{
    if n <= 0 {
        Seq::empty()
    } else {
        let prev = entries_where(entries, bbox, inside, n - 1);
        if bbox.spec_contains(entries[n - 1].pos) == inside {
            prev.push(entries[n - 1])
        } else {
            prev
        }
    }
}

pub proof fn lemma_entries_where_len(entries: Seq<IndexedEntry>, bbox: MapBbox, inside: bool, n: int)
    ensures
        entries_where(entries, bbox, inside, n).len() <= if n < 0 { 0 } else { n },
    decreases n,
{
    if n > 0 {
        lemma_entries_where_len(entries, bbox, inside, n - 1);
    }
}

/// `visible` holds the entries of `es` inside the box and `invisible` the
/// first `MAX_INVISIBLE_RESULTS` of those outside it, both in order.
pub open spec fn is_split_of(es: Seq<IndexedEntry>, bbox: MapBbox, visible: Seq<IndexedEntry>, invisible: Seq<IndexedEntry>) -> bool {
    let outside = entries_where(es, bbox, false, es.len() as int);
    &&& visible == entries_where(es, bbox, true, es.len() as int)
    &&& invisible == outside.subrange(0, if outside.len() < MAX_INVISIBLE_RESULTS { outside.len() as int } else { MAX_INVISIBLE_RESULTS as int })
}

/// Splits index results into those inside the visible box and at most
/// `MAX_INVISIBLE_RESULTS` outside it; both keep the order of the index.
pub fn split_search_results(entries: Vec<IndexedEntry>, visible_bbox: &MapBbox) -> (r: (Vec<IndexedEntry>, Vec<IndexedEntry>))
    ensures
        is_split_of(entries@, *visible_bbox, r.0@, r.1@),
{
    let ghost e0 = entries@;
    let mut rest = entries;
    let mut visible: Vec<IndexedEntry> = Vec::new();
    let mut invisible: Vec<IndexedEntry> = Vec::new();
    let n = rest.len();
    let mut i: usize = 0;
    assert(rest@ =~= e0.subrange(0, n as int));
    while rest.len() > 0
        invariant
            n == e0.len(),
            i + rest@.len() == n,
            rest@ == e0.subrange(i as int, n as int),
            visible@ == entries_where(e0, *visible_bbox, true, i as int),
            ({
                let outside = entries_where(e0, *visible_bbox, false, i as int);
                invisible@ == outside.subrange(0, if outside.len() < MAX_INVISIBLE_RESULTS { outside.len() as int } else { MAX_INVISIBLE_RESULTS as int })
            }),
        decreases rest@.len(),
    {
        let e = rest.remove(0);
        proof {
            assert(e == e0[i as int]);
            assert(rest@ =~= e0.subrange(i + 1, n as int));
            lemma_entries_where_len(e0, *visible_bbox, false, i as int);
        }
        let ghost outside = entries_where(e0, *visible_bbox, false, i as int);
        if visible_bbox.contains_point(e.pos) {
            visible.push(e);
        } else {
            if invisible.len() < MAX_INVISIBLE_RESULTS {
                invisible.push(e);
                assert(invisible@ =~= outside.push(e).subrange(0, outside.len() as int + 1));
            } else {
                assert(invisible@ =~= outside.push(e).subrange(0, MAX_INVISIBLE_RESULTS as int));
            }
        }
        i += 1;
    }
    (visible, invisible)
}

/// Fixed-point scale of rating scores: context averages are counted in
/// billionths.
pub const RATING_SCALE: i128 = 1_000_000_000;

/// The average of one context, `sum / max(1, count)` clamped to -1..=2, in
/// units of `1 / RATING_SCALE`, rounded down.
pub open spec fn context_score(c: ContextAverage) -> int {
    let d: int = if c.count == 0 { 1 } else { c.count as int };
    if c.sum >= 2 * d {
        2 * RATING_SCALE
    } else if c.sum <= -d {
        -RATING_SCALE
    } else {
        ((c.sum + d) * RATING_SCALE) / d - RATING_SCALE
    }
}

/// The sum of the first `n` context scores. Every entry has the same
/// contexts, so it orders entries as the mean over the contexts does.
pub open spec fn rating_score_upto(cs: Seq<ContextAverage>, n: int) -> int
    decreases n,
{
    if n <= 0 {
        0
    } else {
        rating_score_upto(cs, n - 1) + context_score(cs[n - 1])
    }
}

pub open spec fn rating_score(e: IndexedEntry) -> int {
    rating_score_upto(e.ratings.contexts@, e.ratings.contexts@.len() as int)
}

/// Inserts `x` into a list ordered by descending score, after every entry
/// that scores at least as high.
pub open spec fn insert_by_rating(s: Seq<IndexedEntry>, x: IndexedEntry) -> Seq<IndexedEntry>
    decreases s.len(),
{
    if s.len() == 0 {
        seq![x]
    } else if !(rating_score(s.last()) < rating_score(x)) {
        s.push(x)
    } else {
        insert_by_rating(s.drop_last(), x).push(s.last())
    }
}

/// The entries ordered by descending average rating; equally rated entries
/// keep their order.
pub open spec fn rating_sorted(s: Seq<IndexedEntry>) -> Seq<IndexedEntry>
    decreases s.len(),
{
    if s.len() == 0 {
        s
    } else {
        insert_by_rating(rating_sorted(s.drop_last()), s.last())
    }
}

pub open spec fn rating_ordered(s: Seq<IndexedEntry>) -> bool {
    forall|i: int, j: int| 0 <= i < j < s.len() ==> rating_score(#[trigger] s[i]) >= rating_score(#[trigger] s[j])
}

pub proof fn lemma_insert_by_rating(s: Seq<IndexedEntry>, x: IndexedEntry)
    requires
        rating_ordered(s),
    ensures
        rating_ordered(insert_by_rating(s, x)),
        insert_by_rating(s, x).len() == s.len() + 1,
        forall|k: int|
            0 <= k < insert_by_rating(s, x).len() ==> #[trigger] insert_by_rating(s, x)[k] == x
                || s.contains(insert_by_rating(s, x)[k]),
    decreases s.len(),
{
    let r = insert_by_rating(s, x);
    if s.len() == 0 {
    } else if !(rating_score(s.last()) < rating_score(x)) {
        assert forall|i: int, j: int| 0 <= i < j < r.len() implies rating_score(#[trigger] r[i]) >= rating_score(#[trigger] r[j]) by {
            if j == s.len() {
                assert(rating_score(s[i]) >= rating_score(s[s.len() - 1]) || i == s.len() - 1);
            }
        }
        assert forall|k: int| 0 <= k < r.len() implies #[trigger] r[k] == x || s.contains(r[k]) by {
            if k < s.len() {
                assert(s[k] == r[k]);
            }
        }
    } else {
        let d = s.drop_last();
        assert forall|i: int, j: int| 0 <= i < j < d.len() implies rating_score(#[trigger] d[i]) >= rating_score(#[trigger] d[j]) by {
            assert(d[i] == s[i] && d[j] == s[j]);
        }
        lemma_insert_by_rating(d, x);
        let q = insert_by_rating(d, x);
        assert forall|k: int| 0 <= k < q.len() implies rating_score(#[trigger] q[k]) >= rating_score(s.last()) by {
            if q[k] != x {
                let m = choose|m: int| 0 <= m < d.len() && d[m] == q[k];
                assert(s[m] == d[m]);
            }
        }
        assert forall|i: int, j: int| 0 <= i < j < r.len() implies rating_score(#[trigger] r[i]) >= rating_score(#[trigger] r[j]) by {
            if j == q.len() {
                assert(r[i] == q[i]);
            } else {
                assert(r[i] == q[i] && r[j] == q[j]);
            }
        }
        assert forall|k: int| 0 <= k < r.len() implies #[trigger] r[k] == x || s.contains(r[k]) by {
            if k < q.len() {
                assert(r[k] == q[k]);
                if q[k] != x {
                    let m = choose|m: int| 0 <= m < d.len() && d[m] == q[k];
                    assert(s[m] == d[m]);
                }
            } else {
                assert(r[k] == s[s.len() - 1]);
            }
        }
    }
}

/// A rating sort orders by descending average rating.
pub proof fn lemma_rating_sorted_ordered(s: Seq<IndexedEntry>)
    ensures
        rating_ordered(rating_sorted(s)),
        rating_sorted(s).len() == s.len(),
    decreases s.len(),
{
    if s.len() > 0 {
        lemma_rating_sorted_ordered(s.drop_last());
        lemma_insert_by_rating(rating_sorted(s.drop_last()), s.last());
    }
}

fn context_score_exec(c: &ContextAverage) -> (r: i128)
    ensures
        r == context_score(*c),
        -RATING_SCALE <= r <= 2 * RATING_SCALE,
{
    let d: i128 = if c.count == 0 { 1 } else { c.count as i128 };
    if c.sum >= 2 * d {
        2 * RATING_SCALE
    } else if c.sum <= -d {
        -RATING_SCALE
    } else {
        let num = c.sum + d;
        proof {
            let ni = num as int;
            let di = d as int;
            let k = RATING_SCALE as int;
            assert(0 < ni < 3 * di);
            assert(0 <= ni * k < 3 * di * k) by (nonlinear_arith)
                requires 0 < ni < 3 * di, di > 0, k == 1_000_000_000;
            assert(0 <= (ni * k) / di <= 3 * k) by (nonlinear_arith)
                requires 0 < ni < 3 * di, di > 0, k == 1_000_000_000;
        }
        (num * RATING_SCALE) / d - RATING_SCALE
    }
}

/// The rating score of an entry (see `rating_score`).
pub fn entry_rating_score(e: &IndexedEntry) -> (r: i128)
    ensures
        r == rating_score(*e),
{
    let cs = &e.ratings.contexts;
    let mut total: i128 = 0;
    let mut i: usize = 0;
    while i < cs.len()
        invariant
            i <= cs@.len(),
            total == rating_score_upto(cs@, i as int),
            -1_000_000_000 * (i as int) <= total as int <= 2_000_000_000 * (i as int),
        decreases cs@.len() - i,
    {
        let s = context_score_exec(&cs[i]);
        proof {
            assert(i < cs@.len());
            assert((i as int) < 0x1_0000_0000_0000_0000);
            assert(2_000_000_000 * (i as int) + 2_000_000_000 < 0x7fff_ffff_ffff_ffff_ffff_ffff_ffff_ffff);
            assert(-1_000_000_000 * (i as int) - 1_000_000_000 > -0x7fff_ffff_ffff_ffff_ffff_ffff_ffff_ffff);
        }
        total = total + s;
        i += 1;
    }
    total
}

/// Orders entries by descending average rating; equally rated entries keep
/// their order.
pub fn sort_by_avg_rating(entries: Vec<IndexedEntry>) -> (r: Vec<IndexedEntry>)
    ensures
        r@ == rating_sorted(entries@),
        rating_ordered(r@),
{
    let ghost e0 = entries@;
    let mut rest = entries;
    let n = rest.len();
    let mut out: Vec<IndexedEntry> = Vec::new();
    let mut i: usize = 0;
    assert(rest@ =~= e0.subrange(0, n as int));
    assert(e0.subrange(0, 0) =~= Seq::<IndexedEntry>::empty());
    while rest.len() > 0
        invariant
            n == e0.len(),
            i + rest@.len() == n,
            rest@ == e0.subrange(i as int, n as int),
            out@ == rating_sorted(e0.subrange(0, i as int)),
        decreases rest@.len(),
    {
        let x = rest.remove(0);
        proof {
            assert(x == e0[i as int]);
            assert(rest@ =~= e0.subrange(i + 1, n as int));
            assert(e0.subrange(0, i + 1).drop_last() =~= e0.subrange(0, i as int));
        }
        let ghost s0 = out@;
        let xs = entry_rating_score(&x);
        let mut p: usize = out.len();
        assert(s0.subrange(0, p as int) =~= s0);
        assert(s0.subrange(p as int, s0.len() as int) =~= Seq::<IndexedEntry>::empty());
        while p > 0 && entry_rating_score(&out[p - 1]) < xs
            invariant
                p <= out@.len(),
                s0 == out@,
                xs == rating_score(x),
                insert_by_rating(s0, x) == insert_by_rating(s0.subrange(0, p as int), x) + s0.subrange(
                    p as int,
                    s0.len() as int,
                ),
            decreases p,
        {
            proof {
                let pre = s0.subrange(0, p as int);
                assert(pre.drop_last() =~= s0.subrange(0, p - 1));
                assert(pre.last() == s0[p - 1]);
                assert(s0.subrange(p - 1, s0.len() as int) =~= seq![s0[p - 1]] + s0.subrange(p as int, s0.len() as int));
                assert(insert_by_rating(s0.subrange(0, p - 1), x).push(s0[p - 1]) + s0.subrange(p as int, s0.len() as int)
                    =~= insert_by_rating(s0.subrange(0, p - 1), x) + s0.subrange(p - 1, s0.len() as int));
            }
            p -= 1;
        }
        out.insert(p, x);
        proof {
            let pre = s0.subrange(0, p as int);
            if p > 0 {
                assert(pre.last() == s0[p - 1]);
            }
            assert(insert_by_rating(pre, x) =~= pre.push(x));
            assert(out@ =~= s0.insert(p as int, x));
            assert(s0.insert(p as int, x) =~= pre.push(x) + s0.subrange(p as int, s0.len() as int));
        }
        i += 1;
    }
    assert(e0.subrange(0, n as int) =~= e0);
    proof {
        lemma_rating_sorted_ordered(e0);
    }
    out
}

/// The search index: it answers queries with matching places.
pub trait EntryIndex {
    fn query_entries(&self, query: &EntryIndexQuery, limit: usize) -> Result<Vec<IndexedEntry>, Error>;
}

/// Searches the index: without text and tags it asks for the visible box
/// with a margin, else for the whole map; the answer is ordered by
/// descending average rating and split into the entries inside the visible
/// box and at most `MAX_INVISIBLE_RESULTS` outside it.
pub fn search<I: EntryIndex>(index: &I, req: SearchRequest, limit: Option<usize>) -> (r: Result<(Vec<IndexedEntry>, Vec<IndexedEntry>), Error>)
    requires
        req.bbox.valid(),
    ensures
        r is Ok ==> exists|es: Seq<IndexedEntry>|
            #[trigger] is_split_of(rating_sorted(es), req.bbox, r->Ok_0.0@, r->Ok_0.1@),
{
    let visible_bbox = req.bbox;
    let query = search_query(req);
    let max = match limit {
        Some(l) => l,
        None => usize::MAX,
    };
    let entries = match index.query_entries(&query, max) {
        Ok(es) => es,
        Err(e) => {
            return Err(e);
        },
    };
    let ghost es = entries@;
    let sorted = sort_by_avg_rating(entries);
    let res = split_search_results(sorted, &visible_bbox);
    let out: Result<(Vec<IndexedEntry>, Vec<IndexedEntry>), Error> = Ok(res);
    assert(is_split_of(rating_sorted(es), req.bbox, out->Ok_0.0@, out->Ok_0.1@));
    out
}

} // verus!
