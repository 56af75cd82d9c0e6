//! How often tags occur on visible places, most frequent first.
use vstd::prelude::*;
use crate::entities::ReviewStatus;
use crate::places::{PlaceRecord, PlaceRepo, places_wf};
use crate::tags::{str_views, strictly_sorted, tags_normalized};
use crate::text::{lemma_seq_lt_irreflexive, lemma_seq_lt_total, lemma_seq_lt_transitive, seq_lt, str_eq, str_lt};

verus! {

/// A place counts when its current revision is visible: its status is at
/// least `Created`.
pub open spec fn counted(rec: PlaceRecord) -> bool {
    rec.current().status.value() >= 0
}

/// On how many of the first `n` places that count the tag occurs.
pub open spec fn tag_count(places: Seq<PlaceRecord>, t: Seq<char>, n: int) -> nat
    decreases n,
{
    if n <= 0 {
        0
    } else {
        tag_count(places, t, n - 1) + if counted(places[n - 1]) && str_views(
            places[n - 1].current().place.tags@,
        ).contains(t) {
            1nat
        } else {
            0nat
        }
    }
}

pub proof fn lemma_tag_count_bound(places: Seq<PlaceRecord>, t: Seq<char>, n: int)
    ensures
        tag_count(places, t, n) <= if n < 0 { 0 } else { n },
    decreases n,
{
    if n > 0 {
        lemma_tag_count_bound(places, t, n - 1);
    }
}

/// A tag with its number of places.
#[derive(Clone, Debug, PartialEq, Eq)]
pub struct TagFrequency {
    pub tag: String,
    pub count: usize,
}

/// `a` ranks before `b`: more frequent, or as frequent and alphabetically
/// first.
pub open spec fn ranks_before(a: TagFrequency, b: TagFrequency) -> bool {
    a.count > b.count || (a.count == b.count && seq_lt(a.tag@, b.tag@))
}

pub open spec fn in_range(c: nat, min_count: Option<usize>, max_count: Option<usize>) -> bool {
    (min_count matches Some(m) ==> c >= m) && (max_count matches Some(m) ==> c <= m)
}

/// `r` lists every tag of the counted places whose count lies in the range,
/// once, with its count, in ranking order.
pub open spec fn is_tag_ranking(
    r: Seq<TagFrequency>,
    places: Seq<PlaceRecord>,
    min_count: Option<usize>,
    max_count: Option<usize>,
) -> bool {
    &&& forall|i: int, j: int| 0 <= i < j < r.len() ==> ranks_before(#[trigger] r[i], #[trigger] r[j])
    &&& forall|i: int|
        0 <= i < r.len() ==> (#[trigger] r[i]).count == tag_count(places, r[i].tag@, places.len() as int)
    &&& forall|t: Seq<char>|
        (tag_count(places, t, places.len() as int) > 0 && in_range(
            tag_count(places, t, places.len() as int),
            min_count,
            max_count,
        )) <==> exists|i: int| 0 <= i < r.len() && (#[trigger] r[i]).tag@ == t
}

/// The page `offset..offset+limit` of `s`.
pub open spec fn page<T>(s: Seq<T>, offset: usize, limit: Option<usize>) -> Seq<T> {
    let start = if offset as int <= s.len() { offset as int } else { s.len() as int };
    let end = match limit {
        None => s.len() as int,
        Some(l) => if start + l <= s.len() { start + l } else { s.len() as int },
    };
    s.subrange(start, end)
}

fn status_counts(s: ReviewStatus) -> (r: bool)
    ensures
        r == (s.value() >= 0),
{
    s.is_visible()
}

/// The counts of every tag that occurs on a counted place, once each.
fn count_tags(repo: &PlaceRepo) -> (r: Vec<TagFrequency>)
    requires
        repo.wf(),
    ensures
        forall|a: int, b: int|
            0 <= a < r@.len() && 0 <= b < r@.len() && a != b ==> (#[trigger] r@[a]).tag@ != (
            #[trigger] r@[b]).tag@,
        forall|k: int|
            0 <= k < r@.len() ==> (#[trigger] r@[k]).count == tag_count(
                repo.places@,
                r@[k].tag@,
                repo.places@.len() as int,
            ) && r@[k].count > 0,
        forall|t: Seq<char>|
            tag_count(repo.places@, t, repo.places@.len() as int) > 0 ==> exists|k: int|
                0 <= k < r@.len() && (#[trigger] r@[k]).tag@ == t,
{
    let places = &repo.places;
    let n = places.len();
    let mut counts: Vec<TagFrequency> = Vec::new();
    let mut i: usize = 0;
    while i < places.len()
        invariant
            places_wf(places@),
            n == places@.len(),
            i <= places@.len(),
            forall|a: int, b: int|
                0 <= a < counts@.len() && 0 <= b < counts@.len() && a != b ==> (
                #[trigger] counts@[a]).tag@ != (#[trigger] counts@[b]).tag@,
            forall|k: int|
                0 <= k < counts@.len() ==> (#[trigger] counts@[k]).count == tag_count(
                    places@,
                    counts@[k].tag@,
                    i as int,
                ) && counts@[k].count > 0 && counts@[k].count <= i,
            forall|t: Seq<char>|
                tag_count(places@, t, i as int) > 0 ==> exists|k: int|
                    0 <= k < counts@.len() && (#[trigger] counts@[k]).tag@ == t,
        decreases places@.len() - i,
    {
        let rec = &places[i];
        assert(rec.wf());
        let last = rec.revisions.len() - 1;
        assert(rec.revisions@[last as int].wf(last + 1, rec.id()));
        let cur = &rec.revisions[last];
        if status_counts(cur.status) {
            let tags = &cur.place.tags;
            let ghost tv = str_views(tags@);
            assert(tags_normalized(tv));
            let mut j: usize = 0;
            while j < tags.len()
                invariant
                    places_wf(places@),
                    n == places@.len(),
                    i < places@.len(),
                    *tags == places@[i as int].current().place.tags,
                    counted(places@[i as int]),
                    tv == str_views(tags@),
                    strictly_sorted(tv),
                    j <= tags@.len(),
                    forall|a: int, b: int|
                        0 <= a < counts@.len() && 0 <= b < counts@.len() && a != b ==> (
                        #[trigger] counts@[a]).tag@ != (#[trigger] counts@[b]).tag@,
                    forall|k: int|
                        0 <= k < counts@.len() ==> (#[trigger] counts@[k]).count == tag_count(
                            places@,
                            counts@[k].tag@,
                            i as int,
                        ) + if tv.subrange(0, j as int).contains(counts@[k].tag@) {
                            1nat
                        } else {
                            0nat
                        } && counts@[k].count > 0 && counts@[k].count <= i + 1,
                    forall|t: Seq<char>|
                        (tag_count(places@, t, i as int) > 0 || tv.subrange(0, j as int).contains(t))
                            ==> exists|k: int| 0 <= k < counts@.len() && (#[trigger] counts@[k]).tag@ == t,
                decreases tags@.len() - j,
            {
                let t = tags[j].as_str();
                let ghost pre = tv.subrange(0, j as int);
                let ghost pre1 = tv.subrange(0, j + 1);
                assert(pre1 =~= pre.push(t@));
                proof {
                    assert(!pre.contains(t@)) by {
                        if pre.contains(t@) {
                            let a = choose|a: int| 0 <= a < pre.len() && pre[a] == t@;
                            assert(seq_lt(tv[a], tv[j as int]));
                            lemma_seq_lt_irreflexive(t@);
                        }
                    }
                }
                let mut k: usize = 0;
                let mut found: Option<usize> = None;
                while k < counts.len()
                    invariant
                        k <= counts@.len(),
                        found matches Some(f) ==> f < counts@.len() && counts@[f as int].tag@ == t@,
                        found is None ==> forall|m: int| 0 <= m < k ==> (#[trigger] counts@[m]).tag@ != t@,
                    decreases counts@.len() - k,
                {
                    if found.is_none() && str_eq(counts[k].tag.as_str(), t) {
                        found = Some(k);
                    }
                    k += 1;
                }
                let ghost c0 = counts@;
                proof {
                    lemma_tag_count_bound(places@, t@, i as int);
                    if found is None {
                        assert forall|x: int| 0 <= x < c0.len() implies (#[trigger] c0[x]).tag@ != t@ by {}
                    }
                }
                match found {
                    Some(f) => {
                        let old_count = counts[f].count;
                        assert(old_count == tag_count(places@, t@, i as int));
                        assert(old_count <= i);
                        assert(i < places@.len());
                        let tag = counts[f].tag.clone();
                        counts.set(f, TagFrequency { tag, count: old_count + 1 });
                    },
                    None => {
                        counts.push(TagFrequency { tag: t.to_owned(), count: 1 });
                    },
                }
                proof {
                    assert forall|m: int| 0 <= m < counts@.len() implies (#[trigger] counts@[m]).count
                        == tag_count(places@, counts@[m].tag@, i as int) + if pre1.contains(
                        counts@[m].tag@,
                    ) {
                        1nat
                    } else {
                        0nat
                    } && counts@[m].count > 0 && counts@[m].count <= i + 1 by {
                        crate::tags::lemma_contains_push(pre, t@, counts@[m].tag@);
                        lemma_tag_count_bound(places@, counts@[m].tag@, i as int);
                        if found is Some && m == found->0 {
                        } else if m < c0.len() {
                            assert(counts@[m] == c0[m]);
                            if found is Some {
                                assert(c0[found->0 as int].tag@ == t@);
                            }
                            assert(c0[m].tag@ != t@);
                        } else {
                            assert(counts@[m].tag@ == t@);
                            if tag_count(places@, t@, i as int) > 0 {
                                let x = choose|x: int| 0 <= x < c0.len() && (#[trigger] c0[x]).tag@ == t@;
                                assert(c0[x].tag@ != t@);
                            }
                        }
                    }
                    assert forall|a: int, b: int|
                        0 <= a < counts@.len() && 0 <= b < counts@.len() && a != b implies (
                        #[trigger] counts@[a]).tag@ != (#[trigger] counts@[b]).tag@ by {
                        if a < c0.len() && b < c0.len() {
                            if counts@[a].tag@ != c0[a].tag@ || counts@[b].tag@ != c0[b].tag@ {
                            }
                        }
                    }
                    assert forall|x: Seq<char>|
                        (tag_count(places@, x, i as int) > 0 || tv.subrange(0, j + 1).contains(x)) implies exists|m: int|
                        0 <= m < counts@.len() && (#[trigger] counts@[m]).tag@ == x by {
                        crate::tags::lemma_contains_push(pre, t@, x);
                        if x == t@ {
                            if found is Some {
                                assert(c0[found->0 as int].tag@ == t@);
                                assert(counts@[found->0 as int].tag@ == x);
                            } else {
                                assert(counts@[c0.len() as int].tag@ == x);
                            }
                        } else {
                            let m = choose|m: int| 0 <= m < c0.len() && (#[trigger] c0[m]).tag@ == x;
                            if found is Some && m == found->0 {
                                assert(counts@[m].tag@ == c0[m].tag@);
                            } else {
                                assert(counts@[m] == c0[m]);
                            }
                            assert(counts@[m].tag@ == x);
                        }
                    }
                }
                j += 1;
            }
            proof {
                assert(tv.subrange(0, tags@.len() as int) =~= tv);
            }
        }
        proof {
            assert forall|x: Seq<char>|
                #![trigger tag_count(places@, x, i + 1)]
                tag_count(places@, x, i + 1) == tag_count(places@, x, i as int) + if counted(places@[i as int])
                    && str_views(places@[i as int].current().place.tags@).contains(x) {
                    1nat
                } else {
                    0nat
                } by {}
        }
        i += 1;
    }
    counts
}

pub proof fn lemma_ranks_transitive(a: TagFrequency, b: TagFrequency, c: TagFrequency)
    requires
        ranks_before(a, b),
        ranks_before(b, c),
    ensures
        ranks_before(a, c),
{
    if a.count == b.count && b.count == c.count {
        lemma_seq_lt_transitive(a.tag@, b.tag@, c.tag@);
    }
}

pub proof fn lemma_ranks_total(a: TagFrequency, b: TagFrequency)
    requires
        a.tag@ != b.tag@,
    ensures
        ranks_before(a, b) || ranks_before(b, a),
{
    lemma_seq_lt_total(a.tag@, b.tag@);
}

pub open spec fn ranked(s: Seq<TagFrequency>) -> bool {
    forall|i: int, j: int| 0 <= i < j < s.len() ==> ranks_before(#[trigger] s[i], #[trigger] s[j])
}

fn ranks_before_exec(a: &TagFrequency, b: &TagFrequency) -> (r: bool)
    ensures
        r == ranks_before(*a, *b),
{
    a.count > b.count || (a.count == b.count && str_lt(a.tag.as_str(), b.tag.as_str()))
}

/// Inserts `x`, whose tag is not listed yet, at its place in the ranking.
fn insert_ranked(out: &mut Vec<TagFrequency>, x: TagFrequency)
    requires
        ranked(old(out)@),
        forall|k: int| 0 <= k < old(out)@.len() ==> (#[trigger] old(out)@[k]).tag@ != x.tag@,
    ensures
        ranked(final(out)@),
        forall|e: TagFrequency| final(out)@.contains(e) <==> (old(out)@.contains(e) || e == x),
{
    let ghost v0 = out@;
    let mut i: usize = 0;
    while i < out.len() && ranks_before_exec(&out[i], &x)
        invariant
            i <= out@.len(),
            v0 == out@,
            forall|k: int| 0 <= k < i ==> ranks_before(#[trigger] v0[k], x),
        decreases out@.len() - i,
    {
        i += 1;
    }
    proof {
        if i < v0.len() {
            lemma_ranks_total(v0[i as int], x);
        }
    }
    out.insert(i, x);
    proof {
        let v1 = out@;
        assert(v1 =~= v0.insert(i as int, x));
        assert forall|a: int, b: int| 0 <= a < b < v1.len() implies ranks_before(
            #[trigger] v1[a],
            #[trigger] v1[b],
        ) by {
            if b == i {
            } else if a == i {
                if b > i + 1 {
                    lemma_ranks_transitive(x, v0[i as int], v0[b - 1]);
                }
            } else if a < i && b > i {
                if b > i + 1 {
                    lemma_ranks_transitive(v0[a], v0[i as int], v0[b - 1]);
                } else {
                    lemma_ranks_transitive(v0[a], x, v0[b - 1]);
                }
            }
        }
        assert forall|e: TagFrequency| v1.contains(e) <==> (v0.contains(e) || e == x) by {
            if v1.contains(e) {
                let k = choose|k: int| 0 <= k < v1.len() && v1[k] == e;
                if k < i {
                    assert(v0[k] == e);
                } else if k > i {
                    assert(v0[k - 1] == e);
                }
            }
            if v0.contains(e) {
                let k = choose|k: int| 0 <= k < v0.len() && v0[k] == e;
                if k < i {
                    assert(v1[k] == e);
                } else {
                    assert(v1[k + 1] == e);
                }
            }
            if e == x {
                assert(v1[i as int] == e);
            }
        }
    }
}

/// A ranking entry as a pair of plain values.
pub open spec fn freq_views(s: Seq<TagFrequency>) -> Seq<(Seq<char>, nat)> {
    s.map_values(|x: TagFrequency| (x.tag@, x.count as nat))
}

pub open spec fn view_ranks_before(a: (Seq<char>, nat), b: (Seq<char>, nat)) -> bool {
    a.1 > b.1 || (a.1 == b.1 && seq_lt(a.0, b.0))
}

pub open spec fn view_ranked(s: Seq<(Seq<char>, nat)>) -> bool {
    forall|i: int, j: int| 0 <= i < j < s.len() ==> view_ranks_before(#[trigger] s[i], #[trigger] s[j])
}

pub proof fn lemma_view_ranks_transitive(a: (Seq<char>, nat), b: (Seq<char>, nat), c: (Seq<char>, nat))
    requires
        view_ranks_before(a, b),
        view_ranks_before(b, c),
    ensures
        view_ranks_before(a, c),
{
    if a.1 == b.1 && b.1 == c.1 {
        lemma_seq_lt_transitive(a.0, b.0, c.0);
    }
}

/// Two rankings of the same tags are the same list.
pub proof fn lemma_tag_ranking_unique(
    a: Seq<TagFrequency>,
    b: Seq<TagFrequency>,
    places: Seq<PlaceRecord>,
    min_count: Option<usize>,
    max_count: Option<usize>,
)
    requires
        is_tag_ranking(a, places, min_count, max_count),
        is_tag_ranking(b, places, min_count, max_count),
    ensures
        freq_views(a) == freq_views(b),
{
    let n = places.len() as int;
    let va = freq_views(a);
    let vb = freq_views(b);
    assert forall|i: int, j: int| 0 <= i < j < va.len() implies view_ranks_before(#[trigger] va[i], #[trigger] va[j]) by {
        assert(ranks_before(a[i], a[j]));
    }
    assert forall|i: int, j: int| 0 <= i < j < vb.len() implies view_ranks_before(#[trigger] vb[i], #[trigger] vb[j]) by {
        assert(ranks_before(b[i], b[j]));
    }
    assert forall|e: (Seq<char>, nat)| va.contains(e) <==> vb.contains(e) by {
        if va.contains(e) {
            let i = choose|i: int| 0 <= i < va.len() && va[i] == e;
            assert(a[i].tag@ == e.0);
            assert(exists|i: int| 0 <= i < a.len() && (#[trigger] a[i]).tag@ == e.0);
            let j = choose|j: int| 0 <= j < b.len() && (#[trigger] b[j]).tag@ == e.0;
            assert(vb[j] == e);
        }
        if vb.contains(e) {
            let j = choose|j: int| 0 <= j < vb.len() && vb[j] == e;
            assert(b[j].tag@ == e.0);
            assert(exists|j: int| 0 <= j < b.len() && (#[trigger] b[j]).tag@ == e.0);
            let i = choose|i: int| 0 <= i < a.len() && (#[trigger] a[i]).tag@ == e.0;
            assert(va[i] == e);
        }
    }
    lemma_view_ranked_unique(va, vb);
}

pub proof fn lemma_view_ranked_unique(a: Seq<(Seq<char>, nat)>, b: Seq<(Seq<char>, nat)>)
    requires
        view_ranked(a),
        view_ranked(b),
        forall|e: (Seq<char>, nat)| a.contains(e) <==> b.contains(e),
    ensures
        a == b,
    decreases a.len(),
{
    if a.len() == 0 {
        if b.len() > 0 {
            assert(b.contains(b[0]));
        }
        assert(a =~= b);
    } else {
        assert(a.contains(a[0]));
        let j = choose|j: int| 0 <= j < b.len() && b[j] == a[0];
        assert(b.contains(b[0]));
        let i = choose|i: int| 0 <= i < a.len() && a[i] == b[0];
        if j > 0 {
            assert(view_ranks_before(b[0], b[j]));
            if i > 0 {
                assert(view_ranks_before(a[0], a[i]));
                lemma_view_ranks_transitive(a[0], b[0], a[0]);
            }
            lemma_seq_lt_irreflexive(a[0].0);
        }
        let a1 = a.drop_first();
        let b1 = b.drop_first();
        assert forall|e: (Seq<char>, nat)| a1.contains(e) <==> b1.contains(e) by {
            if a1.contains(e) {
                let k = choose|k: int| 0 <= k < a1.len() && a1[k] == e;
                assert(a[k + 1] == e);
                assert(view_ranks_before(a[0], a[k + 1]));
                lemma_seq_lt_irreflexive(e.0);
                assert(b.contains(e));
                let m = choose|m: int| 0 <= m < b.len() && b[m] == e;
                assert(m != 0);
                assert(b1[m - 1] == e);
            }
            if b1.contains(e) {
                let k = choose|k: int| 0 <= k < b1.len() && b1[k] == e;
                assert(b[k + 1] == e);
                assert(view_ranks_before(b[0], b[k + 1]));
                lemma_seq_lt_irreflexive(e.0);
                assert(a.contains(e));
                let m = choose|m: int| 0 <= m < a.len() && a[m] == e;
                assert(m != 0);
                assert(a1[m - 1] == e);
            }
        }
        lemma_view_ranked_unique(a1, b1);
        assert(a =~= seq![a[0]] + a1);
        assert(b =~= seq![b[0]] + b1);
    }
}

/// The tags of the visible places with how many places carry each, those
/// whose count lies within `min_count..=max_count`, most frequent first and
/// alphabetically among equals, from `offset` on and at most `limit` of them.
pub fn most_popular_place_revision_tags(
    repo: &PlaceRepo,
    min_count: Option<usize>,
    max_count: Option<usize>,
    offset: usize,
    limit: Option<usize>,
) -> (r: Vec<TagFrequency>)
    requires
        repo.wf(),
    ensures
        exists|full: Seq<TagFrequency>|
            #[trigger] is_tag_ranking(full, repo.places@, min_count, max_count) && r@ == page(
                full,
                offset,
                limit,
            ),
{
    let counts = count_tags(repo);
    let ghost places = repo.places@;
    let ghost n = places.len() as int;
    let mut out: Vec<TagFrequency> = Vec::new();
    let mut i: usize = 0;
    while i < counts.len()
        invariant
            i <= counts@.len(),
            places == repo.places@,
            n == places.len(),
            ranked(out@),
            forall|a: int, b: int|
                0 <= a < counts@.len() && 0 <= b < counts@.len() && a != b ==> (#[trigger] counts@[a]).tag@ != (
                #[trigger] counts@[b]).tag@,
            forall|k: int|
                0 <= k < counts@.len() ==> (#[trigger] counts@[k]).count == tag_count(places, counts@[k].tag@, n)
                    && counts@[k].count > 0,
            forall|e: TagFrequency|
                out@.contains(e) <==> exists|k: int|
                    0 <= k < i && #[trigger] counts@[k] == e && in_range(e.count as nat, min_count, max_count),
        decreases counts@.len() - i,
    {
        let c = &counts[i];
        let keep = match min_count {
            Some(m) => c.count >= m,
            None => true,
        } && match max_count {
            Some(m) => c.count <= m,
            None => true,
        };
        let ghost o0 = out@;
        if keep {
            let x = TagFrequency { tag: c.tag.clone(), count: c.count };
            assert(x == counts@[i as int]);
            proof {
                assert forall|k: int| 0 <= k < o0.len() implies (#[trigger] o0[k]).tag@ != x.tag@ by {
                    assert(o0.contains(o0[k]));
                    let kk = choose|kk: int|
                        0 <= kk < i && #[trigger] counts@[kk] == o0[k] && in_range(o0[k].count as nat, min_count, max_count);
                }
            }
            insert_ranked(&mut out, x);
        }
        proof {
            assert forall|e: TagFrequency|
                out@.contains(e) <==> exists|k: int|
                    0 <= k < i + 1 && #[trigger] counts@[k] == e && in_range(e.count as nat, min_count, max_count) by {
                if exists|k: int|
                    0 <= k < i + 1 && #[trigger] counts@[k] == e && in_range(e.count as nat, min_count, max_count) {
                    let k = choose|k: int|
                        0 <= k < i + 1 && #[trigger] counts@[k] == e && in_range(e.count as nat, min_count, max_count);
                    if k < i {
                        assert(o0.contains(e));
                    }
                }
            }
        }
        i += 1;
    }
    proof {
        let full = out@;
        assert forall|k: int| 0 <= k < full.len() implies (#[trigger] full[k]).count == tag_count(
            places,
            full[k].tag@,
            n,
        ) by {
            assert(full.contains(full[k]));
        }
        assert forall|t: Seq<char>|
            (tag_count(places, t, n) > 0 && in_range(tag_count(places, t, n), min_count, max_count))
                <==> exists|k: int| 0 <= k < full.len() && (#[trigger] full[k]).tag@ == t by {
            if tag_count(places, t, n) > 0 && in_range(tag_count(places, t, n), min_count, max_count) {
                let k = choose|k: int| 0 <= k < counts@.len() && (#[trigger] counts@[k]).tag@ == t;
                assert(full.contains(counts@[k]));
                let m = choose|m: int| 0 <= m < full.len() && full[m] == counts@[k];
                assert(full[m].tag@ == t);
            }
            if exists|k: int| 0 <= k < full.len() && (#[trigger] full[k]).tag@ == t {
                let k = choose|k: int| 0 <= k < full.len() && (#[trigger] full[k]).tag@ == t;
                assert(full.contains(full[k]));
            }
        }
        assert(is_tag_ranking(full, places, min_count, max_count));
    }
    let ghost full = out@;
    let len = out.len();
    let start = if offset <= len { offset } else { len };
    let mut tail = out.split_off(start);
    let rest = len - start;
    let keep = match limit {
        None => rest,
        Some(l) => if l <= rest { l } else { rest },
    };
    tail.truncate(keep);
    assert(tail@ =~= page(full, offset, limit));
    tail
}

} // verus!
