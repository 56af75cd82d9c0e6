//! Detection of places that are probably the same: close together and with a
//! similar title.
use vstd::prelude::*;
use crate::entities::{Place, ReviewStatus};
use crate::geo::Distance;
use crate::text::{chars_eq, chars_of, seq_lt, str_lt, token_views, tokenize, tokens};

verus! {

/// Why two places are taken to be duplicates.
#[derive(Clone, Copy, Debug, PartialEq, Eq, Structural)]
pub enum DuplicateType {
    SimilarChars,
    SimilarWords,
}

/// Places further apart than this are never duplicates (100 m).
pub const DUPLICATE_MAX_DISTANCE_MM: u64 = 100_000;

pub open spec fn min3_spec(a: int, b: int, c: int) -> int {
    if a <= b {
        if a <= c { a } else { c }
    } else {
        if b <= c { b } else { c }
    }
}

/// The Levenshtein distance: the least number of single-character
/// insertions, deletions and substitutions that turn `s` into `t`.
pub open spec fn lev(s: Seq<char>, t: Seq<char>) -> nat
    decreases s.len() + t.len(),
{
    if s.len() == 0 {
        t.len()
    } else if t.len() == 0 {
        s.len()
    } else {
        let cost: int = if s.last() == t.last() { 0 } else { 1 };
        min3_spec(
            lev(s.drop_last(), t) + 1int,
            lev(s, t.drop_last()) + 1int,
            lev(s.drop_last(), t.drop_last()) + cost,
        ) as nat
    }
}

pub proof fn lemma_lev_bound(s: Seq<char>, t: Seq<char>)
    ensures
        lev(s, t) <= s.len() || lev(s, t) <= t.len(),
        lev(s, t) <= if s.len() >= t.len() { s.len() } else { t.len() },
    decreases s.len() + t.len(),
{
    if s.len() > 0 && t.len() > 0 {
        lemma_lev_bound(s.drop_last(), t.drop_last());
    }
}

/// The number of words of `long` that do not occur in `short`, counted with
/// their repetitions.
pub open spec fn missing_words(short: Seq<Seq<char>>, long: Seq<Seq<char>>) -> nat
    decreases long.len(),
{
    if long.len() == 0 {
        0
    } else {
        missing_words(short, long.drop_last()) + if short.contains(long.last()) {
            0nat
        } else {
            1nat
        }
    }
}

/// All but `k` words are shared: the words of the title with fewer words are
/// taken as a set, and at most `k` words of the other title are missing from
/// it. Two titles of one word each never qualify.
pub open spec fn words_equal_except_k(s1: Seq<char>, s2: Seq<char>, k: nat) -> bool {
    let w1 = tokens(s1);
    let w2 = tokens(s2);
    if w1.len() == 1 && w2.len() == 1 {
        false
    } else if w1.len() <= w2.len() {
        missing_words(w1, w2) <= k
    } else {
        missing_words(w2, w1) <= k
    }
}

/// `⌈n · percent / 100⌉ + 1`: the largest edit distance that still counts as
/// similar for titles whose shorter one has `n` characters.
pub open spec fn max_char_distance(n: nat, percent: nat) -> nat {
    ((n * percent + 99) / 100 + 1) as nat
}

pub open spec fn min_nat(a: nat, b: nat) -> nat {
    if a <= b { a } else { b }
}

/// The edit distance of the titles is within `percent` of the shorter one
/// (see `max_char_distance`).
pub open spec fn similar_chars_spec(t1: Seq<char>, t2: Seq<char>, percent: nat) -> bool {
    lev(t1, t2) <= max_char_distance(min_nat(t1.len(), t2.len()), percent)
}

pub open spec fn similar_title_spec(t1: Seq<char>, t2: Seq<char>, percent: nat, k: nat) -> bool {
    similar_chars_spec(t1, t2, percent) || words_equal_except_k(t1, t2, k)
}

pub open spec fn in_close_proximity_spec(dist: Option<Distance>, max_dist: Distance) -> bool {
    dist matches Some(d) && d.millimeters <= max_dist.millimeters
}

/// Duplicate classification of two titles at a given distance; a missing
/// distance means that one of the places has no coordinates.
pub open spec fn duplicate_type(t1: Seq<char>, t2: Seq<char>, dist: Option<Distance>) -> Option<
    DuplicateType,
> {
    let close = in_close_proximity_spec(dist, Distance { millimeters: DUPLICATE_MAX_DISTANCE_MM });
    if close && similar_chars_spec(t1, t2, 30) {
        Some(DuplicateType::SimilarChars)
    } else if close && similar_title_spec(t1, t2, 0, 2) {
        Some(DuplicateType::SimilarWords)
    } else {
        None
    }
}

pub fn min3(s: usize, t: usize, u: usize) -> (r: usize)
    ensures
        r == min3_spec(s as int, t as int, u as int),
{
    if s <= t {
        if s <= u { s } else { u }
    } else {
        if t <= u { t } else { u }
    }
}

fn min3_wide(s: u128, t: u128, u: u128) -> (r: u128)
    ensures
        r == min3_spec(s as int, t as int, u as int),
{
    if s <= t {
        if s <= u { s } else { u }
    } else {
        if t <= u { t } else { u }
    }
}

/// The Levenshtein distance of two strings, counted in characters.
pub fn levenshtein_distance(s: &str, t: &str) -> (r: usize)
    ensures
        r == lev(s@, t@),
{
    let sc = chars_of(s);
    let tc = chars_of(t);
    let n = sc.len();
    let m = tc.len();
    let mut prev: Vec<u128> = Vec::new();
    proof {
        assert(tc@.subrange(0, 0).len() == 0);
    }
    prev.push(0);
    let mut j: usize = 0;
    while j < m
        invariant
            m == tc@.len(),
            j <= m,
            prev@.len() == j + 1,
            forall|k: int|
                0 <= k <= j ==> prev@[k] == lev(sc@.subrange(0, 0), tc@.subrange(0, k)),
        decreases m - j,
    {
        proof {
            assert(tc@.subrange(0, j + 1).len() == j + 1);
        }
        j += 1;
        prev.push(j as u128);
    }
    let mut i: usize = 0;
    while i < n
        invariant
            n == sc@.len(),
            m == tc@.len(),
            i <= n,
            prev@.len() == m + 1,
            forall|k: int| 0 <= k <= m ==> prev@[k] == lev(sc@.subrange(0, i as int), tc@.subrange(0, k)),
        decreases n - i,
    {
        let ghost si = sc@.subrange(0, i + 1);
        assert(si.drop_last() =~= sc@.subrange(0, i as int));
        let mut cur: Vec<u128> = Vec::new();
        proof {
            assert(tc@.subrange(0, 0).len() == 0);
        }
        cur.push(i as u128 + 1);
        let mut j: usize = 0;
        while j < m
            invariant
                n == sc@.len(),
                m == tc@.len(),
                i < n,
                j <= m,
                si == sc@.subrange(0, i + 1),
                si.drop_last() == sc@.subrange(0, i as int),
                prev@.len() == m + 1,
                cur@.len() == j + 1,
                forall|k: int|
                    0 <= k <= m ==> prev@[k] == lev(sc@.subrange(0, i as int), tc@.subrange(0, k)),
                forall|k: int| 0 <= k <= j ==> cur@[k] == lev(si, tc@.subrange(0, k)),
            decreases m - j,
        {
            let ghost tj = tc@.subrange(0, j + 1);
            assert(tj.drop_last() =~= tc@.subrange(0, j as int));
            proof {
                lemma_lev_bound(sc@.subrange(0, i as int), tj);
                lemma_lev_bound(si, tc@.subrange(0, j as int));
                lemma_lev_bound(sc@.subrange(0, i as int), tc@.subrange(0, j as int));
            }
            let cost: u128 = if sc[i] == tc[j] {
                0
            } else {
                1
            };
            let v = min3_wide(prev[j + 1] + 1, cur[j] + 1, prev[j] + cost);
            cur.push(v);
            j += 1;
        }
        prev = cur;
        i += 1;
    }
    assert(sc@.subrange(0, n as int) =~= sc@);
    assert(tc@.subrange(0, m as int) =~= tc@);
    proof {
        lemma_lev_bound(sc@, tc@);
    }
    prev[m] as usize
}

/// Whether the Levenshtein distance of `s` and `t` is at most `max_dist`.
pub fn levenshtein_distance_small(s: &str, t: &str, max_dist: usize) -> (r: bool)
    ensures
        r == (lev(s@, t@) <= max_dist),
{
    levenshtein_distance(s, t) <= max_dist
}

fn contains_word(words: &Vec<Vec<char>>, w: &Vec<char>) -> (r: bool)
    ensures
        r == token_views(words@).contains(w@),
{
    let mut i: usize = 0;
    while i < words.len()
        invariant
            i <= words.len(),
            forall|k: int| 0 <= k < i ==> words@[k]@ != w@,
        decreases words.len() - i,
    {
        if chars_eq(&words[i], w) {
            assert(token_views(words@)[i as int] == w@);
            return true;
        }
        i += 1;
    }
    assert forall|k: int| 0 <= k < token_views(words@).len() implies token_views(words@)[k]
        != w@ by {
        assert(token_views(words@)[k] == words@[k]@);
    }
    false
}

fn count_missing(short: &Vec<Vec<char>>, long: &Vec<Vec<char>>) -> (r: u64)
    ensures
        r == missing_words(token_views(short@), token_views(long@)),
{
    let mut diff: u64 = 0;
    let mut i: usize = 0;
    while i < long.len()
        invariant
            i <= long.len(),
            diff <= i,
            diff == missing_words(token_views(short@), token_views(long@).subrange(0, i as int)),
        decreases long.len() - i,
    {
        let ghost lv = token_views(long@);
        assert(lv.subrange(0, i + 1).drop_last() =~= lv.subrange(0, i as int));
        assert(lv.subrange(0, i + 1).last() == long@[i as int]@);
        if !contains_word(short, &long[i]) {
            diff += 1;
        }
        i += 1;
    }
    assert(token_views(long@).subrange(0, long@.len() as int) =~= token_views(long@));
    diff
}

/// Whether all but `k` words of the two strings are equal (see
/// `words_equal_except_k`).
pub fn words_equal_except_k_words(str1: &str, str2: &str, k: u32) -> (r: bool)
    ensures
        r == words_equal_except_k(str1@, str2@, k as nat),
{
    let w1 = tokenize(&chars_of(str1));
    let w2 = tokenize(&chars_of(str2));
    let len1 = w1.len();
    let len2 = w2.len();
    assert(token_views(w1@).len() == len1);
    assert(token_views(w2@).len() == len2);
    if len1 == 1 && len2 == 1 {
        return false;
    }
    let diff = if len1 <= len2 {
        count_missing(&w1, &w2)
    } else {
        count_missing(&w2, &w1)
    };
    diff <= k as u64
}

/// Whether two titles are similar: either their edit distance is at most
/// `⌈min(len1, len2) · percent / 100⌉ + 1`, or all but `max_words_different`
/// of their words are equal.
pub fn similar_title(title1: &str, title2: &str, max_percent_different: u32, max_words_different: u32) -> (r: bool)
    ensures
        r == similar_title_spec(title1@, title2@, max_percent_different as nat, max_words_different as nat),
{
    similar_chars(title1, title2, max_percent_different)
        || words_equal_except_k_words(title1, title2, max_words_different)
}

/// Whether the edit distance of two titles is at most
/// `⌈min(len1, len2) · percent / 100⌉ + 1`.
pub fn similar_chars(title1: &str, title2: &str, max_percent_different: u32) -> (r: bool)
    ensures
        r == similar_chars_spec(title1@, title2@, max_percent_different as nat),
{
    let l1 = title1.unicode_len() as u128;
    let l2 = title2.unicode_len() as u128;
    let n = if l1 <= l2 { l1 } else { l2 };
    proof {
        assert(n * max_percent_different <= 0xffff_ffff_ffff_ffff * 0xffff_ffff) by (nonlinear_arith)
            requires n <= 0xffff_ffff_ffff_ffff, max_percent_different <= 0xffff_ffff;
    }
    let max_dist: u128 = (n * max_percent_different as u128 + 99) / 100 + 1;
    (levenshtein_distance(title1, title2) as u128) <= max_dist
}

/// Whether the distance is known and at most `max_dist`.
pub fn in_close_proximity(dist: Option<Distance>, max_dist: Distance) -> (r: bool)
    ensures
        r == in_close_proximity_spec(dist, max_dist),
{
    match dist {
        Some(d) => d.millimeters <= max_dist.millimeters,
        None => false,
    }
}

/// Classifies two places as duplicates, given the distance between them.
pub fn is_duplicate(e1: &Place, e2: &Place, dist: Option<Distance>) -> (r: Option<DuplicateType>)
    ensures
        r == duplicate_type(e1.title@, e2.title@, dist),
{
    let max = Distance { millimeters: DUPLICATE_MAX_DISTANCE_MM };
    if similar_chars(&e1.title, &e2.title, 30) && in_close_proximity(dist, max) {
        Some(DuplicateType::SimilarChars)
    } else if similar_title(&e1.title, &e2.title, 0, 2) && in_close_proximity(dist, max) {
        Some(DuplicateType::SimilarWords)
    } else {
        None
    }
}

/// The duplicates of `p` among the first `n` candidates, in order, as
/// (candidate id, reason).
pub open spec fn duplicates_of(
    p: Place,
    others: Seq<(Place, ReviewStatus)>,
    dists: Seq<Option<Distance>>,
    n: int,
) -> Seq<(Seq<char>, DuplicateType)>
    decreases n,
{
    if n <= 0 {
        Seq::empty()
    } else {
        let prev = duplicates_of(p, others, dists, n - 1);
        match duplicate_type(p.title@, others[n - 1].0.title@, dists[n - 1]) {
            Some(t) => prev.push((others[n - 1].0.id@, t)),
            None => prev,
        }
    }
}

/// The duplicate pairs `(p.id, q.id, reason)` of `p` with the first `n`
/// candidates `q` whose id is greater than that of `p`.
pub open spec fn ordered_duplicates_of(
    p: Place,
    others: Seq<(Place, ReviewStatus)>,
    dists: Seq<Option<Distance>>,
    n: int,
) -> Seq<(Seq<char>, Seq<char>, DuplicateType)>
    decreases n,
{
    if n <= 0 {
        Seq::empty()
    } else {
        let prev = ordered_duplicates_of(p, others, dists, n - 1);
        let q = others[n - 1].0;
        if seq_lt(p.id@, q.id@) {
            match duplicate_type(p.title@, q.title@, dists[n - 1]) {
                Some(t) => prev.push((p.id@, q.id@, t)),
                None => prev,
            }
        } else {
            prev
        }
    }
}

/// The duplicate pairs of the first `n` places with all candidates, row by
/// row; `dists[i][j]` is the distance between place `i` and candidate `j`.
pub open spec fn all_duplicates(
    places: Seq<(Place, ReviewStatus)>,
    others: Seq<(Place, ReviewStatus)>,
    dists: Seq<Seq<Option<Distance>>>,
    n: int,
) -> Seq<(Seq<char>, Seq<char>, DuplicateType)>
    decreases n,
{
    if n <= 0 {
        Seq::empty()
    } else {
        all_duplicates(places, others, dists, n - 1) + ordered_duplicates_of(
            places[n - 1].0,
            others,
            dists[n - 1],
            others.len() as int,
        )
    }
}

pub open spec fn pair_views(v: Seq<(String, DuplicateType)>) -> Seq<(Seq<char>, DuplicateType)> {
    v.map_values(|x: (String, DuplicateType)| (x.0@, x.1))
}

pub open spec fn triple_views(v: Seq<(String, String, DuplicateType)>) -> Seq<
    (Seq<char>, Seq<char>, DuplicateType),
> {
    v.map_values(|x: (String, String, DuplicateType)| (x.0@, x.1@, x.2))
}

pub open spec fn row_views(d: Seq<Vec<Option<Distance>>>) -> Seq<Seq<Option<Distance>>> {
    d.map_values(|r: Vec<Option<Distance>>| r@)
}

/// Finds the candidates that duplicate `new_place`; `distances[i]` is the
/// distance from `new_place` to the `i`-th candidate.
pub fn find_duplicate_places(
    new_place: &Place,
    possible_duplicate_places: &[(Place, ReviewStatus)],
    distances: &[Option<Distance>],
) -> (r: Vec<(String, DuplicateType)>)
    requires
        distances@.len() == possible_duplicate_places@.len(),
    ensures
        pair_views(r@) == duplicates_of(
            *new_place,
            possible_duplicate_places@,
            distances@,
            possible_duplicate_places@.len() as int,
        ),
{
    let mut duplicates: Vec<(String, DuplicateType)> = Vec::new();
    let mut i: usize = 0;
    while i < possible_duplicate_places.len()
        invariant
            i <= possible_duplicate_places@.len(),
            distances@.len() == possible_duplicate_places@.len(),
            pair_views(duplicates@) == duplicates_of(
                *new_place,
                possible_duplicate_places@,
                distances@,
                i as int,
            ),
        decreases possible_duplicate_places@.len() - i,
    {
        let p = &possible_duplicate_places[i].0;
        if let Some(t) = is_duplicate(new_place, p, distances[i]) {
            let ghost before = pair_views(duplicates@);
            let id = p.id.clone();
            duplicates.push((id, t));
            assert(pair_views(duplicates@) =~= before.push((p.id@, t)));
        }
        i += 1;
    }
    duplicates
}

/// Finds all pairs of duplicates between `places` and the candidates, each
/// pair once with the smaller id first; `distances[i][j]` is the distance
/// between the `i`-th place and the `j`-th candidate.
pub fn find_duplicates(
    places: &[(Place, ReviewStatus)],
    possible_duplicate_places: &[(Place, ReviewStatus)],
    distances: &Vec<Vec<Option<Distance>>>,
) -> (r: Vec<(String, String, DuplicateType)>)
    requires
        distances@.len() == places@.len(),
        forall|i: int|
            0 <= i < distances@.len() ==> #[trigger] distances@[i]@.len()
                == possible_duplicate_places@.len(),
    ensures
        triple_views(r@) == all_duplicates(
            places@,
            possible_duplicate_places@,
            row_views(distances@),
            places@.len() as int,
        ),
{
    let ghost dv = row_views(distances@);
    let mut duplicates: Vec<(String, String, DuplicateType)> = Vec::new();
    let mut i: usize = 0;
    while i < places.len()
        invariant
            i <= places@.len(),
            dv == row_views(distances@),
            distances@.len() == places@.len(),
            forall|i: int|
                0 <= i < distances@.len() ==> #[trigger] distances@[i]@.len()
                    == possible_duplicate_places@.len(),
            triple_views(duplicates@) == all_duplicates(
                places@,
                possible_duplicate_places@,
                dv,
                i as int,
            ),
        decreases places@.len() - i,
    {
        let p1 = &places[i].0;
        let row = &distances[i];
        assert(dv[i as int] == row@);
        let ghost base = triple_views(duplicates@);
        let mut j: usize = 0;
        while j < possible_duplicate_places.len()
            invariant
                i < places@.len(),
                j <= possible_duplicate_places@.len(),
                row@.len() == possible_duplicate_places@.len(),
                *p1 == places@[i as int].0,
                triple_views(duplicates@) == base + ordered_duplicates_of(
                    *p1,
                    possible_duplicate_places@,
                    row@,
                    j as int,
                ),
            decreases possible_duplicate_places@.len() - j,
        {
            let p2 = &possible_duplicate_places[j].0;
            if str_lt(&p1.id, &p2.id) {
                if let Some(t) = is_duplicate(p1, p2, row[j]) {
                    let ghost before = triple_views(duplicates@);
                    let a = p1.id.clone();
                    let b = p2.id.clone();
                    duplicates.push((a, b, t));
                    assert(triple_views(duplicates@) =~= before.push((p1.id@, p2.id@, t)));
                }
            }
            j += 1;
        }
        i += 1;
    }
    duplicates
}

} // verus!
