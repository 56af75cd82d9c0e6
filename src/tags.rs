//! Normalization of tag lists: trimmed, split on spaces, without `#`, sorted
//! and free of duplicates.
use vstd::prelude::*;
use crate::text::{
    lemma_seq_lt_irreflexive, lemma_seq_lt_total, lemma_seq_lt_transitive, seq_lt, str_eq, str_lt,
};

verus! {

/// The characters that `char::is_whitespace` accepts (Unicode `White_Space`).
pub open spec fn is_ws(c: char) -> bool {
    ('\t' <= c && c <= '\r') || c == ' ' || c == '\u{85}' || c == '\u{A0}' || c == '\u{1680}'
        || ('\u{2000}' <= c && c <= '\u{200A}') || c == '\u{2028}' || c == '\u{2029}' || c
        == '\u{202F}' || c == '\u{205F}' || c == '\u{3000}'
}

pub fn is_whitespace(c: char) -> (r: bool)
    ensures
        r == is_ws(c),
{
    ('\t' <= c && c <= '\r') || c == ' ' || c == '\u{85}' || c == '\u{A0}' || c == '\u{1680}'
        || ('\u{2000}' <= c && c <= '\u{200A}') || c == '\u{2028}' || c == '\u{2029}' || c
        == '\u{202F}' || c == '\u{205F}' || c == '\u{3000}'
}

pub open spec fn trim_start(s: Seq<char>) -> Seq<char>
    decreases s.len(),
{
    if s.len() > 0 && is_ws(s[0]) {
        trim_start(s.drop_first())
    } else {
        s
    }
}

pub open spec fn trim_end(s: Seq<char>) -> Seq<char>
    decreases s.len(),
{
    if s.len() > 0 && is_ws(s.last()) {
        trim_end(s.drop_last())
    } else {
        s
    }
}

/// `s` without leading and trailing whitespace.
pub open spec fn trim(s: Seq<char>) -> Seq<char> {
    trim_end(trim_start(s))
}

/// `s` without any `#`.
pub open spec fn strip_hash(s: Seq<char>) -> Seq<char>
    decreases s.len(),
{
    if s.len() == 0 {
        s
    } else if s.last() == '#' {
        strip_hash(s.drop_last())
    } else {
        strip_hash(s.drop_last()).push(s.last())
    }
}

/// The pieces of `s` between single spaces, as `str::split(' ')` yields them
/// (possibly empty).
pub open spec fn pieces(s: Seq<char>) -> Seq<Seq<char>>
    decreases s.len(),
{
    if s.len() == 0 {
        seq![Seq::<char>::empty()]
    } else {
        let p = pieces(s.drop_last());
        if s.last() == ' ' {
            p.push(Seq::empty())
        } else {
            p.update(p.len() - 1, p.last().push(s.last()))
        }
    }
}

/// A tag that normalization leaves as it is: non-empty, without whitespace
/// and without `#`.
pub open spec fn is_normal_tag(t: Seq<char>) -> bool {
    &&& t.len() > 0
    &&& forall|i: int| 0 <= i < t.len() ==> #[trigger] t[i] != '#' && t[i] != ' '
    &&& !is_ws(t[0])
    &&& !is_ws(t.last())
}

/// `t` is one of the tags that the raw input `raw` yields.
pub open spec fn tag_of(raw: Seq<char>, t: Seq<char>) -> bool {
    yields(pieces(trim(raw)), t)
}

/// `t` is what one of the pieces `ps` yields once `#` is stripped and it is
/// trimmed, and it is not empty.
pub open spec fn yields(ps: Seq<Seq<char>>, t: Seq<char>) -> bool {
    t.len() > 0 && exists|j: int| 0 <= j < ps.len() && t == trim(strip_hash(#[trigger] ps[j]))
}

pub proof fn lemma_yields_push(ps: Seq<Seq<char>>, p: Seq<char>, t: Seq<char>)
    ensures
        yields(ps.push(p), t) <==> (yields(ps, t) || (t.len() > 0 && t == trim(strip_hash(p)))),
{
    let ps1 = ps.push(p);
    if yields(ps1, t) {
        let j = choose|j: int| 0 <= j < ps1.len() && t == trim(strip_hash(#[trigger] ps1[j]));
        if j < ps.len() {
            assert(ps1[j] == ps[j]);
        }
    }
    if yields(ps, t) {
        let j = choose|j: int| 0 <= j < ps.len() && t == trim(strip_hash(#[trigger] ps[j]));
        assert(ps1[j] == ps[j]);
    }
    if t.len() > 0 && t == trim(strip_hash(p)) {
        assert(ps1[ps.len() as int] == p);
    }
}

pub proof fn lemma_tag_of_list_prefix(raws: Seq<Seq<char>>, i: int, t: Seq<char>)
    requires
        0 <= i < raws.len(),
    ensures
        tag_of_list(raws.subrange(0, i + 1), t) <==> (tag_of_list(raws.subrange(0, i), t)
            || tag_of(raws[i], t)),
{
    let pre = raws.subrange(0, i);
    let pre1 = raws.subrange(0, i + 1);
    if tag_of_list(pre1, t) {
        let ii = choose|ii: int| 0 <= ii < pre1.len() && tag_of(#[trigger] pre1[ii], t);
        if ii < i {
            assert(pre[ii] == pre1[ii]);
        }
    }
    if tag_of_list(pre, t) {
        let ii = choose|ii: int| 0 <= ii < pre.len() && tag_of(#[trigger] pre[ii], t);
        assert(pre1[ii] == pre[ii]);
    }
    if tag_of(raws[i], t) {
        assert(pre1[i] == raws[i]);
    }
}

/// `t` is one of the tags that the raw inputs yield.
pub open spec fn tag_of_list(raws: Seq<Seq<char>>, t: Seq<char>) -> bool {
    exists|i: int| 0 <= i < raws.len() && tag_of(#[trigger] raws[i], t)
}

pub open spec fn strictly_sorted(v: Seq<Seq<char>>) -> bool {
    forall|i: int, j: int| 0 <= i < j < v.len() ==> seq_lt(#[trigger] v[i], #[trigger] v[j])
}

pub open spec fn str_views(v: Seq<String>) -> Seq<Seq<char>> {
    v.map_values(|s: String| s@)
}

/// A normalized tag list: strictly sorted, every tag normal.
pub open spec fn tags_normalized(v: Seq<Seq<char>>) -> bool {
    strictly_sorted(v) && forall|i: int| 0 <= i < v.len() ==> is_normal_tag(#[trigger] v[i])
}

pub proof fn lemma_trim_start(s: Seq<char>)
    ensures
        trim_start(s).len() <= s.len(),
        forall|i: int|
            0 <= i < trim_start(s).len() ==> #[trigger] trim_start(s)[i] == s[i + s.len()
                - trim_start(s).len()],
        trim_start(s).len() > 0 ==> !is_ws(trim_start(s)[0]),
    decreases s.len(),
{
    if s.len() > 0 && is_ws(s[0]) {
        lemma_trim_start(s.drop_first());
    }
}

pub proof fn lemma_trim_end(s: Seq<char>)
    ensures
        trim_end(s).len() <= s.len(),
        forall|i: int| 0 <= i < trim_end(s).len() ==> #[trigger] trim_end(s)[i] == s[i],
        trim_end(s).len() > 0 ==> !is_ws(trim_end(s).last()),
    decreases s.len(),
{
    if s.len() > 0 && is_ws(s.last()) {
        lemma_trim_end(s.drop_last());
    }
}

/// Trimming keeps a run of the characters of `s` that neither starts nor
/// ends with whitespace.
pub proof fn lemma_trim(s: Seq<char>)
    ensures
        forall|i: int| 0 <= i < trim(s).len() ==> s.contains(#[trigger] trim(s)[i]),
        trim(s).len() > 0 ==> !is_ws(trim(s)[0]) && !is_ws(trim(s).last()),
{
    lemma_trim_start(s);
    lemma_trim_end(trim_start(s));
    let ts = trim_start(s);
    assert forall|i: int| 0 <= i < trim(s).len() implies s.contains(#[trigger] trim(s)[i]) by {
        assert(trim(s)[i] == ts[i]);
        assert(s[i + s.len() - ts.len()] == ts[i]);
    }
}

pub proof fn lemma_trim_noop(s: Seq<char>)
    requires
        s.len() > 0,
        !is_ws(s[0]),
        !is_ws(s.last()),
    ensures
        trim(s) == s,
{
}

pub proof fn lemma_strip_hash(s: Seq<char>)
    ensures
        forall|i: int|
            0 <= i < strip_hash(s).len() ==> #[trigger] strip_hash(s)[i] != '#' && s.contains(
                strip_hash(s)[i],
            ),
        (forall|i: int| 0 <= i < s.len() ==> #[trigger] s[i] != '#') ==> strip_hash(s) == s,
    decreases s.len(),
{
    if s.len() > 0 {
        let d = s.drop_last();
        lemma_strip_hash(d);
        assert forall|i: int| 0 <= i < strip_hash(s).len() implies #[trigger] strip_hash(s)[i]
            != '#' && s.contains(strip_hash(s)[i]) by {
            if i < strip_hash(d).len() {
                assert(strip_hash(s)[i] == strip_hash(d)[i]);
                let j = choose|j: int| 0 <= j < d.len() && d[j] == strip_hash(d)[i];
                assert(s[j] == d[j]);
            } else {
                assert(s[s.len() - 1] == strip_hash(s)[i]);
            }
        }
        if forall|i: int| 0 <= i < s.len() ==> #[trigger] s[i] != '#' {
            assert forall|i: int| 0 <= i < d.len() implies #[trigger] d[i] != '#' by {
                assert(d[i] == s[i]);
            }
            assert(s =~= d.push(s.last()));
        }
    } else {
        assert(s =~= Seq::<char>::empty());
    }
}

pub proof fn lemma_pieces(s: Seq<char>)
    ensures
        pieces(s).len() > 0,
        forall|j: int, i: int|
            0 <= j < pieces(s).len() && 0 <= i < pieces(s)[j].len() ==> #[trigger] pieces(s)[j][i]
                != ' ',
        (forall|i: int| 0 <= i < s.len() ==> #[trigger] s[i] != ' ') ==> pieces(s) == seq![s],
    decreases s.len(),
{
    if s.len() > 0 {
        let d = s.drop_last();
        lemma_pieces(d);
        let p = pieces(d);
        if s.last() != ' ' {
            assert forall|j: int, i: int|
                0 <= j < pieces(s).len() && 0 <= i < pieces(s)[j].len() implies #[trigger] pieces(
                s,
            )[j][i] != ' ' by {
                if j < p.len() - 1 {
                    assert(pieces(s)[j] == p[j]);
                } else if i < p.last().len() {
                    assert(pieces(s)[j][i] == p.last()[i]);
                }
            }
        } else {
            assert forall|j: int, i: int|
                0 <= j < pieces(s).len() && 0 <= i < pieces(s)[j].len() implies #[trigger] pieces(
                s,
            )[j][i] != ' ' by {
                assert(pieces(s)[j] == p[j]);
            }
        }
        if forall|i: int| 0 <= i < s.len() ==> #[trigger] s[i] != ' ' {
            assert forall|i: int| 0 <= i < d.len() implies #[trigger] d[i] != ' ' by {
                assert(d[i] == s[i]);
            }
            assert(s.last() == s[s.len() - 1]);
            assert(d.push(s.last()) =~= s);
            assert(pieces(s) =~= seq![s]);
        }
    } else {
        assert(s =~= Seq::<char>::empty());
    }
}

/// Every tag that normalization yields is normal.
pub proof fn lemma_tag_of_is_normal(raw: Seq<char>, t: Seq<char>)
    requires
        tag_of(raw, t),
    ensures
        is_normal_tag(t),
{
    let ps = pieces(trim(raw));
    let j = choose|j: int| 0 <= j < ps.len() && t == trim(strip_hash(#[trigger] ps[j]));
    lemma_pieces(trim(raw));
    lemma_strip_hash(ps[j]);
    lemma_trim(strip_hash(ps[j]));
    let sh = strip_hash(ps[j]);
    assert forall|i: int| 0 <= i < t.len() implies #[trigger] t[i] != '#' && t[i] != ' ' by {
        assert(sh.contains(t[i]));
        let k = choose|k: int| 0 <= k < sh.len() && sh[k] == t[i];
        assert(ps[j].contains(sh[k]));
        let m = choose|m: int| 0 <= m < ps[j].len() && ps[j][m] == sh[k];
        assert(ps[j][m] != ' ');
    }
}

/// A normal tag yields itself and nothing else.
pub proof fn lemma_normal_tag_fixed(t: Seq<char>, x: Seq<char>)
    requires
        is_normal_tag(t),
    ensures
        tag_of(t, x) <==> x == t,
{
    lemma_trim_noop(t);
    lemma_pieces(t);
    lemma_strip_hash(t);
    assert(pieces(trim(t)) == seq![t]);
    if x == t {
        assert(seq![t][0] == t);
    }
}

pub proof fn lemma_sorted_unique(a: Seq<Seq<char>>, b: Seq<Seq<char>>)
    requires
        strictly_sorted(a),
        strictly_sorted(b),
        forall|x: Seq<char>| a.contains(x) <==> b.contains(x),
    ensures
        a == b,
    decreases a.len(),
{
    if a.len() == 0 {
        if b.len() > 0 {
            assert(b.contains(b[0]));
        }
        assert(a =~= b);
    } else {
        assert(a.contains(a[0]));
        let j = choose|j: int| 0 <= j < b.len() && b[j] == a[0];
        assert(b.contains(b[0]));
        let i = choose|i: int| 0 <= i < a.len() && a[i] == b[0];
        if j > 0 {
            assert(seq_lt(b[0], b[j]));
            if i > 0 {
                assert(seq_lt(a[0], a[i]));
                lemma_seq_lt_transitive(a[0], b[0], a[0]);
                lemma_seq_lt_irreflexive(a[0]);
            } else {
                lemma_seq_lt_irreflexive(a[0]);
            }
        }
        let a1 = a.drop_first();
        let b1 = b.drop_first();
        assert forall|x: Seq<char>| a1.contains(x) <==> b1.contains(x) by {
            if a1.contains(x) {
                let k = choose|k: int| 0 <= k < a1.len() && a1[k] == x;
                assert(a[k + 1] == x);
                assert(seq_lt(a[0], a[k + 1]));
                lemma_seq_lt_irreflexive(x);
                assert(b.contains(x));
                let m = choose|m: int| 0 <= m < b.len() && b[m] == x;
                assert(m != 0);
                assert(b1[m - 1] == x);
            }
            if b1.contains(x) {
                let k = choose|k: int| 0 <= k < b1.len() && b1[k] == x;
                assert(b[k + 1] == x);
                assert(seq_lt(b[0], b[k + 1]));
                lemma_seq_lt_irreflexive(x);
                assert(a.contains(x));
                let m = choose|m: int| 0 <= m < a.len() && a[m] == x;
                assert(m != 0);
                assert(a1[m - 1] == x);
            }
        }
        lemma_sorted_unique(a1, b1);
        assert(a =~= seq![a[0]] + a1);
        assert(b =~= seq![b[0]] + b1);
    }
}

/// Normalizing a list that is already normalized gives the same list.
pub proof fn lemma_normalize_normalized(tags: Seq<Seq<char>>, out: Seq<Seq<char>>)
    requires
        tags_normalized(tags),
        is_normalization_of(tags, out),
    ensures
        out == tags,
{
    assert forall|x: Seq<char>| out.contains(x) <==> tags.contains(x) by {
        if tag_of_list(tags, x) {
            let i = choose|i: int| 0 <= i < tags.len() && tag_of(#[trigger] tags[i], x);
            lemma_normal_tag_fixed(tags[i], x);
        }
        if tags.contains(x) {
            let i = choose|i: int| 0 <= i < tags.len() && tags[i] == x;
            lemma_normal_tag_fixed(tags[i], x);
        }
    }
    lemma_sorted_unique(out, tags);
}

/// Normalization is idempotent.
pub proof fn lemma_normalize_idempotent(
    raws: Seq<Seq<char>>,
    once: Seq<Seq<char>>,
    twice: Seq<Seq<char>>,
)
    requires
        is_normalization_of(raws, once),
        is_normalization_of(once, twice),
    ensures
        twice == once,
{
    lemma_normalization_is_normalized(raws, once);
    lemma_normalize_normalized(once, twice);
}

/// What normalization yields is a normalized list.
pub proof fn lemma_normalization_is_normalized(raws: Seq<Seq<char>>, out: Seq<Seq<char>>)
    requires
        is_normalization_of(raws, out),
    ensures
        tags_normalized(out),
{
    assert forall|i: int| 0 <= i < out.len() implies is_normal_tag(#[trigger] out[i]) by {
        assert(out.contains(out[i]));
        let k = choose|k: int| 0 <= k < raws.len() && tag_of(#[trigger] raws[k], out[i]);
        lemma_tag_of_is_normal(raws[k], out[i]);
    }
}

/// `s` without leading and trailing whitespace.
pub fn trim_str(s: &str) -> (r: String)
    ensures
        r@ == trim(s@),
{
    let n = s.unicode_len();
    let mut a: usize = 0;
    assert(s@.subrange(0, n as int) =~= s@);
    while a < n && is_whitespace(s.get_char(a))
        invariant
            n == s@.len(),
            a <= n,
            trim_start(s@) == trim_start(s@.subrange(a as int, n as int)),
        decreases n - a,
    {
        assert(s@.subrange(a as int, n as int).drop_first() =~= s@.subrange(a + 1, n as int));
        a += 1;
    }
    let mut b: usize = n;
    while b > a && is_whitespace(s.get_char(b - 1))
        invariant
            n == s@.len(),
            a <= b <= n,
            trim_start(s@) == s@.subrange(a as int, n as int),
            trim_end(s@.subrange(a as int, n as int)) == trim_end(s@.subrange(a as int, b as int)),
        decreases b,
    {
        assert(s@.subrange(a as int, b as int).drop_last() =~= s@.subrange(a as int, b - 1));
        b -= 1;
    }
    s.substring_char(a, b).to_owned()
}

/// `s` without any `#`.
pub fn strip_hash_str(s: &str) -> (r: String)
    ensures
        r@ == strip_hash(s@),
{
    let n = s.unicode_len();
    let mut r = String::new();
    let mut i: usize = 0;
    while i < n
        invariant
            n == s@.len(),
            i <= n,
            r@ == strip_hash(s@.subrange(0, i as int)),
        decreases n - i,
    {
        let ghost next = s@.subrange(0, i + 1);
        assert(next.drop_last() =~= s@.subrange(0, i as int));
        if s.get_char(i) != '#' {
            let one = s.substring_char(i, i + 1);
            assert(one@ =~= seq![s@[i as int]]);
            r.append(one);
            assert(r@ =~= strip_hash(next));
        }
        i += 1;
    }
    assert(s@.subrange(0, n as int) =~= s@);
    r
}

/// Inserts `t` into a strictly sorted list unless it is already there.
fn insert_sorted(r: &mut Vec<String>, t: String)
    requires
        strictly_sorted(str_views(old(r)@)),
    ensures
        strictly_sorted(str_views(final(r)@)),
        forall|x: Seq<char>|
            str_views(final(r)@).contains(x) <==> (str_views(old(r)@).contains(x) || x == t@),
{
    let ghost v0 = str_views(r@);
    let mut i: usize = 0;
    while i < r.len() && str_lt(&r[i], &t)
        invariant
            i <= r@.len(),
            v0 == str_views(r@),
            forall|k: int| 0 <= k < i ==> seq_lt(#[trigger] v0[k], t@),
        decreases r@.len() - i,
    {
        i += 1;
    }
    if i < r.len() && r[i] == t {
        assert(v0[i as int] == t@);
        return;
    }
    proof {
        if i < v0.len() {
            lemma_seq_lt_total(v0[i as int], t@);
        }
    }
    r.insert(i, t);
    proof {
        let v1 = str_views(r@);
        assert(v1 =~= v0.insert(i as int, t@));
        assert forall|a: int, b: int| 0 <= a < b < v1.len() implies seq_lt(
            #[trigger] v1[a],
            #[trigger] v1[b],
        ) by {
            if b == i {
            } else if a == i {
                if b > i + 1 {
                    lemma_seq_lt_transitive(t@, v0[i as int], v0[b - 1]);
                }
            } else if a < i && b > i {
                assert(seq_lt(v0[a], t@));
                if b > i + 1 {
                    lemma_seq_lt_transitive(v0[a], v0[i as int], v0[b - 1]);
                } else {
                    lemma_seq_lt_transitive(v0[a], t@, v0[b - 1]);
                }
            }
        }
        assert forall|x: Seq<char>| v1.contains(x) <==> (v0.contains(x) || x == t@) by {
            if v1.contains(x) {
                let k = choose|k: int| 0 <= k < v1.len() && v1[k] == x;
                if k < i {
                    assert(v0[k] == x);
                } else if k > i {
                    assert(v0[k - 1] == x);
                }
            }
            if v0.contains(x) {
                let k = choose|k: int| 0 <= k < v0.len() && v0[k] == x;
                if k < i {
                    assert(v1[k] == x);
                } else {
                    assert(v1[k + 1] == x);
                }
            }
            if x == t@ {
                assert(v1[i as int] == x);
            }
        }
    }
}

/// The tags that one piece yields once `#` is stripped and it is trimmed.
fn piece_tag(t: &str, start: usize, end: usize) -> (r: String)
    requires
        start <= end <= t@.len(),
    ensures
        r@ == trim(strip_hash(t@.subrange(start as int, end as int))),
{
    let piece = t.substring_char(start, end);
    let stripped = strip_hash_str(piece);
    trim_str(stripped.as_str())
}

pub open spec fn is_normalization_of(raws: Seq<Seq<char>>, out: Seq<Seq<char>>) -> bool {
    strictly_sorted(out) && forall|x: Seq<char>| out.contains(x) <==> tag_of_list(raws, x)
}

/// Normalizes a list of raw tags: each is trimmed and split on single spaces,
/// every `#` is removed, each piece is trimmed again, empty pieces are dropped,
/// and the result is sorted and free of duplicates.
pub fn prepare_tag_list(tags: Vec<String>) -> (r: Vec<String>)
    ensures
        is_normalization_of(str_views(tags@), str_views(r@)),
        tags_normalized(str_views(r@)),
{
    let ghost raws = str_views(tags@);
    let mut r: Vec<String> = Vec::new();
    let mut i: usize = 0;
    while i < tags.len()
        invariant
            i <= tags@.len(),
            raws == str_views(tags@),
            strictly_sorted(str_views(r@)),
            forall|x: Seq<char>|
                str_views(r@).contains(x) <==> tag_of_list(raws.subrange(0, i as int), x),
        decreases tags@.len() - i,
    {
        let t = trim_str(tags[i].as_str());
        let n = t.as_str().unicode_len();
        let ghost tv = t@;
        let ghost r0 = str_views(r@);
        let ghost mut done: Seq<Seq<char>> = Seq::empty();
        let mut start: usize = 0;
        let mut k: usize = 0;
        assert(tv.subrange(0, 0) =~= Seq::<char>::empty());
        while k < n
            invariant
                n == tv.len(),
                tv == t@,
                start <= k <= n,
                pieces(tv.subrange(0, k as int)) == done.push(tv.subrange(start as int, k as int)),
                strictly_sorted(str_views(r@)),
                forall|x: Seq<char>|
                    str_views(r@).contains(x) <==> (r0.contains(x) || yields(done, x)),
            decreases n - k,
        {
            let ghost next = tv.subrange(0, k + 1);
            assert(next.drop_last() =~= tv.subrange(0, k as int));
            if t.as_str().get_char(k) == ' ' {
                let p = piece_tag(t.as_str(), start, k);
                let ghost piece = tv.subrange(start as int, k as int);
                if p.as_str().unicode_len() > 0 {
                    insert_sorted(&mut r, p);
                }
                proof {
                    assert(tv.subrange(k + 1, k + 1) =~= Seq::<char>::empty());
                    assert forall|x: Seq<char>|
                        str_views(r@).contains(x) <==> (r0.contains(x) || yields(done.push(piece), x)) by {
                        lemma_yields_push(done, piece, x);
                    }
                    done = done.push(piece);
                }
                start = k + 1;
            } else {
                proof {
                    let pp = done.push(tv.subrange(start as int, k as int));
                    assert(tv.subrange(start as int, k as int).push(tv[k as int]) =~= tv.subrange(
                        start as int,
                        k + 1,
                    ));
                    assert(pp.update(pp.len() - 1, pp.last().push(tv[k as int])) =~= done.push(
                        tv.subrange(start as int, k + 1),
                    ));
                }
            }
            k += 1;
        }
        assert(tv.subrange(0, n as int) =~= tv);
        let p = piece_tag(t.as_str(), start, n);
        let ghost piece = tv.subrange(start as int, n as int);
        if p.as_str().unicode_len() > 0 {
            insert_sorted(&mut r, p);
        }
        proof {
            assert forall|x: Seq<char>|
                str_views(r@).contains(x) <==> tag_of_list(raws.subrange(0, i + 1), x) by {
                lemma_yields_push(done, piece, x);
                lemma_tag_of_list_prefix(raws, i as int, x);
            }
        }
        i += 1;
    }
    assert(raws.subrange(0, tags@.len() as int) =~= raws);
    proof {
        lemma_normalization_is_normalized(raws, str_views(r@));
    }
    r
}

pub proof fn lemma_contains_push<T>(s: Seq<T>, y: T, x: T)
    ensures
        s.push(y).contains(x) <==> (s.contains(x) || x == y),
{
    if s.push(y).contains(x) && x != y {
        let k = choose|k: int| 0 <= k < s.push(y).len() && s.push(y)[k] == x;
        assert(s[k] == x);
    }
    if s.contains(x) {
        let k = choose|k: int| 0 <= k < s.len() && s[k] == x;
        assert(s.push(y)[k] == x);
    }
    if x == y {
        assert(s.push(y)[s.len() as int] == x);
    }
}

pub proof fn lemma_contains_concat<T>(a: Seq<T>, b: Seq<T>, x: T)
    ensures
        (a + b).contains(x) <==> (a.contains(x) || b.contains(x)),
{
    if (a + b).contains(x) {
        let k = choose|k: int| 0 <= k < (a + b).len() && (a + b)[k] == x;
        if k < a.len() {
            assert(a[k] == x);
        } else {
            assert(b[k - a.len()] == x);
        }
    }
    if a.contains(x) {
        let k = choose|k: int| 0 <= k < a.len() && a[k] == x;
        assert((a + b)[k] == x);
    }
    if b.contains(x) {
        let k = choose|k: int| 0 <= k < b.len() && b[k] == x;
        assert((a + b)[k + a.len()] == x);
    }
}

/// Whether `v` holds a string equal to `s`.
pub fn contains_str(v: &Vec<String>, s: &str) -> (r: bool)
    ensures
        r == str_views(v@).contains(s@),
{
    let mut i: usize = 0;
    while i < v.len()
        invariant
            i <= v@.len(),
            forall|k: int| 0 <= k < i ==> v@[k]@ != s@,
        decreases v@.len() - i,
    {
        if str_eq(v[i].as_str(), s) {
            assert(str_views(v@)[i as int] == s@);
            return true;
        }
        i += 1;
    }
    assert forall|k: int| 0 <= k < str_views(v@).len() implies str_views(v@)[k] != s@ by {
        assert(str_views(v@)[k] == v@[k]@);
    }
    false
}

/// A copy of a list of strings.
pub fn clone_strings(v: &Vec<String>) -> (r: Vec<String>)
    ensures
        r@ == v@,
{
    let mut r: Vec<String> = Vec::new();
    let mut i: usize = 0;
    while i < v.len()
        invariant
            i <= v@.len(),
            r@ == v@.subrange(0, i as int),
        decreases v@.len() - i,
    {
        r.push(v[i].clone());
        assert(r@ =~= v@.subrange(0, i + 1));
        i += 1;
    }
    assert(r@ =~= v@);
    r
}

} // verus!
