//! The use cases around users, tag ownership and subscriptions.
use vstd::prelude::*;
use crate::db::{MemoryDb, owned_by_any, without_email};
use crate::entities::{BboxSubscription, Event, Organization, Role, User};
use crate::events::event_index;
use crate::error::{Error, ParameterError};
use crate::geo::{MapBbox, MapPoint};
use crate::outside::new_id;
use crate::tags::{contains_str, lemma_contains_push, str_views};
use crate::text::{is_ascii_whitespace, is_ascii_ws, str_eq};
use crate::users::{EmailNonce, UserToken, decode_spec, is_nonce, new_nonce, token_index, user_index};

verus! {

/// A plausible e-mail address: exactly one `@`, with characters before and
/// after it, and no whitespace.
pub open spec fn is_valid_email(s: Seq<char>) -> bool {
    exists|k: int|
        0 < k < s.len() - 1 && s[k] == '@' && forall|m: int|
            0 <= m < s.len() ==> (m != k ==> #[trigger] s[m] != '@') && !is_ascii_ws(s[m])
}

/// Whether `s` is a plausible e-mail address (see `is_valid_email`).
pub fn is_valid_email_address(s: &str) -> (r: bool)
    ensures
        r == is_valid_email(s@),
{
    let n = s.unicode_len();
    let mut at: usize = 0;
    let mut ats: usize = 0;
    let mut i: usize = 0;
    while i < n
        invariant
            n == s@.len(),
            i <= n,
            ats <= i,
            ats == 0 ==> forall|m: int| 0 <= m < i ==> #[trigger] s@[m] != '@',
            ats >= 1 ==> at < i && s@[at as int] == '@',
            ats == 1 ==> forall|m: int| 0 <= m < i && m != at ==> #[trigger] s@[m] != '@',
            ats >= 2 ==> exists|a: int, b: int| 0 <= a < b < n && s@[a] == '@' && s@[b] == '@',
            forall|m: int| 0 <= m < i ==> !is_ascii_ws(#[trigger] s@[m]),
        decreases n - i,
    {
        let c = s.get_char(i);
        if is_ascii_whitespace(c) {
            return false;
        }
        if c == '@' {
            if ats == 1 {
                assert(s@[at as int] == '@' && s@[i as int] == '@');
            }
            if ats < 2 {
                ats += 1;
            }
            at = i;
        }
        i += 1;
    }
    if ats == 1 && at > 0 && at + 1 < n {
        return true;
    }
    proof {
        if is_valid_email(s@) {
            let k = choose|k: int|
                0 < k < s@.len() - 1 && s@[k] == '@' && forall|m: int|
                    0 <= m < s@.len() ==> (m != k ==> #[trigger] s@[m] != '@') && !is_ascii_ws(s@[m]);
            if ats >= 2 {
                let (a, b) = choose|a: int, b: int| 0 <= a < b < n && s@[a] == '@' && s@[b] == '@';
                assert(a == k || s@[a] != '@');
            } else if ats == 1 {
                assert(at == k || s@[at as int] != '@');
            }
        }
    }
    false
}

/// The tag is owned by some organization, and `org` is absent or does not
/// own it.
pub open spec fn unauthorized(orgs: Seq<Organization>, org: Option<&Organization>, t: Seq<char>) -> bool {
    owned_by_any(orgs, t) && !(org matches Some(o) && str_views(o.owned_tags@).contains(t))
}

/// How many of the first `n` tags some organization owns.
pub open spec fn count_owned(orgs: Seq<Organization>, tags: Seq<Seq<char>>, n: int) -> nat
    decreases n,
{
    if n <= 0 {
        0
    } else {
        count_owned(orgs, tags, n - 1) + if owned_by_any(orgs, tags[n - 1]) {
            1nat
        } else {
            0nat
        }
    }
}

/// Counts the tags that organizations own; fails with `OwnedTag` if one of
/// them is not owned by `org`.
pub fn check_and_count_owned_tags(db: &MemoryDb, tags: &Vec<String>, org: Option<&Organization>) -> (r: Result<usize, Error>)
    ensures
        r is Ok <==> forall|i: int| 0 <= i < tags@.len() ==> !unauthorized(db.orgs.orgs@, org, #[trigger] tags@[i]@),
        r matches Ok(c) ==> c == count_owned(db.orgs.orgs@, str_views(tags@), tags@.len() as int),
        r matches Err(e) ==> e == Error::Parameter(ParameterError::OwnedTag),
{
    let owned = db.orgs.get_all_tags_owned_by_orgs();
    let mut count: usize = 0;
    let mut i: usize = 0;
    while i < tags.len()
        invariant
            i <= tags@.len(),
            count <= i,
            count == count_owned(db.orgs.orgs@, str_views(tags@), i as int),
            forall|x: Seq<char>| str_views(owned@).contains(x) <==> owned_by_any(db.orgs.orgs@, x),
            forall|k: int| 0 <= k < i ==> !unauthorized(db.orgs.orgs@, org, #[trigger] tags@[k]@),
        decreases tags@.len() - i,
    {
        let t = tags[i].as_str();
        assert(str_views(tags@)[i as int] == tags@[i as int]@);
        if contains_str(&owned, t) {
            match org {
                Some(o) => {
                    if !contains_str(&o.owned_tags, t) {
                        return Err(Error::Parameter(ParameterError::OwnedTag));
                    }
                    count += 1;
                },
                None => {
                    return Err(Error::Parameter(ParameterError::OwnedTag));
                },
            }
        }
        i += 1;
    }
    Ok(count)
}

/// The tag is in exactly one of the two lists.
pub open spec fn tag_changed(old_tags: Seq<Seq<char>>, new_tags: Seq<Seq<char>>, t: Seq<char>) -> bool {
    old_tags.contains(t) != new_tags.contains(t)
}

/// The organization owns one of the changed tags.
pub open spec fn org_affected(o: Organization, old_tags: Seq<Seq<char>>, new_tags: Seq<Seq<char>>) -> bool {
    exists|t: Seq<char>| str_views(o.owned_tags@).contains(t) && tag_changed(old_tags, new_tags, t)
}

/// The ids of the first `n` organizations that own a changed tag.
pub open spec fn affected_orgs(
    orgs: Seq<Organization>,
    old_tags: Seq<Seq<char>>,
    new_tags: Seq<Seq<char>>,
    n: int,
) -> Seq<Seq<char>>
    decreases n,
{
    if n <= 0 {
        Seq::empty()
    } else {
        let prev = affected_orgs(orgs, old_tags, new_tags, n - 1);
        if org_affected(orgs[n - 1], old_tags, new_tags) {
            prev.push(orgs[n - 1].id@)
        } else {
            prev
        }
    }
}

fn check_changed_tags(db: &MemoryDb, from: &Vec<String>, to: &Vec<String>, org: Option<&Organization>) -> (r: bool)
    ensures
        r == forall|i: int|
            0 <= i < from@.len() && !str_views(to@).contains(#[trigger] from@[i]@) ==> !unauthorized(
                db.orgs.orgs@,
                org,
                from@[i]@,
            ),
{
    let owned = db.orgs.get_all_tags_owned_by_orgs();
    let mut i: usize = 0;
    while i < from.len()
        invariant
            i <= from@.len(),
            forall|x: Seq<char>| str_views(owned@).contains(x) <==> owned_by_any(db.orgs.orgs@, x),
            forall|k: int|
                0 <= k < i && !str_views(to@).contains(#[trigger] from@[k]@) ==> !unauthorized(
                    db.orgs.orgs@,
                    org,
                    from@[k]@,
                ),
        decreases from@.len() - i,
    {
        let t = from[i].as_str();
        if !contains_str(to, t) && contains_str(&owned, t) {
            let allowed = match org {
                Some(o) => contains_str(&o.owned_tags, t),
                None => false,
            };
            if !allowed {
                return false;
            }
        }
        i += 1;
    }
    true
}

fn owns_changed_tag(o: &Organization, old_tags: &Vec<String>, new_tags: &Vec<String>) -> (r: bool)
    ensures
        r == org_affected(*o, str_views(old_tags@), str_views(new_tags@)),
{
    let mut i: usize = 0;
    while i < o.owned_tags.len()
        invariant
            i <= o.owned_tags@.len(),
            forall|k: int|
                0 <= k < i ==> !tag_changed(
                    str_views(old_tags@),
                    str_views(new_tags@),
                    #[trigger] o.owned_tags@[k]@,
                ),
        decreases o.owned_tags@.len() - i,
    {
        let t = o.owned_tags[i].as_str();
        if contains_str(old_tags, t) != contains_str(new_tags, t) {
            assert(str_views(o.owned_tags@)[i as int] == t@);
            assert(str_views(o.owned_tags@).contains(t@));
            assert(tag_changed(str_views(old_tags@), str_views(new_tags@), t@));
            return true;
        }
        i += 1;
    }
    proof {
        if org_affected(*o, str_views(old_tags@), str_views(new_tags@)) {
            let t = choose|t: Seq<char>|
                str_views(o.owned_tags@).contains(t) && tag_changed(
                    str_views(old_tags@),
                    str_views(new_tags@),
                    t,
                );
            let k = choose|k: int| 0 <= k < o.owned_tags@.len() && str_views(o.owned_tags@)[k] == t;
            assert(str_views(o.owned_tags@)[k] == o.owned_tags@[k]@);
        }
    }
    false
}

/// Checks an edit from `old_tags` to `new_tags`: every added or removed tag
/// that an organization owns must be owned by `org` too, else `OwnedTag`.
/// Returns the ids of the organizations that own a changed tag; their
/// authorization is pending.
pub fn authorize_editing(
    db: &MemoryDb,
    old_tags: &Vec<String>,
    new_tags: &Vec<String>,
    org: Option<&Organization>,
) -> (r: Result<Vec<String>, Error>)
    ensures
        r is Ok <==> forall|t: Seq<char>|
            tag_changed(str_views(old_tags@), str_views(new_tags@), t) ==> !unauthorized(
                db.orgs.orgs@,
                org,
                t,
            ),
        r matches Err(e) ==> e == Error::Parameter(ParameterError::OwnedTag),
        r matches Ok(ids) ==> str_views(ids@) == affected_orgs(
            db.orgs.orgs@,
            str_views(old_tags@),
            str_views(new_tags@),
            db.orgs.orgs@.len() as int,
        ),
{
    let ok_removed = check_changed_tags(db, old_tags, new_tags, org);
    let ok_added = check_changed_tags(db, new_tags, old_tags, org);
    proof {
        let ov = str_views(old_tags@);
        let nv = str_views(new_tags@);
        if !ok_removed {
            let i = choose|i: int|
                0 <= i < old_tags@.len() && !nv.contains(#[trigger] old_tags@[i]@) && unauthorized(
                    db.orgs.orgs@,
                    org,
                    old_tags@[i]@,
                );
            assert(ov[i] == old_tags@[i]@);
            assert(tag_changed(ov, nv, old_tags@[i]@));
        }
        if !ok_added {
            let i = choose|i: int|
                0 <= i < new_tags@.len() && !ov.contains(#[trigger] new_tags@[i]@) && unauthorized(
                    db.orgs.orgs@,
                    org,
                    new_tags@[i]@,
                );
            assert(nv[i] == new_tags@[i]@);
            assert(tag_changed(ov, nv, new_tags@[i]@));
        }
        if ok_removed && ok_added {
            assert forall|t: Seq<char>| tag_changed(ov, nv, t) implies !unauthorized(
                db.orgs.orgs@,
                org,
                t,
            ) by {
                if ov.contains(t) {
                    let i = choose|i: int| 0 <= i < ov.len() && ov[i] == t;
                    assert(old_tags@[i]@ == t);
                } else {
                    let i = choose|i: int| 0 <= i < nv.len() && nv[i] == t;
                    assert(new_tags@[i]@ == t);
                }
            }
        }
    }
    if !(ok_removed && ok_added) {
        return Err(Error::Parameter(ParameterError::OwnedTag));
    }
    let mut ids: Vec<String> = Vec::new();
    let mut i: usize = 0;
    while i < db.orgs.orgs.len()
        invariant
            i <= db.orgs.orgs@.len(),
            str_views(ids@) == affected_orgs(
                db.orgs.orgs@,
                str_views(old_tags@),
                str_views(new_tags@),
                i as int,
            ),
        decreases db.orgs.orgs@.len() - i,
    {
        let o = &db.orgs.orgs[i];
        if owns_changed_tag(o, old_tags, new_tags) {
            let ghost before = str_views(ids@);
            ids.push(o.id.clone());
            assert(str_views(ids@) =~= before.push(o.id@));
        }
        i += 1;
    }
    Ok(ids)
}

/// The user with address `user_email`, if its role is at least
/// `min_required_role`; else `Unauthorized`.
pub fn authorize_user_by_email<'a>(db: &'a MemoryDb, user_email: &str, min_required_role: Role) -> (r: Result<&'a User, Error>)
    requires
        db.wf(),
    ensures
        ({
            let i = user_index(db.users.users@, user_email@);
            &&& r is Ok <==> (i >= 0 && db.users.users@[i].role.rank() >= min_required_role.rank())
            &&& r matches Ok(u) ==> *u == db.users.users@[i]
            &&& r matches Err(e) ==> e == Error::Parameter(ParameterError::Unauthorized)
        }),
{
    if let Some(user) = db.users.try_get_user_by_email(user_email) {
        if user.role.at_least(min_required_role) {
            return Ok(user);
        }
    }
    Err(Error::Parameter(ParameterError::Unauthorized))
}

/// The user `requested_email`, which only that user may read.
pub fn get_user<'a>(db: &'a MemoryDb, logged_in_email: &str, requested_email: &str) -> (r: Result<&'a User, Error>)
    requires
        db.wf(),
    ensures
        logged_in_email@ != requested_email@ ==> r == Err::<&User, Error>(Error::Parameter(ParameterError::Forbidden)),
        logged_in_email@ == requested_email@ ==> {
            let i = user_index(db.users.users@, requested_email@);
            &&& r is Ok <==> i >= 0
            &&& r matches Ok(u) ==> *u == db.users.users@[i]
            &&& r matches Err(e) ==> e == Error::Repo(crate::error::RepoError::NotFound)
        },
{
    if !str_eq(logged_in_email, requested_email) {
        return Err(Error::Parameter(ParameterError::Forbidden));
    }
    match db.users.get_user_by_email(requested_email) {
        Ok(u) => Ok(u),
        Err(e) => Err(Error::Repo(e)),
    }
}

/// Deletes the user `email`, which only that user may do.
pub fn delete_user(db: &mut MemoryDb, login_email: &str, email: &str) -> (r: Result<(), Error>)
    requires
        old(db).wf(),
    ensures
        final(db).wf(),
        r is Err <==> login_email@ != email@,
        r matches Err(e) ==> e == Error::Parameter(ParameterError::Forbidden) && final(db).users == old(db).users,
        r is Ok ==> (user_index(old(db).users.users@, email@) >= 0 ==> final(db).users.users@ == old(db).users.users@.remove(
            user_index(old(db).users.users@, email@),
        )) && (user_index(old(db).users.users@, email@) < 0 ==> final(db).users.users@ == old(db).users.users@),
        final(db).places == old(db).places,
{
    if !str_eq(login_email, email) {
        return Err(Error::Parameter(ParameterError::Forbidden));
    }
    db.users.delete_user_by_email(email);
    Ok(())
}

/// Confirms the address that `token` names; a guest becomes a user.
pub fn confirm_email_address(db: &mut MemoryDb, token: &str) -> (r: Result<(), Error>)
    requires
        old(db).wf(),
    ensures
        final(db).wf(),
        decode_spec(token@) is None ==> r == Err::<(), Error>(Error::Parameter(ParameterError::TokenInvalid)),
        r is Err ==> *final(db) == *old(db),
        *final(db) == (MemoryDb { users: final(db).users, ..*old(db) }),
        decode_spec(token@) matches Some(d) ==> {
            let i = user_index(old(db).users.users@, d.1);
            let u = old(db).users.users@[i];
            &&& r is Ok <==> i >= 0
            &&& r matches Err(e) ==> e == Error::Repo(crate::error::RepoError::NotFound)
            &&& r is Err ==> final(db).users.users@ == old(db).users.users@
            &&& (r is Ok && u.email_confirmed) ==> final(db).users.users@ == old(db).users.users@
            &&& (r is Ok && !u.email_confirmed) ==> final(db).users.users@ == old(db).users.users@.update(
                i,
                User {
                    email_confirmed: true,
                    role: if u.role == Role::Guest { Role::User } else { u.role },
                    ..u
                },
            )
        },
{
    let email_nonce = match EmailNonce::decode_from_str(token) {
        Some(x) => x,
        None => {
            return Err(Error::Parameter(ParameterError::TokenInvalid));
        },
    };
    let user = match db.users.get_user_by_email(email_nonce.email.as_str()) {
        Ok(u) => u,
        Err(e) => {
            return Err(Error::Repo(e));
        },
    };
    if !user.email_confirmed {
        let role = match user.role {
            Role::Guest => Role::User,
            r => r,
        };
        let updated = User {
            email: user.email.clone(),
            username: user.username.clone(),
            password: user.password.clone(),
            email_confirmed: true,
            role,
        };
        let res = db.users.update_user(updated);
        assert(res is Ok);
    }
    Ok(())
}

/// Replaces the subscriptions of `user_email` by one to `bbox`. Fails with
/// `Bbox` when the box is not valid.
pub fn subscribe_to_bbox(db: &mut MemoryDb, user_email: String, bbox: MapBbox) -> (r: Result<(), Error>)
    ensures
        r is Err <==> !bbox.valid(),
        r matches Err(e) ==> e == Error::Parameter(ParameterError::Bbox) && final(db).subscriptions == old(db).subscriptions,
        r is Ok ==> {
            let kept = without_email(
                old(db).subscriptions.subscriptions@,
                user_email@,
                old(db).subscriptions.subscriptions@.len() as int,
            );
            let subs = final(db).subscriptions.subscriptions@;
            &&& subs.len() == kept.len() + 1
            &&& subs.drop_last() == kept
            &&& subs.last().user_email == user_email
            &&& subs.last().bbox == bbox
        },
        final(db).places == old(db).places,
        final(db).users == old(db).users,
{
    if !bbox.is_valid() {
        return Err(Error::Parameter(ParameterError::Bbox));
    }
    db.subscriptions.delete_bbox_subscriptions_by_email(user_email.as_str());
    let id = new_id();
    db.subscriptions.create_bbox_subscription(BboxSubscription { id, user_email, bbox });
    Ok(())
}

/// Removes every subscription of `user_email`.
pub fn unsubscribe_all_bboxes(db: &mut MemoryDb, user_email: &str)
    ensures
        final(db).subscriptions.subscriptions@ == without_email(
            old(db).subscriptions.subscriptions@,
            user_email@,
            old(db).subscriptions.subscriptions@.len() as int,
        ),
        final(db).places == old(db).places,
        final(db).users == old(db).users,
{
    db.subscriptions.delete_bbox_subscriptions_by_email(user_email);
}

/// The subscriptions among the first `n` that satisfy `keep`.
pub open spec fn subscriptions_where(
    subs: Seq<BboxSubscription>,
    keep: spec_fn(BboxSubscription) -> bool,
    n: int,
) -> Seq<BboxSubscription>
    decreases n,
{
    if n <= 0 {
        Seq::empty()
    } else {
        let prev = subscriptions_where(subs, keep, n - 1);
        if keep(subs[n - 1]) {
            prev.push(subs[n - 1])
        } else {
            prev
        }
    }
}

/// The subscriptions of `user_email`.
pub fn get_bbox_subscriptions<'a>(db: &'a MemoryDb, user_email: &str) -> (r: Vec<&'a BboxSubscription>)
    ensures
        r@.map_values(|s: &BboxSubscription| *s) == subscriptions_where(
            db.subscriptions.subscriptions@,
            |s: BboxSubscription| s.user_email@ == user_email@,
            db.subscriptions.subscriptions@.len() as int,
        ),
{
    let subs = &db.subscriptions.subscriptions;
    let mut out: Vec<&BboxSubscription> = Vec::new();
    let mut i: usize = 0;
    while i < subs.len()
        invariant
            i <= subs@.len(),
            out@.map_values(|s: &BboxSubscription| *s) == subscriptions_where(
                subs@,
                |s: BboxSubscription| s.user_email@ == user_email@,
                i as int,
            ),
        decreases subs@.len() - i,
    {
        if str_eq(subs[i].user_email.as_str(), user_email) {
            let ghost before = out@.map_values(|s: &BboxSubscription| *s);
            out.push(&subs[i]);
            assert(out@.map_values(|s: &BboxSubscription| *s) =~= before.push(subs@[i as int]));
        }
        i += 1;
    }
    out
}

/// The subscriptions whose box contains `pos`.
pub fn bbox_subscriptions_by_coordinate<'a>(db: &'a MemoryDb, pos: MapPoint) -> (r: Vec<&'a BboxSubscription>)
    ensures
        r@.map_values(|s: &BboxSubscription| *s) == subscriptions_where(
            db.subscriptions.subscriptions@,
            |s: BboxSubscription| s.bbox.spec_contains(pos),
            db.subscriptions.subscriptions@.len() as int,
        ),
{
    let subs = &db.subscriptions.subscriptions;
    let mut out: Vec<&BboxSubscription> = Vec::new();
    let mut i: usize = 0;
    while i < subs.len()
        invariant
            i <= subs@.len(),
            out@.map_values(|s: &BboxSubscription| *s) == subscriptions_where(
                subs@,
                |s: BboxSubscription| s.bbox.spec_contains(pos),
                i as int,
            ),
        decreases subs@.len() - i,
    {
        if subs[i].bbox.contains_point(pos) {
            let ghost before = out@.map_values(|s: &BboxSubscription| *s);
            out.push(&subs[i]);
            assert(out@.map_values(|s: &BboxSubscription| *s) =~= before.push(subs@[i as int]));
        }
        i += 1;
    }
    out
}

pub open spec fn no_duplicates(v: Seq<Seq<char>>) -> bool {
    forall|i: int, j: int| 0 <= i < v.len() && 0 <= j < v.len() && i != j ==> v[i] != v[j]
}

/// The addresses to notify of a change at `pos`: those of the subscriptions
/// whose box contains it, each once.
pub fn email_addresses_by_coordinate(db: &MemoryDb, pos: MapPoint) -> (r: Vec<String>)
    ensures
        no_duplicates(str_views(r@)),
        forall|x: Seq<char>|
            str_views(r@).contains(x) <==> exists|i: int|
                0 <= i < db.subscriptions.subscriptions@.len()
                    && (#[trigger] db.subscriptions.subscriptions@[i]).bbox.spec_contains(pos)
                    && db.subscriptions.subscriptions@[i].user_email@ == x,
{
    let subs = &db.subscriptions.subscriptions;
    let mut out: Vec<String> = Vec::new();
    let mut i: usize = 0;
    while i < subs.len()
        invariant
            i <= subs@.len(),
            no_duplicates(str_views(out@)),
            forall|x: Seq<char>|
                str_views(out@).contains(x) <==> exists|k: int|
                    0 <= k < i && (#[trigger] subs@[k]).bbox.spec_contains(pos) && subs@[k].user_email@ == x,
        decreases subs@.len() - i,
    {
        let s = &subs[i];
        if s.bbox.contains_point(pos) && !contains_str(&out, s.user_email.as_str()) {
            let ghost before = str_views(out@);
            out.push(s.user_email.clone());
            proof {
                assert(str_views(out@) =~= before.push(s.user_email@));
                assert forall|x: Seq<char>|
                    str_views(out@).contains(x) <==> exists|k: int|
                        0 <= k < i + 1 && (#[trigger] subs@[k]).bbox.spec_contains(pos)
                            && subs@[k].user_email@ == x by {
                    lemma_contains_push(before, s.user_email@, x);
                    if exists|k: int|
                        0 <= k < i + 1 && (#[trigger] subs@[k]).bbox.spec_contains(pos)
                            && subs@[k].user_email@ == x {
                        let k = choose|k: int|
                            0 <= k < i + 1 && (#[trigger] subs@[k]).bbox.spec_contains(pos)
                                && subs@[k].user_email@ == x;
                        if k < i {
                            assert(before.contains(x));
                        }
                    }
                }
                assert forall|a: int, b: int|
                    0 <= a < str_views(out@).len() && 0 <= b < str_views(out@).len() && a != b
                        implies str_views(out@)[a] != str_views(out@)[b] by {
                    if a == before.len() {
                        assert(before[b] == str_views(out@)[b]);
                    } else if b == before.len() {
                        assert(before[a] == str_views(out@)[a]);
                    }
                }
            }
        } else {
            proof {
                assert forall|x: Seq<char>|
                    str_views(out@).contains(x) <==> exists|k: int|
                        0 <= k < i + 1 && (#[trigger] subs@[k]).bbox.spec_contains(pos)
                            && subs@[k].user_email@ == x by {
                    if exists|k: int|
                        0 <= k < i + 1 && (#[trigger] subs@[k]).bbox.spec_contains(pos)
                            && subs@[k].user_email@ == x {
                        let k = choose|k: int|
                            0 <= k < i + 1 && (#[trigger] subs@[k]).bbox.spec_contains(pos)
                                && subs@[k].user_email@ == x;
                        if k == i {
                            assert(str_views(out@).contains(s.user_email@));
                        }
                    }
                }
            }
        }
        i += 1;
    }
    out
}

/// The event `id`.
pub fn get_event<'a>(db: &'a MemoryDb, id: &str) -> (r: Result<&'a Event, Error>)
    ensures
        r is Err <==> event_index(db.events.events@, id@) < 0,
        r matches Err(e) ==> e == Error::Repo(crate::error::RepoError::NotFound),
        r matches Ok(e) ==> *e == db.events.events@[event_index(db.events.events@, id@)],
{
    match db.events.get_event(id) {
        Ok(e) => Ok(e),
        Err(e) => Err(Error::Repo(e)),
    }
}

/// Issues a fresh token for the user `email`, valid until `expires_at`,
/// replacing the user's earlier token; fails with `NotFound` for an unknown
/// user.
pub fn request_user_token(db: &mut MemoryDb, email: &str, expires_at: i64) -> (r: Result<EmailNonce, Error>)
    requires
        old(db).wf(),
    ensures
        final(db).wf(),
        r is Err <==> user_index(old(db).users.users@, email@) < 0,
        r matches Err(e) ==> e == Error::Repo(crate::error::RepoError::NotFound) && *final(db) == *old(db),
        r matches Ok(en) ==> en.email@ == email@ && is_nonce(en.nonce@) && {
            let t = UserToken { email_nonce: en, expires_at };
            &&& token_index(old(db).user_tokens.tokens@, email@) < 0 ==> final(db).user_tokens.tokens@
                == old(db).user_tokens.tokens@.push(t)
            &&& token_index(old(db).user_tokens.tokens@, email@) >= 0 ==> final(db).user_tokens.tokens@
                == old(db).user_tokens.tokens@.update(token_index(old(db).user_tokens.tokens@, email@), t)
        },
        *final(db) == (MemoryDb { user_tokens: final(db).user_tokens, ..*old(db) }),
{
    if db.users.find(email).is_none() {
        return Err(Error::Repo(crate::error::RepoError::NotFound));
    }
    let email_nonce = EmailNonce { email: email.to_owned(), nonce: new_nonce() };
    let stored = EmailNonce { email: email_nonce.email.clone(), nonce: email_nonce.nonce.clone() };
    let token = UserToken { email_nonce: stored, expires_at };
    db.user_tokens.replace_user_token(token);
    Ok(email_nonce)
}

/// The token that `email_nonce` presents is stored and has not expired at
/// `now`.
pub open spec fn token_valid(tokens: Seq<UserToken>, email_nonce: EmailNonce, now: i64) -> bool {
    let i = token_index(tokens, email_nonce.email@);
    i >= 0 && tokens[i].email_nonce.nonce@ == email_nonce.nonce@ && tokens[i].expires_at >= now
}

/// Consumes the token that `email_nonce` presents and sets the user's
/// password (its hash); the address counts as confirmed and a guest becomes
/// a user. A missing, mismatched or expired token gives `TokenInvalid`; a
/// matching token is consumed either way.
pub fn reset_password_with_email_nonce(
    db: &mut MemoryDb,
    email_nonce: &EmailNonce,
    new_password: String,
    now: i64,
) -> (r: Result<(), Error>)
    requires
        old(db).wf(),
    ensures
        final(db).wf(),
        ({
            let toks = old(db).user_tokens.tokens@;
            let t = token_index(toks, email_nonce.email@);
            let matched = t >= 0 && toks[t].email_nonce.nonce@ == email_nonce.nonce@;
            let valid = token_valid(toks, *email_nonce, now);
            let i = user_index(old(db).users.users@, email_nonce.email@);
            let u = old(db).users.users@[i];
            &&& r is Ok <==> (valid && i >= 0)
            &&& !valid ==> r == Err::<(), Error>(Error::Parameter(ParameterError::TokenInvalid))
                && final(db).users == old(db).users
            &&& (valid && i < 0) ==> r == Err::<(), Error>(Error::Repo(crate::error::RepoError::NotFound))
                && final(db).users == old(db).users
            &&& matched ==> final(db).user_tokens.tokens@ == toks.remove(t)
            &&& !matched ==> final(db).user_tokens.tokens@ == toks
            &&& r is Ok ==> final(db).users.users@ == old(db).users.users@.update(
                i,
                User {
                    password: new_password,
                    email_confirmed: true,
                    role: if u.role == Role::Guest { Role::User } else { u.role },
                    ..u
                },
            )
        }),
        final(db).places == old(db).places,
{
    let token = match db.user_tokens.consume_user_token(email_nonce) {
        Ok(t) => t,
        Err(_) => {
            return Err(Error::Parameter(ParameterError::TokenInvalid));
        },
    };
    if token.expires_at < now {
        return Err(Error::Parameter(ParameterError::TokenInvalid));
    }
    let user = match db.users.get_user_by_email(email_nonce.email.as_str()) {
        Ok(u) => u,
        Err(e) => {
            return Err(Error::Repo(e));
        },
    };
    let role = match user.role {
        Role::Guest => Role::User,
        r => r,
    };
    let updated = User {
        email: user.email.clone(),
        username: user.username.clone(),
        password: new_password,
        email_confirmed: true,
        role,
    };
    let res = db.users.update_user(updated);
    assert(res is Ok);
    Ok(())
}

/// Registers a user with address `email` and the given password hash: an
/// unconfirmed guest whose name is made from the address. Fails with
/// `Email` for an implausible address and with `UserExists` when the
/// address is taken.
pub fn create_new_user(db: &mut MemoryDb, email: &str, password_hash: String) -> (r: Result<(), Error>)
    requires
        old(db).wf(),
    ensures
        final(db).wf(),
        !is_valid_email(email@) ==> r == Err::<(), Error>(Error::Parameter(ParameterError::Email)),
        is_valid_email(email@) && user_index(old(db).users.users@, email@) >= 0 ==> r == Err::<(), Error>(
            Error::Parameter(ParameterError::UserExists),
        ),
        r is Ok <==> is_valid_email(email@) && user_index(old(db).users.users@, email@) < 0,
        r is Err ==> *final(db) == *old(db),
        r is Ok ==> {
            let u = final(db).users.users@.last();
            &&& final(db).users.users@.drop_last() == old(db).users.users@
            &&& u.email@ == email@
            &&& u.username@ == crate::create_event::ascii_alnum_of(crate::outside::lower_of(email@))
            &&& u.password == password_hash
            &&& !u.email_confirmed
            &&& u.role == Role::Guest
        },
        *final(db) == (MemoryDb { users: final(db).users, ..*old(db) }),
{
    if !is_valid_email_address(email) {
        return Err(Error::Parameter(ParameterError::Email));
    }
    if db.users.find(email).is_some() {
        return Err(Error::Parameter(ParameterError::UserExists));
    }
    let user = User {
        email: email.to_owned(),
        username: crate::create_event::username_from_email(email),
        password: password_hash,
        email_confirmed: false,
        role: Role::Guest,
    };
    let ok = db.users.create_user(user);
    assert(ok);
    proof {
        assert(db.users.users@.drop_last() =~= old(db).users.users@);
    }
    Ok(())
}

} // verus!
