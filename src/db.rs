//! The in-memory store: one small repository per kind of entity, composed
//! into `MemoryDb`.
use vstd::prelude::*;
use crate::entities::{BboxSubscription, Organization, PendingAuthorization};
use crate::error::RepoError;
use crate::events::EventRepo;
use crate::places::PlaceRepo;
use crate::ratings::RatingRepo;
use crate::tags::{contains_str, lemma_contains_concat, str_views};
use crate::text::str_eq;
use crate::users::{UserRepo, UserTokenRepo};

verus! {

/// `x` is a tag owned by one of the organizations.
pub open spec fn owned_by_any(orgs: Seq<Organization>, x: Seq<char>) -> bool {
    exists|i: int| 0 <= i < orgs.len() && str_views((#[trigger] orgs[i]).owned_tags@).contains(x)
}

/// The position of the first organization with api token `token`, or -1.
pub open spec fn org_index(orgs: Seq<Organization>, token: Seq<char>) -> int {
    if exists|i: int| 0 <= i < orgs.len() && (#[trigger] orgs[i]).api_token@ == token {
        choose|i: int|
            0 <= i < orgs.len() && (#[trigger] orgs[i]).api_token@ == token && forall|k: int|
                0 <= k < i ==> (#[trigger] orgs[k]).api_token@ != token
    } else {
        -1
    }
}

pub proof fn lemma_org_index(orgs: Seq<Organization>, token: Seq<char>, i: int)
    requires
        0 <= i < orgs.len(),
        orgs[i].api_token@ == token,
        forall|k: int| 0 <= k < i ==> (#[trigger] orgs[k]).api_token@ != token,
    ensures
        org_index(orgs, token) == i,
{
    let j = choose|j: int|
        0 <= j < orgs.len() && (#[trigger] orgs[j]).api_token@ == token && forall|k: int|
            0 <= k < j ==> (#[trigger] orgs[k]).api_token@ != token;
    if j < i {
        assert(orgs[j].api_token@ != token);
    } else if j > i {
        assert(orgs[i].api_token@ != token);
    }
}

/// The store of organizations.
#[derive(Debug)]
pub struct OrgRepo {
    pub orgs: Vec<Organization>,
}

impl OrgRepo {
    pub fn create_org(&mut self, org: Organization)
        ensures
            final(self).orgs@ == old(self).orgs@.push(org),
    {
        self.orgs.push(org);
    }

    pub fn get_org_by_api_token(&self, token: &str) -> (r: Result<&Organization, RepoError>)
        ensures
            r is Err <==> org_index(self.orgs@, token@) < 0,
            r matches Err(e) ==> e == RepoError::NotFound,
            r matches Ok(o) ==> 0 <= org_index(self.orgs@, token@) < self.orgs@.len() && *o
                == self.orgs@[org_index(self.orgs@, token@)],
    {
        let mut i: usize = 0;
        while i < self.orgs.len()
            invariant
                i <= self.orgs@.len(),
                forall|k: int| 0 <= k < i ==> (#[trigger] self.orgs@[k]).api_token@ != token@,
            decreases self.orgs@.len() - i,
        {
            if str_eq(self.orgs[i].api_token.as_str(), token) {
                proof {
                    lemma_org_index(self.orgs@, token@, i as int);
                }
                return Ok(&self.orgs[i]);
            }
            i += 1;
        }
        Err(RepoError::NotFound)
    }

    /// Every tag that some organization owns.
    pub fn get_all_tags_owned_by_orgs(&self) -> (r: Vec<String>)
        ensures
            forall|x: Seq<char>| str_views(r@).contains(x) <==> owned_by_any(self.orgs@, x),
    {
        let mut out: Vec<String> = Vec::new();
        let mut i: usize = 0;
        while i < self.orgs.len()
            invariant
                i <= self.orgs@.len(),
                forall|x: Seq<char>|
                    str_views(out@).contains(x) <==> owned_by_any(self.orgs@.subrange(0, i as int), x),
            decreases self.orgs@.len() - i,
        {
            let tags = &self.orgs[i].owned_tags;
            let ghost base = str_views(out@);
            let mut j: usize = 0;
            assert(str_views(tags@.subrange(0, 0)) =~= Seq::<Seq<char>>::empty());
            assert(base + Seq::<Seq<char>>::empty() =~= base);
            while j < tags.len()
                invariant
                    i < self.orgs@.len(),
                    j <= tags@.len(),
                    *tags == self.orgs@[i as int].owned_tags,
                    str_views(out@) == base + str_views(tags@.subrange(0, j as int)),
                decreases tags@.len() - j,
            {
                let ghost before = str_views(out@);
                out.push(tags[j].clone());
                proof {
                    let y = tags@[j as int]@;
                    let tv = str_views(tags@.subrange(0, j as int));
                    assert(str_views(out@) =~= before.push(y));
                    assert(str_views(tags@.subrange(0, j + 1)) =~= tv.push(y));
                    assert(base + tv.push(y) =~= (base + tv).push(y));
                }
                j += 1;
            }
            proof {
                assert(tags@.subrange(0, tags@.len() as int) =~= tags@);
                let pre = self.orgs@.subrange(0, i as int);
                let pre1 = self.orgs@.subrange(0, i + 1);
                assert forall|x: Seq<char>|
                    str_views(out@).contains(x) <==> owned_by_any(pre1, x) by {
                    lemma_contains_concat(base, str_views(tags@), x);
                    if owned_by_any(pre1, x) {
                        let k = choose|k: int|
                            0 <= k < pre1.len() && str_views((#[trigger] pre1[k]).owned_tags@).contains(x);
                        if k < i {
                            assert(pre[k] == pre1[k]);
                        }
                    }
                    if owned_by_any(pre, x) {
                        let k = choose|k: int|
                            0 <= k < pre.len() && str_views((#[trigger] pre[k]).owned_tags@).contains(x);
                        assert(pre1[k] == pre[k]);
                    }
                    if str_views(tags@).contains(x) {
                        assert(pre1[i as int] == self.orgs@[i as int]);
                    }
                    if owned_by_any(pre1, x) && !owned_by_any(pre, x) {
                        let k = choose|k: int|
                            0 <= k < pre1.len() && str_views((#[trigger] pre1[k]).owned_tags@).contains(x);
                        if k < i {
                            assert(pre[k] == pre1[k]);
                        }
                        assert(k == i);
                    }
                }
            }
            i += 1;
        }
        assert(self.orgs@.subrange(0, self.orgs@.len() as int) =~= self.orgs@);
        out
    }
}

/// The store of known tags; no tag occurs twice.
#[derive(Debug)]
pub struct TagRepo {
    pub tags: Vec<String>,
}

impl TagRepo {
    pub open spec fn wf(&self) -> bool {
        forall|i: int, j: int|
            0 <= i < self.tags@.len() && 0 <= j < self.tags@.len() && i != j ==> (
            #[trigger] self.tags@[i])@ != (#[trigger] self.tags@[j])@
    }

    /// Adds `t` unless it is known already.
    pub fn create_tag_if_it_does_not_exist(&mut self, t: &str)
        requires
            old(self).wf(),
        ensures
            final(self).wf(),
            str_views(old(self).tags@).contains(t@) ==> final(self).tags@ == old(self).tags@,
            !str_views(old(self).tags@).contains(t@) ==> str_views(final(self).tags@) == str_views(
                old(self).tags@,
            ).push(t@),
    {
        if !contains_str(&self.tags, t) {
            let ghost t0 = self.tags@;
            self.tags.push(t.to_owned());
            proof {
                assert(str_views(self.tags@) =~= str_views(t0).push(t@));
                assert forall|i: int, j: int|
                    0 <= i < self.tags@.len() && 0 <= j < self.tags@.len() && i != j implies (
                #[trigger] self.tags@[i])@ != (#[trigger] self.tags@[j])@ by {
                    if i == t0.len() {
                        assert(str_views(t0)[j] == t0[j]@);
                    } else if j == t0.len() {
                        assert(str_views(t0)[i] == t0[i]@);
                    }
                }
            }
        }
    }

    pub fn count_tags(&self) -> (r: usize)
        ensures
            r == self.tags@.len(),
    {
        self.tags.len()
    }
}

/// The subscriptions among the first `n` that do not belong to `email`.
pub open spec fn without_email(subs: Seq<BboxSubscription>, email: Seq<char>, n: int) -> Seq<
    BboxSubscription,
>
    decreases n,
{
    if n <= 0 {
        Seq::empty()
    } else {
        let prev = without_email(subs, email, n - 1);
        if subs[n - 1].user_email@ == email {
            prev
        } else {
            prev.push(subs[n - 1])
        }
    }
}

/// The store of bounding-box subscriptions.
#[derive(Debug)]
pub struct SubscriptionRepo {
    pub subscriptions: Vec<BboxSubscription>,
}

impl SubscriptionRepo {
    pub fn create_bbox_subscription(&mut self, s: BboxSubscription)
        ensures
            final(self).subscriptions@ == old(self).subscriptions@.push(s),
    {
        self.subscriptions.push(s);
    }

    /// Removes every subscription of `email`.
    pub fn delete_bbox_subscriptions_by_email(&mut self, email: &str)
        ensures
            final(self).subscriptions@ == without_email(
                old(self).subscriptions@,
                email@,
                old(self).subscriptions@.len() as int,
            ),
    {
        let mut kept: Vec<BboxSubscription> = Vec::new();
        let mut rest: Vec<BboxSubscription> = Vec::new();
        std::mem::swap(&mut rest, &mut self.subscriptions);
        let ghost s0 = rest@;
        let mut i: usize = 0;
        let n: usize = rest.len();
        assert(rest@ =~= s0.subrange(0, n as int));
        while rest.len() > 0
            invariant
                i + rest@.len() == n,
                n == s0.len(),
                rest@ == s0.subrange(i as int, n as int),
                kept@ == without_email(s0, email@, i as int),
            decreases rest@.len(),
        {
            let s = rest.remove(0);
            proof {
                assert(s == s0[i as int]);
                assert(rest@ =~= s0.subrange(i + 1, n as int));
            }
            if !str_eq(s.user_email.as_str(), email) {
                kept.push(s);
            }
            i += 1;
        }
        self.subscriptions = kept;
    }
}

/// The whole store.
#[derive(Debug)]
pub struct MemoryDb {
    pub places: PlaceRepo,
    pub users: UserRepo,
    pub user_tokens: UserTokenRepo,
    pub events: EventRepo,
    pub ratings: RatingRepo,
    pub orgs: OrgRepo,
    pub tags: TagRepo,
    pub subscriptions: SubscriptionRepo,
    pub pending_authorizations: Vec<PendingAuthorization>,
}

impl MemoryDb {
    pub open spec fn wf(&self) -> bool {
        &&& self.places.wf()
        &&& self.users.wf()
        &&& self.user_tokens.wf()
        &&& self.ratings.wf()
        &&& self.tags.wf()
        &&& self.events.wf()
    }

    /// An empty store.
    pub fn new() -> (r: MemoryDb)
        ensures
            r.wf(),
            r.places.places@.len() == 0,
            r.users.users@.len() == 0,
            r.events.events@.len() == 0,
            r.ratings.ratings@.len() == 0,
            r.ratings.comments@.len() == 0,
            r.orgs.orgs@.len() == 0,
            r.tags.tags@.len() == 0,
            r.subscriptions.subscriptions@.len() == 0,
            r.pending_authorizations@.len() == 0,
    {
        MemoryDb {
            places: PlaceRepo::new(),
            users: UserRepo::new(),
            user_tokens: UserTokenRepo::new(),
            events: EventRepo::new(),
            ratings: RatingRepo::new(),
            orgs: OrgRepo { orgs: Vec::new() },
            tags: TagRepo { tags: Vec::new() },
            subscriptions: SubscriptionRepo { subscriptions: Vec::new() },
            pending_authorizations: Vec::new(),
        }
    }
}

} // verus!
