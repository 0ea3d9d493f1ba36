//! The persistence layer: forge instances, users, repositories and DNS
//! challenges, with referential and uniqueness invariants.
//!
//! The store keeps every entity in memory.  Its contracts are stated over
//! view functions (`forge_view`, `user_view`, `repo_view`,
//! `challenge_view`) that map each key to the record stored under it, if
//! any, and over transition predicates that pin down exactly how each
//! mutating operation changes those views.
//!
//! Policies this store commits to:
//! - `delete_forge_instance` rejects deletion while dependent users or
//!   repositories exist, rather than cascading.
//! - `delete_dns_challenge` is idempotent: deleting an absent challenge
//!   succeeds.

use vstd::prelude::*;

use crate::errors::DBError;
use crate::models::AddRepository;
use crate::models::AddUser;
use crate::models::Challenge;
use crate::models::CreateForge;
use crate::models::ForgeImplementation;
use crate::models::opt_view;
use crate::models::tag_set;

verus! {

/// What the store remembers about a user, at the specification level.
pub struct UserRecord {
    pub html_link: Seq<char>,
    pub profile_photo: Option<Seq<char>>,
}

/// What the store remembers about a repository, at the specification
/// level.  Tags form a set: order is irrelevant, membership unique.
pub struct RepoRecord {
    pub html_link: Seq<char>,
    pub tags: Set<Seq<char>>,
    pub website: Option<Seq<char>>,
    pub description: Option<Seq<char>>,
}

/// What the store remembers about a DNS challenge, at the specification
/// level.
pub struct ChallengeRecord {
    pub value: Seq<char>,
    pub hostname: Seq<char>,
}

/// In-memory persistence for forge instances, their users and
/// repositories, and DNS TXT challenges.
pub struct Store {
    forges: Vec<CreateForge>,
    users: Vec<AddUser>,
    repositories: Vec<AddRepository>,
    challenges: Vec<Challenge>,
    forge_types: Vec<ForgeImplementation>,
}

impl Store {
    /// No two forge instances share a hostname.
    pub closed spec fn forges_unique(self) -> bool {
        forall|i: int, j: int|
            #![trigger self.forges@[i], self.forges@[j]]
            0 <= i < j < self.forges@.len() ==> self.forges@[i].hostname@ != self.forges@[j].hostname@
    }

    /// No two users share a (username, hostname) pair.
    pub closed spec fn users_unique(self) -> bool {
        forall|i: int, j: int|
            #![trigger self.users@[i], self.users@[j]]
            0 <= i < j < self.users@.len() ==> !(self.users@[i].username@
                == self.users@[j].username@ && self.users@[i].hostname@
                == self.users@[j].hostname@)
    }

    /// No two repositories share an (owner, name, hostname) triple.
    pub closed spec fn repos_unique(self) -> bool {
        forall|i: int, j: int|
            #![trigger self.repositories@[i], self.repositories@[j]]
            0 <= i < j < self.repositories@.len() ==> !(self.repositories@[i].owner@
                == self.repositories@[j].owner@ && self.repositories@[i].name@
                == self.repositories@[j].name@ && self.repositories@[i].hostname@
                == self.repositories@[j].hostname@)
    }

    /// No two challenges share a key.
    pub closed spec fn challenges_unique(self) -> bool {
        forall|i: int, j: int|
            #![trigger self.challenges@[i], self.challenges@[j]]
            0 <= i < j < self.challenges@.len() ==> self.challenges@[i].key@
                != self.challenges@[j].key@
    }

    /// Every user belongs to a registered forge instance.
    pub closed spec fn users_reference_forges(self) -> bool {
        forall|i: int|
            0 <= i < self.users@.len() ==> self.spec_forge_exists(
                (#[trigger] self.users@[i]).hostname@,
            )
    }

    /// Every repository belongs to a registered forge instance.
    pub closed spec fn repos_reference_forges(self) -> bool {
        forall|i: int|
            0 <= i < self.repositories@.len() ==> self.spec_forge_exists(
                (#[trigger] self.repositories@[i]).hostname@,
            )
    }

    /// The store's invariant: all keys unique, all children under a
    /// registered parent.
    pub open spec fn wf(self) -> bool {
        &&& self.forges_unique()
        &&& self.users_unique()
        &&& self.repos_unique()
        &&& self.challenges_unique()
        &&& self.users_reference_forges()
        &&& self.repos_reference_forges()
    }

    /// Whether a forge instance is registered under `h`.
    pub closed spec fn spec_forge_exists(self, h: Seq<char>) -> bool {
        exists|i: int| 0 <= i < self.forges@.len() && self.forges@[i].hostname@ == h
    }

    /// The forge type registered under `h`, if any.
    pub closed spec fn forge_view(self, h: Seq<char>) -> Option<ForgeImplementation> {
        if self.spec_forge_exists(h) {
            let i = choose|i: int| 0 <= i < self.forges@.len() && self.forges@[i].hostname@ == h;
            Option::Some(self.forges@[i].forge_type)
        } else {
            Option::None
        }
    }

    /// Whether `t` was seeded into the forge-type registry.
    pub closed spec fn spec_forge_type_exists(self, t: ForgeImplementation) -> bool {
        self.forge_types@.contains(t)
    }

    /// Whether a user named `u` exists under the forge instance at `h`.
    pub closed spec fn spec_user_exists(self, u: Seq<char>, h: Seq<char>) -> bool {
        exists|i: int|
            0 <= i < self.users@.len() && self.users@[i].username@ == u && self.users@[i].hostname@
                == h
    }

    /// Whether a user named `u` exists under any forge instance.
    pub open spec fn spec_user_exists_any(self, u: Seq<char>) -> bool {
        exists|h: Seq<char>| self.spec_user_exists(u, h)
    }

    /// The record stored for user `u` under `h`, if any.
    pub closed spec fn user_view(self, u: Seq<char>, h: Seq<char>) -> Option<UserRecord> {
        if self.spec_user_exists(u, h) {
            let i = choose|i: int|
                0 <= i < self.users@.len() && self.users@[i].username@ == u
                    && self.users@[i].hostname@ == h;
            Option::Some(
                UserRecord {
                    html_link: self.users@[i].html_link@,
                    profile_photo: opt_view(self.users@[i].profile_photo),
                },
            )
        } else {
            Option::None
        }
    }

    /// Whether a repository (owner, name) exists under `h`.
    pub closed spec fn spec_repo_exists(self, owner: Seq<char>, name: Seq<char>, h: Seq<char>) -> bool {
        exists|i: int|
            0 <= i < self.repositories@.len() && self.repositories@[i].owner@ == owner
                && self.repositories@[i].name@ == name && self.repositories@[i].hostname@ == h
    }

    /// The record stored for repository (owner, name) under `h`, if any.
    pub closed spec fn repo_view(self, owner: Seq<char>, name: Seq<char>, h: Seq<char>) -> Option<
        RepoRecord,
    > {
        if self.spec_repo_exists(owner, name, h) {
            let i = choose|i: int|
                0 <= i < self.repositories@.len() && self.repositories@[i].owner@ == owner
                    && self.repositories@[i].name@ == name && self.repositories@[i].hostname@ == h;
            Option::Some(
                RepoRecord {
                    html_link: self.repositories@[i].html_link@,
                    tags: tag_set(self.repositories@[i].tags),
                    website: opt_view(self.repositories@[i].website),
                    description: opt_view(self.repositories@[i].description),
                },
            )
        } else {
            Option::None
        }
    }

    /// Whether a challenge is stored under `k`.
    pub closed spec fn spec_challenge_exists(self, k: Seq<char>) -> bool {
        exists|i: int| 0 <= i < self.challenges@.len() && self.challenges@[i].key@ == k
    }

    /// The challenge stored under `k`, if any.
    pub closed spec fn challenge_view(self, k: Seq<char>) -> Option<ChallengeRecord> {
        if self.spec_challenge_exists(k) {
            let i = choose|i: int|
                0 <= i < self.challenges@.len() && self.challenges@[i].key@ == k;
            Option::Some(
                ChallengeRecord {
                    value: self.challenges@[i].value@,
                    hostname: self.challenges@[i].hostname@,
                },
            )
        } else {
            Option::None
        }
    }

    /// Whether any user or repository still references the forge at `h`.
    pub open spec fn forge_has_dependents(self, h: Seq<char>) -> bool {
        (exists|u: Seq<char>| self.spec_user_exists(u, h)) || (exists|o: Seq<char>, n: Seq<char>|
            self.spec_repo_exists(o, n, h))
    }
}

/// No forge instance changed between `pre` and `post`.
pub open spec fn forges_unchanged(pre: Store, post: Store) -> bool {
    forall|h: Seq<char>| #[trigger] post.forge_view(h) == pre.forge_view(h)
}

/// No user changed between `pre` and `post`.
pub open spec fn users_unchanged(pre: Store, post: Store) -> bool {
    forall|u: Seq<char>, h: Seq<char>| #[trigger] post.user_view(u, h) == pre.user_view(u, h)
}

/// No repository changed between `pre` and `post`.
pub open spec fn repos_unchanged(pre: Store, post: Store) -> bool {
    forall|o: Seq<char>, n: Seq<char>, h: Seq<char>| #[trigger] post.repo_view(o, n, h)
        == pre.repo_view(o, n, h)
}

/// No challenge changed between `pre` and `post`.
pub open spec fn challenges_unchanged(pre: Store, post: Store) -> bool {
    forall|k: Seq<char>| #[trigger] post.challenge_view(k) == pre.challenge_view(k)
}

/// The seeded forge-type registry did not change between `pre` and
/// `post`.
pub open spec fn types_unchanged(pre: Store, post: Store) -> bool {
    forall|t: ForgeImplementation| #[trigger] post.spec_forge_type_exists(t)
        == pre.spec_forge_type_exists(t)
}

impl Store {
    proof fn lemma_forge_view_some(self, h: Seq<char>, i: int)
        requires
            self.forges_unique(),
            0 <= i < self.forges@.len(),
            self.forges@[i].hostname@ == h,
        ensures
            self.spec_forge_exists(h),
            self.forge_view(h) == Option::Some(self.forges@[i].forge_type),
    {
        assert(self.spec_forge_exists(h));
        let j = choose|j: int| 0 <= j < self.forges@.len() && self.forges@[j].hostname@ == h;
        if i < j {
            assert(self.forges@[i].hostname@ != self.forges@[j].hostname@);
        } else if j < i {
            assert(self.forges@[j].hostname@ != self.forges@[i].hostname@);
        }
        assert(j == i);
    }

    proof fn lemma_user_view_some(self, u: Seq<char>, h: Seq<char>, i: int)
        requires
            self.users_unique(),
            0 <= i < self.users@.len(),
            self.users@[i].username@ == u,
            self.users@[i].hostname@ == h,
        ensures
            self.spec_user_exists(u, h),
            self.user_view(u, h) == Option::Some(
                UserRecord {
                    html_link: self.users@[i].html_link@,
                    profile_photo: opt_view(self.users@[i].profile_photo),
                },
            ),
    {
        assert(self.spec_user_exists(u, h));
        let j = choose|j: int|
            0 <= j < self.users@.len() && self.users@[j].username@ == u && self.users@[j].hostname@
                == h;
        if i < j {
            assert(!(self.users@[i].username@ == self.users@[j].username@
                && self.users@[i].hostname@ == self.users@[j].hostname@));
        } else if j < i {
            assert(!(self.users@[j].username@ == self.users@[i].username@
                && self.users@[j].hostname@ == self.users@[i].hostname@));
        }
        assert(j == i);
    }

    proof fn lemma_repo_view_some(self, o: Seq<char>, n: Seq<char>, h: Seq<char>, i: int)
        requires
            self.repos_unique(),
            0 <= i < self.repositories@.len(),
            self.repositories@[i].owner@ == o,
            self.repositories@[i].name@ == n,
            self.repositories@[i].hostname@ == h,
        ensures
            self.spec_repo_exists(o, n, h),
            self.repo_view(o, n, h) == Option::Some(
                RepoRecord {
                    html_link: self.repositories@[i].html_link@,
                    tags: tag_set(self.repositories@[i].tags),
                    website: opt_view(self.repositories@[i].website),
                    description: opt_view(self.repositories@[i].description),
                },
            ),
    {
        assert(self.spec_repo_exists(o, n, h));
        let j = choose|j: int|
            0 <= j < self.repositories@.len() && self.repositories@[j].owner@ == o
                && self.repositories@[j].name@ == n && self.repositories@[j].hostname@ == h;
        if i < j {
            assert(!(self.repositories@[i].owner@ == self.repositories@[j].owner@
                && self.repositories@[i].name@ == self.repositories@[j].name@
                && self.repositories@[i].hostname@ == self.repositories@[j].hostname@));
        } else if j < i {
            assert(!(self.repositories@[j].owner@ == self.repositories@[i].owner@
                && self.repositories@[j].name@ == self.repositories@[i].name@
                && self.repositories@[j].hostname@ == self.repositories@[i].hostname@));
        }
        assert(j == i);
    }

    proof fn lemma_challenge_view_some(self, k: Seq<char>, i: int)
        requires
            self.challenges_unique(),
            0 <= i < self.challenges@.len(),
            self.challenges@[i].key@ == k,
        ensures
            self.spec_challenge_exists(k),
            self.challenge_view(k) == Option::Some(
                ChallengeRecord {
                    value: self.challenges@[i].value@,
                    hostname: self.challenges@[i].hostname@,
                },
            ),
    {
        assert(self.spec_challenge_exists(k));
        let j = choose|j: int| 0 <= j < self.challenges@.len() && self.challenges@[j].key@ == k;
        if i < j {
            assert(self.challenges@[i].key@ != self.challenges@[j].key@);
        } else if j < i {
            assert(self.challenges@[j].key@ != self.challenges@[i].key@);
        }
        assert(j == i);
    }
}

proof fn lemma_forges_frame(pre: Store, post: Store)
    requires
        pre.forges_unique(),
        post.forges == pre.forges,
    ensures
        forges_unchanged(pre, post),
{
    assert forall|h: Seq<char>| #[trigger] post.forge_view(h) == pre.forge_view(h) by {
        if pre.spec_forge_exists(h) {
            let i = choose|i: int|
                0 <= i < pre.forges@.len() && pre.forges@[i].hostname@ == h;
            pre.lemma_forge_view_some(h, i);
            post.lemma_forge_view_some(h, i);
        } else {
            assert(!post.spec_forge_exists(h)) by {
                if post.spec_forge_exists(h) {
                    let i = choose|i: int|
                        0 <= i < post.forges@.len() && post.forges@[i].hostname@ == h;
                    assert(pre.forges@[i].hostname@ == h);
                }
            }
        }
    }
}

proof fn lemma_users_frame(pre: Store, post: Store)
    requires
        pre.users_unique(),
        post.users == pre.users,
    ensures
        users_unchanged(pre, post),
{
    assert forall|u: Seq<char>, h: Seq<char>| #[trigger] post.user_view(u, h) == pre.user_view(
        u,
        h,
    ) by {
        if pre.spec_user_exists(u, h) {
            let i = choose|i: int|
                0 <= i < pre.users@.len() && pre.users@[i].username@ == u
                    && pre.users@[i].hostname@ == h;
            pre.lemma_user_view_some(u, h, i);
            post.lemma_user_view_some(u, h, i);
        } else {
            assert(!post.spec_user_exists(u, h)) by {
                if post.spec_user_exists(u, h) {
                    let i = choose|i: int|
                        0 <= i < post.users@.len() && post.users@[i].username@ == u
                            && post.users@[i].hostname@ == h;
                    assert(pre.users@[i].username@ == u && pre.users@[i].hostname@ == h);
                }
            }
        }
    }
}

proof fn lemma_repos_frame(pre: Store, post: Store)
    requires
        pre.repos_unique(),
        post.repositories == pre.repositories,
    ensures
        repos_unchanged(pre, post),
{
    assert forall|o: Seq<char>, n: Seq<char>, h: Seq<char>| #[trigger] post.repo_view(o, n, h)
        == pre.repo_view(o, n, h) by {
        if pre.spec_repo_exists(o, n, h) {
            let i = choose|i: int|
                0 <= i < pre.repositories@.len() && pre.repositories@[i].owner@ == o
                    && pre.repositories@[i].name@ == n && pre.repositories@[i].hostname@ == h;
            pre.lemma_repo_view_some(o, n, h, i);
            post.lemma_repo_view_some(o, n, h, i);
        } else {
            assert(!post.spec_repo_exists(o, n, h)) by {
                if post.spec_repo_exists(o, n, h) {
                    let i = choose|i: int|
                        0 <= i < post.repositories@.len() && post.repositories@[i].owner@ == o
                            && post.repositories@[i].name@ == n && post.repositories@[i].hostname@
                            == h;
                    assert(pre.repositories@[i].owner@ == o && pre.repositories@[i].name@ == n
                        && pre.repositories@[i].hostname@ == h);
                }
            }
        }
    }
}

proof fn lemma_challenges_frame(pre: Store, post: Store)
    requires
        pre.challenges_unique(),
        post.challenges == pre.challenges,
    ensures
        challenges_unchanged(pre, post),
{
    assert forall|k: Seq<char>| #[trigger] post.challenge_view(k) == pre.challenge_view(k) by {
        if pre.spec_challenge_exists(k) {
            let i = choose|i: int|
                0 <= i < pre.challenges@.len() && pre.challenges@[i].key@ == k;
            pre.lemma_challenge_view_some(k, i);
            post.lemma_challenge_view_some(k, i);
        } else {
            assert(!post.spec_challenge_exists(k)) by {
                if post.spec_challenge_exists(k) {
                    let i = choose|i: int|
                        0 <= i < post.challenges@.len() && post.challenges@[i].key@ == k;
                    assert(pre.challenges@[i].key@ == k);
                }
            }
        }
    }
}

/// Registering a forge instance: success exactly when the hostname is
/// free and the forge type seeded; on success the instance appears and
/// nothing else changes.
pub open spec fn create_forge_transition(
    pre: Store,
    post: Store,
    h: Seq<char>,
    t: ForgeImplementation,
    r: Result<(), DBError>,
) -> bool {
    &&& (r is Ok <==> !pre.spec_forge_exists(h) && pre.spec_forge_type_exists(t))
    &&& (pre.spec_forge_exists(h) ==> r == Err::<(), DBError>(DBError::Conflict))
    &&& (!pre.spec_forge_exists(h) && !pre.spec_forge_type_exists(t) ==> r == Err::<(), DBError>(
        DBError::ReferenceError,
    ))
    &&& (r is Ok ==> post.forge_view(h) == Option::Some(t))
    &&& (r is Ok ==> forall|h2: Seq<char>| h2 != h ==> #[trigger] post.forge_view(h2)
        == pre.forge_view(h2))
    &&& (r is Err ==> post == pre)
    &&& users_unchanged(pre, post)
    &&& repos_unchanged(pre, post)
    &&& challenges_unchanged(pre, post)
    &&& types_unchanged(pre, post)
}

/// Deleting a forge instance: fails with `NotFound` when absent and with
/// `Conflict` while dependent users or repositories exist; on success the
/// instance is gone and nothing else changes.
pub open spec fn delete_forge_transition(
    pre: Store,
    post: Store,
    h: Seq<char>,
    r: Result<(), DBError>,
) -> bool {
    &&& (r is Ok <==> pre.spec_forge_exists(h) && !pre.forge_has_dependents(h))
    &&& (!pre.spec_forge_exists(h) ==> r == Err::<(), DBError>(DBError::NotFound))
    &&& (pre.spec_forge_exists(h) && pre.forge_has_dependents(h) ==> r == Err::<(), DBError>(
        DBError::Conflict,
    ))
    &&& (r is Ok ==> post.forge_view(h) is None)
    &&& (r is Ok ==> forall|h2: Seq<char>| h2 != h ==> #[trigger] post.forge_view(h2)
        == pre.forge_view(h2))
    &&& (r is Err ==> post == pre)
    &&& users_unchanged(pre, post)
    &&& repos_unchanged(pre, post)
    &&& challenges_unchanged(pre, post)
    &&& types_unchanged(pre, post)
}

impl Store {
    /// An empty store: nothing registered, nothing seeded.
    pub fn new() -> (r: Store)
        ensures
            r.wf(),
            forall|h: Seq<char>| #[trigger] r.forge_view(h) is None,
            forall|u: Seq<char>, h: Seq<char>| #[trigger] r.user_view(u, h) is None,
            forall|o: Seq<char>, n: Seq<char>, h: Seq<char>| #[trigger] r.repo_view(o, n, h)
                is None,
            forall|k: Seq<char>| #[trigger] r.challenge_view(k) is None,
            forall|t: ForgeImplementation| !#[trigger] r.spec_forge_type_exists(t),
    {
        Store {
            forges: Vec::new(),
            users: Vec::new(),
            repositories: Vec::new(),
            challenges: Vec::new(),
            forge_types: Vec::new(),
        }
    }

    fn find_forge(&self, hostname: &String) -> (r: Option<usize>)
        ensures
            (match r {
                Option::Some(i) => i < self.forges@.len() && self.forges@[i as int].hostname@
                    == hostname@,
                Option::None => !self.spec_forge_exists(hostname@),
            }),
    {
        let mut i: usize = 0;
        while i < self.forges.len()
            invariant
                i <= self.forges@.len(),
                forall|j: int| 0 <= j < i ==> (#[trigger] self.forges@[j]).hostname@ != hostname@,
            decreases self.forges@.len() - i,
        {
            if self.forges[i].hostname == *hostname {
                return Option::Some(i);
            }
            i = i + 1;
        }
        Option::None
    }

    fn contains_type(&self, t: ForgeImplementation) -> (r: bool)
        ensures
            r == self.spec_forge_type_exists(t),
    {
        let mut i: usize = 0;
        while i < self.forge_types.len()
            invariant
                i <= self.forge_types@.len(),
                forall|j: int| 0 <= j < i ==> self.forge_types@[j] != t,
            decreases self.forge_types@.len() - i,
        {
            if self.forge_types[i] == t {
                assert(self.forge_types@.contains(t));
                return true;
            }
            i = i + 1;
        }
        assert(!self.forge_types@.contains(t));
        false
    }

    fn any_user_under(&self, hostname: &String) -> (r: bool)
        ensures
            r == exists|u: Seq<char>| self.spec_user_exists(u, hostname@),
    {
        let mut i: usize = 0;
        while i < self.users.len()
            invariant
                i <= self.users@.len(),
                forall|j: int| 0 <= j < i ==> (#[trigger] self.users@[j]).hostname@ != hostname@,
            decreases self.users@.len() - i,
        {
            if self.users[i].hostname == *hostname {
                assert(self.spec_user_exists(self.users@[i as int].username@, hostname@));
                return true;
            }
            i = i + 1;
        }
        assert forall|u: Seq<char>| !self.spec_user_exists(u, hostname@) by {
            if self.spec_user_exists(u, hostname@) {
                let j = choose|j: int|
                    0 <= j < self.users@.len() && self.users@[j].username@ == u
                        && self.users@[j].hostname@ == hostname@;
                assert(self.users@[j].hostname@ != hostname@);
            }
        }
        false
    }

    fn any_repo_under(&self, hostname: &String) -> (r: bool)
        ensures
            r == exists|o: Seq<char>, n: Seq<char>| self.spec_repo_exists(o, n, hostname@),
    {
        let mut i: usize = 0;
        while i < self.repositories.len()
            invariant
                i <= self.repositories@.len(),
                forall|j: int| 0 <= j < i ==> (#[trigger] self.repositories@[j]).hostname@
                    != hostname@,
            decreases self.repositories@.len() - i,
        {
            if self.repositories[i].hostname == *hostname {
                assert(self.spec_repo_exists(
                    self.repositories@[i as int].owner@,
                    self.repositories@[i as int].name@,
                    hostname@,
                ));
                return true;
            }
            i = i + 1;
        }
        assert forall|o: Seq<char>, n: Seq<char>| !self.spec_repo_exists(o, n, hostname@) by {
            if self.spec_repo_exists(o, n, hostname@) {
                let j = choose|j: int|
                    0 <= j < self.repositories@.len() && self.repositories@[j].owner@ == o
                        && self.repositories@[j].name@ == n && self.repositories@[j].hostname@
                        == hostname@;
                assert(self.repositories@[j].hostname@ != hostname@);
            }
        }
        false
    }

    /// Prepare the store: seed the forge-type registry.  Idempotent and
    /// safe to invoke on every process start.
    pub fn migrate(&mut self) -> (r: Result<(), DBError>)
        requires
            old(self).wf(),
        ensures
            final(self).wf(),
            r is Ok,
            forall|t: ForgeImplementation| #[trigger] final(self).spec_forge_type_exists(t),
            forges_unchanged(*old(self), *final(self)),
            users_unchanged(*old(self), *final(self)),
            repos_unchanged(*old(self), *final(self)),
            challenges_unchanged(*old(self), *final(self)),
    {
        if !self.contains_type(ForgeImplementation::Gitea) {
            self.forge_types.push(ForgeImplementation::Gitea);
        }
        proof {
            assert(self.forge_types@.contains(ForgeImplementation::Gitea)) by {
                if old(self).spec_forge_type_exists(ForgeImplementation::Gitea) {
                    let i = choose|i: int|
                        0 <= i < old(self).forge_types@.len() && old(self).forge_types@[i]
                            == ForgeImplementation::Gitea;
                    assert(self.forge_types@[i] == ForgeImplementation::Gitea);
                } else {
                    assert(self.forge_types@.last() == ForgeImplementation::Gitea);
                }
            }
            assert forall|t: ForgeImplementation| #[trigger] self.spec_forge_type_exists(t) by {
                assert(t == ForgeImplementation::Gitea);
            }
            lemma_forges_frame(*old(self), *self);
            lemma_users_frame(*old(self), *self);
            lemma_repos_frame(*old(self), *self);
            lemma_challenges_frame(*old(self), *self);
            assert forall|i: int|
                0 <= i < self.users@.len() implies self.spec_forge_exists(
                (#[trigger] self.users@[i]).hostname@,
            ) by {
                assert(old(self).spec_forge_exists(old(self).users@[i].hostname@));
                assert(old(self).forge_view(old(self).users@[i].hostname@) is Some);
            }
            assert forall|i: int|
                0 <= i < self.repositories@.len() implies self.spec_forge_exists(
                (#[trigger] self.repositories@[i]).hostname@,
            ) by {
                assert(old(self).spec_forge_exists(old(self).repositories@[i].hostname@));
                assert(old(self).forge_view(old(self).repositories@[i].hostname@) is Some);
            }
        }
        Ok(())
    }

    /// Whether a forge instance is registered under `hostname`.
    pub fn forge_exists(&self, hostname: &String) -> (r: Result<bool, DBError>)
        ensures
            r == Ok::<bool, DBError>(self.spec_forge_exists(hostname@)),
    {
        match self.find_forge(hostname) {
            Option::Some(i) => {
                proof {
                    assert(self.spec_forge_exists(hostname@));
                }
                Ok(true)
            },
            Option::None => Ok(false),
        }
    }

    /// Whether `t` was seeded into the forge-type registry.
    pub fn forge_type_exists(&self, t: &ForgeImplementation) -> (r: Result<bool, DBError>)
        ensures
            r == Ok::<bool, DBError>(self.spec_forge_type_exists(*t)),
    {
        Ok(self.contains_type(*t))
    }

    /// Register a forge instance.
    pub fn create_forge_instance(&mut self, msg: &CreateForge) -> (r: Result<(), DBError>)
        requires
            old(self).wf(),
        ensures
            final(self).wf(),
            create_forge_transition(
                *old(self),
                *final(self),
                msg.hostname@,
                msg.forge_type,
                r,
            ),
    {
        match self.find_forge(&msg.hostname) {
            Option::Some(i) => {
                proof {
                    assert(self.spec_forge_exists(msg.hostname@));
                }
                Err(DBError::Conflict)
            },
            Option::None => {
                if !self.contains_type(msg.forge_type) {
                    Err(DBError::ReferenceError)
                } else {
                    let entry = CreateForge {
                        hostname: msg.hostname.clone(),
                        forge_type: msg.forge_type,
                    };
                    self.forges.push(entry);
                    proof {
                        let pre = *old(self);
                        let post = *self;
                        let len = pre.forges@.len() as int;
                        assert(post.forges@[len].hostname@ == msg.hostname@);
                        assert forall|i: int, j: int|
                            #![trigger post.forges@[i], post.forges@[j]]
                            0 <= i < j < post.forges@.len() implies post.forges@[i].hostname@
                            != post.forges@[j].hostname@ by {
                            if j < len {
                                assert(post.forges@[i] == pre.forges@[i]);
                                assert(post.forges@[j] == pre.forges@[j]);
                            } else {
                                assert(post.forges@[i] == pre.forges@[i]);
                                assert(!pre.spec_forge_exists(msg.hostname@));
                            }
                        }
                        post.lemma_forge_view_some(msg.hostname@, len);
                        assert forall|h2: Seq<char>| h2 != msg.hostname@ implies #[trigger] post.forge_view(h2) == pre.forge_view(h2) by {
                            if pre.spec_forge_exists(h2) {
                                let k = choose|k: int|
                                    0 <= k < pre.forges@.len() && pre.forges@[k].hostname@ == h2;
                                assert(post.forges@[k] == pre.forges@[k]);
                                pre.lemma_forge_view_some(h2, k);
                                post.lemma_forge_view_some(h2, k);
                            } else {
                                assert(!post.spec_forge_exists(h2)) by {
                                    if post.spec_forge_exists(h2) {
                                        let k = choose|k: int|
                                            0 <= k < post.forges@.len()
                                                && post.forges@[k].hostname@ == h2;
                                        assert(k < len);
                                        assert(pre.forges@[k].hostname@ == h2);
                                    }
                                }
                            }
                        }
                        lemma_users_frame(pre, post);
                        lemma_repos_frame(pre, post);
                        lemma_challenges_frame(pre, post);
                        assert forall|i: int|
                            0 <= i < post.users@.len() implies post.spec_forge_exists(
                            (#[trigger] post.users@[i]).hostname@,
                        ) by {
                            assert(pre.spec_forge_exists(pre.users@[i].hostname@));
                            if pre.users@[i].hostname@ == msg.hostname@ {
                                assert(post.spec_forge_exists(msg.hostname@));
                            } else {
                                assert(post.forge_view(pre.users@[i].hostname@) == pre.forge_view(
                                    pre.users@[i].hostname@,
                                ));
                                assert(pre.forge_view(pre.users@[i].hostname@) is Some);
                            }
                        }
                        assert forall|i: int|
                            0 <= i < post.repositories@.len() implies post.spec_forge_exists(
                            (#[trigger] post.repositories@[i]).hostname@,
                        ) by {
                            assert(pre.spec_forge_exists(pre.repositories@[i].hostname@));
                            if pre.repositories@[i].hostname@ == msg.hostname@ {
                                assert(post.spec_forge_exists(msg.hostname@));
                            } else {
                                assert(post.forge_view(pre.repositories@[i].hostname@)
                                    == pre.forge_view(pre.repositories@[i].hostname@));
                                assert(pre.forge_view(pre.repositories@[i].hostname@) is Some);
                            }
                        }
                    }
                    Ok(())
                }
            },
        }
    }

    /// Remove a forge instance.  Deletion is rejected with `Conflict`
    /// while dependent users or repositories exist.
    pub fn delete_forge_instance(&mut self, hostname: &String) -> (r: Result<(), DBError>)
        requires
            old(self).wf(),
        ensures
            final(self).wf(),
            delete_forge_transition(*old(self), *final(self), hostname@, r),
    {
        match self.find_forge(hostname) {
            Option::None => Err(DBError::NotFound),
            Option::Some(i) => {
                proof {
                    assert(self.spec_forge_exists(hostname@));
                }
                if self.any_user_under(hostname) || self.any_repo_under(hostname) {
                    Err(DBError::Conflict)
                } else {
                    let _removed = self.forges.remove(i);
                    proof {
                        let pre = *old(self);
                        let post = *self;
                        let idx = i as int;
                        assert forall|a: int, b: int|
                            #![trigger post.forges@[a], post.forges@[b]]
                            0 <= a < b < post.forges@.len() implies post.forges@[a].hostname@
                            != post.forges@[b].hostname@ by {
                            let a2: int = if a < idx { a } else { a + 1 };
                            let b2: int = if b < idx { b } else { b + 1 };
                            assert(post.forges@[a] == pre.forges@[a2]);
                            assert(post.forges@[b] == pre.forges@[b2]);
                        }
                        assert(!post.spec_forge_exists(hostname@)) by {
                            if post.spec_forge_exists(hostname@) {
                                let k = choose|k: int|
                                    0 <= k < post.forges@.len() && post.forges@[k].hostname@
                                        == hostname@;
                                let k2: int = if k < idx { k } else { k + 1 };
                                assert(pre.forges@[k2].hostname@ == hostname@);
                                if k2 < idx {
                                    assert(pre.forges@[k2].hostname@ != pre.forges@[idx].hostname@);
                                } else {
                                    assert(pre.forges@[idx].hostname@ != pre.forges@[k2].hostname@);
                                }
                            }
                        }
                        assert forall|h2: Seq<char>| h2 != hostname@ implies #[trigger] post.forge_view(h2) == pre.forge_view(h2) by {
                            if pre.spec_forge_exists(h2) {
                                let k = choose|k: int|
                                    0 <= k < pre.forges@.len() && pre.forges@[k].hostname@ == h2;
                                assert(k != idx);
                                let k2: int = if k < idx { k } else { k - 1 };
                                assert(post.forges@[k2] == pre.forges@[k]);
                                pre.lemma_forge_view_some(h2, k);
                                post.lemma_forge_view_some(h2, k2);
                            } else {
                                assert(!post.spec_forge_exists(h2)) by {
                                    if post.spec_forge_exists(h2) {
                                        let k = choose|k: int|
                                            0 <= k < post.forges@.len()
                                                && post.forges@[k].hostname@ == h2;
                                        let k2: int = if k < idx { k } else { k + 1 };
                                        assert(pre.forges@[k2].hostname@ == h2);
                                    }
                                }
                            }
                        }
                        lemma_users_frame(pre, post);
                        lemma_repos_frame(pre, post);
                        lemma_challenges_frame(pre, post);
                        assert forall|j: int|
                            0 <= j < post.users@.len() implies post.spec_forge_exists(
                            (#[trigger] post.users@[j]).hostname@,
                        ) by {
                            assert(pre.spec_user_exists(
                                pre.users@[j].username@,
                                pre.users@[j].hostname@,
                            ));
                            assert(pre.users@[j].hostname@ != hostname@);
                            assert(post.forge_view(pre.users@[j].hostname@) == pre.forge_view(
                                pre.users@[j].hostname@,
                            ));
                            assert(pre.spec_forge_exists(pre.users@[j].hostname@));
                            assert(pre.forge_view(pre.users@[j].hostname@) is Some);
                        }
                        assert forall|j: int|
                            0 <= j < post.repositories@.len() implies post.spec_forge_exists(
                            (#[trigger] post.repositories@[j]).hostname@,
                        ) by {
                            assert(pre.spec_repo_exists(
                                pre.repositories@[j].owner@,
                                pre.repositories@[j].name@,
                                pre.repositories@[j].hostname@,
                            ));
                            assert(pre.repositories@[j].hostname@ != hostname@);
                            assert(post.forge_view(pre.repositories@[j].hostname@)
                                == pre.forge_view(pre.repositories@[j].hostname@));
                            assert(pre.spec_forge_exists(pre.repositories@[j].hostname@));
                            assert(pre.forge_view(pre.repositories@[j].hostname@) is Some);
                        }
                    }
                    Ok(())
                }
            },
        }
    }
}

/// After registering a fresh hostname the instance exists; after deleting
/// it again it does not.  Registration and deletion are a round trip.
pub proof fn lemma_forge_round_trip(
    s0: Store,
    s1: Store,
    s2: Store,
    h: Seq<char>,
    t: ForgeImplementation,
    r1: Result<(), DBError>,
    r2: Result<(), DBError>,
)
    requires
        s0.wf(),
        !s0.spec_forge_exists(h),
        s0.spec_forge_type_exists(t),
        !s0.forge_has_dependents(h),
        create_forge_transition(s0, s1, h, t, r1),
        delete_forge_transition(s1, s2, h, r2),
    ensures
        r1 is Ok,
        r2 is Ok,
        s1.spec_forge_exists(h),
        !s2.spec_forge_exists(h),
{
    assert(r1 is Ok);
    assert(s1.forge_view(h) == Option::Some(t));
    assert(s1.spec_forge_exists(h)) by {
        if !s1.spec_forge_exists(h) {
            assert(s1.forge_view(h) is None);
        }
    }
    assert(!s1.forge_has_dependents(h)) by {
        if exists|u: Seq<char>| s1.spec_user_exists(u, h) {
            let u = choose|u: Seq<char>| s1.spec_user_exists(u, h);
            assert(s1.user_view(u, h) == s0.user_view(u, h));
            assert(s1.user_view(u, h) is Some) by {
                let i = choose|i: int|
                    0 <= i < s1.users@.len() && s1.users@[i].username@ == u
                        && s1.users@[i].hostname@ == h;
                s1.lemma_user_view_some(u, h, i);
            }
            assert(s0.spec_user_exists(u, h)) by {
                if !s0.spec_user_exists(u, h) {
                    assert(s0.user_view(u, h) is None);
                }
            }
        }
        if exists|o: Seq<char>, n: Seq<char>| s1.spec_repo_exists(o, n, h) {
            let (o, n) = choose|o: Seq<char>, n: Seq<char>| s1.spec_repo_exists(o, n, h);
            assert(s1.repo_view(o, n, h) == s0.repo_view(o, n, h));
            assert(s1.repo_view(o, n, h) is Some) by {
                let i = choose|i: int|
                    0 <= i < s1.repositories@.len() && s1.repositories@[i].owner@ == o
                        && s1.repositories@[i].name@ == n && s1.repositories@[i].hostname@ == h;
                s1.lemma_repo_view_some(o, n, h, i);
            }
            assert(s0.spec_repo_exists(o, n, h)) by {
                if !s0.spec_repo_exists(o, n, h) {
                    assert(s0.repo_view(o, n, h) is None);
                }
            }
        }
    }
    assert(r2 is Ok);
    assert(s2.forge_view(h) is None);
    assert(!s2.spec_forge_exists(h)) by {
        if s2.spec_forge_exists(h) {
            let i = choose|i: int| 0 <= i < s2.forges@.len() && s2.forges@[i].hostname@ == h;
            s2.lemma_forge_view_some(h, i);
        }
    }
}

proof fn lemma_forge_exists_congruence(pre: Store, post: Store)
    requires
        post.forges == pre.forges,
    ensures
        forall|h: Seq<char>| #[trigger] post.spec_forge_exists(h) == pre.spec_forge_exists(h),
{
    assert forall|h: Seq<char>| #[trigger] post.spec_forge_exists(h) == pre.spec_forge_exists(
        h,
    ) by {
        if pre.spec_forge_exists(h) {
            let i = choose|i: int| 0 <= i < pre.forges@.len() && pre.forges@[i].hostname@ == h;
            assert(post.forges@[i].hostname@ == h);
        }
        if post.spec_forge_exists(h) {
            let i = choose|i: int| 0 <= i < post.forges@.len() && post.forges@[i].hostname@ == h;
            assert(pre.forges@[i].hostname@ == h);
        }
    }
}

proof fn lemma_refs_frame(pre: Store, post: Store)
    requires
        pre.users_reference_forges(),
        pre.repos_reference_forges(),
        post.forges == pre.forges,
        post.users == pre.users,
        post.repositories == pre.repositories,
    ensures
        post.users_reference_forges(),
        post.repos_reference_forges(),
{
    lemma_forge_exists_congruence(pre, post);
    assert forall|i: int|
        0 <= i < post.users@.len() implies post.spec_forge_exists(
        (#[trigger] post.users@[i]).hostname@,
    ) by {
        assert(post.users@[i] == pre.users@[i]);
        assert(pre.spec_forge_exists(pre.users@[i].hostname@));
    }
    assert forall|i: int|
        0 <= i < post.repositories@.len() implies post.spec_forge_exists(
        (#[trigger] post.repositories@[i]).hostname@,
    ) by {
        assert(post.repositories@[i] == pre.repositories@[i]);
        assert(pre.spec_forge_exists(pre.repositories@[i].hostname@));
    }
}

/// Adding a user: success exactly when the owning forge instance is
/// registered and the (username, hostname) pair is free; on success the
/// user appears with its profile attributes and nothing else changes.
pub open spec fn add_user_transition(
    pre: Store,
    post: Store,
    h: Seq<char>,
    u: Seq<char>,
    link: Seq<char>,
    photo: Option<Seq<char>>,
    r: Result<(), DBError>,
) -> bool {
    &&& (r is Ok <==> pre.spec_forge_exists(h) && !pre.spec_user_exists(u, h))
    &&& (!pre.spec_forge_exists(h) ==> r == Err::<(), DBError>(DBError::ReferenceError))
    &&& (pre.spec_forge_exists(h) && pre.spec_user_exists(u, h) ==> r == Err::<(), DBError>(
        DBError::Conflict,
    ))
    &&& (r is Ok ==> post.user_view(u, h) == Option::Some(
        UserRecord { html_link: link, profile_photo: photo },
    ))
    &&& (r is Ok ==> forall|u2: Seq<char>, h2: Seq<char>|
        !(u2 == u && h2 == h) ==> #[trigger] post.user_view(u2, h2) == pre.user_view(u2, h2))
    &&& (r is Err ==> post == pre)
    &&& forges_unchanged(pre, post)
    &&& repos_unchanged(pre, post)
    &&& challenges_unchanged(pre, post)
    &&& types_unchanged(pre, post)
}

/// Deleting a user: fails with `NotFound` when absent; on success the
/// user is gone and nothing else changes.
pub open spec fn delete_user_transition(
    pre: Store,
    post: Store,
    u: Seq<char>,
    h: Seq<char>,
    r: Result<(), DBError>,
) -> bool {
    &&& (r is Ok <==> pre.spec_user_exists(u, h))
    &&& (!pre.spec_user_exists(u, h) ==> r == Err::<(), DBError>(DBError::NotFound))
    &&& (r is Ok ==> post.user_view(u, h) is None)
    &&& (r is Ok ==> forall|u2: Seq<char>, h2: Seq<char>|
        !(u2 == u && h2 == h) ==> #[trigger] post.user_view(u2, h2) == pre.user_view(u2, h2))
    &&& (r is Err ==> post == pre)
    &&& forges_unchanged(pre, post)
    &&& repos_unchanged(pre, post)
    &&& challenges_unchanged(pre, post)
    &&& types_unchanged(pre, post)
}

/// Adding a repository: success exactly when the owning user exists
/// under the hostname and the (owner, name, hostname) triple is free; on
/// success the repository appears with its attributes and nothing else
/// changes.
pub open spec fn create_repo_transition(
    pre: Store,
    post: Store,
    h: Seq<char>,
    owner: Seq<char>,
    name: Seq<char>,
    link: Seq<char>,
    tags: Set<Seq<char>>,
    website: Option<Seq<char>>,
    description: Option<Seq<char>>,
    r: Result<(), DBError>,
) -> bool {
    &&& (r is Ok <==> pre.spec_user_exists(owner, h) && !pre.spec_repo_exists(owner, name, h))
    &&& (!pre.spec_user_exists(owner, h) ==> r == Err::<(), DBError>(DBError::ReferenceError))
    &&& (pre.spec_user_exists(owner, h) && pre.spec_repo_exists(owner, name, h) ==> r == Err::<
        (),
        DBError,
    >(DBError::Conflict))
    &&& (r is Ok ==> post.repo_view(owner, name, h) == Option::Some(
        RepoRecord { html_link: link, tags: tags, website: website, description: description },
    ))
    &&& (r is Ok ==> forall|o2: Seq<char>, n2: Seq<char>, h2: Seq<char>|
        !(o2 == owner && n2 == name && h2 == h) ==> #[trigger] post.repo_view(o2, n2, h2)
            == pre.repo_view(o2, n2, h2))
    &&& (r is Err ==> post == pre)
    &&& forges_unchanged(pre, post)
    &&& users_unchanged(pre, post)
    &&& challenges_unchanged(pre, post)
    &&& types_unchanged(pre, post)
}

/// Deleting a repository: fails with `NotFound` when absent; on success
/// the repository is gone and nothing else changes.
pub open spec fn delete_repo_transition(
    pre: Store,
    post: Store,
    owner: Seq<char>,
    name: Seq<char>,
    h: Seq<char>,
    r: Result<(), DBError>,
) -> bool {
    &&& (r is Ok <==> pre.spec_repo_exists(owner, name, h))
    &&& (!pre.spec_repo_exists(owner, name, h) ==> r == Err::<(), DBError>(DBError::NotFound))
    &&& (r is Ok ==> post.repo_view(owner, name, h) is None)
    &&& (r is Ok ==> forall|o2: Seq<char>, n2: Seq<char>, h2: Seq<char>|
        !(o2 == owner && n2 == name && h2 == h) ==> #[trigger] post.repo_view(o2, n2, h2)
            == pre.repo_view(o2, n2, h2))
    &&& (r is Err ==> post == pre)
    &&& forges_unchanged(pre, post)
    &&& users_unchanged(pre, post)
    &&& challenges_unchanged(pre, post)
    &&& types_unchanged(pre, post)
}

/// Storing a challenge: storing the value already held under the key is
/// a no-op success; a different value under an occupied key is a
/// `Conflict`; a free key takes the new record.  Nothing else changes.
pub open spec fn create_challenge_transition(
    pre: Store,
    post: Store,
    k: Seq<char>,
    v: Seq<char>,
    h: Seq<char>,
    r: Result<(), DBError>,
) -> bool {
    &&& (match pre.challenge_view(k) {
        Option::None => {
            &&& r is Ok
            &&& post.challenge_view(k) == Option::Some(ChallengeRecord { value: v, hostname: h })
            &&& (forall|k2: Seq<char>| k2 != k ==> #[trigger] post.challenge_view(k2)
                == pre.challenge_view(k2))
        },
        Option::Some(rec) => {
            if rec.value == v {
                r is Ok && post == pre
            } else {
                r == Err::<(), DBError>(DBError::Conflict) && post == pre
            }
        },
    })
    &&& forges_unchanged(pre, post)
    &&& users_unchanged(pre, post)
    &&& repos_unchanged(pre, post)
    &&& types_unchanged(pre, post)
}

/// Deleting a challenge is idempotent: it succeeds whether or not the
/// key was present, and afterwards the key holds nothing.  Nothing else
/// changes.
pub open spec fn delete_challenge_transition(
    pre: Store,
    post: Store,
    k: Seq<char>,
    r: Result<(), DBError>,
) -> bool {
    &&& r == Ok::<(), DBError>(())
    &&& post.challenge_view(k) is None
    &&& (forall|k2: Seq<char>| k2 != k ==> #[trigger] post.challenge_view(k2)
        == pre.challenge_view(k2))
    &&& forges_unchanged(pre, post)
    &&& users_unchanged(pre, post)
    &&& repos_unchanged(pre, post)
    &&& types_unchanged(pre, post)
}

fn clone_opt_string(o: &Option<String>) -> (r: Option<String>)
    ensures
        opt_view(r) == opt_view(*o),
{
    match o {
        Option::Some(s) => Option::Some(s.clone()),
        Option::None => Option::None,
    }
}

fn clone_tags(t: &Option<Vec<String>>) -> (r: Option<Vec<String>>)
    ensures
        tag_set(r) == tag_set(*t),
{
    match t {
        Option::None => Option::None,
        Option::Some(v) => {
            let mut out: Vec<String> = Vec::new();
            let mut i: usize = 0;
            while i < v.len()
                invariant
                    i <= v@.len(),
                    out@.len() == i,
                    forall|j: int| 0 <= j < i ==> (#[trigger] out@[j])@ == v@[j]@,
                decreases v@.len() - i,
            {
                out.push(v[i].clone());
                i = i + 1;
            }
            proof {
                assert(out@.map_values(|s: String| s@) =~= v@.map_values(|s: String| s@));
            }
            Option::Some(out)
        },
    }
}

impl Store {
    fn find_user(&self, username: &String, hostname: &String) -> (r: Option<usize>)
        ensures
            (match r {
                Option::Some(i) => i < self.users@.len() && self.users@[i as int].username@
                    == username@ && self.users@[i as int].hostname@ == hostname@,
                Option::None => !self.spec_user_exists(username@, hostname@),
            }),
    {
        let mut i: usize = 0;
        while i < self.users.len()
            invariant
                i <= self.users@.len(),
                forall|j: int| 0 <= j < i ==> !((#[trigger] self.users@[j]).username@ == username@
                    && self.users@[j].hostname@ == hostname@),
            decreases self.users@.len() - i,
        {
            if self.users[i].username == *username && self.users[i].hostname == *hostname {
                return Option::Some(i);
            }
            i = i + 1;
        }
        Option::None
    }

    fn find_user_any(&self, username: &String) -> (r: Option<usize>)
        ensures
            (match r {
                Option::Some(i) => i < self.users@.len() && self.users@[i as int].username@
                    == username@,
                Option::None => !self.spec_user_exists_any(username@),
            }),
    {
        let mut i: usize = 0;
        while i < self.users.len()
            invariant
                i <= self.users@.len(),
                forall|j: int| 0 <= j < i ==> (#[trigger] self.users@[j]).username@ != username@,
            decreases self.users@.len() - i,
        {
            if self.users[i].username == *username {
                return Option::Some(i);
            }
            i = i + 1;
        }
        proof {
            assert forall|h: Seq<char>| !self.spec_user_exists(username@, h) by {
                if self.spec_user_exists(username@, h) {
                    let j = choose|j: int|
                        0 <= j < self.users@.len() && self.users@[j].username@ == username@
                            && self.users@[j].hostname@ == h;
                    assert(self.users@[j].username@ != username@);
                }
            }
        }
        Option::None
    }

    fn find_repo(&self, owner: &String, name: &String, hostname: &String) -> (r: Option<usize>)
        ensures
            (match r {
                Option::Some(i) => i < self.repositories@.len() && self.repositories@[i as int].owner@
                    == owner@ && self.repositories@[i as int].name@ == name@
                    && self.repositories@[i as int].hostname@ == hostname@,
                Option::None => !self.spec_repo_exists(owner@, name@, hostname@),
            }),
    {
        let mut i: usize = 0;
        while i < self.repositories.len()
            invariant
                i <= self.repositories@.len(),
                forall|j: int| 0 <= j < i ==> !((#[trigger] self.repositories@[j]).owner@ == owner@
                    && self.repositories@[j].name@ == name@ && self.repositories@[j].hostname@
                    == hostname@),
            decreases self.repositories@.len() - i,
        {
            if self.repositories[i].owner == *owner && self.repositories[i].name == *name
                && self.repositories[i].hostname == *hostname {
                return Option::Some(i);
            }
            i = i + 1;
        }
        Option::None
    }

    fn find_challenge(&self, key: &String) -> (r: Option<usize>)
        ensures
            (match r {
                Option::Some(i) => i < self.challenges@.len() && self.challenges@[i as int].key@
                    == key@,
                Option::None => !self.spec_challenge_exists(key@),
            }),
    {
        let mut i: usize = 0;
        while i < self.challenges.len()
            invariant
                i <= self.challenges@.len(),
                forall|j: int| 0 <= j < i ==> (#[trigger] self.challenges@[j]).key@ != key@,
            decreases self.challenges@.len() - i,
        {
            if self.challenges[i].key == *key {
                return Option::Some(i);
            }
            i = i + 1;
        }
        Option::None
    }

    /// Add a user under a registered forge instance.
    pub fn add_user(&mut self, msg: &AddUser) -> (r: Result<(), DBError>)
        requires
            old(self).wf(),
        ensures
            final(self).wf(),
            add_user_transition(
                *old(self),
                *final(self),
                msg.hostname@,
                msg.username@,
                msg.html_link@,
                opt_view(msg.profile_photo),
                r,
            ),
    {
        match self.find_forge(&msg.hostname) {
            Option::None => Err(DBError::ReferenceError),
            Option::Some(f) => {
                proof {
                    assert(self.spec_forge_exists(msg.hostname@));
                }
                match self.find_user(&msg.username, &msg.hostname) {
                    Option::Some(i) => {
                        proof {
                            assert(self.spec_user_exists(msg.username@, msg.hostname@));
                        }
                        Err(DBError::Conflict)
                    },
                    Option::None => {
                        let entry = AddUser {
                            hostname: msg.hostname.clone(),
                            username: msg.username.clone(),
                            html_link: msg.html_link.clone(),
                            profile_photo: clone_opt_string(&msg.profile_photo),
                        };
                        self.users.push(entry);
                        proof {
                            let pre = *old(self);
                            let post = *self;
                            let len = pre.users@.len() as int;
                            assert forall|i: int, j: int|
                                #![trigger post.users@[i], post.users@[j]]
                                0 <= i < j < post.users@.len() implies !(post.users@[i].username@
                                == post.users@[j].username@ && post.users@[i].hostname@
                                == post.users@[j].hostname@) by {
                                if j < len {
                                    assert(post.users@[i] == pre.users@[i]);
                                    assert(post.users@[j] == pre.users@[j]);
                                } else {
                                    assert(post.users@[i] == pre.users@[i]);
                                    assert(!pre.spec_user_exists(msg.username@, msg.hostname@));
                                }
                            }
                            post.lemma_user_view_some(msg.username@, msg.hostname@, len);
                            assert forall|u2: Seq<char>, h2: Seq<char>|
                                !(u2 == msg.username@ && h2 == msg.hostname@) implies #[trigger] post.user_view(u2, h2) == pre.user_view(u2, h2) by {
                                if pre.spec_user_exists(u2, h2) {
                                    let k = choose|k: int|
                                        0 <= k < pre.users@.len() && pre.users@[k].username@ == u2
                                            && pre.users@[k].hostname@ == h2;
                                    assert(post.users@[k] == pre.users@[k]);
                                    pre.lemma_user_view_some(u2, h2, k);
                                    post.lemma_user_view_some(u2, h2, k);
                                } else {
                                    assert(!post.spec_user_exists(u2, h2)) by {
                                        if post.spec_user_exists(u2, h2) {
                                            let k = choose|k: int|
                                                0 <= k < post.users@.len()
                                                    && post.users@[k].username@ == u2
                                                    && post.users@[k].hostname@ == h2;
                                            assert(k < len);
                                            assert(pre.users@[k].username@ == u2
                                                && pre.users@[k].hostname@ == h2);
                                        }
                                    }
                                }
                            }
                            lemma_forges_frame(pre, post);
                            lemma_repos_frame(pre, post);
                            lemma_challenges_frame(pre, post);
                            lemma_forge_exists_congruence(pre, post);
                            assert forall|i: int|
                                0 <= i < post.users@.len() implies post.spec_forge_exists(
                                (#[trigger] post.users@[i]).hostname@,
                            ) by {
                                if i < len {
                                    assert(post.users@[i] == pre.users@[i]);
                                    assert(pre.spec_forge_exists(pre.users@[i].hostname@));
                                } else {
                                    assert(pre.spec_forge_exists(msg.hostname@));
                                }
                            }
                            assert forall|i: int|
                                0 <= i < post.repositories@.len() implies post.spec_forge_exists(
                                (#[trigger] post.repositories@[i]).hostname@,
                            ) by {
                                assert(pre.spec_forge_exists(pre.repositories@[i].hostname@));
                            }
                        }
                        Ok(())
                    },
                }
            },
        }
    }

    /// Whether a user named `username` exists: under the given hostname
    /// when one is supplied, under any forge instance when none is.
    pub fn user_exists(&self, username: &String, hostname: Option<&String>) -> (r: Result<
        bool,
        DBError,
    >)
        ensures
            (match hostname {
                Option::Some(h) => r == Ok::<bool, DBError>(self.spec_user_exists(username@, h@)),
                Option::None => r == Ok::<bool, DBError>(self.spec_user_exists_any(username@)),
            }),
    {
        match hostname {
            Option::Some(h) => {
                match self.find_user(username, h) {
                    Option::Some(i) => {
                        proof {
                            assert(self.spec_user_exists(username@, h@));
                        }
                        Ok(true)
                    },
                    Option::None => Ok(false),
                }
            },
            Option::None => {
                match self.find_user_any(username) {
                    Option::Some(i) => {
                        proof {
                            assert(self.spec_user_exists(
                                username@,
                                self.users@[i as int].hostname@,
                            ));
                        }
                        Ok(true)
                    },
                    Option::None => Ok(false),
                }
            },
        }
    }

    /// Remove a user.
    pub fn delete_user(&mut self, username: &String, hostname: &String) -> (r: Result<
        (),
        DBError,
    >)
        requires
            old(self).wf(),
        ensures
            final(self).wf(),
            delete_user_transition(*old(self), *final(self), username@, hostname@, r),
    {
        match self.find_user(username, hostname) {
            Option::None => Err(DBError::NotFound),
            Option::Some(i) => {
                proof {
                    assert(self.spec_user_exists(username@, hostname@));
                }
                let _removed = self.users.remove(i);
                proof {
                    let pre = *old(self);
                    let post = *self;
                    let idx = i as int;
                    assert forall|a: int, b: int|
                        #![trigger post.users@[a], post.users@[b]]
                        0 <= a < b < post.users@.len() implies !(post.users@[a].username@
                        == post.users@[b].username@ && post.users@[a].hostname@
                        == post.users@[b].hostname@) by {
                        let a2: int = if a < idx { a } else { a + 1 };
                        let b2: int = if b < idx { b } else { b + 1 };
                        assert(post.users@[a] == pre.users@[a2]);
                        assert(post.users@[b] == pre.users@[b2]);
                    }
                    assert(!post.spec_user_exists(username@, hostname@)) by {
                        if post.spec_user_exists(username@, hostname@) {
                            let k = choose|k: int|
                                0 <= k < post.users@.len() && post.users@[k].username@ == username@
                                    && post.users@[k].hostname@ == hostname@;
                            let k2: int = if k < idx { k } else { k + 1 };
                            assert(pre.users@[k2].username@ == username@ && pre.users@[k2].hostname@
                                == hostname@);
                            if k2 < idx {
                                assert(!(pre.users@[k2].username@ == pre.users@[idx].username@
                                    && pre.users@[k2].hostname@ == pre.users@[idx].hostname@));
                            } else {
                                assert(!(pre.users@[idx].username@ == pre.users@[k2].username@
                                    && pre.users@[idx].hostname@ == pre.users@[k2].hostname@));
                            }
                        }
                    }
                    assert forall|u2: Seq<char>, h2: Seq<char>|
                        !(u2 == username@ && h2 == hostname@) implies #[trigger] post.user_view(
                        u2,
                        h2,
                    ) == pre.user_view(u2, h2) by {
                        if pre.spec_user_exists(u2, h2) {
                            let k = choose|k: int|
                                0 <= k < pre.users@.len() && pre.users@[k].username@ == u2
                                    && pre.users@[k].hostname@ == h2;
                            assert(k != idx);
                            let k2: int = if k < idx { k } else { k - 1 };
                            assert(post.users@[k2] == pre.users@[k]);
                            pre.lemma_user_view_some(u2, h2, k);
                            post.lemma_user_view_some(u2, h2, k2);
                        } else {
                            assert(!post.spec_user_exists(u2, h2)) by {
                                if post.spec_user_exists(u2, h2) {
                                    let k = choose|k: int|
                                        0 <= k < post.users@.len() && post.users@[k].username@ == u2
                                            && post.users@[k].hostname@ == h2;
                                    let k2: int = if k < idx { k } else { k + 1 };
                                    assert(pre.users@[k2].username@ == u2
                                        && pre.users@[k2].hostname@ == h2);
                                }
                            }
                        }
                    }
                    lemma_forges_frame(pre, post);
                    lemma_repos_frame(pre, post);
                    lemma_challenges_frame(pre, post);
                    lemma_forge_exists_congruence(pre, post);
                    assert forall|j: int|
                        0 <= j < post.users@.len() implies post.spec_forge_exists(
                        (#[trigger] post.users@[j]).hostname@,
                    ) by {
                        let j2: int = if j < idx { j } else { j + 1 };
                        assert(post.users@[j] == pre.users@[j2]);
                        assert(pre.spec_forge_exists(pre.users@[j2].hostname@));
                    }
                    assert forall|j: int|
                        0 <= j < post.repositories@.len() implies post.spec_forge_exists(
                        (#[trigger] post.repositories@[j]).hostname@,
                    ) by {
                        assert(pre.spec_forge_exists(pre.repositories@[j].hostname@));
                    }
                }
                Ok(())
            },
        }
    }

    /// Add a repository owned by an existing user.
    pub fn create_repository(&mut self, msg: &AddRepository) -> (r: Result<(), DBError>)
        requires
            old(self).wf(),
        ensures
            final(self).wf(),
            create_repo_transition(
                *old(self),
                *final(self),
                msg.hostname@,
                msg.owner@,
                msg.name@,
                msg.html_link@,
                tag_set(msg.tags),
                opt_view(msg.website),
                opt_view(msg.description),
                r,
            ),
    {
        match self.find_user(&msg.owner, &msg.hostname) {
            Option::None => Err(DBError::ReferenceError),
            Option::Some(u) => {
                proof {
                    assert(self.spec_user_exists(msg.owner@, msg.hostname@));
                }
                match self.find_repo(&msg.owner, &msg.name, &msg.hostname) {
                    Option::Some(i) => {
                        proof {
                            assert(self.spec_repo_exists(msg.owner@, msg.name@, msg.hostname@));
                        }
                        Err(DBError::Conflict)
                    },
                    Option::None => {
                        let entry = AddRepository {
                            hostname: msg.hostname.clone(),
                            owner: msg.owner.clone(),
                            name: msg.name.clone(),
                            html_link: msg.html_link.clone(),
                            tags: clone_tags(&msg.tags),
                            website: clone_opt_string(&msg.website),
                            description: clone_opt_string(&msg.description),
                        };
                        self.repositories.push(entry);
                        proof {
                            let pre = *old(self);
                            let post = *self;
                            let len = pre.repositories@.len() as int;
                            assert forall|i: int, j: int|
                                #![trigger post.repositories@[i], post.repositories@[j]]
                                0 <= i < j < post.repositories@.len() implies !(
                            post.repositories@[i].owner@ == post.repositories@[j].owner@
                                && post.repositories@[i].name@ == post.repositories@[j].name@
                                && post.repositories@[i].hostname@
                                == post.repositories@[j].hostname@) by {
                                if j < len {
                                    assert(post.repositories@[i] == pre.repositories@[i]);
                                    assert(post.repositories@[j] == pre.repositories@[j]);
                                } else {
                                    assert(post.repositories@[i] == pre.repositories@[i]);
                                    assert(!pre.spec_repo_exists(
                                        msg.owner@,
                                        msg.name@,
                                        msg.hostname@,
                                    ));
                                }
                            }
                            post.lemma_repo_view_some(msg.owner@, msg.name@, msg.hostname@, len);
                            assert forall|o2: Seq<char>, n2: Seq<char>, h2: Seq<char>|
                                !(o2 == msg.owner@ && n2 == msg.name@ && h2
                                == msg.hostname@) implies #[trigger] post.repo_view(o2, n2, h2)
                                == pre.repo_view(o2, n2, h2) by {
                                if pre.spec_repo_exists(o2, n2, h2) {
                                    let k = choose|k: int|
                                        0 <= k < pre.repositories@.len()
                                            && pre.repositories@[k].owner@ == o2
                                            && pre.repositories@[k].name@ == n2
                                            && pre.repositories@[k].hostname@ == h2;
                                    assert(post.repositories@[k] == pre.repositories@[k]);
                                    pre.lemma_repo_view_some(o2, n2, h2, k);
                                    post.lemma_repo_view_some(o2, n2, h2, k);
                                } else {
                                    assert(!post.spec_repo_exists(o2, n2, h2)) by {
                                        if post.spec_repo_exists(o2, n2, h2) {
                                            let k = choose|k: int|
                                                0 <= k < post.repositories@.len()
                                                    && post.repositories@[k].owner@ == o2
                                                    && post.repositories@[k].name@ == n2
                                                    && post.repositories@[k].hostname@ == h2;
                                            assert(k < len);
                                            assert(pre.repositories@[k].owner@ == o2
                                                && pre.repositories@[k].name@ == n2
                                                && pre.repositories@[k].hostname@ == h2);
                                        }
                                    }
                                }
                            }
                            lemma_forges_frame(pre, post);
                            lemma_users_frame(pre, post);
                            lemma_challenges_frame(pre, post);
                            lemma_forge_exists_congruence(pre, post);
                            assert forall|j: int|
                                0 <= j < post.users@.len() implies post.spec_forge_exists(
                                (#[trigger] post.users@[j]).hostname@,
                            ) by {
                                assert(pre.spec_forge_exists(pre.users@[j].hostname@));
                            }
                            assert forall|j: int|
                                0 <= j < post.repositories@.len() implies post.spec_forge_exists(
                                (#[trigger] post.repositories@[j]).hostname@,
                            ) by {
                                if j < len {
                                    assert(post.repositories@[j] == pre.repositories@[j]);
                                    assert(pre.spec_forge_exists(pre.repositories@[j].hostname@));
                                } else {
                                    let k = choose|k: int|
                                        0 <= k < pre.users@.len() && pre.users@[k].username@
                                            == msg.owner@ && pre.users@[k].hostname@
                                            == msg.hostname@;
                                    assert(pre.spec_forge_exists(pre.users@[k].hostname@));
                                }
                            }
                        }
                        Ok(())
                    },
                }
            },
        }
    }

    /// Whether a repository (owner, name) exists under `hostname`.
    pub fn repository_exists(&self, name: &String, owner: &String, hostname: &String) -> (r:
        Result<bool, DBError>)
        ensures
            r == Ok::<bool, DBError>(self.spec_repo_exists(owner@, name@, hostname@)),
    {
        match self.find_repo(owner, name, hostname) {
            Option::Some(i) => {
                proof {
                    assert(self.spec_repo_exists(owner@, name@, hostname@));
                }
                Ok(true)
            },
            Option::None => Ok(false),
        }
    }

    /// Remove a repository.
    pub fn delete_repository(&mut self, owner: &String, name: &String, hostname: &String) -> (r:
        Result<(), DBError>)
        requires
            old(self).wf(),
        ensures
            final(self).wf(),
            delete_repo_transition(*old(self), *final(self), owner@, name@, hostname@, r),
    {
        match self.find_repo(owner, name, hostname) {
            Option::None => Err(DBError::NotFound),
            Option::Some(i) => {
                proof {
                    assert(self.spec_repo_exists(owner@, name@, hostname@));
                }
                let _removed = self.repositories.remove(i);
                proof {
                    let pre = *old(self);
                    let post = *self;
                    let idx = i as int;
                    assert forall|a: int, b: int|
                        #![trigger post.repositories@[a], post.repositories@[b]]
                        0 <= a < b < post.repositories@.len() implies !(
                    post.repositories@[a].owner@ == post.repositories@[b].owner@
                        && post.repositories@[a].name@ == post.repositories@[b].name@
                        && post.repositories@[a].hostname@ == post.repositories@[b].hostname@) by {
                        let a2: int = if a < idx { a } else { a + 1 };
                        let b2: int = if b < idx { b } else { b + 1 };
                        assert(post.repositories@[a] == pre.repositories@[a2]);
                        assert(post.repositories@[b] == pre.repositories@[b2]);
                    }
                    assert(!post.spec_repo_exists(owner@, name@, hostname@)) by {
                        if post.spec_repo_exists(owner@, name@, hostname@) {
                            let k = choose|k: int|
                                0 <= k < post.repositories@.len() && post.repositories@[k].owner@
                                    == owner@ && post.repositories@[k].name@ == name@
                                    && post.repositories@[k].hostname@ == hostname@;
                            let k2: int = if k < idx { k } else { k + 1 };
                            assert(pre.repositories@[k2].owner@ == owner@
                                && pre.repositories@[k2].name@ == name@
                                && pre.repositories@[k2].hostname@ == hostname@);
                            if k2 < idx {
                                assert(!(pre.repositories@[k2].owner@
                                    == pre.repositories@[idx].owner@ && pre.repositories@[k2].name@
                                    == pre.repositories@[idx].name@
                                    && pre.repositories@[k2].hostname@
                                    == pre.repositories@[idx].hostname@));
                            } else {
                                assert(!(pre.repositories@[idx].owner@
                                    == pre.repositories@[k2].owner@ && pre.repositories@[idx].name@
                                    == pre.repositories@[k2].name@
                                    && pre.repositories@[idx].hostname@
                                    == pre.repositories@[k2].hostname@));
                            }
                        }
                    }
                    assert forall|o2: Seq<char>, n2: Seq<char>, h2: Seq<char>|
                        !(o2 == owner@ && n2 == name@ && h2 == hostname@) implies #[trigger] post.repo_view(o2, n2, h2) == pre.repo_view(o2, n2, h2) by {
                        if pre.spec_repo_exists(o2, n2, h2) {
                            let k = choose|k: int|
                                0 <= k < pre.repositories@.len() && pre.repositories@[k].owner@
                                    == o2 && pre.repositories@[k].name@ == n2
                                    && pre.repositories@[k].hostname@ == h2;
                            assert(k != idx);
                            let k2: int = if k < idx { k } else { k - 1 };
                            assert(post.repositories@[k2] == pre.repositories@[k]);
                            pre.lemma_repo_view_some(o2, n2, h2, k);
                            post.lemma_repo_view_some(o2, n2, h2, k2);
                        } else {
                            assert(!post.spec_repo_exists(o2, n2, h2)) by {
                                if post.spec_repo_exists(o2, n2, h2) {
                                    let k = choose|k: int|
                                        0 <= k < post.repositories@.len()
                                            && post.repositories@[k].owner@ == o2
                                            && post.repositories@[k].name@ == n2
                                            && post.repositories@[k].hostname@ == h2;
                                    let k2: int = if k < idx { k } else { k + 1 };
                                    assert(pre.repositories@[k2].owner@ == o2
                                        && pre.repositories@[k2].name@ == n2
                                        && pre.repositories@[k2].hostname@ == h2);
                                }
                            }
                        }
                    }
                    lemma_forges_frame(pre, post);
                    lemma_users_frame(pre, post);
                    lemma_challenges_frame(pre, post);
                    lemma_forge_exists_congruence(pre, post);
                    assert forall|j: int|
                        0 <= j < post.users@.len() implies post.spec_forge_exists(
                        (#[trigger] post.users@[j]).hostname@,
                    ) by {
                        assert(pre.spec_forge_exists(pre.users@[j].hostname@));
                    }
                    assert forall|j: int|
                        0 <= j < post.repositories@.len() implies post.spec_forge_exists(
                        (#[trigger] post.repositories@[j]).hostname@,
                    ) by {
                        let j2: int = if j < idx { j } else { j + 1 };
                        assert(post.repositories@[j] == pre.repositories@[j2]);
                        assert(pre.spec_forge_exists(pre.repositories@[j2].hostname@));
                    }
                }
                Ok(())
            },
        }
    }

    /// Store a DNS challenge.  Re-storing the identical value under an
    /// occupied key is a no-op success; a different value is a
    /// `Conflict`.
    pub fn create_dns_challenge(&mut self, challenge: &Challenge) -> (r: Result<(), DBError>)
        requires
            old(self).wf(),
        ensures
            final(self).wf(),
            create_challenge_transition(
                *old(self),
                *final(self),
                challenge.key@,
                challenge.value@,
                challenge.hostname@,
                r,
            ),
    {
        match self.find_challenge(&challenge.key) {
            Option::Some(i) => {
                proof {
                    self.lemma_challenge_view_some(challenge.key@, i as int);
                }
                if self.challenges[i].value == challenge.value {
                    Ok(())
                } else {
                    Err(DBError::Conflict)
                }
            },
            Option::None => {
                let entry = Challenge {
                    key: challenge.key.clone(),
                    value: challenge.value.clone(),
                    hostname: challenge.hostname.clone(),
                };
                self.challenges.push(entry);
                proof {
                    let pre = *old(self);
                    let post = *self;
                    let len = pre.challenges@.len() as int;
                    assert forall|i: int, j: int|
                        #![trigger post.challenges@[i], post.challenges@[j]]
                        0 <= i < j < post.challenges@.len() implies post.challenges@[i].key@
                        != post.challenges@[j].key@ by {
                        if j < len {
                            assert(post.challenges@[i] == pre.challenges@[i]);
                            assert(post.challenges@[j] == pre.challenges@[j]);
                        } else {
                            assert(post.challenges@[i] == pre.challenges@[i]);
                            assert(!pre.spec_challenge_exists(challenge.key@));
                        }
                    }
                    post.lemma_challenge_view_some(challenge.key@, len);
                    assert forall|k2: Seq<char>| k2 != challenge.key@ implies #[trigger] post.challenge_view(k2) == pre.challenge_view(k2) by {
                        if pre.spec_challenge_exists(k2) {
                            let k = choose|k: int|
                                0 <= k < pre.challenges@.len() && pre.challenges@[k].key@ == k2;
                            assert(post.challenges@[k] == pre.challenges@[k]);
                            pre.lemma_challenge_view_some(k2, k);
                            post.lemma_challenge_view_some(k2, k);
                        } else {
                            assert(!post.spec_challenge_exists(k2)) by {
                                if post.spec_challenge_exists(k2) {
                                    let k = choose|k: int|
                                        0 <= k < post.challenges@.len() && post.challenges@[k].key@
                                            == k2;
                                    assert(k < len);
                                    assert(pre.challenges@[k].key@ == k2);
                                }
                            }
                        }
                    }
                    lemma_forges_frame(pre, post);
                    lemma_users_frame(pre, post);
                    lemma_repos_frame(pre, post);
                    lemma_refs_frame(pre, post);
                }
                Ok(())
            },
        }
    }

    /// Whether a challenge is stored under `key`.
    pub fn dns_challenge_exists(&self, key: &String) -> (r: Result<bool, DBError>)
        ensures
            r == Ok::<bool, DBError>(self.spec_challenge_exists(key@)),
    {
        match self.find_challenge(key) {
            Option::Some(i) => {
                proof {
                    assert(self.spec_challenge_exists(key@));
                }
                Ok(true)
            },
            Option::None => Ok(false),
        }
    }

    /// Fetch the challenge stored under `key`.
    pub fn get_dns_challenge(&self, key: &String) -> (r: Result<Challenge, DBError>)
        requires
            self.wf(),
        ensures
            (match self.challenge_view(key@) {
                Option::Some(rec) => r matches Ok(c) && c.key@ == key@ && c.value@ == rec.value
                    && c.hostname@ == rec.hostname,
                Option::None => r == Err::<Challenge, DBError>(DBError::NotFound),
            }),
    {
        match self.find_challenge(key) {
            Option::None => Err(DBError::NotFound),
            Option::Some(i) => {
                proof {
                    self.lemma_challenge_view_some(key@, i as int);
                }
                Ok(
                    Challenge {
                        key: key.clone(),
                        value: self.challenges[i].value.clone(),
                        hostname: self.challenges[i].hostname.clone(),
                    },
                )
            },
        }
    }

    /// Remove the challenge stored under `key`.  Idempotent: succeeds
    /// whether or not the key was present, and afterwards
    /// `dns_challenge_exists(key)` answers false — deletion is terminal.
    pub fn delete_dns_challenge(&mut self, key: &String) -> (r: Result<(), DBError>)
        requires
            old(self).wf(),
        ensures
            final(self).wf(),
            delete_challenge_transition(*old(self), *final(self), key@, r),
    {
        match self.find_challenge(key) {
            Option::None => Ok(()),
            Option::Some(i) => {
                let _removed = self.challenges.remove(i);
                proof {
                    let pre = *old(self);
                    let post = *self;
                    let idx = i as int;
                    assert forall|a: int, b: int|
                        #![trigger post.challenges@[a], post.challenges@[b]]
                        0 <= a < b < post.challenges@.len() implies post.challenges@[a].key@
                        != post.challenges@[b].key@ by {
                        let a2: int = if a < idx { a } else { a + 1 };
                        let b2: int = if b < idx { b } else { b + 1 };
                        assert(post.challenges@[a] == pre.challenges@[a2]);
                        assert(post.challenges@[b] == pre.challenges@[b2]);
                    }
                    assert(!post.spec_challenge_exists(key@)) by {
                        if post.spec_challenge_exists(key@) {
                            let k = choose|k: int|
                                0 <= k < post.challenges@.len() && post.challenges@[k].key@ == key@;
                            let k2: int = if k < idx { k } else { k + 1 };
                            assert(pre.challenges@[k2].key@ == key@);
                            if k2 < idx {
                                assert(pre.challenges@[k2].key@ != pre.challenges@[idx].key@);
                            } else {
                                assert(pre.challenges@[idx].key@ != pre.challenges@[k2].key@);
                            }
                        }
                    }
                    assert forall|k2: Seq<char>| k2 != key@ implies #[trigger] post.challenge_view(
                        k2,
                    ) == pre.challenge_view(k2) by {
                        if pre.spec_challenge_exists(k2) {
                            let k = choose|k: int|
                                0 <= k < pre.challenges@.len() && pre.challenges@[k].key@ == k2;
                            assert(k != idx);
                            let kk: int = if k < idx { k } else { k - 1 };
                            assert(post.challenges@[kk] == pre.challenges@[k]);
                            pre.lemma_challenge_view_some(k2, k);
                            post.lemma_challenge_view_some(k2, kk);
                        } else {
                            assert(!post.spec_challenge_exists(k2)) by {
                                if post.spec_challenge_exists(k2) {
                                    let k = choose|k: int|
                                        0 <= k < post.challenges@.len() && post.challenges@[k].key@
                                            == k2;
                                    let kk: int = if k < idx { k } else { k + 1 };
                                    assert(pre.challenges@[kk].key@ == k2);
                                }
                            }
                        }
                    }
                    lemma_forges_frame(pre, post);
                    lemma_users_frame(pre, post);
                    lemma_repos_frame(pre, post);
                    lemma_refs_frame(pre, post);
                }
                Ok(())
            },
        }
    }
}

impl Store {
    /// The hostnames of all registered forge instances, each exactly
    /// once.
    pub fn export_forges(&self) -> (r: Vec<String>)
        requires
            self.wf(),
        ensures
            forall|j: int| 0 <= j < r@.len() ==> self.spec_forge_exists((#[trigger] r@[j])@),
            forall|h: Seq<char>| #[trigger] self.spec_forge_exists(h) ==> exists|j: int|
                0 <= j < r@.len() && r@[j]@ == h,
            forall|i: int, j: int|
                #![trigger r@[i], r@[j]]
                0 <= i < j < r@.len() ==> r@[i]@ != r@[j]@,
    {
        let mut out: Vec<String> = Vec::new();
        let mut i: usize = 0;
        while i < self.forges.len()
            invariant
                i <= self.forges@.len(),
                out@.len() == i,
                forall|j: int| 0 <= j < i ==> (#[trigger] out@[j])@ == self.forges@[j].hostname@,
            decreases self.forges@.len() - i,
        {
            out.push(self.forges[i].hostname.clone());
            i = i + 1;
        }
        proof {
            assert forall|h: Seq<char>| #[trigger] self.spec_forge_exists(h) implies exists|j: int|
                0 <= j < out@.len() && out@[j]@ == h by {
                let k = choose|k: int|
                    0 <= k < self.forges@.len() && self.forges@[k].hostname@ == h;
                assert(out@[k]@ == h);
            }
            assert forall|j: int|
                0 <= j < out@.len() implies self.spec_forge_exists((#[trigger] out@[j])@) by {
                assert(self.forges@[j].hostname@ == out@[j]@);
            }
        }
        out
    }

    /// The (hostname, username) pairs of all users, each exactly once.
    pub fn export_users(&self) -> (r: Vec<(String, String)>)
        requires
            self.wf(),
        ensures
            forall|j: int| 0 <= j < r@.len() ==> self.spec_user_exists(
                (#[trigger] r@[j]).1@,
                r@[j].0@,
            ),
            forall|u: Seq<char>, h: Seq<char>| #[trigger] self.spec_user_exists(u, h)
                ==> exists|j: int| 0 <= j < r@.len() && r@[j].0@ == h && r@[j].1@ == u,
            forall|i: int, j: int|
                #![trigger r@[i], r@[j]]
                0 <= i < j < r@.len() ==> !(r@[i].0@ == r@[j].0@ && r@[i].1@ == r@[j].1@),
    {
        let mut out: Vec<(String, String)> = Vec::new();
        let mut i: usize = 0;
        while i < self.users.len()
            invariant
                i <= self.users@.len(),
                out@.len() == i,
                forall|j: int| 0 <= j < i ==> (#[trigger] out@[j]).0@ == self.users@[j].hostname@
                    && out@[j].1@ == self.users@[j].username@,
            decreases self.users@.len() - i,
        {
            out.push((self.users[i].hostname.clone(), self.users[i].username.clone()));
            i = i + 1;
        }
        proof {
            assert forall|u: Seq<char>, h: Seq<char>| #[trigger] self.spec_user_exists(
                u,
                h,
            ) implies exists|j: int| 0 <= j < out@.len() && out@[j].0@ == h && out@[j].1@
                == u by {
                let k = choose|k: int|
                    0 <= k < self.users@.len() && self.users@[k].username@ == u
                        && self.users@[k].hostname@ == h;
                assert(out@[k].0@ == h && out@[k].1@ == u);
            }
            assert forall|j: int|
                0 <= j < out@.len() implies self.spec_user_exists(
                (#[trigger] out@[j]).1@,
                out@[j].0@,
            ) by {
                assert(self.users@[j].username@ == out@[j].1@ && self.users@[j].hostname@
                    == out@[j].0@);
            }
        }
        out
    }

    /// The (hostname, owner, name) triples of all repositories, each
    /// exactly once.
    pub fn export_repositories(&self) -> (r: Vec<(String, String, String)>)
        requires
            self.wf(),
        ensures
            forall|j: int| 0 <= j < r@.len() ==> self.spec_repo_exists(
                (#[trigger] r@[j]).1@,
                r@[j].2@,
                r@[j].0@,
            ),
            forall|o: Seq<char>, n: Seq<char>, h: Seq<char>| #[trigger] self.spec_repo_exists(
                o,
                n,
                h,
            ) ==> exists|j: int|
                0 <= j < r@.len() && r@[j].0@ == h && r@[j].1@ == o && r@[j].2@ == n,
            forall|i: int, j: int|
                #![trigger r@[i], r@[j]]
                0 <= i < j < r@.len() ==> !(r@[i].0@ == r@[j].0@ && r@[i].1@ == r@[j].1@
                    && r@[i].2@ == r@[j].2@),
    {
        let mut out: Vec<(String, String, String)> = Vec::new();
        let mut i: usize = 0;
        while i < self.repositories.len()
            invariant
                i <= self.repositories@.len(),
                out@.len() == i,
                forall|j: int| 0 <= j < i ==> (#[trigger] out@[j]).0@
                    == self.repositories@[j].hostname@ && out@[j].1@ == self.repositories@[j].owner@
                    && out@[j].2@ == self.repositories@[j].name@,
            decreases self.repositories@.len() - i,
        {
            out.push(
                (
                    self.repositories[i].hostname.clone(),
                    self.repositories[i].owner.clone(),
                    self.repositories[i].name.clone(),
                ),
            );
            i = i + 1;
        }
        proof {
            assert forall|o: Seq<char>, n: Seq<char>, h: Seq<char>| #[trigger] self.spec_repo_exists(
                o,
                n,
                h,
            ) implies exists|j: int|
                0 <= j < out@.len() && out@[j].0@ == h && out@[j].1@ == o && out@[j].2@ == n by {
                let k = choose|k: int|
                    0 <= k < self.repositories@.len() && self.repositories@[k].owner@ == o
                        && self.repositories@[k].name@ == n && self.repositories@[k].hostname@
                        == h;
                assert(out@[k].0@ == h && out@[k].1@ == o && out@[k].2@ == n);
            }
            assert forall|j: int|
                0 <= j < out@.len() implies self.spec_repo_exists(
                (#[trigger] out@[j]).1@,
                out@[j].2@,
                out@[j].0@,
            ) by {
                assert(self.repositories@[j].owner@ == out@[j].1@ && self.repositories@[j].name@
                    == out@[j].2@ && self.repositories@[j].hostname@ == out@[j].0@);
            }
        }
        out
    }
}

/// A forge instance is registered under `h` exactly when the store
/// holds a record for `h`.
pub proof fn lemma_forge_exists_iff(s: Store, h: Seq<char>)
    ensures
        s.spec_forge_exists(h) <==> s.forge_view(h) is Some,
{
}

/// A user exists under (`u`, `h`) exactly when the store holds a record
/// for that pair.
pub proof fn lemma_user_exists_iff(s: Store, u: Seq<char>, h: Seq<char>)
    ensures
        s.spec_user_exists(u, h) <==> s.user_view(u, h) is Some,
{
}

/// A repository exists under (`owner`, `name`, `h`) exactly when the
/// store holds a record for that triple.
pub proof fn lemma_repo_exists_iff(s: Store, owner: Seq<char>, name: Seq<char>, h: Seq<char>)
    ensures
        s.spec_repo_exists(owner, name, h) <==> s.repo_view(owner, name, h) is Some,
{
}

/// A challenge exists under `k` exactly when the store holds a record
/// for `k`.
pub proof fn lemma_challenge_exists_iff(s: Store, k: Seq<char>)
    ensures
        s.spec_challenge_exists(k) <==> s.challenge_view(k) is Some,
{
}

/// A username exists globally exactly when it exists under some
/// hostname; the scoped lookup answers membership under exactly that
/// hostname.
pub proof fn lemma_user_exists_global(s: Store, u: Seq<char>)
    ensures
        s.spec_user_exists_any(u) <==> exists|h: Seq<char>| s.spec_user_exists(u, h),
{
}

proof fn lemma_no_forge_no_user(s: Store, u: Seq<char>, h: Seq<char>)
    requires
        s.users_reference_forges(),
        !s.spec_forge_exists(h),
    ensures
        !s.spec_user_exists(u, h),
{
    if s.spec_user_exists(u, h) {
        let i = choose|i: int|
            0 <= i < s.users@.len() && s.users@[i].username@ == u && s.users@[i].hostname@ == h;
        assert(s.spec_forge_exists(s.users@[i].hostname@));
    }
}

proof fn lemma_no_forge_no_repo(s: Store, o: Seq<char>, n: Seq<char>, h: Seq<char>)
    requires
        s.repos_reference_forges(),
        !s.spec_forge_exists(h),
    ensures
        !s.spec_repo_exists(o, n, h),
{
    if s.spec_repo_exists(o, n, h) {
        let i = choose|i: int|
            0 <= i < s.repositories@.len() && s.repositories@[i].owner@ == o
                && s.repositories@[i].name@ == n && s.repositories@[i].hostname@ == h;
        assert(s.spec_forge_exists(s.repositories@[i].hostname@));
    }
}

/// Drive a fresh forge instance through its whole lifecycle: register
/// it, add two users, look them up globally and scoped, add a
/// repository, then tear the repository and both users down again.
/// Every outcome along the way is proved rather than checked at run
/// time.
pub fn adding_forge_works(
    db: &mut Store,
    create_forge_msg: &CreateForge,
    add_user_msg: &AddUser,
    add_user_msg2: &AddUser,
    add_repo_msg: &AddRepository,
)
    requires
        old(db).wf(),
        !old(db).spec_forge_exists(create_forge_msg.hostname@),
        old(db).spec_forge_type_exists(create_forge_msg.forge_type),
        add_user_msg.hostname@ == create_forge_msg.hostname@,
        add_user_msg2.hostname@ == create_forge_msg.hostname@,
        add_user_msg.username@ != add_user_msg2.username@,
        add_repo_msg.hostname@ == create_forge_msg.hostname@,
        add_repo_msg.owner@ == add_user_msg.username@,
    ensures
        final(db).wf(),
        final(db).spec_forge_exists(create_forge_msg.hostname@),
        !final(db).spec_user_exists(add_user_msg.username@, create_forge_msg.hostname@),
        !final(db).spec_user_exists(add_user_msg2.username@, create_forge_msg.hostname@),
        !final(db).spec_repo_exists(
            add_repo_msg.owner@,
            add_repo_msg.name@,
            create_forge_msg.hostname@,
        ),
{
    let ghost h = create_forge_msg.hostname@;
    let ghost u1 = add_user_msg.username@;
    let ghost u2 = add_user_msg2.username@;
    proof {
        lemma_no_forge_no_user(*old(db), u1, h);
        lemma_no_forge_no_user(*old(db), u2, h);
        lemma_no_forge_no_repo(*old(db), add_repo_msg.owner@, add_repo_msg.name@, h);
    }
    let _cleanup = db.delete_forge_instance(&create_forge_msg.hostname);
    db.create_forge_instance(create_forge_msg).unwrap();
    let forge_there = db.forge_exists(&create_forge_msg.hostname).unwrap();
    assert(forge_there);

    // add both users
    db.add_user(add_user_msg).unwrap();
    db.add_user(add_user_msg2).unwrap();
    // verify the first user exists, globally and under this forge
    proof {
        assert(db.user_view(u1, h) is Some);
        assert(db.spec_user_exists(u1, h));
    }
    let user_anywhere = db.user_exists(&add_user_msg.username, Option::None).unwrap();
    assert(user_anywhere);
    let user_here = db.user_exists(
        &add_user_msg.username,
        Option::Some(&add_user_msg.hostname),
    ).unwrap();
    assert(user_here);

    // add the repository and verify it exists
    db.create_repository(add_repo_msg).unwrap();
    let repo_there = db.repository_exists(
        &add_repo_msg.name,
        &add_repo_msg.owner,
        &add_repo_msg.hostname,
    ).unwrap();
    assert(repo_there);
    // delete it again and verify the absence
    db.delete_repository(&add_repo_msg.owner, &add_repo_msg.name, &add_repo_msg.hostname).unwrap();
    let repo_still = db.repository_exists(
        &add_repo_msg.name,
        &add_repo_msg.owner,
        &add_repo_msg.hostname,
    ).unwrap();
    assert(!repo_still);

    // delete both users and verify the absence of each
    db.delete_user(&add_user_msg.username, &add_user_msg.hostname).unwrap();
    let user_still = db.user_exists(
        &add_user_msg.username,
        Option::Some(&add_user_msg.hostname),
    ).unwrap();
    assert(!user_still);
    db.delete_user(&add_user_msg2.username, &add_user_msg2.hostname).unwrap();
    let user2_still = db.user_exists(
        &add_user_msg2.username,
        Option::Some(&add_user_msg2.hostname),
    ).unwrap();
    assert(!user2_still);
    proof {
        assert(db.forge_view(h) is Some);
        assert(db.spec_forge_exists(h));
        assert(db.user_view(u1, h) is None);
        assert(db.repo_view(add_repo_msg.owner@, add_repo_msg.name@, h) is None);
    }
}

/// Check that every supported forge implementation was seeded into the
/// store.
pub fn forge_type_exists_helper(db: &Store)
    requires
        db.spec_forge_type_exists(ForgeImplementation::Gitea),
{
    let seeded = db.forge_type_exists(&ForgeImplementation::Gitea).unwrap();
    assert(seeded);
}

/// After adding a fresh repository under an existing owner it exists;
/// after deleting it again it does not.  Creation and deletion are a
/// round trip.
pub proof fn lemma_repository_round_trip(
    s0: Store,
    s1: Store,
    s2: Store,
    h: Seq<char>,
    owner: Seq<char>,
    name: Seq<char>,
    link: Seq<char>,
    tags: Set<Seq<char>>,
    website: Option<Seq<char>>,
    description: Option<Seq<char>>,
    r1: Result<(), DBError>,
    r2: Result<(), DBError>,
)
    requires
        s0.spec_user_exists(owner, h),
        !s0.spec_repo_exists(owner, name, h),
        create_repo_transition(s0, s1, h, owner, name, link, tags, website, description, r1),
        delete_repo_transition(s1, s2, owner, name, h, r2),
    ensures
        r1 is Ok,
        r2 is Ok,
        s1.spec_repo_exists(owner, name, h),
        !s2.spec_repo_exists(owner, name, h),
{
    assert(r1 is Ok);
    assert(s1.repo_view(owner, name, h) is Some);
    assert(s1.spec_repo_exists(owner, name, h)) by {
        if !s1.spec_repo_exists(owner, name, h) {
            assert(s1.repo_view(owner, name, h) is None);
        }
    }
    assert(r2 is Ok);
    assert(s2.repo_view(owner, name, h) is None);
    assert(!s2.spec_repo_exists(owner, name, h)) by {
        if s2.spec_repo_exists(owner, name, h) {
            assert(s2.repo_view(owner, name, h) is Some);
        }
    }
}

} // verus!
