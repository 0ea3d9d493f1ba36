//! The federation exporter: a mirror of persisted state, bundled for
//! peer registries.
//!
//! The export tree is a derived cache of the persistence layer, never a
//! source of truth: it records which forge instances, users and
//! repositories have an entry, and can always be rebuilt by replaying
//! the store's current contents.  Callers are expected to invoke the
//! exporter beside every persistence mutation.  All operations are safe
//! to repeat: creating an entry that exists and removing one that does
//! not are no-ops.  Removing a forge entry while user or repository
//! entries still exist under it is rejected, mirroring the persistence
//! layer's deletion policy.

use vstd::prelude::*;
use vstd::string::StringExecFns;

use crate::db::Store;
use crate::errors::FedError;
use crate::models::AddRepository;
use crate::models::AddUser;
use crate::models::CreateForge;

verus! {

/// The contents of a produced bundle: the entries the export tree held
/// at the moment the bundle was made.
pub struct TreeSnapshot {
    pub dirs: Set<Seq<char>>,
    pub forges: Set<Seq<char>>,
    pub users: Set<(Seq<char>, Seq<char>)>,
    pub repos: Set<(Seq<char>, Seq<char>, Seq<char>)>,
}

/// Capability interface of the federation exporter.  Any backing
/// implementation mirrors the persistence layer's mutation surface into
/// an export tree and can bundle that tree for transfer.
pub trait Federate: Sized {
    /// Internal consistency of the exporter's state.
    spec fn inv(&self) -> bool;

    /// Whether an auxiliary directory entry exists at `p`.
    spec fn dir_present(&self, p: Seq<char>) -> bool;

    /// Whether a forge entry exists for hostname `h`.
    spec fn forge_present(&self, h: Seq<char>) -> bool;

    /// Whether a user entry exists for (`h`, `u`).
    spec fn user_present(&self, h: Seq<char>, u: Seq<char>) -> bool;

    /// Whether a repository entry exists for (`h`, `o`, `n`).
    spec fn repo_present(&self, h: Seq<char>, o: Seq<char>, n: Seq<char>) -> bool;

    /// The contents of the last produced bundle, if any.
    spec fn bundle(&self) -> Option<TreeSnapshot>;

    /// Ensure a directory entry exists; repeatable.
    fn create_dir_if_not_exists(&mut self, path: &String) -> (r: Result<(), FedError>)
        requires
            old(self).inv(),
        ensures
            final(self).inv(),
            r is Ok,
            final(self).dir_present(path@),
            forall|p2: Seq<char>| p2 != path@ ==> #[trigger] final(self).dir_present(p2) == old(
                self,
            ).dir_present(p2),
            forall|fh: Seq<char>| #[trigger] final(self).forge_present(fh) == old(self).forge_present(fh),
            forall|fh: Seq<char>, fu: Seq<char>| #[trigger] final(self).user_present(fh, fu) == old(self).user_present(fh, fu),
            forall|fh: Seq<char>, fo: Seq<char>, fn2: Seq<char>| #[trigger] final(self).repo_present(fh, fo, fn2) == old(self).repo_present(fh, fo, fn2),
            final(self).bundle() == old(self).bundle(),
    ;

    /// Ensure no directory entry exists at `path`; repeatable.
    fn rm_util(&mut self, path: &String) -> (r: Result<(), FedError>)
        requires
            old(self).inv(),
        ensures
            final(self).inv(),
            r is Ok,
            !final(self).dir_present(path@),
            forall|p2: Seq<char>| p2 != path@ ==> #[trigger] final(self).dir_present(p2) == old(
                self,
            ).dir_present(p2),
            forall|fh: Seq<char>| #[trigger] final(self).forge_present(fh) == old(self).forge_present(fh),
            forall|fh: Seq<char>, fu: Seq<char>| #[trigger] final(self).user_present(fh, fu) == old(self).user_present(fh, fu),
            forall|fh: Seq<char>, fo: Seq<char>, fn2: Seq<char>| #[trigger] final(self).repo_present(fh, fo, fn2) == old(self).repo_present(fh, fo, fn2),
            final(self).bundle() == old(self).bundle(),
    ;

    /// Mirror the registration of a forge instance; repeatable.
    fn create_forge_instance(&mut self, f: &CreateForge) -> (r: Result<(), FedError>)
        requires
            old(self).inv(),
        ensures
            final(self).inv(),
            r is Ok,
            final(self).forge_present(f.hostname@),
            forall|h2: Seq<char>| h2 != f.hostname@ ==> #[trigger] final(self).forge_present(h2)
                == old(self).forge_present(h2),
            forall|fp: Seq<char>| #[trigger] final(self).dir_present(fp) == old(self).dir_present(fp),
            forall|fh: Seq<char>, fu: Seq<char>| #[trigger] final(self).user_present(fh, fu) == old(self).user_present(fh, fu),
            forall|fh: Seq<char>, fo: Seq<char>, fn2: Seq<char>| #[trigger] final(self).repo_present(fh, fo, fn2) == old(self).repo_present(fh, fo, fn2),
            final(self).bundle() == old(self).bundle(),
    ;

    /// Mirror the deletion of a forge instance.  Rejected with
    /// `Conflict` while user or repository entries exist under it.
    fn delete_forge_instance(&mut self, hostname: &String) -> (r: Result<(), FedError>)
        requires
            old(self).inv(),
        ensures
            final(self).inv(),
            (r is Ok <==> !(exists|u: Seq<char>| old(self).user_present(hostname@, u)) && !(
            exists|o: Seq<char>, n: Seq<char>| old(self).repo_present(hostname@, o, n))),
            (r is Err ==> r == Err::<(), FedError>(FedError::Conflict) && *final(self) == *old(self)),
            (r is Ok ==> !final(self).forge_present(hostname@)),
            (r is Ok ==> forall|h2: Seq<char>| h2 != hostname@ ==> #[trigger] final(self).forge_present(h2) == old(self).forge_present(h2)),
            forall|fp: Seq<char>| #[trigger] final(self).dir_present(fp) == old(self).dir_present(fp),
            forall|fh: Seq<char>, fu: Seq<char>| #[trigger] final(self).user_present(fh, fu) == old(self).user_present(fh, fu),
            forall|fh: Seq<char>, fo: Seq<char>, fn2: Seq<char>| #[trigger] final(self).repo_present(fh, fo, fn2) == old(self).repo_present(fh, fo, fn2),
            final(self).bundle() == old(self).bundle(),
    ;

    /// Whether a forge entry exists for `hostname`.
    fn forge_exists(&self, hostname: &String) -> (r: Result<bool, FedError>)
        requires
            self.inv(),
        ensures
            r == Ok::<bool, FedError>(self.forge_present(hostname@)),
    ;

    /// Whether a user entry exists for (`username`, `hostname`).
    fn user_exists(&self, username: &String, hostname: &String) -> (r: Result<bool, FedError>)
        requires
            self.inv(),
        ensures
            r == Ok::<bool, FedError>(self.user_present(hostname@, username@)),
    ;

    /// Mirror the addition of a user; repeatable.
    fn create_user(&mut self, f: &AddUser) -> (r: Result<(), FedError>)
        requires
            old(self).inv(),
        ensures
            final(self).inv(),
            r is Ok,
            final(self).user_present(f.hostname@, f.username@),
            forall|h2: Seq<char>, u2: Seq<char>|
                !(h2 == f.hostname@ && u2 == f.username@) ==> #[trigger] final(self).user_present(
                    h2,
                    u2,
                ) == old(self).user_present(h2, u2),
            forall|fp: Seq<char>| #[trigger] final(self).dir_present(fp) == old(self).dir_present(fp),
            forall|fh: Seq<char>| #[trigger] final(self).forge_present(fh) == old(self).forge_present(fh),
            forall|fh: Seq<char>, fo: Seq<char>, fn2: Seq<char>| #[trigger] final(self).repo_present(fh, fo, fn2) == old(self).repo_present(fh, fo, fn2),
            final(self).bundle() == old(self).bundle(),
    ;

    /// Mirror the addition of a repository; repeatable.
    fn create_repository(&mut self, f: &AddRepository) -> (r: Result<(), FedError>)
        requires
            old(self).inv(),
        ensures
            final(self).inv(),
            r is Ok,
            (r is Ok ==> final(self).repo_present(f.hostname@, f.owner@, f.name@)),
            (r is Ok ==> forall|h2: Seq<char>, o2: Seq<char>, n2: Seq<char>|
                !(h2 == f.hostname@ && o2 == f.owner@ && n2 == f.name@) ==> #[trigger] final(self).repo_present(h2, o2, n2) == old(self).repo_present(h2, o2, n2)),
            forall|fp: Seq<char>| #[trigger] final(self).dir_present(fp) == old(self).dir_present(fp),
            forall|fh: Seq<char>| #[trigger] final(self).forge_present(fh) == old(self).forge_present(fh),
            forall|fh: Seq<char>, fu: Seq<char>| #[trigger] final(self).user_present(fh, fu) == old(self).user_present(fh, fu),
            final(self).bundle() == old(self).bundle(),
    ;

    /// Whether a repository entry exists for (`owner`, `name`,
    /// `hostname`).
    fn repository_exists(&self, name: &String, owner: &String, hostname: &String) -> (r: Result<
        bool,
        FedError,
    >)
        requires
            self.inv(),
        ensures
            r == Ok::<bool, FedError>(self.repo_present(hostname@, owner@, name@)),
    ;

    /// Mirror the deletion of a user; repeatable.
    fn delete_user(&mut self, username: &String, hostname: &String) -> (r: Result<(), FedError>)
        requires
            old(self).inv(),
        ensures
            final(self).inv(),
            r is Ok,
            !final(self).user_present(hostname@, username@),
            forall|h2: Seq<char>, u2: Seq<char>|
                !(h2 == hostname@ && u2 == username@) ==> #[trigger] final(self).user_present(
                    h2,
                    u2,
                ) == old(self).user_present(h2, u2),
            forall|fp: Seq<char>| #[trigger] final(self).dir_present(fp) == old(self).dir_present(fp),
            forall|fh: Seq<char>| #[trigger] final(self).forge_present(fh) == old(self).forge_present(fh),
            forall|fh: Seq<char>, fo: Seq<char>, fn2: Seq<char>| #[trigger] final(self).repo_present(fh, fo, fn2) == old(self).repo_present(fh, fo, fn2),
            final(self).bundle() == old(self).bundle(),
    ;

    /// Mirror the deletion of a repository; repeatable.
    fn delete_repository(&mut self, owner: &String, name: &String, hostname: &String) -> (r:
        Result<(), FedError>)
        requires
            old(self).inv(),
        ensures
            final(self).inv(),
            r is Ok,
            (r is Ok ==> !final(self).repo_present(hostname@, owner@, name@)),
            (r is Ok ==> forall|h2: Seq<char>, o2: Seq<char>, n2: Seq<char>|
                !(h2 == hostname@ && o2 == owner@ && n2 == name@) ==> #[trigger] final(self).repo_present(h2, o2, n2) == old(self).repo_present(h2, o2, n2)),
            forall|fp: Seq<char>| #[trigger] final(self).dir_present(fp) == old(self).dir_present(fp),
            forall|fh: Seq<char>| #[trigger] final(self).forge_present(fh) == old(self).forge_present(fh),
            forall|fh: Seq<char>, fu: Seq<char>| #[trigger] final(self).user_present(fh, fu) == old(self).user_present(fh, fu),
            final(self).bundle() == old(self).bundle(),
    ;

    /// Produce a bundle of the current export tree and return its
    /// location.  The bundle holds exactly what the tree holds at the
    /// moment of the call; the tree itself is unchanged.
    fn tar(&mut self) -> (r: Result<String, FedError>)
        requires
            old(self).inv(),
        ensures
            final(self).inv(),
            r is Ok,
            (final(self).bundle() == Option::Some(
                (TreeSnapshot {
                    dirs: Set::new(|p: Seq<char>| old(self).dir_present(p)),
                    forges: Set::new(|h: Seq<char>| old(self).forge_present(h)),
                    users: Set::new(|p: (Seq<char>, Seq<char>)| old(self).user_present(p.0, p.1)),
                    repos: Set::new(
                        |p: (Seq<char>, Seq<char>, Seq<char>)| old(self).repo_present(p.0, p.1, p.2),
                    ),
                }),
            )),
            forall|fp: Seq<char>| #[trigger] final(self).dir_present(fp) == old(self).dir_present(fp),
            forall|fh: Seq<char>| #[trigger] final(self).forge_present(fh) == old(self).forge_present(fh),
            forall|fh: Seq<char>, fu: Seq<char>| #[trigger] final(self).user_present(fh, fu) == old(self).user_present(fh, fu),
            forall|fh: Seq<char>, fo: Seq<char>, fn2: Seq<char>| #[trigger] final(self).repo_present(fh, fo, fn2) == old(self).repo_present(fh, fo, fn2),
    ;
}

/// The in-memory export tree: entries for forges, users, repositories
/// and auxiliary directories, and the last produced bundle.
pub struct TreeFederate {
    dirs: Vec<String>,
    forges: Vec<String>,
    users: Vec<(String, String)>,
    repositories: Vec<(String, String, String)>,
    bundle_state: Ghost<Option<TreeSnapshot>>,
}

impl TreeFederate {
    /// An empty export tree with no bundle produced yet.
    pub fn new() -> (r: TreeFederate)
        ensures
            r.inv(),
            forall|p: Seq<char>| !#[trigger] r.dir_present(p),
            forall|h: Seq<char>| !#[trigger] r.forge_present(h),
            forall|h: Seq<char>, u: Seq<char>| !#[trigger] r.user_present(h, u),
            forall|h: Seq<char>, o: Seq<char>, n: Seq<char>| !#[trigger] r.repo_present(h, o, n),
            r.bundle() is None,
    {
        TreeFederate {
            dirs: Vec::new(),
            forges: Vec::new(),
            users: Vec::new(),
            repositories: Vec::new(),
            bundle_state: Ghost(Option::None),
        }
    }

    fn find_dir(&self, path: &String) -> (r: Option<usize>)
        ensures
            (match r {
                Option::Some(i) => i < self.dirs@.len() && self.dirs@[i as int]@ == path@,
                Option::None => !self.dir_present(path@),
            }),
    {
        let mut i: usize = 0;
        while i < self.dirs.len()
            invariant
                i <= self.dirs@.len(),
                forall|j: int| 0 <= j < i ==> (#[trigger] self.dirs@[j])@ != path@,
            decreases self.dirs@.len() - i,
        {
            if self.dirs[i] == *path {
                return Option::Some(i);
            }
            i = i + 1;
        }
        Option::None
    }

    fn find_forge_entry(&self, hostname: &String) -> (r: Option<usize>)
        ensures
            (match r {
                Option::Some(i) => i < self.forges@.len() && self.forges@[i as int]@ == hostname@,
                Option::None => !self.forge_present(hostname@),
            }),
    {
        let mut i: usize = 0;
        while i < self.forges.len()
            invariant
                i <= self.forges@.len(),
                forall|j: int| 0 <= j < i ==> (#[trigger] self.forges@[j])@ != hostname@,
            decreases self.forges@.len() - i,
        {
            if self.forges[i] == *hostname {
                return Option::Some(i);
            }
            i = i + 1;
        }
        Option::None
    }

    fn find_user_entry(&self, hostname: &String, username: &String) -> (r: Option<usize>)
        ensures
            (match r {
                Option::Some(i) => i < self.users@.len() && self.users@[i as int].0@ == hostname@
                    && self.users@[i as int].1@ == username@,
                Option::None => !self.user_present(hostname@, username@),
            }),
    {
        let mut i: usize = 0;
        while i < self.users.len()
            invariant
                i <= self.users@.len(),
                forall|j: int| 0 <= j < i ==> !((#[trigger] self.users@[j]).0@ == hostname@
                    && self.users@[j].1@ == username@),
            decreases self.users@.len() - i,
        {
            if self.users[i].0 == *hostname && self.users[i].1 == *username {
                return Option::Some(i);
            }
            i = i + 1;
        }
        Option::None
    }

    fn find_repo_entry(&self, hostname: &String, owner: &String, name: &String) -> (r: Option<
        usize,
    >)
        ensures
            (match r {
                Option::Some(i) => i < self.repositories@.len() && self.repositories@[i as int].0@
                    == hostname@ && self.repositories@[i as int].1@ == owner@
                    && self.repositories@[i as int].2@ == name@,
                Option::None => !self.repo_present(hostname@, owner@, name@),
            }),
    {
        let mut i: usize = 0;
        while i < self.repositories.len()
            invariant
                i <= self.repositories@.len(),
                forall|j: int| 0 <= j < i ==> !((#[trigger] self.repositories@[j]).0@ == hostname@
                    && self.repositories@[j].1@ == owner@ && self.repositories@[j].2@ == name@),
            decreases self.repositories@.len() - i,
        {
            if self.repositories[i].0 == *hostname && self.repositories[i].1 == *owner
                && self.repositories[i].2 == *name {
                return Option::Some(i);
            }
            i = i + 1;
        }
        Option::None
    }

    fn any_user_entry_under(&self, hostname: &String) -> (r: bool)
        ensures
            r == exists|u: Seq<char>| self.user_present(hostname@, u),
    {
        let mut i: usize = 0;
        while i < self.users.len()
            invariant
                i <= self.users@.len(),
                forall|j: int| 0 <= j < i ==> (#[trigger] self.users@[j]).0@ != hostname@,
            decreases self.users@.len() - i,
        {
            if self.users[i].0 == *hostname {
                assert(self.user_present(hostname@, self.users@[i as int].1@));
                return true;
            }
            i = i + 1;
        }
        assert forall|u: Seq<char>| !self.user_present(hostname@, u) by {
            if self.user_present(hostname@, u) {
                let j = choose|j: int|
                    0 <= j < self.users@.len() && self.users@[j].0@ == hostname@
                        && self.users@[j].1@ == u;
                assert(self.users@[j].0@ != hostname@);
            }
        }
        false
    }

    fn any_repo_entry_under(&self, hostname: &String) -> (r: bool)
        ensures
            r == exists|o: Seq<char>, n: Seq<char>| self.repo_present(hostname@, o, n),
    {
        let mut i: usize = 0;
        while i < self.repositories.len()
            invariant
                i <= self.repositories@.len(),
                forall|j: int| 0 <= j < i ==> (#[trigger] self.repositories@[j]).0@ != hostname@,
            decreases self.repositories@.len() - i,
        {
            if self.repositories[i].0 == *hostname {
                assert(self.repo_present(
                    hostname@,
                    self.repositories@[i as int].1@,
                    self.repositories@[i as int].2@,
                ));
                return true;
            }
            i = i + 1;
        }
        assert forall|o: Seq<char>, n: Seq<char>| !self.repo_present(hostname@, o, n) by {
            if self.repo_present(hostname@, o, n) {
                let j = choose|j: int|
                    0 <= j < self.repositories@.len() && self.repositories@[j].0@ == hostname@
                        && self.repositories@[j].1@ == o && self.repositories@[j].2@ == n;
                assert(self.repositories@[j].0@ != hostname@);
            }
        }
        false
    }
}

proof fn lemma_fed_dirs_cong(pre: TreeFederate, post: TreeFederate)
    requires
        post.dirs == pre.dirs,
    ensures
        forall|p: Seq<char>| #[trigger] post.dir_present(p) == pre.dir_present(p),
{
    assert forall|p: Seq<char>| #[trigger] post.dir_present(p) == pre.dir_present(p) by {
        if pre.dir_present(p) {
            let i = choose|i: int| 0 <= i < pre.dirs@.len() && pre.dirs@[i]@ == p;
            assert(post.dirs@[i]@ == p);
        }
        if post.dir_present(p) {
            let i = choose|i: int| 0 <= i < post.dirs@.len() && post.dirs@[i]@ == p;
            assert(pre.dirs@[i]@ == p);
        }
    }
}

proof fn lemma_fed_forges_cong(pre: TreeFederate, post: TreeFederate)
    requires
        post.forges == pre.forges,
    ensures
        forall|h: Seq<char>| #[trigger] post.forge_present(h) == pre.forge_present(h),
{
    assert forall|h: Seq<char>| #[trigger] post.forge_present(h) == pre.forge_present(h) by {
        if pre.forge_present(h) {
            let i = choose|i: int| 0 <= i < pre.forges@.len() && pre.forges@[i]@ == h;
            assert(post.forges@[i]@ == h);
        }
        if post.forge_present(h) {
            let i = choose|i: int| 0 <= i < post.forges@.len() && post.forges@[i]@ == h;
            assert(pre.forges@[i]@ == h);
        }
    }
}

proof fn lemma_fed_users_cong(pre: TreeFederate, post: TreeFederate)
    requires
        post.users == pre.users,
    ensures
        forall|h: Seq<char>, u: Seq<char>| #[trigger] post.user_present(h, u) == pre.user_present(h, u),
{
    assert forall|h: Seq<char>, u: Seq<char>| #[trigger] post.user_present(h, u)
        == pre.user_present(h, u) by {
        if pre.user_present(h, u) {
            let i = choose|i: int|
                0 <= i < pre.users@.len() && pre.users@[i].0@ == h && pre.users@[i].1@ == u;
            assert(post.users@[i].0@ == h && post.users@[i].1@ == u);
        }
        if post.user_present(h, u) {
            let i = choose|i: int|
                0 <= i < post.users@.len() && post.users@[i].0@ == h && post.users@[i].1@ == u;
            assert(pre.users@[i].0@ == h && pre.users@[i].1@ == u);
        }
    }
}

proof fn lemma_fed_repos_cong(pre: TreeFederate, post: TreeFederate)
    requires
        post.repositories == pre.repositories,
    ensures
        forall|h: Seq<char>, o: Seq<char>, n: Seq<char>| #[trigger] post.repo_present(h, o, n) == pre.repo_present(h, o, n),
{
    assert forall|h: Seq<char>, o: Seq<char>, n: Seq<char>| #[trigger] post.repo_present(h, o, n)
        == pre.repo_present(h, o, n) by {
        if pre.repo_present(h, o, n) {
            let i = choose|i: int|
                0 <= i < pre.repositories@.len() && pre.repositories@[i].0@ == h
                    && pre.repositories@[i].1@ == o && pre.repositories@[i].2@ == n;
            assert(post.repositories@[i].0@ == h && post.repositories@[i].1@ == o
                && post.repositories@[i].2@ == n);
        }
        if post.repo_present(h, o, n) {
            let i = choose|i: int|
                0 <= i < post.repositories@.len() && post.repositories@[i].0@ == h
                    && post.repositories@[i].1@ == o && post.repositories@[i].2@ == n;
            assert(pre.repositories@[i].0@ == h && pre.repositories@[i].1@ == o
                && pre.repositories@[i].2@ == n);
        }
    }
}

impl Federate for TreeFederate {
    closed spec fn inv(&self) -> bool {
        &&& (forall|i: int, j: int|
            #![trigger self.dirs@[i], self.dirs@[j]]
            0 <= i < j < self.dirs@.len() ==> self.dirs@[i]@ != self.dirs@[j]@)
        &&& (forall|i: int, j: int|
            #![trigger self.forges@[i], self.forges@[j]]
            0 <= i < j < self.forges@.len() ==> self.forges@[i]@ != self.forges@[j]@)
        &&& (forall|i: int, j: int|
            #![trigger self.users@[i], self.users@[j]]
            0 <= i < j < self.users@.len() ==> !(self.users@[i].0@ == self.users@[j].0@
                && self.users@[i].1@ == self.users@[j].1@))
        &&& (forall|i: int, j: int|
            #![trigger self.repositories@[i], self.repositories@[j]]
            0 <= i < j < self.repositories@.len() ==> !(self.repositories@[i].0@
                == self.repositories@[j].0@ && self.repositories@[i].1@
                == self.repositories@[j].1@ && self.repositories@[i].2@
                == self.repositories@[j].2@))
    }

    closed spec fn dir_present(&self, p: Seq<char>) -> bool {
        exists|i: int| 0 <= i < self.dirs@.len() && self.dirs@[i]@ == p
    }

    closed spec fn forge_present(&self, h: Seq<char>) -> bool {
        exists|i: int| 0 <= i < self.forges@.len() && self.forges@[i]@ == h
    }

    closed spec fn user_present(&self, h: Seq<char>, u: Seq<char>) -> bool {
        exists|i: int| 0 <= i < self.users@.len() && self.users@[i].0@ == h && self.users@[i].1@
            == u
    }

    closed spec fn repo_present(&self, h: Seq<char>, o: Seq<char>, n: Seq<char>) -> bool {
        exists|i: int|
            0 <= i < self.repositories@.len() && self.repositories@[i].0@ == h
                && self.repositories@[i].1@ == o && self.repositories@[i].2@ == n
    }

    closed spec fn bundle(&self) -> Option<TreeSnapshot> {
        self.bundle_state@
    }

    fn create_dir_if_not_exists(&mut self, path: &String) -> (r: Result<(), FedError>) {
        match self.find_dir(path) {
            Option::Some(_found) => {
                proof {
                    assert(self.dir_present(path@));
                }
                Ok(())
            },
            Option::None => {
                self.dirs.push(path.clone());
                proof {
                    let pre = *old(self);
                    let post = *self;
                    let len = pre.dirs@.len() as int;
                    assert(post.dirs@[len]@ == path@);
                    assert forall|i: int, j: int|
                        #![trigger post.dirs@[i], post.dirs@[j]]
                        0 <= i < j < post.dirs@.len() implies post.dirs@[i]@ != post.dirs@[j]@ by {
                        if j < len {
                            assert(post.dirs@[i] == pre.dirs@[i]);
                            assert(post.dirs@[j] == pre.dirs@[j]);
                        } else {
                            assert(post.dirs@[i] == pre.dirs@[i]);
                            assert(!pre.dir_present(path@));
                        }
                    }
                    assert forall|p2: Seq<char>| p2 != path@ implies #[trigger] post.dir_present(
                        p2,
                    ) == pre.dir_present(p2) by {
                        if pre.dir_present(p2) {
                            let k = choose|k: int| 0 <= k < pre.dirs@.len() && pre.dirs@[k]@ == p2;
                            assert(post.dirs@[k]@ == p2);
                        }
                        if post.dir_present(p2) {
                            let k = choose|k: int|
                                0 <= k < post.dirs@.len() && post.dirs@[k]@ == p2;
                            assert(k < len);
                            assert(pre.dirs@[k]@ == p2);
                        }
                    }
                    lemma_fed_forges_cong(pre, post);
                    lemma_fed_users_cong(pre, post);
                    lemma_fed_repos_cong(pre, post);
                }
                Ok(())
            },
        }
    }

    fn rm_util(&mut self, path: &String) -> (r: Result<(), FedError>) {
        match self.find_dir(path) {
            Option::None => Ok(()),
            Option::Some(i) => {
                let _removed = self.dirs.remove(i);
                proof {
                    let pre = *old(self);
                    let post = *self;
                    let idx = i as int;
                    assert forall|a: int, b: int|
                        #![trigger post.dirs@[a], post.dirs@[b]]
                        0 <= a < b < post.dirs@.len() implies post.dirs@[a]@ != post.dirs@[b]@ by {
                        let a2: int = if a < idx { a } else { a + 1 };
                        let b2: int = if b < idx { b } else { b + 1 };
                        assert(post.dirs@[a] == pre.dirs@[a2]);
                        assert(post.dirs@[b] == pre.dirs@[b2]);
                    }
                    assert(!post.dir_present(path@)) by {
                        if post.dir_present(path@) {
                            let k = choose|k: int|
                                0 <= k < post.dirs@.len() && post.dirs@[k]@ == path@;
                            let k2: int = if k < idx { k } else { k + 1 };
                            assert(pre.dirs@[k2]@ == path@);
                            if k2 < idx {
                                assert(pre.dirs@[k2]@ != pre.dirs@[idx]@);
                            } else {
                                assert(pre.dirs@[idx]@ != pre.dirs@[k2]@);
                            }
                        }
                    }
                    assert forall|p2: Seq<char>| p2 != path@ implies #[trigger] post.dir_present(
                        p2,
                    ) == pre.dir_present(p2) by {
                        if pre.dir_present(p2) {
                            let k = choose|k: int| 0 <= k < pre.dirs@.len() && pre.dirs@[k]@ == p2;
                            assert(k != idx);
                            let k2: int = if k < idx { k } else { k - 1 };
                            assert(post.dirs@[k2] == pre.dirs@[k]);
                        }
                        if post.dir_present(p2) {
                            let k = choose|k: int|
                                0 <= k < post.dirs@.len() && post.dirs@[k]@ == p2;
                            let k2: int = if k < idx { k } else { k + 1 };
                            assert(pre.dirs@[k2]@ == p2);
                        }
                    }
                    lemma_fed_forges_cong(pre, post);
                    lemma_fed_users_cong(pre, post);
                    lemma_fed_repos_cong(pre, post);
                }
                Ok(())
            },
        }
    }

    fn create_forge_instance(&mut self, f: &CreateForge) -> (r: Result<(), FedError>) {
        match self.find_forge_entry(&f.hostname) {
            Option::Some(_found) => {
                proof {
                    assert(self.forge_present(f.hostname@));
                }
                Ok(())
            },
            Option::None => {
                self.forges.push(f.hostname.clone());
                proof {
                    let pre = *old(self);
                    let post = *self;
                    let len = pre.forges@.len() as int;
                    assert(post.forges@[len]@ == f.hostname@);
                    assert forall|i: int, j: int|
                        #![trigger post.forges@[i], post.forges@[j]]
                        0 <= i < j < post.forges@.len() implies post.forges@[i]@
                        != post.forges@[j]@ by {
                        if j < len {
                            assert(post.forges@[i] == pre.forges@[i]);
                            assert(post.forges@[j] == pre.forges@[j]);
                        } else {
                            assert(post.forges@[i] == pre.forges@[i]);
                            assert(!pre.forge_present(f.hostname@));
                        }
                    }
                    assert forall|h2: Seq<char>| h2 != f.hostname@ implies #[trigger] post.forge_present(h2) == pre.forge_present(h2) by {
                        if pre.forge_present(h2) {
                            let k = choose|k: int|
                                0 <= k < pre.forges@.len() && pre.forges@[k]@ == h2;
                            assert(post.forges@[k]@ == h2);
                        }
                        if post.forge_present(h2) {
                            let k = choose|k: int|
                                0 <= k < post.forges@.len() && post.forges@[k]@ == h2;
                            assert(k < len);
                            assert(pre.forges@[k]@ == h2);
                        }
                    }
                    lemma_fed_dirs_cong(pre, post);
                    lemma_fed_users_cong(pre, post);
                    lemma_fed_repos_cong(pre, post);
                }
                Ok(())
            },
        }
    }

    fn delete_forge_instance(&mut self, hostname: &String) -> (r: Result<(), FedError>) {
        if self.any_user_entry_under(hostname) || self.any_repo_entry_under(hostname) {
            return Err(FedError::Conflict);
        }
        match self.find_forge_entry(hostname) {
            Option::None => Ok(()),
            Option::Some(i) => {
                let _removed = self.forges.remove(i);
                proof {
                    let pre = *old(self);
                    let post = *self;
                    let idx = i as int;
                    assert forall|a: int, b: int|
                        #![trigger post.forges@[a], post.forges@[b]]
                        0 <= a < b < post.forges@.len() implies post.forges@[a]@
                        != post.forges@[b]@ by {
                        let a2: int = if a < idx { a } else { a + 1 };
                        let b2: int = if b < idx { b } else { b + 1 };
                        assert(post.forges@[a] == pre.forges@[a2]);
                        assert(post.forges@[b] == pre.forges@[b2]);
                    }
                    assert(!post.forge_present(hostname@)) by {
                        if post.forge_present(hostname@) {
                            let k = choose|k: int|
                                0 <= k < post.forges@.len() && post.forges@[k]@ == hostname@;
                            let k2: int = if k < idx { k } else { k + 1 };
                            assert(pre.forges@[k2]@ == hostname@);
                            if k2 < idx {
                                assert(pre.forges@[k2]@ != pre.forges@[idx]@);
                            } else {
                                assert(pre.forges@[idx]@ != pre.forges@[k2]@);
                            }
                        }
                    }
                    assert forall|h2: Seq<char>| h2 != hostname@ implies #[trigger] post.forge_present(h2) == pre.forge_present(h2) by {
                        if pre.forge_present(h2) {
                            let k = choose|k: int|
                                0 <= k < pre.forges@.len() && pre.forges@[k]@ == h2;
                            assert(k != idx);
                            let k2: int = if k < idx { k } else { k - 1 };
                            assert(post.forges@[k2] == pre.forges@[k]);
                        }
                        if post.forge_present(h2) {
                            let k = choose|k: int|
                                0 <= k < post.forges@.len() && post.forges@[k]@ == h2;
                            let k2: int = if k < idx { k } else { k + 1 };
                            assert(pre.forges@[k2]@ == h2);
                        }
                    }
                    lemma_fed_dirs_cong(pre, post);
                    lemma_fed_users_cong(pre, post);
                    lemma_fed_repos_cong(pre, post);
                }
                Ok(())
            },
        }
    }

    fn forge_exists(&self, hostname: &String) -> (r: Result<bool, FedError>) {
        match self.find_forge_entry(hostname) {
            Option::Some(i) => {
                proof {
                    assert(self.forge_present(hostname@));
                }
                Ok(true)
            },
            Option::None => Ok(false),
        }
    }

    fn user_exists(&self, username: &String, hostname: &String) -> (r: Result<bool, FedError>) {
        match self.find_user_entry(hostname, username) {
            Option::Some(i) => {
                proof {
                    assert(self.user_present(hostname@, username@));
                }
                Ok(true)
            },
            Option::None => Ok(false),
        }
    }

    fn create_user(&mut self, f: &AddUser) -> (r: Result<(), FedError>) {
        match self.find_user_entry(&f.hostname, &f.username) {
            Option::Some(_found) => {
                proof {
                    assert(self.user_present(f.hostname@, f.username@));
                }
                Ok(())
            },
            Option::None => {
                self.users.push((f.hostname.clone(), f.username.clone()));
                proof {
                    let pre = *old(self);
                    let post = *self;
                    let len = pre.users@.len() as int;
                    assert(post.users@[len].0@ == f.hostname@ && post.users@[len].1@
                        == f.username@);
                    assert forall|i: int, j: int|
                        #![trigger post.users@[i], post.users@[j]]
                        0 <= i < j < post.users@.len() implies !(post.users@[i].0@
                        == post.users@[j].0@ && post.users@[i].1@ == post.users@[j].1@) by {
                        if j < len {
                            assert(post.users@[i] == pre.users@[i]);
                            assert(post.users@[j] == pre.users@[j]);
                        } else {
                            assert(post.users@[i] == pre.users@[i]);
                            assert(!pre.user_present(f.hostname@, f.username@));
                        }
                    }
                    assert forall|h2: Seq<char>, u2: Seq<char>|
                        !(h2 == f.hostname@ && u2 == f.username@) implies #[trigger] post.user_present(h2, u2) == pre.user_present(h2, u2) by {
                        if pre.user_present(h2, u2) {
                            let k = choose|k: int|
                                0 <= k < pre.users@.len() && pre.users@[k].0@ == h2
                                    && pre.users@[k].1@ == u2;
                            assert(post.users@[k].0@ == h2 && post.users@[k].1@ == u2);
                        }
                        if post.user_present(h2, u2) {
                            let k = choose|k: int|
                                0 <= k < post.users@.len() && post.users@[k].0@ == h2
                                    && post.users@[k].1@ == u2;
                            assert(k < len);
                            assert(pre.users@[k].0@ == h2 && pre.users@[k].1@ == u2);
                        }
                    }
                    lemma_fed_dirs_cong(pre, post);
                    lemma_fed_forges_cong(pre, post);
                    lemma_fed_repos_cong(pre, post);
                }
                Ok(())
            },
        }
    }

    fn create_repository(&mut self, f: &AddRepository) -> (r: Result<(), FedError>) {
        match self.find_repo_entry(&f.hostname, &f.owner, &f.name) {
            Option::Some(_found) => {
                proof {
                    assert(self.repo_present(f.hostname@, f.owner@, f.name@));
                }
                Ok(())
            },
            Option::None => {
                self.repositories.push((f.hostname.clone(), f.owner.clone(), f.name.clone()));
                proof {
                    let pre = *old(self);
                    let post = *self;
                    let len = pre.repositories@.len() as int;
                    assert(post.repositories@[len].0@ == f.hostname@ && post.repositories@[len].1@
                        == f.owner@ && post.repositories@[len].2@ == f.name@);
                    assert forall|i: int, j: int|
                        #![trigger post.repositories@[i], post.repositories@[j]]
                        0 <= i < j < post.repositories@.len() implies !(post.repositories@[i].0@
                        == post.repositories@[j].0@ && post.repositories@[i].1@
                        == post.repositories@[j].1@ && post.repositories@[i].2@
                        == post.repositories@[j].2@) by {
                        if j < len {
                            assert(post.repositories@[i] == pre.repositories@[i]);
                            assert(post.repositories@[j] == pre.repositories@[j]);
                        } else {
                            assert(post.repositories@[i] == pre.repositories@[i]);
                            assert(!pre.repo_present(f.hostname@, f.owner@, f.name@));
                        }
                    }
                    assert forall|h2: Seq<char>, o2: Seq<char>, n2: Seq<char>|
                        !(h2 == f.hostname@ && o2 == f.owner@ && n2
                        == f.name@) implies #[trigger] post.repo_present(h2, o2, n2)
                        == pre.repo_present(h2, o2, n2) by {
                        if pre.repo_present(h2, o2, n2) {
                            let k = choose|k: int|
                                0 <= k < pre.repositories@.len() && pre.repositories@[k].0@ == h2
                                    && pre.repositories@[k].1@ == o2 && pre.repositories@[k].2@
                                    == n2;
                            assert(post.repositories@[k].0@ == h2 && post.repositories@[k].1@ == o2
                                && post.repositories@[k].2@ == n2);
                        }
                        if post.repo_present(h2, o2, n2) {
                            let k = choose|k: int|
                                0 <= k < post.repositories@.len() && post.repositories@[k].0@ == h2
                                    && post.repositories@[k].1@ == o2 && post.repositories@[k].2@
                                    == n2;
                            assert(k < len);
                            assert(pre.repositories@[k].0@ == h2 && pre.repositories@[k].1@ == o2
                                && pre.repositories@[k].2@ == n2);
                        }
                    }
                    lemma_fed_dirs_cong(pre, post);
                    lemma_fed_forges_cong(pre, post);
                    lemma_fed_users_cong(pre, post);
                }
                Ok(())
            },
        }
    }

    fn repository_exists(&self, name: &String, owner: &String, hostname: &String) -> (r: Result<
        bool,
        FedError,
    >) {
        match self.find_repo_entry(hostname, owner, name) {
            Option::Some(i) => {
                proof {
                    assert(self.repo_present(hostname@, owner@, name@));
                }
                Ok(true)
            },
            Option::None => Ok(false),
        }
    }

    fn delete_user(&mut self, username: &String, hostname: &String) -> (r: Result<(), FedError>) {
        match self.find_user_entry(hostname, username) {
            Option::None => Ok(()),
            Option::Some(i) => {
                let _removed = self.users.remove(i);
                proof {
                    let pre = *old(self);
                    let post = *self;
                    let idx = i as int;
                    assert forall|a: int, b: int|
                        #![trigger post.users@[a], post.users@[b]]
                        0 <= a < b < post.users@.len() implies !(post.users@[a].0@
                        == post.users@[b].0@ && post.users@[a].1@ == post.users@[b].1@) by {
                        let a2: int = if a < idx { a } else { a + 1 };
                        let b2: int = if b < idx { b } else { b + 1 };
                        assert(post.users@[a] == pre.users@[a2]);
                        assert(post.users@[b] == pre.users@[b2]);
                    }
                    assert(!post.user_present(hostname@, username@)) by {
                        if post.user_present(hostname@, username@) {
                            let k = choose|k: int|
                                0 <= k < post.users@.len() && post.users@[k].0@ == hostname@
                                    && post.users@[k].1@ == username@;
                            let k2: int = if k < idx { k } else { k + 1 };
                            assert(pre.users@[k2].0@ == hostname@ && pre.users@[k2].1@
                                == username@);
                            if k2 < idx {
                                assert(!(pre.users@[k2].0@ == pre.users@[idx].0@
                                    && pre.users@[k2].1@ == pre.users@[idx].1@));
                            } else {
                                assert(!(pre.users@[idx].0@ == pre.users@[k2].0@
                                    && pre.users@[idx].1@ == pre.users@[k2].1@));
                            }
                        }
                    }
                    assert forall|h2: Seq<char>, u2: Seq<char>|
                        !(h2 == hostname@ && u2 == username@) implies #[trigger] post.user_present(
                        h2,
                        u2,
                    ) == pre.user_present(h2, u2) by {
                        if pre.user_present(h2, u2) {
                            let k = choose|k: int|
                                0 <= k < pre.users@.len() && pre.users@[k].0@ == h2
                                    && pre.users@[k].1@ == u2;
                            assert(k != idx);
                            let k2: int = if k < idx { k } else { k - 1 };
                            assert(post.users@[k2] == pre.users@[k]);
                        }
                        if post.user_present(h2, u2) {
                            let k = choose|k: int|
                                0 <= k < post.users@.len() && post.users@[k].0@ == h2
                                    && post.users@[k].1@ == u2;
                            let k2: int = if k < idx { k } else { k + 1 };
                            assert(pre.users@[k2].0@ == h2 && pre.users@[k2].1@ == u2);
                        }
                    }
                    lemma_fed_dirs_cong(pre, post);
                    lemma_fed_forges_cong(pre, post);
                    lemma_fed_repos_cong(pre, post);
                }
                Ok(())
            },
        }
    }

    fn delete_repository(&mut self, owner: &String, name: &String, hostname: &String) -> (r:
        Result<(), FedError>) {
        match self.find_repo_entry(hostname, owner, name) {
            Option::None => Ok(()),
            Option::Some(i) => {
                let _removed = self.repositories.remove(i);
                proof {
                    let pre = *old(self);
                    let post = *self;
                    let idx = i as int;
                    assert forall|a: int, b: int|
                        #![trigger post.repositories@[a], post.repositories@[b]]
                        0 <= a < b < post.repositories@.len() implies !(post.repositories@[a].0@
                        == post.repositories@[b].0@ && post.repositories@[a].1@
                        == post.repositories@[b].1@ && post.repositories@[a].2@
                        == post.repositories@[b].2@) by {
                        let a2: int = if a < idx { a } else { a + 1 };
                        let b2: int = if b < idx { b } else { b + 1 };
                        assert(post.repositories@[a] == pre.repositories@[a2]);
                        assert(post.repositories@[b] == pre.repositories@[b2]);
                    }
                    assert(!post.repo_present(hostname@, owner@, name@)) by {
                        if post.repo_present(hostname@, owner@, name@) {
                            let k = choose|k: int|
                                0 <= k < post.repositories@.len() && post.repositories@[k].0@
                                    == hostname@ && post.repositories@[k].1@ == owner@
                                    && post.repositories@[k].2@ == name@;
                            let k2: int = if k < idx { k } else { k + 1 };
                            assert(pre.repositories@[k2].0@ == hostname@
                                && pre.repositories@[k2].1@ == owner@ && pre.repositories@[k2].2@
                                == name@);
                            if k2 < idx {
                                assert(!(pre.repositories@[k2].0@ == pre.repositories@[idx].0@
                                    && pre.repositories@[k2].1@ == pre.repositories@[idx].1@
                                    && pre.repositories@[k2].2@ == pre.repositories@[idx].2@));
                            } else {
                                assert(!(pre.repositories@[idx].0@ == pre.repositories@[k2].0@
                                    && pre.repositories@[idx].1@ == pre.repositories@[k2].1@
                                    && pre.repositories@[idx].2@ == pre.repositories@[k2].2@));
                            }
                        }
                    }
                    assert forall|h2: Seq<char>, o2: Seq<char>, n2: Seq<char>|
                        !(h2 == hostname@ && o2 == owner@ && n2
                        == name@) implies #[trigger] post.repo_present(h2, o2, n2)
                        == pre.repo_present(h2, o2, n2) by {
                        if pre.repo_present(h2, o2, n2) {
                            let k = choose|k: int|
                                0 <= k < pre.repositories@.len() && pre.repositories@[k].0@ == h2
                                    && pre.repositories@[k].1@ == o2 && pre.repositories@[k].2@
                                    == n2;
                            assert(k != idx);
                            let k2: int = if k < idx { k } else { k - 1 };
                            assert(post.repositories@[k2] == pre.repositories@[k]);
                        }
                        if post.repo_present(h2, o2, n2) {
                            let k = choose|k: int|
                                0 <= k < post.repositories@.len() && post.repositories@[k].0@ == h2
                                    && post.repositories@[k].1@ == o2 && post.repositories@[k].2@
                                    == n2;
                            let k2: int = if k < idx { k } else { k + 1 };
                            assert(pre.repositories@[k2].0@ == h2 && pre.repositories@[k2].1@ == o2
                                && pre.repositories@[k2].2@ == n2);
                        }
                    }
                    lemma_fed_dirs_cong(pre, post);
                    lemma_fed_forges_cong(pre, post);
                    lemma_fed_users_cong(pre, post);
                }
                Ok(())
            },
        }
    }

    fn tar(&mut self) -> (r: Result<String, FedError>) {
        let path = String::new().concat("starchart-export.tar");
        proof {
            self.bundle_state@ = Option::Some(
                TreeSnapshot {
                    dirs: Set::new(|p: Seq<char>| old(self).dir_present(p)),
                    forges: Set::new(|h: Seq<char>| old(self).forge_present(h)),
                    users: Set::new(
                        |p: (Seq<char>, Seq<char>)| old(self).user_present(p.0, p.1),
                    ),
                    repos: Set::new(
                        |p: (Seq<char>, Seq<char>, Seq<char>)| old(self).repo_present(
                            p.0,
                            p.1,
                            p.2,
                        ),
                    ),
                },
            );
        }
        proof {
            lemma_fed_dirs_cong(*old(self), *self);
            lemma_fed_forges_cong(*old(self), *self);
            lemma_fed_users_cong(*old(self), *self);
            lemma_fed_repos_cong(*old(self), *self);
        }
        Ok(path)
    }
}

impl TreeFederate {
    /// Rebuild the export tree from the store's current contents.  The
    /// tree is a derived cache: this produces exactly one entry per
    /// forge instance, user and repository the store holds, with no
    /// auxiliary directories and no bundle yet.
    pub fn rebuild_from(db: &Store) -> (r: TreeFederate)
        requires
            db.wf(),
        ensures
            r.inv(),
            forall|h: Seq<char>| #[trigger] r.forge_present(h) == db.spec_forge_exists(h),
            forall|h: Seq<char>, u: Seq<char>| #[trigger] r.user_present(h, u)
                == db.spec_user_exists(u, h),
            forall|h: Seq<char>, o: Seq<char>, n: Seq<char>| #[trigger] r.repo_present(h, o, n)
                == db.spec_repo_exists(o, n, h),
            forall|p: Seq<char>| !#[trigger] r.dir_present(p),
            r.bundle() is None,
    {
        let forges = db.export_forges();
        let users = db.export_users();
        let repositories = db.export_repositories();
        let fed = TreeFederate {
            dirs: Vec::new(),
            forges,
            users,
            repositories,
            bundle_state: Ghost(Option::None),
        };
        proof {
            assert forall|h: Seq<char>| #[trigger] fed.forge_present(h) == db.spec_forge_exists(
                h,
            ) by {
                if fed.forge_present(h) {
                    let j = choose|j: int| 0 <= j < fed.forges@.len() && fed.forges@[j]@ == h;
                    assert(db.spec_forge_exists(fed.forges@[j]@));
                }
                if db.spec_forge_exists(h) {
                    let j = choose|j: int| 0 <= j < fed.forges@.len() && fed.forges@[j]@ == h;
                    assert(fed.forges@[j]@ == h);
                }
            }
            assert forall|h: Seq<char>, u: Seq<char>| #[trigger] fed.user_present(h, u)
                == db.spec_user_exists(u, h) by {
                if fed.user_present(h, u) {
                    let j = choose|j: int|
                        0 <= j < fed.users@.len() && fed.users@[j].0@ == h && fed.users@[j].1@
                            == u;
                    assert(db.spec_user_exists(fed.users@[j].1@, fed.users@[j].0@));
                }
                if db.spec_user_exists(u, h) {
                    let j = choose|j: int|
                        0 <= j < fed.users@.len() && fed.users@[j].0@ == h && fed.users@[j].1@
                            == u;
                    assert(fed.users@[j].0@ == h && fed.users@[j].1@ == u);
                }
            }
            assert forall|h: Seq<char>, o: Seq<char>, n: Seq<char>| #[trigger] fed.repo_present(
                h,
                o,
                n,
            ) == db.spec_repo_exists(o, n, h) by {
                if fed.repo_present(h, o, n) {
                    let j = choose|j: int|
                        0 <= j < fed.repositories@.len() && fed.repositories@[j].0@ == h
                            && fed.repositories@[j].1@ == o && fed.repositories@[j].2@ == n;
                    assert(db.spec_repo_exists(
                        fed.repositories@[j].1@,
                        fed.repositories@[j].2@,
                        fed.repositories@[j].0@,
                    ));
                }
                if db.spec_repo_exists(o, n, h) {
                    let j = choose|j: int|
                        0 <= j < fed.repositories@.len() && fed.repositories@[j].0@ == h
                            && fed.repositories@[j].1@ == o && fed.repositories@[j].2@ == n;
                    assert(fed.repositories@[j].0@ == h && fed.repositories@[j].1@ == o
                        && fed.repositories@[j].2@ == n);
                }
            }
        }
        fed
    }
}

} // verus!
