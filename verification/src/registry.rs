//! The deduplicated list of tracked repositories.
//!
//! The registry owns the in-memory list; persistence (appending a record
//! on add, rewriting the file on remove) is performed by the unverified
//! layer around the crate whenever `add` or `remove` reports a change.

use vstd::prelude::*;

use crate::errors::CampaignError;
use crate::git::{
    GitRepo, RepoIdView, branch_of, dir_of, lemma_line_round_trip, line_of, stable_identity,
    url_of, wellformed_url,
};

verus! {

/// The identity parsed from one persisted record.
pub open spec fn parsed_id(line: Seq<char>) -> RepoIdView {
    RepoIdView { url: url_of(line), branch: branch_of(line) }
}

/// A deduplicating append: the list, with `v` appended unless it is
/// already there.
pub open spec fn dedup_push(s: Seq<RepoIdView>, v: RepoIdView) -> Seq<RepoIdView> {
    if s.contains(v) {
        s
    } else {
        s.push(v)
    }
}

/// The identities a reloaded registry holds after parsing `lines` in
/// order, deduplicating as it goes.
pub open spec fn load_views(lines: Seq<Seq<char>>) -> Seq<RepoIdView>
    decreases lines.len(),
{
    if lines.len() == 0 {
        Seq::empty()
    } else {
        dedup_push(load_views(lines.drop_last()), parsed_id(lines.last()))
    }
}

/// The persisted records of a list of identities, in order.
pub open spec fn lines_of(ids: Seq<RepoIdView>) -> Seq<Seq<char>> {
    Seq::new(ids.len(), |i: int| line_of(ids[i]))
}

/// The deduplicated, persisted list of tracked repositories, viewed as
/// the sequence of its identities.
#[derive(Debug)]
pub struct RepoRegistry {
    repos: Vec<GitRepo>,
}

impl View for RepoRegistry {
    type V = Seq<RepoIdView>;

    closed spec fn view(&self) -> Seq<RepoIdView> {
        Seq::new(self.repos@.len(), |i: int| self.repos@[i]@)
    }
}

impl RepoRegistry {
    /// No identity appears twice.
    pub open spec fn inv(&self) -> bool {
        forall|i: int, j: int| 0 <= i < j < self@.len() ==> self@[i] != self@[j]
    }

    /// A fresh registry tracks nothing.
    pub fn new() -> (r: Self)
        ensures
            r.inv(),
            r@ == Seq::<RepoIdView>::empty(),
    {
        let r = RepoRegistry { repos: Vec::new() };
        proof {
            assert(r@ =~= Seq::<RepoIdView>::empty());
        }
        r
    }

    /// Whether the registry already tracks this identity.
    pub fn contains_identity(&self, repo: &GitRepo) -> (r: bool)
        ensures
            r == self@.contains(repo@),
    {
        let n = self.repos.len();
        let mut i: usize = 0;
        while i < n
            invariant
                0 <= i <= n,
                n == self.repos@.len(),
                self@.len() == n,
                forall|j: int| 0 <= j < n ==> self@[j] == self.repos@[j]@,
                forall|j: int| 0 <= j < i ==> self@[j] != repo@,
            decreases n - i,
        {
            if self.repos[i].same_identity(repo) {
                proof {
                    assert(self@[i as int] == repo@);
                }
                return true;
            }
            i = i + 1;
        }
        false
    }

    /// Inserts the identity unless it is already tracked; reports whether
    /// an insertion happened, in which case the caller persists the new
    /// record.
    pub fn add(&mut self, repo: GitRepo) -> (added: bool)
        requires
            old(self).inv(),
        ensures
            final(self).inv(),
            added == !old(self)@.contains(repo@),
            final(self)@ == dedup_push(old(self)@, repo@),
    {
        if self.contains_identity(&repo) {
            false
        } else {
            let ghost v0 = self@;
            let ghost rv = repo@;
            self.repos.push(repo);
            proof {
                assert(self@ =~= v0.push(rv));
            }
            true
        }
    }

    /// A snapshot of the tracked identities.
    pub fn list(&self) -> (r: Vec<GitRepo>)
        ensures
            r@.len() == self@.len(),
            forall|i: int| 0 <= i < r@.len() ==> r@[i]@ == self@[i],
    {
        let n = self.repos.len();
        let mut out: Vec<GitRepo> = Vec::new();
        let mut i: usize = 0;
        while i < n
            invariant
                0 <= i <= n,
                n == self.repos@.len(),
                self@.len() == n,
                forall|j: int| 0 <= j < n ==> self@[j] == self.repos@[j]@,
                out@.len() == i,
                forall|j: int| 0 <= j < i ==> out@[j]@ == self@[j],
            decreases n - i,
        {
            out.push(self.repos[i].clone());
            i = i + 1;
        }
        out
    }

    /// Delists the identity (the archive workflow); reports whether an
    /// entry was removed, in which case the caller rewrites the persisted
    /// list without it.
    pub fn remove(&mut self, repo: &GitRepo) -> (removed: bool)
        requires
            old(self).inv(),
        ensures
            final(self).inv(),
            removed == old(self)@.contains(repo@),
            removed ==> final(self)@ == old(self)@.remove(old(self)@.index_of(repo@)),
            !removed ==> final(self)@ == old(self)@,
    {
        let ghost v0 = self@;
        let n = self.repos.len();
        let mut i: usize = 0;
        while i < n
            invariant
                0 <= i <= n,
                n == self.repos@.len(),
                self@.len() == n,
                self.inv(),
                self@ == v0,
                old(self)@ == v0,
                forall|j: int| 0 <= j < i ==> self@[j] != repo@,
            decreases n - i,
        {
            if self.repos[i].same_identity(repo) {
                proof {
                    assert(self@[i as int] == self.repos@[i as int]@);
                    assert(v0[i as int] == repo@);
                    assert(v0.contains(repo@));
                    assert(v0.index_of(repo@) == i as int) by {
                        let k = v0.index_of(repo@);
                        if k != i as int {
                            assert(v0[k] == repo@);
                        }
                    }
                }
                self.repos.remove(i);
                proof {
                    assert(self@ =~= v0.remove(i as int));
                    assert forall|a: int, b: int| 0 <= a < b < self@.len() implies self@[a]
                        != self@[b] by {
                        let a0 = if a < i as int {
                            a
                        } else {
                            a + 1
                        };
                        let b0 = if b < i as int {
                            b
                        } else {
                            b + 1
                        };
                        assert(v0[a0] != v0[b0]);
                    }
                }
                return true;
            }
            i = i + 1;
        }
        proof {
            if v0.contains(repo@) {
                let k = choose|k: int| 0 <= k < v0.len() && v0[k] == repo@;
                assert(v0[k] != repo@);
            }
        }
        false
    }

    /// The first tracked repository whose derived short name is `name`,
    /// if any — the supervisor's key is the name, so this is how a stop
    /// or archive request finds its repository.
    pub fn find_by_name(&self, name: &String) -> (r: Option<GitRepo>)
        ensures
            r matches Some(g) ==> exists|i: int|
                0 <= i < self@.len() && self@[i] == g@ && dir_of(g@.url) == name@ && (forall|j: int|
                    0 <= j < i ==> dir_of(#[trigger] self@[j].url) != name@),
            r is None ==> forall|i: int| 0 <= i < self@.len() ==> dir_of(self@[i].url) != name@,
    {
        let n = self.repos.len();
        let mut i: usize = 0;
        while i < n
            invariant
                0 <= i <= n,
                n == self.repos@.len(),
                self@.len() == n,
                forall|j: int| 0 <= j < n ==> self@[j] == self.repos@[j]@,
                forall|j: int| 0 <= j < i ==> dir_of(self@[j].url) != name@,
            decreases n - i,
        {
            let d = self.repos[i].name();
            if d == *name {
                let g = self.repos[i].clone();
                proof {
                    assert(self@[i as int] == g@);
                }
                return Some(g);
            }
            i = i + 1;
        }
        None
    }

    /// The persisted records of the whole registry, in order: what the
    /// caller writes to the repository list on disk.
    pub fn persist_lines(&self) -> (r: Vec<String>)
        ensures
            r.deep_view() == lines_of(self@),
    {
        let n = self.repos.len();
        let mut out: Vec<String> = Vec::new();
        let mut i: usize = 0;
        while i < n
            invariant
                0 <= i <= n,
                n == self.repos@.len(),
                self@.len() == n,
                forall|j: int| 0 <= j < n ==> self@[j] == self.repos@[j]@,
                out@.len() == i,
                forall|j: int| 0 <= j < i ==> out@[j]@ == line_of(self@[j]),
            decreases n - i,
        {
            out.push(self.repos[i].repo_line());
            i = i + 1;
        }
        proof {
            assert(out.deep_view() =~= lines_of(self@));
        }
        out
    }

    /// Reloads a registry from persisted records: parses each record in
    /// order, deduplicating, and rejects the whole list with
    /// `MalformedUrl` exactly when some record is malformed.
    pub fn load(lines: &Vec<String>) -> (r: Result<Self, CampaignError>)
        ensures
            r is Ok <==> (forall|i: int|
                0 <= i < lines@.len() ==> wellformed_url(lines@[i]@)),
            r matches Ok(reg) ==> reg.inv() && reg@ == load_views(lines.deep_view()),
            r matches Err(e) ==> e is MalformedUrl,
    {
        let n = lines.len();
        let mut reg = RepoRegistry::new();
        let mut i: usize = 0;
        while i < n
            invariant
                0 <= i <= n,
                n == lines@.len(),
                reg.inv(),
                forall|j: int| 0 <= j < i ==> wellformed_url(lines@[j]@),
                reg@ == load_views(lines.deep_view().take(i as int)),
            decreases n - i,
        {
            let line = &lines[i];
            match GitRepo::parse(line.as_str()) {
                Ok(g) => {
                    proof {
                        assert(g@ == parsed_id(lines@[i as int]@));
                    }
                    reg.add(g);
                    proof {
                        let lv = lines.deep_view();
                        assert(lv.take(i + 1).drop_last() =~= lv.take(i as int));
                        assert(lv.take(i + 1).last() == lv[i as int]);
                        assert(lv[i as int] == lines@[i as int]@);
                    }
                },
                Err(_) => {
                    return Err(CampaignError::MalformedUrl);
                },
            }
            i = i + 1;
        }
        proof {
            assert(lines.deep_view().take(n as int) =~= lines.deep_view());
            assert forall|i: int| 0 <= i < lines@.len() implies wellformed_url(lines@[i]@) by {}
        }
        Ok(reg)
    }
}

/// Adding the same identity twice changes nothing the second time: one
/// deduplicating append makes the list contain the identity, so a second
/// append of it is the identity function — only one record is ever
/// persisted.
pub proof fn lemma_add_idempotent(s: Seq<RepoIdView>, v: RepoIdView)
    ensures
        dedup_push(s, v).contains(v),
        dedup_push(dedup_push(s, v), v) == dedup_push(s, v),
{
    if !s.contains(v) {
        assert(s.push(v)[s.len() as int] == v);
    }
}

/// Round trip of the whole list: reloading the persisted records of a
/// registry of distinct, stable identities reproduces exactly the same
/// identities, in the same order (and so the same set).
pub proof fn lemma_registry_round_trip(ids: Seq<RepoIdView>)
    requires
        forall|i: int| 0 <= i < ids.len() ==> stable_identity(#[trigger] ids[i]),
        forall|i: int, j: int| 0 <= i < j < ids.len() ==> ids[i] != ids[j],
    ensures
        forall|i: int| 0 <= i < lines_of(ids).len() ==> wellformed_url(#[trigger] lines_of(ids)[i]),
        load_views(lines_of(ids)) == ids,
    decreases ids.len(),
{
    assert forall|i: int| 0 <= i < lines_of(ids).len() implies wellformed_url(
        #[trigger] lines_of(ids)[i],
    ) by {
        lemma_line_round_trip(ids[i]);
    }
    if ids.len() == 0 {
        assert(load_views(lines_of(ids)) =~= ids);
    } else {
        let head = ids.drop_last();
        lemma_registry_round_trip(head);
        assert(lines_of(ids).drop_last() =~= lines_of(head));
        let last = ids.last();
        lemma_line_round_trip(last);
        assert(parsed_id(lines_of(ids).last()) =~= last);
        if head.contains(last) {
            let k = choose|k: int| 0 <= k < head.len() && head[k] == last;
            assert(ids[k] == ids[ids.len() - 1]);
        }
        assert(load_views(lines_of(ids)) == dedup_push(head, last));
        assert(head.push(last) =~= ids);
    }
}

} // verus!
