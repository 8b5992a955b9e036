//! The version-control synchronization primitive: clone-if-absent,
//! fetch-and-analyze, fast-forward, three-way merge with conflict detection.
//!
//! A working copy is a [`RepoState`]: a commit history, a head reference, a
//! working tree and a list of conflicted paths (empty when the copy is
//! clean).  `refresh` brings fetched remote history in and reconciles the
//! local state; `ensure_present` clones when no working copy exists.

use vstd::prelude::*;
use crate::errors::GitError;
use crate::history::{
    agrees, ancestor_marks, clone_commit_at, commit_matches, has_id, idx_of, ids_unique,
    lemma_reaches_bounds, parent_link, parent_present, parents_before, reaches, Commit, History,
};
use crate::tree::{listed, m_at, merge_trees, merged_map, no_conflicts, Tree};

verus! {

/// The decision outcome of comparing the local head to a fetched remote
/// head.  Computed fresh on every fetch, never cached.
#[derive(Debug, Clone, Copy, PartialEq, Eq, Structural)]
pub enum MergeAnalysis {
    /// The fetched commit is already part of local history: no action.
    UpToDate,
    /// Local history is a prefix of remote history: moving the branch
    /// pointer suffices, no content merge is needed.
    FastForwardable,
    /// Local and remote each hold commits the other lacks: a three-way
    /// merge is required.
    Divergent,
    /// There is no local history yet; the caller routes this to the clone
    /// path.
    Unborn,
}

/// The classification of a fetched head against a local head, over the
/// commit sequence that holds both.
pub open spec fn analysis_of(s: Seq<Commit>, head: Option<u64>, fetched: u64) -> MergeAnalysis {
    if head is None {
        MergeAnalysis::Unborn
    } else {
        if reaches(s, idx_of(s, head->0), idx_of(s, fetched)) {
            MergeAnalysis::UpToDate
        } else if reaches(s, idx_of(s, fetched), idx_of(s, head->0)) {
            MergeAnalysis::FastForwardable
        } else {
            MergeAnalysis::Divergent
        }
    }
}

/// With unique identifiers, the index found for a commit's id is that
/// commit's own index.
pub proof fn lemma_idx_of(s: Seq<Commit>, j: int)
    requires
        ids_unique(s),
        0 <= j < s.len(),
    ensures
        has_id(s, s[j].id),
        idx_of(s, s[j].id) == j,
{
    assert(has_id(s, s[j].id));
    let i = idx_of(s, s[j].id);
    if i < j {
        assert(s[i].id != s[j].id);
    } else if j < i {
        assert(s[j].id != s[i].id);
    }
}

/// Mutual ancestors coincide: the ancestor relation is antisymmetric.
pub proof fn lemma_reaches_antisymmetric(s: Seq<Commit>, i: int, j: int)
    requires
        reaches(s, i, j),
        reaches(s, j, i),
        0 <= i < s.len(),
        0 <= j < s.len(),
    ensures
        i == j,
{
    lemma_reaches_bounds(s, i, j);
    lemma_reaches_bounds(s, j, i);
}

/// Classify a fetched commit against the local head.  `s` must already hold
/// the fetched commit (the fetch step integrates remote history first).
pub fn merge_analysis(h: &History, head: Option<u64>, fetched: u64) -> (r: MergeAnalysis)
    requires
        h.wf(),
        has_id(h.commits@, fetched),
        match head {
            Some(id) => has_id(h.commits@, id),
            None => true,
        },
    ensures
        r == analysis_of(h.commits@, head, fetched),
{
    let ghost s = h.commits@;
    match head {
        None => MergeAnalysis::Unborn,
        Some(head_id) => {
            let hi = match h.find_index(head_id) {
                Some(hi) => hi,
                None => {
                    proof {
                        assert(false);
                    }
                    0
                },
            };
            let ri = match h.find_index(fetched) {
                Some(ri) => ri,
                None => {
                    proof {
                        assert(false);
                    }
                    0
                },
            };
            proof {
                lemma_idx_of(s, hi as int);
                lemma_idx_of(s, ri as int);
            }
            let mh = ancestor_marks(h, hi);
            if mh[ri] {
                MergeAnalysis::UpToDate
            } else {
                let mr = ancestor_marks(h, ri);
                if mr[hi] {
                    MergeAnalysis::FastForwardable
                } else {
                    MergeAnalysis::Divergent
                }
            }
        },
    }
}

/// A local head that is a strict ancestor of the fetched head — remote
/// history is a strict superset of local history — always classifies as
/// fast-forwardable, never as divergent: no three-way merge is attempted.
pub proof fn lemma_strict_superset_fast_forwards(s: Seq<Commit>, head_id: u64, fetched: u64)
    requires
        ids_unique(s),
        has_id(s, head_id),
        has_id(s, fetched),
        reaches(s, idx_of(s, fetched), idx_of(s, head_id)),
        head_id != fetched,
    ensures
        analysis_of(s, Some(head_id), fetched) == MergeAnalysis::FastForwardable,
{
    let hi = idx_of(s, head_id);
    let ri = idx_of(s, fetched);
    assert(0 <= hi < s.len() && s[hi].id == head_id);
    assert(0 <= ri < s.len() && s[ri].id == fetched);
    if reaches(s, hi, ri) {
        lemma_reaches_antisymmetric(s, hi, ri);
        assert(false);
    }
}

/// The state of one package's working copy.
pub struct RepoState {
    /// The known commit graph: local history plus whatever fetches brought.
    pub history: History,
    /// The commit the checked-out branch points at; `None` means the branch
    /// is unborn (no local history).
    pub head: Option<u64>,
    /// The checked-out file content.
    pub work_tree: Tree,
    /// The paths left with unresolved conflict markers; empty means the
    /// copy is clean.
    pub conflicts: Vec<String>,
}

impl RepoState {
    /// The history is well-formed, the head (if any) is a known commit, and
    /// the working tree is well-formed.
    pub open spec fn wf(&self) -> bool {
        &&& self.history.wf()
        &&& match self.head {
            Some(id) => has_id(self.history.commits@, id),
            None => true,
        }
        &&& self.work_tree.wf()
    }

    /// The working copy carries no unresolved conflicts.
    pub open spec fn clean(&self) -> bool {
        self.conflicts@.len() == 0
    }
}

/// `a` carries exactly the commits of `b`, index by index.
pub open spec fn history_matches(a: Seq<Commit>, b: Seq<Commit>) -> bool {
    a.len() == b.len() && forall|i: int|
        0 <= i < a.len() ==> commit_matches(#[trigger] a[i], b[i])
}

/// A full copy of a history, matching it commit by commit.
pub fn clone_history(src: &History) -> (r: History)
    requires
        src.wf(),
    ensures
        r.wf(),
        history_matches(r.commits@, src.commits@),
        forall|id: u64| #[trigger] has_id(r.commits@, id) == has_id(src.commits@, id),
{
    let ghost s = src.commits@;
    let n: usize = src.commits.len();
    let mut commits: Vec<Commit> = Vec::new();
    let mut i: usize = 0;
    while i < n
        invariant
            src.wf(),
            s == src.commits@,
            n == s.len(),
            i <= n,
            commits@.len() == i,
            forall|k: int| 0 <= k < i ==> commit_matches(#[trigger] commits@[k], s[k]),
            forall|k: int| 0 <= k < i ==> (#[trigger] commits@[k].tree).wf(),
        decreases n - i,
    {
        let c = clone_commit_at(src, i);
        commits.push(c);
        i += 1;
    }
    let r = History { commits };
    proof {
        let rs = r.commits@;
        assert forall|i2: int, j2: int| 0 <= i2 < j2 < rs.len() implies rs[i2].id != rs[j2].id by {
            assert(commit_matches(rs[i2], s[i2]));
            assert(commit_matches(rs[j2], s[j2]));
        }
        assert forall|i2: int| 0 <= i2 < rs.len() implies #[trigger] parents_before(rs, i2) by {
            assert(parents_before(s, i2));
            assert forall|k: int|
                0 <= k < rs[i2].parents.len() implies #[trigger] parent_present(rs, i2, k) by {
                assert(commit_matches(rs[i2], s[i2]));
                assert(rs[i2].parents[k] == s[i2].parents[k]);
                assert(parent_present(s, i2, k));
                let j = choose|j: int| 0 <= j < i2 && s[j].id == s[i2].parents[k];
                assert(commit_matches(rs[j], s[j]));
                assert(0 <= j < i2 && rs[j].id == rs[i2].parents[k]);
            }
        }
        assert forall|id: u64| #[trigger]
            has_id(rs, id) == has_id(s, id) by {
            if has_id(rs, id) {
                let j = choose|j: int| 0 <= j < rs.len() && rs[j].id == id;
                assert(commit_matches(rs[j], s[j]));
                assert(s[j].id == id);
            }
            if has_id(s, id) {
                let j = choose|j: int| 0 <= j < s.len() && s[j].id == id;
                assert(commit_matches(rs[j], s[j]));
                assert(rs[j].id == id);
            }
        }
    }
    r
}

/// Move the branch to the fetched commit and force-refresh the working tree
/// to match it, discarding whatever the tree held.
pub fn fast_forward(repo: &mut RepoState, fetched: u64)
    requires
        old(repo).wf(),
        has_id(old(repo).history.commits@, fetched),
    ensures
        final(repo).wf(),
        final(repo).history.commits@ == old(repo).history.commits@,
        final(repo).head == Some(fetched),
        final(repo).work_tree@ == old(repo).history.commits@[idx_of(
            old(repo).history.commits@,
            fetched,
        )].tree@,
        final(repo).clean(),
{
    let ghost s = repo.history.commits@;
    let idx = match repo.history.find_index(fetched) {
        Some(idx) => idx,
        None => {
            proof {
                assert(false);
            }
            0
        },
    };
    proof {
        lemma_idx_of(s, idx as int);
    }
    let t = repo.history.commits[idx].tree.duplicate();
    repo.head = Some(fetched);
    repo.work_tree = t;
    repo.conflicts = Vec::new();
}

/// The flags of one package's sync step.
pub struct SyncOutcome {
    /// A fresh clone was made.
    pub cloned: bool,
    /// A refresh fetched and applied upstream changes.
    pub pulled_with_changes: bool,
    /// The build step should run: something changed, or an upgrade was
    /// requested anyway.
    pub would_install: bool,
}

impl SyncOutcome {
    /// Combine the step's flags; the build runs exactly when the copy was
    /// cloned, changed by a pull, or an upgrade was requested.
    pub fn new(cloned: bool, pulled_with_changes: bool, upgrade_requested: bool) -> (r:
        SyncOutcome)
        ensures
            r.cloned == cloned,
            r.pulled_with_changes == pulled_with_changes,
            r.would_install == (cloned || pulled_with_changes || upgrade_requested),
    {
        SyncOutcome {
            cloned,
            pulled_with_changes,
            would_install: cloned || pulled_with_changes || upgrade_requested,
        }
    }
}

/// Clone the remote when no working copy exists; keep the existing copy
/// untouched otherwise.  The second component reports whether a clone was
/// made: with no existing copy it is always `true`, and the fresh copy's
/// head is the remote's head at clone time, checked out clean.
pub fn ensure_present(existing: Option<RepoState>, remote: &History, remote_head: u64) -> (res: (
    RepoState,
    bool,
))
    requires
        remote.wf(),
        has_id(remote.commits@, remote_head),
        existing matches Some(r) ==> r.wf(),
    ensures
        res.0.wf(),
        match existing {
            None => res.1 == true && history_matches(res.0.history.commits@, remote.commits@)
                && res.0.head == Some(remote_head) && res.0.work_tree@
                == remote.commits@[idx_of(remote.commits@, remote_head)].tree@ && res.0.clean(),
            Some(r) => res.1 == false && res.0 == r,
        },
{
    match existing {
        Some(r) => (r, false),
        None => {
            let h = clone_history(remote);
            let mut repo = RepoState {
                history: h,
                head: None,
                work_tree: Tree::empty(),
                conflicts: Vec::new(),
            };
            proof {
                let rs = repo.history.commits@;
                let s = remote.commits@;
                let j = idx_of(s, remote_head);
                assert(0 <= j < s.len() && s[j].id == remote_head);
                assert(commit_matches(rs[j], s[j]));
                assert(has_id(rs, remote_head));
                lemma_idx_of(rs, j);
                assert(idx_of(rs, remote_head) == j);
                assert(rs[j].tree@ == s[j].tree@);
            }
            fast_forward(&mut repo, remote_head);
            (repo, true)
        },
    }
}

/// `j` is the merge base of `a` and `b`: a common ancestor, and no later
/// index is one.
pub open spec fn is_merge_base(s: Seq<Commit>, a: int, b: int, j: int) -> bool {
    &&& 0 <= j < s.len()
    &&& reaches(s, a, j)
    &&& reaches(s, b, j)
    &&& forall|j2: int| j < j2 < s.len() ==> !(reaches(s, a, j2) && reaches(s, b, j2))
}

/// `a` and `b` share no ancestor at all.
pub open spec fn no_common_ancestor(s: Seq<Commit>, a: int, b: int) -> bool {
    forall|j: int| 0 <= j < s.len() ==> !(reaches(s, a, j) && reaches(s, b, j))
}

/// Appending a commit changes no ancestor relation among the commits
/// already present.
pub proof fn lemma_reaches_push(s: Seq<Commit>, c: Commit, i: int, j: int)
    requires
        0 <= i < s.len(),
    ensures
        reaches(s.push(c), i, j) == reaches(s, i, j),
    decreases i,
{
    let sn = s.push(c);
    if i != j {
        assert(sn[i] == s[i]);
        if reaches(sn, i, j) {
            let p = choose|p: int|
                0 <= p < i && #[trigger] parent_link(sn, i, p) && reaches(sn, p, j);
            assert(sn[p] == s[p]);
            let k = choose|k: int| 0 <= k < sn[i].parents.len() && sn[i].parents[k] == sn[p].id;
            assert(s[i].parents[k] == s[p].id);
            assert(parent_link(s, i, p));
            lemma_reaches_push(s, c, p, j);
            assert(parent_link(s, i, p) && reaches(s, p, j));
        }
        if reaches(s, i, j) {
            let p = choose|p: int|
                0 <= p < i && #[trigger] parent_link(s, i, p) && reaches(s, p, j);
            assert(sn[p] == s[p]);
            let k = choose|k: int| 0 <= k < s[i].parents.len() && s[i].parents[k] == s[p].id;
            assert(sn[i].parents[k] == sn[p].id);
            assert(parent_link(sn, i, p));
            lemma_reaches_push(s, c, p, j);
            assert(parent_link(sn, i, p) && reaches(sn, p, j));
        }
    }
}

/// The largest commit identifier of `h`, or zero when `h` is empty.
fn max_id(h: &History) -> (r: u64)
    ensures
        forall|i: int| 0 <= i < h.commits@.len() ==> (#[trigger] h.commits@[i]).id <= r,
        r == 0 || exists|i: int| 0 <= i < h.commits@.len() && h.commits@[i].id == r,
{
    let n: usize = h.commits.len();
    let mut r: u64 = 0;
    let mut i: usize = 0;
    while i < n
        invariant
            n == h.commits.len(),
            i <= n,
            forall|k: int| 0 <= k < i ==> (#[trigger] h.commits@[k]).id <= r,
            r == 0 || exists|k: int| 0 <= k < i && h.commits@[k].id == r,
        decreases n - i,
    {
        if h.commits[i].id > r {
            r = h.commits[i].id;
        }
        i += 1;
    }
    r
}

/// Fetch the remote's history into the working copy and reconcile the
/// local state: no-op when up to date, pointer move when fast-forwardable,
/// three-way merge when divergent.  `Ok(changed)` reports whether the
/// working copy changed.  On conflict the working tree is left checked out
/// with the conflicting paths recorded, no commit is created and the branch
/// does not move.
pub fn refresh(repo: &mut RepoState, remote: &History, remote_head: u64) -> (r: Result<
    bool,
    GitError,
>)
    requires
        old(repo).wf(),
        old(repo).head is Some,
        remote.wf(),
        has_id(remote.commits@, remote_head),
        agrees(old(repo).history.commits@, remote.commits@),
        forall|i: int|
            0 <= i < old(repo).history.commits@.len() ==> (#[trigger] old(repo).history.commits@[i]).id < u64::MAX,
        forall|i: int| 0 <= i < remote.commits@.len() ==> (#[trigger] remote.commits@[i]).id
            < u64::MAX,
    ensures
        final(repo).wf(),
        final(repo).history.commits@.len() >= old(repo).history.commits@.len(),
        final(repo).history.commits@.subrange(0, old(repo).history.commits@.len() as int) == old(repo).history.commits@,
        has_id(final(repo).history.commits@, old(repo).head->0),
        has_id(final(repo).history.commits@, remote_head),
        match r {
            Ok(changed) => {
                if !changed {
                    // up to date: the fetched head is already an ancestor of
                    // the local head, and nothing is modified
                    &&& reaches(
                        final(repo).history.commits@,
                        idx_of(final(repo).history.commits@, old(repo).head->0),
                        idx_of(final(repo).history.commits@, remote_head),
                    )
                    &&& final(repo).head == old(repo).head
                    &&& final(repo).work_tree@ == old(repo).work_tree@
                    &&& final(repo).conflicts@ == old(repo).conflicts@
                    &&& forall|id: u64|
                        #[trigger] has_id(final(repo).history.commits@, id) <==> (has_id(
                            old(repo).history.commits@,
                            id,
                        ) || has_id(remote.commits@, id))
                } else {
                    // fast-forward: the branch moves to the fetched head
                    ||| {
                        &&& !reaches(
                            final(repo).history.commits@,
                            idx_of(final(repo).history.commits@, old(repo).head->0),
                            idx_of(final(repo).history.commits@, remote_head),
                        )
                        &&& reaches(
                            final(repo).history.commits@,
                            idx_of(final(repo).history.commits@, remote_head),
                            idx_of(final(repo).history.commits@, old(repo).head->0),
                        )
                        &&& final(repo).head == Some(remote_head)
                        &&& final(repo).work_tree@ == final(repo).history.commits@[idx_of(
                            final(repo).history.commits@,
                            remote_head,
                        )].tree@
                        &&& final(repo).clean()
                        &&& forall|id: u64|
                            #[trigger] has_id(final(repo).history.commits@, id) <==> (has_id(
                                old(repo).history.commits@,
                                id,
                            ) || has_id(remote.commits@, id))
                    }
                    // divergent, merged cleanly: a fresh two-parent merge
                    // commit becomes the new head
                    ||| {
                        &&& !reaches(
                            final(repo).history.commits@,
                            idx_of(final(repo).history.commits@, old(repo).head->0),
                            idx_of(final(repo).history.commits@, remote_head),
                        )
                        &&& !reaches(
                            final(repo).history.commits@,
                            idx_of(final(repo).history.commits@, remote_head),
                            idx_of(final(repo).history.commits@, old(repo).head->0),
                        )
                        &&& final(repo).head == Some(final(repo).history.commits@.last().id)
                        &&& final(repo).history.commits@.last().parents@ == seq![
                            old(repo).head->0,
                            remote_head,
                        ]
                        &&& !has_id(old(repo).history.commits@, final(repo).history.commits@.last().id)
                        &&& !has_id(remote.commits@, final(repo).history.commits@.last().id)
                        &&& exists|bi: int|
                            {
                                &&& #[trigger] is_merge_base(
                                    final(repo).history.commits@,
                                    idx_of(final(repo).history.commits@, old(repo).head->0),
                                    idx_of(final(repo).history.commits@, remote_head),
                                    bi,
                                )
                                &&& no_conflicts(
                                    final(repo).history.commits@[bi].tree@,
                                    final(repo).history.commits@[idx_of(
                                        final(repo).history.commits@,
                                        old(repo).head->0,
                                    )].tree@,
                                    final(repo).history.commits@[idx_of(
                                        final(repo).history.commits@,
                                        remote_head,
                                    )].tree@,
                                )
                                &&& final(repo).history.commits@.last().tree@ == merged_map(
                                    final(repo).history.commits@[bi].tree@,
                                    final(repo).history.commits@[idx_of(
                                        final(repo).history.commits@,
                                        old(repo).head->0,
                                    )].tree@,
                                    final(repo).history.commits@[idx_of(
                                        final(repo).history.commits@,
                                        remote_head,
                                    )].tree@,
                                )
                            }
                        &&& final(repo).work_tree@ == final(repo).history.commits@.last().tree@
                        &&& final(repo).clean()
                        &&& forall|id: u64|
                            #[trigger] has_id(final(repo).history.commits@, id) <==> (has_id(
                                old(repo).history.commits@,
                                id,
                            ) || has_id(remote.commits@, id) || id == final(repo).history.commits@.last().id)
                    }
                }
            },
            Err(e) => {
                &&& final(repo).head == old(repo).head
                &&& !reaches(
                    final(repo).history.commits@,
                    idx_of(final(repo).history.commits@, old(repo).head->0),
                    idx_of(final(repo).history.commits@, remote_head),
                )
                &&& !reaches(
                    final(repo).history.commits@,
                    idx_of(final(repo).history.commits@, remote_head),
                    idx_of(final(repo).history.commits@, old(repo).head->0),
                )
                &&& forall|id: u64|
                    #[trigger] has_id(final(repo).history.commits@, id) <==> (has_id(
                        old(repo).history.commits@,
                        id,
                    ) || has_id(remote.commits@, id))
                &&& match e {
                    // unresolved conflicts: the tree is checked out at the
                    // local head with the conflicting paths recorded; no
                    // commit is created, the branch does not move
                    GitError::MergeConflicts => {
                        &&& exists|bi: int|
                            {
                                &&& #[trigger] is_merge_base(
                                    final(repo).history.commits@,
                                    idx_of(final(repo).history.commits@, old(repo).head->0),
                                    idx_of(final(repo).history.commits@, remote_head),
                                    bi,
                                )
                                &&& !no_conflicts(
                                    final(repo).history.commits@[bi].tree@,
                                    final(repo).history.commits@[idx_of(
                                        final(repo).history.commits@,
                                        old(repo).head->0,
                                    )].tree@,
                                    final(repo).history.commits@[idx_of(
                                        final(repo).history.commits@,
                                        remote_head,
                                    )].tree@,
                                )
                                &&& forall|k: int|
                                    0 <= k < final(repo).conflicts@.len() ==> m_at(
                                        final(repo).history.commits@[bi].tree@,
                                        final(repo).history.commits@[idx_of(
                                            final(repo).history.commits@,
                                            old(repo).head->0,
                                        )].tree@,
                                        final(repo).history.commits@[idx_of(
                                            final(repo).history.commits@,
                                            remote_head,
                                        )].tree@,
                                        (#[trigger] final(repo).conflicts@[k])@,
                                    ) is None
                                &&& forall|p: Seq<char>|
                                    m_at(
                                        final(repo).history.commits@[bi].tree@,
                                        final(repo).history.commits@[idx_of(
                                            final(repo).history.commits@,
                                            old(repo).head->0,
                                        )].tree@,
                                        final(repo).history.commits@[idx_of(
                                            final(repo).history.commits@,
                                            remote_head,
                                        )].tree@,
                                        p,
                                    ) is None ==> listed(final(repo).conflicts@, p)
                            }
                        &&& final(repo).conflicts@.len() > 0
                        &&& final(repo).work_tree@ == final(repo).history.commits@[idx_of(
                            final(repo).history.commits@,
                            old(repo).head->0,
                        )].tree@
                    },
                    // no shared history: nothing to merge against
                    GitError::NoCommonAncestor => {
                        &&& no_common_ancestor(
                            final(repo).history.commits@,
                            idx_of(final(repo).history.commits@, old(repo).head->0),
                            idx_of(final(repo).history.commits@, remote_head),
                        )
                        &&& final(repo).work_tree@ == old(repo).work_tree@
                        &&& final(repo).conflicts@ == old(repo).conflicts@
                    },
                    // never produced here: fetching happened before the call
                    GitError::FetchFailed => false,
                }
            },
        },
{
    let ghost old_s = repo.history.commits@;
    let head_id = match repo.head {
        Some(x) => x,
        None => {
            proof {
                assert(false);
            }
            0
        },
    };
    repo.history.integrate(remote);
    let ghost si = repo.history.commits@;
    proof {
        assert(has_id(old_s, head_id));
        assert(has_id(si, head_id));
        assert(has_id(si, remote_head));
    }
    let analysis = merge_analysis(&repo.history, repo.head, remote_head);
    match analysis {
        MergeAnalysis::Unborn => {
            proof {
                assert(false);
            }
            Err(GitError::NoCommonAncestor)
        },
        MergeAnalysis::UpToDate => Ok(false),
        MergeAnalysis::FastForwardable => {
            fast_forward(repo, remote_head);
            Ok(true)
        },
        MergeAnalysis::Divergent => {
            let hi = match repo.history.find_index(head_id) {
                Some(hi) => hi,
                None => {
                    proof {
                        assert(false);
                    }
                    0
                },
            };
            let ri = match repo.history.find_index(remote_head) {
                Some(ri) => ri,
                None => {
                    proof {
                        assert(false);
                    }
                    0
                },
            };
            proof {
                lemma_idx_of(si, hi as int);
                lemma_idx_of(si, ri as int);
            }
            match crate::history::merge_base(&repo.history, hi, ri) {
                None => Err(GitError::NoCommonAncestor),
                Some(bi) => {
                    match merge_trees(
                        &repo.history.commits[bi].tree,
                        &repo.history.commits[hi].tree,
                        &repo.history.commits[ri].tree,
                    ) {
                        Err(conf) => {
                            let lt = repo.history.commits[hi].tree.duplicate();
                            repo.work_tree = lt;
                            repo.conflicts = conf;
                            proof {
                                assert(is_merge_base(si, hi as int, ri as int, bi as int));
                            }
                            Err(GitError::MergeConflicts)
                        },
                        Ok(merged) => {
                            let mx = max_id(&repo.history);
                            proof {
                                if mx != 0 {
                                    let w = choose|w: int|
                                        0 <= w < si.len() && si[w].id == mx;
                                    if w < old_s.len() {
                                        assert(old_s[w] == si.subrange(0, old_s.len() as int)[w]);
                                        assert(old_s[w].id < u64::MAX);
                                    } else {
                                        let jr = choose|jr: int|
                                            0 <= jr < remote.commits@.len() && commit_matches(
                                                si[w],
                                                remote.commits@[jr],
                                            );
                                        assert(remote.commits@[jr].id < u64::MAX);
                                    }
                                }
                            }
                            let mid = mx + 1;
                            let mut parents: Vec<u64> = Vec::new();
                            parents.push(head_id);
                            parents.push(remote_head);
                            let mtree = merged.duplicate();
                            let c = Commit { id: mid, parents, tree: merged };
                            proof {
                                assert(c.parents@ =~= seq![head_id, remote_head]);
                                assert(!has_id(si, mid)) by {
                                    if has_id(si, mid) {
                                        let w = choose|w: int|
                                            0 <= w < si.len() && si[w].id == mid;
                                        assert(si[w].id <= mx);
                                    }
                                }
                            }
                            repo.history.commits.push(c);
                            repo.head = Some(mid);
                            repo.work_tree = mtree;
                            repo.conflicts = Vec::new();
                            proof {
                                let s1 = repo.history.commits@;
                                let m = si.len() as int;
                                assert(s1 == si.push(c));
                                assert(s1[m] == c);
                                assert(s1.last() == c);
                                // well-formedness of the extended history
                                assert forall|i2: int, j2: int|
                                    0 <= i2 < j2 < s1.len() implies s1[i2].id != s1[j2].id by {
                                    if j2 == m {
                                        assert(s1[i2] == si[i2]);
                                        if s1[i2].id == mid {
                                            assert(has_id(si, mid));
                                        }
                                    } else {
                                        assert(s1[i2] == si[i2]);
                                        assert(s1[j2] == si[j2]);
                                    }
                                }
                                assert forall|i2: int|
                                    0 <= i2 < s1.len() implies #[trigger] parents_before(
                                    s1,
                                    i2,
                                ) by {
                                    if i2 < m {
                                        assert(parents_before(si, i2));
                                        crate::history::lemma_parents_before_push_old(si, c, i2);
                                    } else {
                                        assert forall|k: int|
                                            0 <= k < s1[i2].parents.len() implies #[trigger]
                                        parent_present(s1, i2, k) by {
                                            if k == 0 {
                                                assert(s1[i2].parents[0] == head_id);
                                                assert(s1[hi as int] == si[hi as int]);
                                                assert(0 <= hi < i2 && s1[hi as int].id == s1[i2].parents[0]);
                                            } else {
                                                assert(s1[i2].parents[1] == remote_head);
                                                assert(s1[ri as int] == si[ri as int]);
                                                assert(0 <= ri < i2 && s1[ri as int].id == s1[i2].parents[1]);
                                            }
                                        }
                                    }
                                }
                                assert forall|i2: int|
                                    0 <= i2 < s1.len() implies (#[trigger] s1[i2].tree).wf() by {
                                    if i2 < m {
                                        assert(s1[i2] == si[i2]);
                                        assert(si[i2].tree.wf());
                                    }
                                }
                                assert(repo.history.wf());
                                // the prefix of previously known commits is intact
                                assert(s1.subrange(0, old_s.len() as int) =~= si.subrange(
                                    0,
                                    old_s.len() as int,
                                ));
                                // index stability across the push
                                assert(s1[hi as int] == si[hi as int]);
                                assert(s1[ri as int] == si[ri as int]);
                                lemma_idx_of(s1, hi as int);
                                lemma_idx_of(s1, ri as int);
                                lemma_idx_of(s1, m);
                                // ancestry stability across the push
                                lemma_reaches_push(si, c, hi as int, ri as int);
                                lemma_reaches_push(si, c, ri as int, hi as int);
                                // the merge base carries over
                                assert forall|j2: int|
                                    bi < j2 < s1.len() implies !(reaches(s1, hi as int, j2)
                                    && reaches(s1, ri as int, j2)) by {
                                    if j2 < m {
                                        lemma_reaches_push(si, c, hi as int, j2);
                                        lemma_reaches_push(si, c, ri as int, j2);
                                    } else {
                                        if reaches(s1, hi as int, j2) {
                                            lemma_reaches_bounds(s1, hi as int, j2);
                                        }
                                    }
                                }
                                lemma_reaches_push(si, c, hi as int, bi as int);
                                lemma_reaches_push(si, c, ri as int, bi as int);
                                assert(is_merge_base(s1, hi as int, ri as int, bi as int));
                                assert(s1[bi as int] == si[bi as int]);
                                // the id set gains exactly the merge commit
                                assert forall|id: u64| #[trigger]
                                    has_id(s1, id) <==> (has_id(old_s, id) || has_id(
                                        remote.commits@,
                                        id,
                                    ) || id == mid) by {
                                    if has_id(s1, id) {
                                        let w = choose|w: int| 0 <= w < s1.len() && s1[w].id == id;
                                        if w < m {
                                            assert(s1[w] == si[w]);
                                            assert(has_id(si, id));
                                        }
                                    }
                                    if has_id(si, id) {
                                        let w = choose|w: int| 0 <= w < si.len() && si[w].id == id;
                                        assert(s1[w] == si[w]);
                                        assert(has_id(s1, id));
                                    }
                                    if id == mid {
                                        assert(s1[m].id == id);
                                        assert(has_id(s1, id));
                                    }
                                }
                            }
                            Ok(true)
                        },
                    }
                },
            }
        },
    }
}

/// The merge base is unique: two common ancestors that both admit no
/// later common ancestor are the same commit.  Together with the refresh
/// contract this pins the divergent path completely: when the two heads'
/// merge base exists and its three trees merge without conflict, a refresh
/// can only succeed, with a fresh two-parent merge commit as the new head.
pub proof fn lemma_merge_base_unique(s: Seq<Commit>, a: int, b: int, j1: int, j2: int)
    requires
        is_merge_base(s, a, b, j1),
        is_merge_base(s, a, b, j2),
    ensures
        j1 == j2,
{
}

/// Refreshing is idempotent on an up-to-date copy.  After a refresh found
/// the fetched head already reachable from the local head, the local
/// history holds every remote id; a following fetch of the same remote
/// (`s2`, shaped as the fetch step leaves it) then integrates nothing new,
/// and the same analysis comes out again: the next refresh reports no
/// change, and the working copy is never altered.
pub proof fn lemma_refresh_idempotent(
    s1: Seq<Commit>,
    s2: Seq<Commit>,
    rs: Seq<Commit>,
    head_id: u64,
    remote_head: u64,
)
    requires
        forall|id: u64| has_id(rs, id) ==> has_id(s1, id),
        s2.len() >= s1.len(),
        s2.subrange(0, s1.len() as int) == s1,
        forall|j: int|
            s1.len() <= j < s2.len() ==> !has_id(s1, (#[trigger] s2[j]).id) && exists|jr: int|
                0 <= jr < rs.len() && commit_matches(s2[j], rs[jr]),
        ids_unique(s1),
        has_id(s1, head_id),
        has_id(s1, remote_head),
        reaches(s1, idx_of(s1, head_id), idx_of(s1, remote_head)),
    ensures
        s2 == s1,
        analysis_of(s2, Some(head_id), remote_head) == MergeAnalysis::UpToDate,
{
    if s2.len() > s1.len() {
        let j = s1.len() as int;
        let jr = choose|jr: int| 0 <= jr < rs.len() && commit_matches(s2[j], rs[jr]);
        assert(rs[jr].id == s2[j].id);
        assert(has_id(rs, s2[j].id));
        assert(has_id(s1, s2[j].id));
        assert(false);
    }
    assert(s2.subrange(0, s1.len() as int) =~= s2);
}

/// Two heads that each hold commits the other lacks — neither is an
/// ancestor of the other — always classify as divergent: a three-way merge
/// is required.
pub proof fn lemma_divergent_analysis(s: Seq<Commit>, head_id: u64, fetched: u64)
    requires
        has_id(s, head_id),
        has_id(s, fetched),
        !reaches(s, idx_of(s, head_id), idx_of(s, fetched)),
        !reaches(s, idx_of(s, fetched), idx_of(s, head_id)),
    ensures
        analysis_of(s, Some(head_id), fetched) == MergeAnalysis::Divergent,
{
}

} // verus!
