//! Commit histories: directed acyclic graphs of commits in topological order.
//!
//! A history stores its commits so that every parent stands at a smaller
//! index than its child.  Reachability along parent edges is the ancestor
//! relation; the merge base of two commits is their common ancestor of
//! highest index.

use vstd::prelude::*;
use vstd::pervasive::VecAdditionalExecFns;
use crate::tree::Tree;

verus! {

/// One commit: an identifier, the identifiers of its parents, and the tree
/// of its content.
#[derive(Debug, Clone)]
pub struct Commit {
    pub id: u64,
    pub parents: Vec<u64>,
    pub tree: Tree,
}

/// A commit graph in topological order: parents precede children.
#[derive(Debug, Clone)]
pub struct History {
    pub commits: Vec<Commit>,
}

/// No two commits of `s` share an identifier.
pub open spec fn ids_unique(s: Seq<Commit>) -> bool {
    forall|i: int, j: int| 0 <= i < j < s.len() ==> s[i].id != s[j].id
}

/// Some commit of `s` carries the identifier `id`.
pub open spec fn has_id(s: Seq<Commit>, id: u64) -> bool {
    exists|i: int| 0 <= i < s.len() && s[i].id == id
}

/// The index of the commit of `s` carrying `id`.
pub open spec fn idx_of(s: Seq<Commit>, id: u64) -> int {
    choose|i: int| 0 <= i < s.len() && s[i].id == id
}

/// The `k`-th parent of the commit at `i` occurs at some smaller index.
pub open spec fn parent_present(s: Seq<Commit>, i: int, k: int) -> bool {
    exists|j: int| 0 <= j < i && s[j].id == s[i].parents[k]
}

/// Every parent of the commit at `i` occurs at some smaller index.
pub open spec fn parents_before(s: Seq<Commit>, i: int) -> bool {
    forall|k: int| 0 <= k < s[i].parents.len() ==> #[trigger] parent_present(s, i, k)
}

/// The whole sequence is topologically ordered.
pub open spec fn topo_ordered(s: Seq<Commit>) -> bool {
    forall|i: int| 0 <= i < s.len() ==> #[trigger] parents_before(s, i)
}

/// The commit at index `p` is a parent of the commit at index `i`.
pub open spec fn parent_link(s: Seq<Commit>, i: int, p: int) -> bool {
    0 <= p < s.len() && exists|k: int| 0 <= k < s[i].parents.len() && s[i].parents[k] == s[p].id
}

/// The commit at index `j` is an ancestor of (or equal to) the commit at
/// index `i`: following parent edges from `i` reaches `j`.
pub open spec fn reaches(s: Seq<Commit>, i: int, j: int) -> bool
    decreases i,
{
    i == j || (0 <= i < s.len() && exists|p: int|
        0 <= p < i && #[trigger] parent_link(s, i, p) && reaches(s, p, j))
}

impl History {
    /// Identifiers are unique, parents precede children, trees are
    /// well-formed.
    pub open spec fn wf(&self) -> bool {
        &&& ids_unique(self.commits@)
        &&& topo_ordered(self.commits@)
        &&& forall|i: int| 0 <= i < self.commits.len() ==> (#[trigger] self.commits[i].tree).wf()
    }

    /// An empty history.
    pub fn new() -> (r: History)
        ensures
            r.wf(),
            r.commits@.len() == 0,
    {
        History { commits: Vec::new() }
    }

    /// The index of the commit carrying `id`, if any.
    pub fn find_index(&self, id: u64) -> (r: Option<usize>)
        ensures
            match r {
                Some(j) => j < self.commits.len() && self.commits[j as int].id == id && has_id(
                    self.commits@,
                    id,
                ),
                None => !has_id(self.commits@, id),
            },
    {
        let n: usize = self.commits.len();
        let mut j: usize = 0;
        while j < n
            invariant
                n == self.commits.len(),
                j <= n,
                forall|k: int| 0 <= k < j ==> self.commits[k].id != id,
            decreases n - j,
        {
            if self.commits[j].id == id {
                return Some(j);
            }
            j += 1;
        }
        None
    }
}

/// Some commit among the first `k` of `s` carries the identifier `id`.
pub open spec fn has_id_first(s: Seq<Commit>, k: int, id: u64) -> bool {
    exists|jr: int| 0 <= jr < k && s[jr].id == id
}

impl History {
    /// Bring the commits of a fetched remote history into this one: commits
    /// already known keep their places, unknown remote commits are appended
    /// in the remote's order.
    pub fn integrate(&mut self, remote: &History)
        requires
            old(self).wf(),
            remote.wf(),
            agrees(old(self).commits@, remote.commits@),
        ensures
            final(self).wf(),
            final(self).commits@.len() >= old(self).commits@.len(),
            final(self).commits@.subrange(0, old(self).commits@.len() as int) == old(
                self,
            ).commits@,
            forall|id: u64|
                #[trigger] has_id(final(self).commits@, id) <==> (has_id(old(self).commits@, id)
                    || has_id(remote.commits@, id)),
            forall|j: int|
                old(self).commits@.len() <= j < final(self).commits@.len() ==> !has_id(
                    old(self).commits@,
                    (#[trigger] final(self).commits@[j]).id,
                ) && exists|jr: int|
                    0 <= jr < remote.commits@.len() && commit_matches(
                        final(self).commits@[j],
                        remote.commits@[jr],
                    ),
            agrees(final(self).commits@, remote.commits@),
    {
        let ghost s0 = self.commits@;
        let ghost rs = remote.commits@;
        let nr: usize = remote.commits.len();
        let mut k: usize = 0;
        while k < nr
            invariant
                remote.wf(),
                rs == remote.commits@,
                nr == rs.len(),
                k <= nr,
                self.wf(),
                self.commits@.len() >= s0.len(),
                self.commits@.subrange(0, s0.len() as int) == s0,
                forall|id: u64|
                    #[trigger] has_id(self.commits@, id) <==> (has_id(s0, id) || has_id_first(
                        rs,
                        k as int,
                        id,
                    )),
                forall|j: int|
                    s0.len() <= j < self.commits@.len() ==> !has_id(
                        s0,
                        (#[trigger] self.commits@[j]).id,
                    ) && exists|jr: int|
                        0 <= jr < nr && commit_matches(self.commits@[j], rs[jr]),
                forall|jr: int| 0 <= jr < k ==> has_id(self.commits@, (#[trigger] rs[jr]).id),
                agrees(self.commits@, rs),
            decreases nr - k,
        {
            let id = remote.commits[k].id;
            proof {
                assert(rs[k as int].id == id);
            }
            match self.find_index(id) {
                Some(_) => {
                    proof {
                        assert(has_id(self.commits@, id));
                        assert forall|id2: u64| #[trigger]
                            has_id(self.commits@, id2) <==> (has_id(s0, id2) || has_id_first(
                                rs,
                                k + 1,
                                id2,
                            )) by {
                            if has_id_first(rs, k + 1, id2) && !has_id_first(rs, k as int, id2) {
                                let jr = choose|jr: int| 0 <= jr < k + 1 && rs[jr].id == id2;
                                assert(jr == k as int);
                                assert(id2 == id);
                            }
                        }
                    }
                },
                None => {
                    let c = clone_commit_at(remote, k);
                    let ghost sc = self.commits@;
                    self.commits.push(c);
                    proof {
                        let m = sc.len() as int;
                        let sn = self.commits@;
                        assert(sn == sc.push(c));
                        assert(sn[m] == c);
                        assert forall|i: int, j: int| 0 <= i < j < sn.len() implies sn[i].id
                            != sn[j].id by {
                            if j == m {
                                assert(sn[i] == sc[i]);
                                if sn[i].id == c.id {
                                    assert(has_id(sc, c.id));
                                }
                            } else {
                                assert(sn[i] == sc[i]);
                                assert(sn[j] == sc[j]);
                            }
                        }
                        assert forall|i: int| 0 <= i < sn.len() implies #[trigger] parents_before(
                            sn,
                            i,
                        ) by {
                            if i < m {
                                assert(parents_before(sc, i));
                                lemma_parents_before_push_old(sc, c, i);
                            } else {
                                assert(parents_before(rs, k as int));
                                lemma_parents_before_push_new(sc, c, rs, k as int);
                            }
                        }
                        assert forall|i: int| 0 <= i < sn.len() implies (#[trigger] sn[i].tree).wf() by {
                            if i < m {
                                assert(sn[i] == sc[i]);
                                assert(sc[i].tree.wf());
                            } else {
                                assert(rs[k as int].tree.wf());
                            }
                        }
                        assert(self.wf());
                        assert(sn.subrange(0, s0.len() as int) =~= sc.subrange(0, s0.len() as int));
                        assert forall|id2: u64| #[trigger]
                            has_id(sn, id2) <==> (has_id(s0, id2) || has_id_first(
                                rs,
                                k + 1,
                                id2,
                            )) by {
                            if has_id(sn, id2) {
                                let i = choose|i: int| 0 <= i < sn.len() && sn[i].id == id2;
                                if i < m {
                                    assert(sn[i] == sc[i]);
                                    assert(has_id(sc, id2));
                                } else {
                                    assert(id2 == id);
                                    assert(rs[k as int].id == id2);
                                    assert(has_id_first(rs, k + 1, id2));
                                }
                            }
                            if has_id(s0, id2) || has_id_first(rs, k + 1, id2) {
                                if has_id(s0, id2) || has_id_first(rs, k as int, id2) {
                                    assert(has_id(sc, id2));
                                    let i = choose|i: int| 0 <= i < sc.len() && sc[i].id == id2;
                                    assert(sn[i] == sc[i]);
                                    assert(has_id(sn, id2));
                                } else {
                                    let jr = choose|jr: int| 0 <= jr < k + 1 && rs[jr].id == id2;
                                    assert(jr == k as int);
                                    assert(sn[m].id == id2);
                                    assert(has_id(sn, id2));
                                }
                            }
                        }
                        assert forall|j: int|
                            s0.len() <= j < sn.len() implies !has_id(
                            s0,
                            (#[trigger] sn[j]).id,
                        ) && exists|jr: int|
                            0 <= jr < nr && commit_matches(sn[j], rs[jr]) by {
                            if j < m {
                                assert(sn[j] == sc[j]);
                            } else {
                                assert(commit_matches(c, rs[k as int]));
                                if has_id(s0, c.id) {
                                    let i = choose|i: int| 0 <= i < s0.len() && s0[i].id == c.id;
                                    assert(sc.subrange(0, s0.len() as int)[i] == s0[i]);
                                    assert(sc[i] == s0[i]);
                                    assert(has_id(sc, c.id));
                                }
                            }
                        }
                        assert forall|jr: int|
                            0 <= jr < k + 1 implies has_id(sn, (#[trigger] rs[jr]).id) by {
                            if jr < k {
                                assert(has_id(sc, rs[jr].id));
                                let i = choose|i: int| 0 <= i < sc.len() && sc[i].id == rs[jr].id;
                                assert(sn[i] == sc[i]);
                            } else {
                                assert(sn[m].id == rs[jr].id);
                            }
                        }
                        assert forall|i: int, j: int|
                            0 <= i < sn.len() && 0 <= j < rs.len() && sn[i].id
                                == rs[j].id implies commit_matches(
                            #[trigger] sn[i],
                            #[trigger] rs[j],
                        ) by {
                            if i < m {
                                assert(sn[i] == sc[i]);
                            } else {
                                assert(commit_matches(c, rs[k as int]));
                                assert(rs[k as int].id == rs[j].id);
                                if j != k as int {
                                    if j < k as int {
                                        assert(rs[j].id != rs[k as int].id);
                                    } else {
                                        assert(rs[k as int].id != rs[j].id);
                                    }
                                }
                            }
                        }
                    }
                },
            }
            k += 1;
        }
        proof {
            assert forall|id: u64| #[trigger]
                has_id(self.commits@, id) <==> (has_id(s0, id) || has_id(rs, id)) by {
                assert(has_id_first(rs, nr as int, id) == has_id(rs, id));
            }
        }
    }
}

/// Appending a commit leaves the parent witnesses of earlier commits intact.
pub proof fn lemma_parents_before_push_old(s: Seq<Commit>, c: Commit, i: int)
    requires
        0 <= i < s.len(),
        parents_before(s, i),
    ensures
        parents_before(s.push(c), i),
{
    let sn = s.push(c);
    assert(sn[i] == s[i]);
    assert forall|k: int|
        0 <= k < sn[i].parents.len() implies #[trigger] parent_present(sn, i, k) by {
        assert(s[i].parents[k] == sn[i].parents[k]);
        assert(parent_present(s, i, k));
        let j = choose|j: int| 0 <= j < i && s[j].id == s[i].parents[k];
        assert(sn[j] == s[j]);
        assert(0 <= j < i && sn[j].id == sn[i].parents[k]);
    }
}

/// An appended commit whose parents are all already present satisfies the
/// topological order at its new index.
pub proof fn lemma_parents_before_push_new(s: Seq<Commit>, c: Commit, rs: Seq<Commit>, k: int)
    requires
        0 <= k < rs.len(),
        c.parents@ == rs[k].parents@,
        parents_before(rs, k),
        forall|jr: int| 0 <= jr < k ==> has_id(s, (#[trigger] rs[jr]).id),
    ensures
        parents_before(s.push(c), s.len() as int),
{
    let sn = s.push(c);
    let i = s.len() as int;
    assert(sn[i] == c);
    assert forall|t: int|
        0 <= t < sn[i].parents.len() implies #[trigger] parent_present(sn, i, t) by {
        assert(sn[i].parents[t] == rs[k].parents[t]);
        assert(0 <= t < rs[k].parents.len());
        assert(parent_present(rs, k, t));
        let jr = choose|jr: int| 0 <= jr < k && rs[jr].id == rs[k].parents[t];
        assert(has_id(s, rs[jr].id));
        let j = choose|j: int| 0 <= j < s.len() && s[j].id == rs[jr].id;
        assert(sn[j] == s[j]);
        assert(0 <= j < i && sn[j].id == sn[i].parents[t]);
    }
}

/// Reaching `j` from a valid index `i` keeps `j` within `[0, i]`.
pub proof fn lemma_reaches_bounds(s: Seq<Commit>, i: int, j: int)
    requires
        reaches(s, i, j),
        0 <= i < s.len(),
    ensures
        0 <= j <= i,
    decreases i,
{
    if i != j {
        let p = choose|p: int| 0 <= p < i && #[trigger] parent_link(s, i, p) && reaches(s, p, j);
        lemma_reaches_bounds(s, p, j);
    }
}

/// An ancestor of an ancestor is an ancestor.
pub proof fn lemma_reaches_trans(s: Seq<Commit>, a: int, b: int, c: int)
    requires
        reaches(s, a, b),
        reaches(s, b, c),
    ensures
        reaches(s, a, c),
    decreases a,
{
    if a != b {
        let p = choose|p: int| 0 <= p < a && #[trigger] parent_link(s, a, p) && reaches(s, p, b);
        lemma_reaches_trans(s, p, b, c);
    }
}

/// Following one parent edge from a reachable commit stays reachable.
pub proof fn lemma_reaches_parent(s: Seq<Commit>, a: int, b: int, p: int)
    requires
        reaches(s, a, b),
        parent_link(s, b, p),
        0 <= p < b,
        b < s.len(),
    ensures
        reaches(s, a, p),
{
    assert(reaches(s, b, p)) by {
        assert(parent_link(s, b, p) && reaches(s, p, p));
    }
    lemma_reaches_trans(s, a, b, p);
}

/// All indices the commit at `start` reaches, as a boolean mask over the
/// history's indices.
pub fn ancestor_marks(h: &History, start: usize) -> (marks: Vec<bool>)
    requires
        h.wf(),
        start < h.commits.len(),
    ensures
        marks.len() == h.commits.len(),
        forall|j: int|
            0 <= j < marks.len() ==> ((#[trigger] marks[j]) <==> reaches(
                h.commits@,
                start as int,
                j,
            )),
{
    let ghost s = h.commits@;
    let n: usize = h.commits.len();
    let mut marks: Vec<bool> = Vec::new();
    while marks.len() < n
        invariant
            marks.len() <= n,
            forall|j: int| 0 <= j < marks.len() ==> !(#[trigger] marks[j]),
        decreases n - marks.len(),
    {
        marks.push(false);
    }
    marks.set(start, true);
    let mut i: usize = start + 1;
    while i > 0
        invariant
            n == h.commits.len(),
            s == h.commits@,
            h.wf(),
            start < n,
            i <= start + 1,
            marks.len() == n,
            marks[start as int],
            forall|j: int| 0 <= j < n && #[trigger] marks[j] ==> reaches(s, start as int, j),
            forall|j: int| start < j < n ==> !(#[trigger] marks[j]),
            forall|a: int, p: int|
                i <= a < n && marks[a] && 0 <= p < a && #[trigger] parent_link(s, a, p)
                    ==> marks[p],
        decreases i,
    {
        i -= 1;
        if marks[i] {
            let ghost m0 = marks@;
            let np: usize = h.commits[i].parents.len();
            let mut k: usize = 0;
            while k < np
                invariant
                    n == h.commits.len(),
                    s == h.commits@,
                    h.wf(),
                    start < n,
                    i < n,
                    np == h.commits[i as int].parents.len(),
                    k <= np,
                    marks.len() == n,
                    m0.len() == n,
                    reaches(s, start as int, i as int),
                    forall|j: int| 0 <= j < n && m0[j] ==> #[trigger] marks[j],
                    forall|j: int|
                        0 <= j < n && #[trigger] marks[j] && !m0[j] ==> parent_link(s, i as int, j)
                            && j < i,
                    forall|p: int, kk: int|
                        0 <= p < n && 0 <= kk < k && #[trigger] s[i as int].parents[kk]
                            == s[p].id && p < i ==> #[trigger] marks[p],
                decreases np - k,
            {
                let pid = h.commits[i].parents[k];
                proof {
                    assert(parents_before(s, i as int));
                    assert(parent_present(s, i as int, k as int));
                    assert(exists|j: int| 0 <= j < i && s[j].id == s[i as int].parents[k as int]);
                }
                match h.find_index(pid) {
                    Some(j) => {
                        proof {
                            let jw = choose|jw: int| 0 <= jw < i && s[jw].id == pid;
                            if (j as int) < jw {
                                assert(s[j as int].id != s[jw].id);
                            } else if jw < j as int {
                                assert(s[jw].id != s[j as int].id);
                            }
                            assert(j as int == jw);
                            assert(parent_link(s, i as int, j as int));
                        }
                        let ghost mprev = marks@;
                        marks.set(j, true);
                        proof {
                            lemma_reaches_parent(s, start as int, i as int, j as int);
                        }
                    },
                    None => {
                        proof {
                            assert(false);
                        }
                    },
                }
                k += 1;
            }
            proof {
                assert forall|j: int|
                    0 <= j < n && #[trigger] marks[j] implies reaches(s, start as int, j) by {
                    if !m0[j] {
                        lemma_reaches_parent(s, start as int, i as int, j);
                    }
                }
                assert forall|a: int, p: int|
                    i <= a < n && marks[a] && 0 <= p < a && #[trigger] parent_link(
                        s,
                        a,
                        p,
                    ) implies marks[p] by {
                    if a == i {
                        let kk = choose|kk: int|
                            0 <= kk < s[a].parents.len() && s[a].parents[kk] == s[p].id;
                        if p >= i {
                            assert(parents_before(s, i as int));
                            assert(parent_present(s, i as int, kk));
                            let jw = choose|jw: int| 0 <= jw < i && s[jw].id == s[i as int].parents[kk];
                            assert(s[jw].id == s[p].id);
                            if jw < p {
                                assert(s[jw].id != s[p].id);
                            }
                            assert(false);
                        }
                    } else {
                        assert(m0[a]);
                        assert(m0[p]);
                    }
                }
            }
        }
    }
    proof {
        assert forall|j: int|
            0 <= j < n && reaches(s, start as int, j) implies #[trigger] marks[j] by {
            lemma_marks_complete(s, marks@, start as int, j);
        }
    }
    marks
}

/// The merge base of the commits at `a` and `b`: their common ancestor of
/// highest index, when any common ancestor exists.
pub fn merge_base(h: &History, a: usize, b: usize) -> (r: Option<usize>)
    requires
        h.wf(),
        a < h.commits.len(),
        b < h.commits.len(),
    ensures
        match r {
            Some(j) => j < h.commits.len() && reaches(h.commits@, a as int, j as int) && reaches(
                h.commits@,
                b as int,
                j as int,
            ) && forall|j2: int|
                j < j2 < h.commits.len() ==> !(reaches(h.commits@, a as int, j2) && reaches(
                    h.commits@,
                    b as int,
                    j2,
                )),
            None => forall|j2: int|
                0 <= j2 < h.commits.len() ==> !(reaches(h.commits@, a as int, j2) && reaches(
                    h.commits@,
                    b as int,
                    j2,
                )),
        },
{
    let ghost s = h.commits@;
    let ma = ancestor_marks(h, a);
    let mb = ancestor_marks(h, b);
    let n: usize = h.commits.len();
    let mut j: usize = n;
    while j > 0
        invariant
            n == h.commits.len(),
            s == h.commits@,
            j <= n,
            ma.len() == n,
            mb.len() == n,
            forall|j2: int| 0 <= j2 < n ==> ((#[trigger] ma[j2]) <==> reaches(s, a as int, j2)),
            forall|j2: int| 0 <= j2 < n ==> ((#[trigger] mb[j2]) <==> reaches(s, b as int, j2)),
            forall|j2: int| j <= j2 < n ==> !(reaches(s, a as int, j2) && reaches(s, b as int, j2)),
        decreases j,
    {
        j -= 1;
        if ma[j] && mb[j] {
            return Some(j);
        }
    }
    None
}

/// Two histories agree on the commits they share.
pub open spec fn commit_matches(a: Commit, b: Commit) -> bool {
    a.id == b.id && a.parents@ == b.parents@ && a.tree.entries@ == b.tree.entries@
}

/// Wherever `a` and `b` carry the same identifier, they carry the same
/// commit.
pub open spec fn agrees(a: Seq<Commit>, b: Seq<Commit>) -> bool {
    forall|i: int, j: int|
        0 <= i < a.len() && 0 <= j < b.len() && a[i].id == b[j].id ==> commit_matches(
            #[trigger] a[i],
            #[trigger] b[j],
        )
}

/// A copy of the commit at index `i`, matching it in all views.
pub fn clone_commit_at(h: &History, i: usize) -> (r: Commit)
    requires
        i < h.commits.len(),
    ensures
        commit_matches(r, h.commits[i as int]),
        r.tree.wf() == h.commits[i as int].tree.wf(),
{
    let c = &h.commits[i];
    let mut parents: Vec<u64> = Vec::new();
    let np: usize = c.parents.len();
    let mut k: usize = 0;
    while k < np
        invariant
            np == c.parents.len(),
            k <= np,
            parents@.len() == k,
            forall|t: int| 0 <= t < k ==> parents@[t] == c.parents@[t],
        decreases np - k,
    {
        parents.push(c.parents[k]);
        k += 1;
    }
    proof {
        assert(parents@ =~= c.parents@);
    }
    Commit { id: c.id, parents, tree: c.tree.duplicate() }
}

/// The closure argument: a marking that holds the start and is closed under
/// parent edges covers everything the start reaches.
pub proof fn lemma_marks_complete(s: Seq<Commit>, marks: Seq<bool>, i: int, j: int)
    requires
        marks.len() == s.len(),
        0 <= i < s.len(),
        marks[i],
        reaches(s, i, j),
        forall|a: int, p: int|
            0 <= a < s.len() && marks[a] && 0 <= p < a && #[trigger] parent_link(s, a, p)
                ==> marks[p],
    ensures
        0 <= j < s.len() && marks[j],
    decreases i,
{
    if i != j {
        let p = choose|p: int| 0 <= p < i && #[trigger] parent_link(s, i, p) && reaches(s, p, j);
        assert(marks[p]);
        lemma_marks_complete(s, marks, p, j);
    }
}

} // verus!
