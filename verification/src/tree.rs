//! Trees: the file content of one commit or of the working copy.
//!
//! A tree is a finite set of paths, each carrying file content.  Its
//! mathematical value is a map from path to content; the three-way merge of
//! two divergent trees against their common ancestor is defined path by path.

use vstd::prelude::*;

verus! {

/// One file of a tree: a path and its content.
#[derive(Debug, Clone)]
pub struct TreeEntry {
    pub path: String,
    pub content: String,
}

/// The content of a commit or of a working copy, as a set of files.
#[derive(Debug, Clone)]
pub struct Tree {
    pub entries: Vec<TreeEntry>,
}

/// The map a sequence of entries denotes; later entries shadow earlier ones.
pub open spec fn entries_map(s: Seq<TreeEntry>) -> Map<Seq<char>, Seq<char>>
    decreases s.len(),
{
    if s.len() == 0 {
        Map::empty()
    } else {
        entries_map(s.drop_last()).insert(s.last().path@, s.last().content@)
    }
}

/// Each path occurs at most once in `s`.
pub open spec fn paths_unique(s: Seq<TreeEntry>) -> bool {
    forall|i: int, j: int| 0 <= i < j < s.len() ==> s[i].path@ != s[j].path@
}

impl View for Tree {
    type V = Map<Seq<char>, Seq<char>>;

    open spec fn view(&self) -> Map<Seq<char>, Seq<char>> {
        entries_map(self.entries@)
    }
}

impl Tree {
    /// Each path occurs at most once.
    pub open spec fn wf(&self) -> bool {
        paths_unique(self.entries@)
    }

    /// An empty tree.
    pub fn empty() -> (r: Tree)
        ensures
            r.wf(),
            r@ == Map::<Seq<char>, Seq<char>>::empty(),
            r.entries@.len() == 0,
    {
        Tree { entries: Vec::new() }
    }

    /// A copy of this tree with equal entries.
    pub fn duplicate(&self) -> (r: Tree)
        ensures
            r.entries@ == self.entries@,
            r@ == self@,
            r.wf() == self.wf(),
    {
        let mut entries: Vec<TreeEntry> = Vec::new();
        let n: usize = self.entries.len();
        let mut i: usize = 0;
        while i < n
            invariant
                n == self.entries.len(),
                i <= n,
                entries@.len() == i,
                forall|k: int| 0 <= k < i ==> entries@[k] == self.entries@[k],
            decreases n - i,
        {
            let e = &self.entries[i];
            entries.push(TreeEntry { path: e.path.clone(), content: e.content.clone() });
            i += 1;
        }
        proof {
            assert(entries@ =~= self.entries@);
        }
        Tree { entries }
    }

    /// The content at `path`, if the tree holds that path.
    pub fn lookup<'a>(&'a self, path: &String) -> (r: Option<&'a String>)
        requires
            self.wf(),
        ensures
            match r {
                Some(c) => self@.contains_key(path@) && self@[path@] == c@,
                None => !self@.contains_key(path@),
            },
    {
        let n: usize = self.entries.len();
        let mut i: usize = 0;
        while i < n
            invariant
                n == self.entries.len(),
                i <= n,
                self.wf(),
                forall|k: int| 0 <= k < i ==> self.entries[k].path@ != path@,
            decreases n - i,
        {
            if self.entries[i].path == *path {
                proof {
                    lemma_entries_map_unique(self.entries@);
                }
                return Some(&self.entries[i].content);
            }
            i += 1;
        }
        proof {
            lemma_entries_map_domain(self.entries@);
        }
        None
    }
}

/// The content a map holds at `p`, or `None` when the path is absent.
pub open spec fn opt_at(m: Map<Seq<char>, Seq<char>>, p: Seq<char>) -> Option<Seq<char>> {
    if m.contains_key(p) {
        Some(m[p])
    } else {
        None
    }
}

/// The three-way rule for one path, given its content in the common ancestor
/// (`b`), the local tree (`l`) and the remote tree (`r`).  `Some(c)` is the
/// merged content (`None` inside means the path is absent from the merge);
/// the outer `None` marks a conflict: both sides changed the path, and not to
/// the same content.
pub open spec fn merge_entry(
    b: Option<Seq<char>>,
    l: Option<Seq<char>>,
    r: Option<Seq<char>>,
) -> Option<Option<Seq<char>>> {
    if l == r {
        Some(l)
    } else if l == b {
        Some(r)
    } else if r == b {
        Some(l)
    } else {
        None
    }
}

/// The three-way rule applied at path `p` of the three tree maps.
pub open spec fn m_at(
    b: Map<Seq<char>, Seq<char>>,
    l: Map<Seq<char>, Seq<char>>,
    r: Map<Seq<char>, Seq<char>>,
    p: Seq<char>,
) -> Option<Option<Seq<char>>> {
    merge_entry(opt_at(b, p), opt_at(l, p), opt_at(r, p))
}

/// No path of the three trees conflicts.
pub open spec fn no_conflicts(
    b: Map<Seq<char>, Seq<char>>,
    l: Map<Seq<char>, Seq<char>>,
    r: Map<Seq<char>, Seq<char>>,
) -> bool {
    forall|p: Seq<char>| m_at(b, l, r, p) is Some
}

/// The merged content at `p`, with conflicts mapped to "absent".
pub open spec fn merged_at(
    b: Map<Seq<char>, Seq<char>>,
    l: Map<Seq<char>, Seq<char>>,
    r: Map<Seq<char>, Seq<char>>,
    p: Seq<char>,
) -> Option<Seq<char>> {
    match m_at(b, l, r, p) {
        Some(v) => v,
        None => None,
    }
}

/// The merged content at `p`, defaulting to the empty content when absent.
pub open spec fn merged_val(
    b: Map<Seq<char>, Seq<char>>,
    l: Map<Seq<char>, Seq<char>>,
    r: Map<Seq<char>, Seq<char>>,
    p: Seq<char>,
) -> Seq<char> {
    match merged_at(b, l, r, p) {
        Some(v) => v,
        None => Seq::empty(),
    }
}

/// The map of the conflict-free three-way merge of the three trees.
pub open spec fn merged_map(
    b: Map<Seq<char>, Seq<char>>,
    l: Map<Seq<char>, Seq<char>>,
    r: Map<Seq<char>, Seq<char>>,
) -> Map<Seq<char>, Seq<char>> {
    Map::new(
        |p: Seq<char>| merged_at(b, l, r, p) is Some,
        |p: Seq<char>| merged_val(b, l, r, p),
    )
}

/// A conflicting path is held by the local or by the remote tree.
pub proof fn lemma_conflict_in_sides(
    b: Map<Seq<char>, Seq<char>>,
    l: Map<Seq<char>, Seq<char>>,
    r: Map<Seq<char>, Seq<char>>,
    p: Seq<char>,
)
    requires
        m_at(b, l, r, p) is None,
    ensures
        l.contains_key(p) || r.contains_key(p),
{
}

/// `s` records content `v` at path `p`.
pub open spec fn recorded(s: Seq<TreeEntry>, p: Seq<char>, v: Seq<char>) -> bool {
    exists|k: int| 0 <= k < s.len() && s[k].path@ == p && s[k].content@ == v
}

/// `c` lists the path `p`.
pub open spec fn listed(c: Seq<String>, p: Seq<char>) -> bool {
    exists|k: int| 0 <= k < c.len() && c[k]@ == p
}

/// Path `p` occurs among the first `i` entries of `le`.
pub open spec fn among_first(le: Seq<TreeEntry>, i: int, p: Seq<char>) -> bool {
    exists|j: int| 0 <= j < i && le[j].path@ == p
}

/// Path `p` occurs among the first `t` entries of `re` and is new relative
/// to the map `lm`.
pub open spec fn among_first_new(
    lm: Map<Seq<char>, Seq<char>>,
    re: Seq<TreeEntry>,
    t: int,
    p: Seq<char>,
) -> bool {
    among_first(re, t, p) && !lm.contains_key(p)
}

/// The merge outcome at path `p` is accounted for: a merged content is
/// recorded in `ms`, a conflict is listed in `cs`, an absence leaves no trace.
pub open spec fn accounted(
    bm: Map<Seq<char>, Seq<char>>,
    lm: Map<Seq<char>, Seq<char>>,
    rm: Map<Seq<char>, Seq<char>>,
    p: Seq<char>,
    ms: Seq<TreeEntry>,
    cs: Seq<String>,
) -> bool {
    match m_at(bm, lm, rm, p) {
        Some(ov) => match ov {
            Some(v) => recorded(ms, p, v),
            None => true,
        },
        None => listed(cs, p),
    }
}

/// Every key of `entries_map(s)` comes from some entry of `s`, and every
/// entry's path is a key.
pub proof fn lemma_entries_map_domain(s: Seq<TreeEntry>)
    ensures
        forall|p: Seq<char>|
            #[trigger] entries_map(s).contains_key(p) <==> exists|i: int|
                0 <= i < s.len() && s[i].path@ == p,
    decreases s.len(),
{
    if s.len() > 0 {
        lemma_entries_map_domain(s.drop_last());
        assert forall|p: Seq<char>| #[trigger]
            entries_map(s).contains_key(p) implies exists|i: int|
            0 <= i < s.len() && s[i].path@ == p by {
            if p == s.last().path@ {
                assert(s[s.len() - 1].path@ == p);
            } else {
                assert(entries_map(s.drop_last()).contains_key(p));
                let i = choose|i: int| 0 <= i < s.drop_last().len() && s.drop_last()[i].path@ == p;
                assert(s.drop_last()[i] == s[i]);
                assert(s[i].path@ == p);
            }
        }
        assert forall|p: Seq<char>|
            (exists|i: int| 0 <= i < s.len() && s[i].path@ == p) implies #[trigger] entries_map(
            s,
        ).contains_key(p) by {
            let i = choose|i: int| 0 <= i < s.len() && s[i].path@ == p;
            if i < s.len() - 1 {
                assert(s.drop_last()[i] == s[i]);
                assert(s.drop_last()[i].path@ == p);
                assert(entries_map(s.drop_last()).contains_key(p));
            } else {
                assert(s.last().path@ == p);
            }
        }
    }
}

/// With unique paths, each entry gives the map's value at its path.
pub proof fn lemma_entries_map_unique(s: Seq<TreeEntry>)
    requires
        paths_unique(s),
    ensures
        forall|k: int|
            0 <= k < s.len() ==> entries_map(s).contains_key(#[trigger] s[k].path@)
                && entries_map(s)[s[k].path@] == s[k].content@,
    decreases s.len(),
{
    if s.len() > 0 {
        assert(paths_unique(s.drop_last()));
        lemma_entries_map_unique(s.drop_last());
        assert forall|k: int| 0 <= k < s.len() implies entries_map(s).contains_key(
            #[trigger] s[k].path@,
        ) && entries_map(s)[s[k].path@] == s[k].content@ by {
            if k < s.len() - 1 {
                assert(s.drop_last()[k] == s[k]);
                assert(s[k].path@ != s.last().path@);
            }
        }
    }
}

/// Three-way merge of `local` and `remote` against their common ancestor
/// `base`.  On success the result is the merged tree; on conflict it is the
/// list of the conflicting paths, and no merged tree is produced.
pub fn merge_trees(base: &Tree, local: &Tree, remote: &Tree) -> (r: Result<Tree, Vec<String>>)
    requires
        base.wf(),
        local.wf(),
        remote.wf(),
    ensures
        match r {
            Ok(t) => t.wf() && no_conflicts(base@, local@, remote@) && t@ == merged_map(
                base@,
                local@,
                remote@,
            ),
            Err(c) => !no_conflicts(base@, local@, remote@) && c@.len() > 0 && (forall|k: int|
                0 <= k < c@.len() ==> m_at(base@, local@, remote@, (#[trigger] c@[k])@) is None)
                && (forall|p: Seq<char>|
                m_at(base@, local@, remote@, p) is None ==> listed(c@, p)),
        },
{
    let ghost bm = base@;
    let ghost lm = local@;
    let ghost rm = remote@;
    let mut merged: Vec<TreeEntry> = Vec::new();
    let mut conflicts: Vec<String> = Vec::new();
    let nl: usize = local.entries.len();
    let mut i: usize = 0;
    while i < nl
        invariant
            nl == local.entries.len(),
            i <= nl,
            base.wf(),
            local.wf(),
            remote.wf(),
            bm == base@,
            lm == local@,
            rm == remote@,
            paths_unique(merged@),
            forall|k: int|
                0 <= k < merged@.len() ==> among_first(
                    local.entries@,
                    i as int,
                    (#[trigger] merged@[k]).path@,
                ),
            forall|k: int|
                0 <= k < merged@.len() ==> m_at(bm, lm, rm, (#[trigger] merged@[k]).path@)
                    == Some(Some(merged@[k].content@)),
            forall|k: int|
                0 <= k < conflicts@.len() ==> m_at(bm, lm, rm, (#[trigger] conflicts@[k])@)
                    is None,
            forall|j: int|
                0 <= j < i ==> #[trigger] accounted(
                    bm,
                    lm,
                    rm,
                    local.entries@[j].path@,
                    merged@,
                    conflicts@,
                ),
        decreases nl - i,
    {
        let e = &local.entries[i];
        let ghost p = e.path@;
        let bo = base.lookup(&e.path);
        let ro = remote.lookup(&e.path);
        proof {
            lemma_entries_map_unique(local.entries@);
            assert(local.entries@[i as int].path@ == p);
            assert(opt_at(lm, p) == Some(e.content@));
            assert(match bo {
                Some(bc) => opt_at(bm, p) == Some(bc@),
                None => opt_at(bm, p) == None::<Seq<char>>,
            });
            assert(match ro {
                Some(rc) => opt_at(rm, p) == Some(rc@),
                None => opt_at(rm, p) == None::<Seq<char>>,
            });
        }
        let same_lr: bool = match ro {
            Some(rc) => *rc == e.content,
            None => false,
        };
        let decision: Option<Option<String>> = if same_lr {
            Some(Some(e.content.clone()))
        } else {
            let l_eq_b: bool = match bo {
                Some(bc) => *bc == e.content,
                None => false,
            };
            if l_eq_b {
                match ro {
                    Some(rc) => Some(Some(rc.clone())),
                    None => Some(None),
                }
            } else {
                let r_eq_b: bool = match (bo, ro) {
                    (None, None) => true,
                    (Some(bc), Some(rc)) => *bc == *rc,
                    _ => false,
                };
                if r_eq_b {
                    Some(Some(e.content.clone()))
                } else {
                    None
                }
            }
        };
        proof {
            assert(match decision {
                Some(ov) => match ov {
                    Some(v) => m_at(bm, lm, rm, p) == Some(Some(v@)),
                    None => m_at(bm, lm, rm, p) == Some(None::<Seq<char>>),
                },
                None => m_at(bm, lm, rm, p) is None,
            });
        }
        let ghost m0 = merged@;
        let ghost c0 = conflicts@;
        match decision {
            Some(ov) => match ov {
                Some(v) => {
                    merged.push(TreeEntry { path: e.path.clone(), content: v });
                },
                None => {},
            },
            None => {
                conflicts.push(e.path.clone());
            },
        }
        proof {
            assert forall|k: int| 0 <= k < merged@.len() implies among_first(
                local.entries@,
                i + 1,
                (#[trigger] merged@[k]).path@,
            ) && m_at(bm, lm, rm, merged@[k].path@) == Some(Some(merged@[k].content@)) by {
                if k < m0.len() {
                    assert(merged@[k] == m0[k]);
                    assert(among_first(local.entries@, i as int, m0[k].path@));
                } else {
                    assert(merged@[k].path@ == p);
                    assert(local.entries@[i as int].path@ == p);
                }
            }
            assert(paths_unique(merged@));
            assert forall|k: int| 0 <= k < conflicts@.len() implies m_at(
                bm,
                lm,
                rm,
                (#[trigger] conflicts@[k])@,
            ) is None by {
                if k < c0.len() {
                    assert(conflicts@[k] == c0[k]);
                }
            }
            assert forall|j: int| 0 <= j < i + 1 implies #[trigger] accounted(
                bm,
                lm,
                rm,
                local.entries@[j].path@,
                merged@,
                conflicts@,
            ) by {
                let q = local.entries@[j].path@;
                if j < i {
                    assert(accounted(bm, lm, rm, q, m0, c0));
                    match m_at(bm, lm, rm, q) {
                        Some(ov) => {
                            if ov is Some {
                                let k = choose|k: int|
                                    0 <= k < m0.len() && m0[k].path@ == q && m0[k].content@
                                        == ov->0;
                                assert(merged@[k] == m0[k]);
                                assert(recorded(merged@, q, ov->0));
                            }
                        },
                        None => {
                            let k = choose|k: int| 0 <= k < c0.len() && c0[k]@ == q;
                            assert(conflicts@[k] == c0[k]);
                            assert(listed(conflicts@, q));
                        },
                    }
                } else {
                    match m_at(bm, lm, rm, p) {
                        Some(ov) => {
                            if ov is Some {
                                assert(merged@[merged@.len() - 1].path@ == p);
                                assert(recorded(merged@, p, ov->0));
                            }
                        },
                        None => {
                            assert(conflicts@[conflicts@.len() - 1]@ == p);
                            assert(listed(conflicts@, p));
                        },
                    }
                }
            }
        }
        i += 1;
    }
    proof {
        assert forall|k: int| 0 <= k < merged@.len() implies lm.contains_key(
            (#[trigger] merged@[k]).path@,
        ) by {
            lemma_entries_map_domain(local.entries@);
            assert(among_first(local.entries@, nl as int, merged@[k].path@));
        }
    }
    let nr: usize = remote.entries.len();
    let mut t: usize = 0;
    while t < nr
        invariant
            nr == remote.entries.len(),
            t <= nr,
            base.wf(),
            local.wf(),
            remote.wf(),
            bm == base@,
            lm == local@,
            rm == remote@,
            paths_unique(merged@),
            forall|k: int|
                0 <= k < merged@.len() ==> lm.contains_key((#[trigger] merged@[k]).path@)
                    || among_first_new(lm, remote.entries@, t as int, merged@[k].path@),
            forall|k: int|
                0 <= k < merged@.len() ==> m_at(bm, lm, rm, (#[trigger] merged@[k]).path@)
                    == Some(Some(merged@[k].content@)),
            forall|k: int|
                0 <= k < conflicts@.len() ==> m_at(bm, lm, rm, (#[trigger] conflicts@[k])@)
                    is None,
            forall|j: int|
                0 <= j < local.entries@.len() ==> #[trigger] accounted(
                    bm,
                    lm,
                    rm,
                    local.entries@[j].path@,
                    merged@,
                    conflicts@,
                ),
            forall|j: int|
                0 <= j < t && !lm.contains_key(remote.entries@[j].path@) ==> #[trigger] accounted(
                    bm,
                    lm,
                    rm,
                    remote.entries@[j].path@,
                    merged@,
                    conflicts@,
                ),
        decreases nr - t,
    {
        let e = &remote.entries[t];
        let ghost p = e.path@;
        let lo = local.lookup(&e.path);
        let ghost m0 = merged@;
        let ghost c0 = conflicts@;
        match lo {
            Some(_) => {
                proof {
                    assert(lm.contains_key(p));
                }
            },
            None => {
                let bo = base.lookup(&e.path);
                proof {
                    lemma_entries_map_unique(remote.entries@);
                    assert(remote.entries@[t as int].path@ == p);
                    assert(opt_at(rm, p) == Some(e.content@));
                    assert(opt_at(lm, p) == None::<Seq<char>>);
                    assert(match bo {
                        Some(bc) => opt_at(bm, p) == Some(bc@),
                        None => opt_at(bm, p) == None::<Seq<char>>,
                    });
                }
                let decision: Option<Option<String>> = match bo {
                    None => Some(Some(e.content.clone())),
                    Some(bc) => {
                        if *bc == e.content {
                            Some(None)
                        } else {
                            None
                        }
                    },
                };
                proof {
                    assert(match decision {
                        Some(ov) => match ov {
                            Some(v) => m_at(bm, lm, rm, p) == Some(Some(v@)),
                            None => m_at(bm, lm, rm, p) == Some(None::<Seq<char>>),
                        },
                        None => m_at(bm, lm, rm, p) is None,
                    });
                }
                match decision {
                    Some(ov) => match ov {
                        Some(v) => {
                            merged.push(TreeEntry { path: e.path.clone(), content: v });
                        },
                        None => {},
                    },
                    None => {
                        conflicts.push(e.path.clone());
                    },
                }
                proof {
                    assert forall|k: int| 0 <= k < merged@.len() implies (lm.contains_key(
                        (#[trigger] merged@[k]).path@,
                    ) || among_first_new(lm, remote.entries@, t + 1, merged@[k].path@)) && m_at(
                        bm,
                        lm,
                        rm,
                        merged@[k].path@,
                    ) == Some(Some(merged@[k].content@)) by {
                        if k < m0.len() {
                            assert(merged@[k] == m0[k]);
                            if among_first_new(lm, remote.entries@, t as int, m0[k].path@) {
                                assert(among_first(remote.entries@, t + 1, m0[k].path@));
                            }
                        } else {
                            assert(merged@[k].path@ == p);
                            assert(remote.entries@[t as int].path@ == p);
                        }
                    }
                    assert forall|k1: int, k2: int|
                        0 <= k1 < k2 < merged@.len() implies merged@[k1].path@
                        != merged@[k2].path@ by {
                        if k2 == merged@.len() - 1 && merged@.len() > m0.len() {
                            assert(merged@[k1] == m0[k1]);
                            if lm.contains_key(m0[k1].path@) {
                            } else {
                                assert(among_first_new(lm, remote.entries@, t as int, m0[k1].path@));
                                let j = choose|j: int|
                                    0 <= j < t && remote.entries@[j].path@ == m0[k1].path@;
                                assert(remote.entries@[j].path@ != p);
                            }
                        } else {
                            assert(merged@[k1] == m0[k1]);
                            assert(merged@[k2] == m0[k2]);
                        }
                    }
                    assert forall|k: int| 0 <= k < conflicts@.len() implies m_at(
                        bm,
                        lm,
                        rm,
                        (#[trigger] conflicts@[k])@,
                    ) is None by {
                        if k < c0.len() {
                            assert(conflicts@[k] == c0[k]);
                        }
                    }
                }
            },
        }
        proof {
            assert forall|j: int| 0 <= j < local.entries@.len() implies #[trigger] accounted(
                bm,
                lm,
                rm,
                local.entries@[j].path@,
                merged@,
                conflicts@,
            ) by {
                lemma_accounted_grow(
                    bm,
                    lm,
                    rm,
                    local.entries@[j].path@,
                    m0,
                    merged@,
                    c0,
                    conflicts@,
                );
            }
            assert forall|j: int|
                0 <= j < t + 1 && !lm.contains_key(
                    remote.entries@[j].path@,
                ) implies #[trigger] accounted(
                bm,
                lm,
                rm,
                remote.entries@[j].path@,
                merged@,
                conflicts@,
            ) by {
                if j < t {
                    lemma_accounted_grow(
                        bm,
                        lm,
                        rm,
                        remote.entries@[j].path@,
                        m0,
                        merged@,
                        c0,
                        conflicts@,
                    );
                } else {
                    let q = remote.entries@[j].path@;
                    match m_at(bm, lm, rm, q) {
                        Some(ov) => {
                            if ov is Some {
                                assert(merged@[merged@.len() - 1].path@ == q);
                                assert(recorded(merged@, q, ov->0));
                            }
                        },
                        None => {
                            assert(conflicts@[conflicts@.len() - 1]@ == q);
                            assert(listed(conflicts@, q));
                        },
                    }
                }
            }
        }
        t += 1;
    }
    if conflicts.len() == 0 {
        let result = Tree { entries: merged };
        proof {
            assert forall|p: Seq<char>| #[trigger] m_at(bm, lm, rm, p) is Some by {
                if m_at(bm, lm, rm, p) is None {
                    lemma_conflict_in_sides(bm, lm, rm, p);
                    lemma_entries_map_domain(local.entries@);
                    lemma_entries_map_domain(remote.entries@);
                    if lm.contains_key(p) {
                        let j = choose|j: int|
                            0 <= j < local.entries@.len() && local.entries@[j].path@ == p;
                        assert(accounted(bm, lm, rm, p, result.entries@, conflicts@));
                        let k = choose|k: int| 0 <= k < conflicts@.len() && conflicts@[k]@ == p;
                        assert(false);
                    } else {
                        let j = choose|j: int|
                            0 <= j < remote.entries@.len() && remote.entries@[j].path@ == p;
                        assert(accounted(bm, lm, rm, p, result.entries@, conflicts@));
                        let k = choose|k: int| 0 <= k < conflicts@.len() && conflicts@[k]@ == p;
                        assert(false);
                    }
                }
            }
            lemma_entries_map_domain(result.entries@);
            lemma_entries_map_unique(result.entries@);
            assert forall|p: Seq<char>| #[trigger]
                result@.contains_key(p) implies merged_map(bm, lm, rm).contains_key(p) && result@[p]
                == merged_map(bm, lm, rm)[p] by {
                let k = choose|k: int|
                    0 <= k < result.entries@.len() && result.entries@[k].path@ == p;
                assert(m_at(bm, lm, rm, p) == Some(Some(result.entries@[k].content@)));
                assert(result@[p] == result.entries@[k].content@);
            }
            assert forall|p: Seq<char>| #[trigger]
                merged_map(bm, lm, rm).contains_key(p) implies result@.contains_key(p) by {
                assert(merged_at(bm, lm, rm, p) is Some);
                lemma_entries_map_domain(local.entries@);
                lemma_entries_map_domain(remote.entries@);
                if !result@.contains_key(p) {
                    if lm.contains_key(p) {
                        let j = choose|j: int|
                            0 <= j < local.entries@.len() && local.entries@[j].path@ == p;
                        assert(accounted(bm, lm, rm, p, result.entries@, conflicts@));
                        let v = merged_at(bm, lm, rm, p)->0;
                        assert(recorded(result.entries@, p, v));
                        let k = choose|k: int|
                            0 <= k < result.entries@.len() && result.entries@[k].path@ == p
                                && result.entries@[k].content@ == v;
                        assert(false);
                    } else if rm.contains_key(p) {
                        let j = choose|j: int|
                            0 <= j < remote.entries@.len() && remote.entries@[j].path@ == p;
                        assert(accounted(bm, lm, rm, p, result.entries@, conflicts@));
                        let v = merged_at(bm, lm, rm, p)->0;
                        assert(recorded(result.entries@, p, v));
                        let k = choose|k: int|
                            0 <= k < result.entries@.len() && result.entries@[k].path@ == p
                                && result.entries@[k].content@ == v;
                        assert(false);
                    } else {
                        assert(opt_at(lm, p) == None::<Seq<char>>);
                        assert(opt_at(rm, p) == None::<Seq<char>>);
                        assert(merged_at(bm, lm, rm, p) == None::<Seq<char>>);
                        assert(false);
                    }
                }
            }
            assert(result@ =~= merged_map(bm, lm, rm));
        }
        Ok(result)
    } else {
        proof {
            assert(m_at(bm, lm, rm, conflicts@[0]@) is None);
            assert(!no_conflicts(bm, lm, rm));
            assert forall|p: Seq<char>|
                m_at(bm, lm, rm, p) is None implies listed(conflicts@, p) by {
                lemma_conflict_in_sides(bm, lm, rm, p);
                lemma_entries_map_domain(local.entries@);
                lemma_entries_map_domain(remote.entries@);
                if lm.contains_key(p) {
                    let j = choose|j: int|
                        0 <= j < local.entries@.len() && local.entries@[j].path@ == p;
                    assert(accounted(bm, lm, rm, p, merged@, conflicts@));
                } else {
                    let j = choose|j: int|
                        0 <= j < remote.entries@.len() && remote.entries@[j].path@ == p;
                    assert(accounted(bm, lm, rm, p, merged@, conflicts@));
                }
            }
        }
        Err(conflicts)
    }
}

/// Growing the merged and conflict records preserves what is accounted for.
pub proof fn lemma_accounted_grow(
    bm: Map<Seq<char>, Seq<char>>,
    lm: Map<Seq<char>, Seq<char>>,
    rm: Map<Seq<char>, Seq<char>>,
    p: Seq<char>,
    ms0: Seq<TreeEntry>,
    ms1: Seq<TreeEntry>,
    cs0: Seq<String>,
    cs1: Seq<String>,
)
    requires
        accounted(bm, lm, rm, p, ms0, cs0),
        ms0.is_prefix_of(ms1),
        cs0.is_prefix_of(cs1),
    ensures
        accounted(bm, lm, rm, p, ms1, cs1),
{
    match m_at(bm, lm, rm, p) {
        Some(ov) => {
            if ov is Some {
                let k = choose|k: int|
                    0 <= k < ms0.len() && ms0[k].path@ == p && ms0[k].content@ == ov->0;
                assert(ms1[k] == ms0[k]);
                assert(recorded(ms1, p, ov->0));
            }
        },
        None => {
            let k = choose|k: int| 0 <= k < cs0.len() && cs0[k]@ == p;
            assert(cs1[k] == cs0[k]);
            assert(listed(cs1, p));
        },
    }
}

} // verus!
