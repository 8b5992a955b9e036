use scripts_rs::errors::GitError;
use scripts_rs::history::{Commit, History};
use scripts_rs::sync::{ensure_present, merge_analysis, refresh, MergeAnalysis, RepoState};
use scripts_rs::tree::{merge_trees, Tree, TreeEntry};

fn tree(entries: &[(&str, &str)]) -> Tree {
    Tree {
        entries: entries
            .iter()
            .map(|(p, c)| TreeEntry { path: p.to_string(), content: c.to_string() })
            .collect(),
    }
}

fn commit(id: u64, parents: &[u64], entries: &[(&str, &str)]) -> Commit {
    Commit { id, parents: parents.to_vec(), tree: tree(entries) }
}

fn pairs(t: &Tree) -> Vec<(String, String)> {
    let mut v: Vec<(String, String)> = t
        .entries
        .iter()
        .map(|e| (e.path.clone(), e.content.clone()))
        .collect();
    v.sort();
    v
}

fn sp(p: &str, c: &str) -> (String, String) {
    (p.to_string(), c.to_string())
}

#[test]
fn merge_without_overlap_succeeds() {
    let base = tree(&[("f", "1"), ("g", "1")]);
    let local = tree(&[("f", "2"), ("g", "1")]);
    let remote = tree(&[("f", "1"), ("g", "3")]);
    let merged = merge_trees(&base, &local, &remote).expect("no conflict expected");
    assert_eq!(pairs(&merged), vec![sp("f", "2"), sp("g", "3")]);
}

#[test]
fn merge_with_overlapping_edits_conflicts() {
    let base = tree(&[("f", "1")]);
    let local = tree(&[("f", "2")]);
    let remote = tree(&[("f", "3")]);
    let conflicts = merge_trees(&base, &local, &remote).expect_err("conflict expected");
    assert_eq!(conflicts, vec!["f".to_string()]);
}

#[test]
fn merge_keeps_one_sided_additions_and_deletions() {
    let base = tree(&[("gone", "1"), ("kept", "1")]);
    let local = tree(&[("kept", "1"), ("new-local", "5")]);
    let remote = tree(&[("gone", "1"), ("kept", "1"), ("new-remote", "7")]);
    let merged = merge_trees(&base, &local, &remote).expect("no conflict expected");
    assert_eq!(
        pairs(&merged),
        vec![sp("kept", "1"), sp("new-local", "5"), sp("new-remote", "7")]
    );
}

#[test]
fn merge_delete_against_edit_conflicts() {
    let base = tree(&[("f", "1")]);
    let local = tree(&[]);
    let remote = tree(&[("f", "2")]);
    let conflicts = merge_trees(&base, &local, &remote).expect_err("conflict expected");
    assert_eq!(conflicts, vec!["f".to_string()]);
}

fn three_commit_history() -> History {
    History {
        commits: vec![
            commit(1, &[], &[("f", "1")]),
            commit(2, &[1], &[("f", "2")]),
            commit(3, &[1], &[("f", "3")]),
        ],
    }
}

#[test]
fn analysis_same_head_is_up_to_date() {
    let h = three_commit_history();
    assert_eq!(merge_analysis(&h, Some(2), 2), MergeAnalysis::UpToDate);
}

#[test]
fn analysis_remote_behind_is_up_to_date() {
    let h = three_commit_history();
    assert_eq!(merge_analysis(&h, Some(2), 1), MergeAnalysis::UpToDate);
}

#[test]
fn analysis_remote_ahead_is_fast_forwardable() {
    let h = three_commit_history();
    assert_eq!(merge_analysis(&h, Some(1), 2), MergeAnalysis::FastForwardable);
}

#[test]
fn analysis_diverged_is_divergent() {
    let h = three_commit_history();
    assert_eq!(merge_analysis(&h, Some(2), 3), MergeAnalysis::Divergent);
}

#[test]
fn analysis_without_head_is_unborn() {
    let h = three_commit_history();
    assert_eq!(merge_analysis(&h, None, 1), MergeAnalysis::Unborn);
}

#[test]
fn ensure_present_clones_when_absent() {
    let remote = History { commits: vec![commit(1, &[], &[("pkg", "v1")])] };
    let (repo, cloned) = ensure_present(None, &remote, 1);
    assert!(cloned);
    assert_eq!(repo.head, Some(1));
    assert_eq!(pairs(&repo.work_tree), vec![sp("pkg", "v1")]);
    assert!(repo.conflicts.is_empty());
}

#[test]
fn ensure_present_keeps_existing_copy() {
    let remote = History { commits: vec![commit(1, &[], &[("pkg", "v1")])] };
    let (repo, _) = ensure_present(None, &remote, 1);
    let old_head = repo.head;
    let (repo2, cloned) = ensure_present(Some(repo), &remote, 1);
    assert!(!cloned);
    assert_eq!(repo2.head, old_head);
}

fn cloned_repo(remote: &History, head: u64) -> RepoState {
    let (repo, cloned) = ensure_present(None, remote, head);
    assert!(cloned);
    repo
}

#[test]
fn refresh_with_equal_heads_reports_no_change() {
    let remote = History { commits: vec![commit(1, &[], &[("pkg", "v1")])] };
    let mut repo = cloned_repo(&remote, 1);
    let before = pairs(&repo.work_tree);
    let r = refresh(&mut repo, &remote, 1);
    assert_eq!(r, Ok(false));
    assert_eq!(repo.head, Some(1));
    assert_eq!(pairs(&repo.work_tree), before);
    // and again: nothing upstream changed, nothing may move
    let r2 = refresh(&mut repo, &remote, 1);
    assert_eq!(r2, Ok(false));
    assert_eq!(repo.head, Some(1));
    assert_eq!(pairs(&repo.work_tree), before);
}

#[test]
fn refresh_fast_forwards_a_strict_superset() {
    let remote_v1 = History { commits: vec![commit(1, &[], &[("pkg", "v1")])] };
    let mut repo = cloned_repo(&remote_v1, 1);
    let remote_v2 = History {
        commits: vec![commit(1, &[], &[("pkg", "v1")]), commit(2, &[1], &[("pkg", "v2")])],
    };
    let r = refresh(&mut repo, &remote_v2, 2);
    assert_eq!(r, Ok(true));
    assert_eq!(repo.head, Some(2));
    assert_eq!(pairs(&repo.work_tree), vec![sp("pkg", "v2")]);
    assert!(repo.conflicts.is_empty());
}

#[test]
fn refresh_merges_divergent_histories_without_overlap() {
    // local edits `a`, remote edits `b`: divergent but conflict-free
    let base = commit(1, &[], &[("a", "1"), ("b", "1")]);
    let local_tip = commit(2, &[1], &[("a", "2"), ("b", "1")]);
    let remote_tip = commit(3, &[1], &[("a", "1"), ("b", "3")]);
    let mut repo = RepoState {
        history: History { commits: vec![base.clone(), local_tip] },
        head: Some(2),
        work_tree: tree(&[("a", "2"), ("b", "1")]),
        conflicts: Vec::new(),
    };
    let remote = History { commits: vec![base, remote_tip] };
    let r = refresh(&mut repo, &remote, 3);
    assert_eq!(r, Ok(true));
    // a fresh merge commit with the two tips as parents is the new head
    let merge_commit = repo.history.commits.last().expect("merge commit expected");
    assert_eq!(repo.head, Some(merge_commit.id));
    assert_eq!(merge_commit.parents, vec![2, 3]);
    assert!(merge_commit.id != 1 && merge_commit.id != 2 && merge_commit.id != 3);
    assert_eq!(pairs(&repo.work_tree), vec![sp("a", "2"), sp("b", "3")]);
    assert!(repo.conflicts.is_empty());
}

#[test]
fn refresh_reports_conflicts_and_moves_nothing() {
    // both sides edit the same file differently: a real textual conflict
    let base = commit(1, &[], &[("pkg", "1")]);
    let local_tip = commit(2, &[1], &[("pkg", "2")]);
    let remote_tip = commit(3, &[1], &[("pkg", "3")]);
    let mut repo = RepoState {
        history: History { commits: vec![base.clone(), local_tip] },
        head: Some(2),
        work_tree: tree(&[("pkg", "2")]),
        conflicts: Vec::new(),
    };
    let remote = History { commits: vec![base, remote_tip] };
    let r = refresh(&mut repo, &remote, 3);
    assert_eq!(r, Err(GitError::MergeConflicts));
    // the branch did not move and no commit was created
    assert_eq!(repo.head, Some(2));
    assert_eq!(repo.history.commits.len(), 3);
    assert_eq!(repo.conflicts, vec!["pkg".to_string()]);
    // a second identical attempt does not silently heal
    let r2 = refresh(&mut repo, &remote, 3);
    assert_eq!(r2, Err(GitError::MergeConflicts));
    assert_eq!(repo.head, Some(2));
}

#[test]
fn refresh_without_shared_history_fails() {
    let remote_a = History { commits: vec![commit(1, &[], &[("pkg", "v1")])] };
    let mut repo = cloned_repo(&remote_a, 1);
    let remote_b = History { commits: vec![commit(9, &[], &[("pkg", "x")])] };
    let r = refresh(&mut repo, &remote_b, 9);
    assert_eq!(r, Err(GitError::NoCommonAncestor));
    assert_eq!(repo.head, Some(1));
}
