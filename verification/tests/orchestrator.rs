use scripts_rs::errors::{AURError, GitError};
use scripts_rs::history::{Commit, History};
use scripts_rs::orchestrator::{InstallConfig, InstallRun, Phase};
use scripts_rs::sync::{ensure_present, refresh, RepoState};
use scripts_rs::tree::{Tree, TreeEntry};

fn config() -> InstallConfig {
    InstallConfig {
        as_deps: false,
        refresh: true,
        upgrade: false,
        sync_deps: false,
        rm_deps: false,
        clean: false,
        no_confirm: true,
        ignore_errors: false,
        make_explicit: false,
    }
}

fn names(ns: &[&str]) -> Vec<String> {
    ns.iter().map(|s| s.to_string()).collect()
}

fn tree(entries: &[(&str, &str)]) -> Tree {
    Tree {
        entries: entries
            .iter()
            .map(|(p, c)| TreeEntry { path: p.to_string(), content: c.to_string() })
            .collect(),
    }
}

fn commit(id: u64, parents: &[u64], entries: &[(&str, &str)]) -> Commit {
    Commit { id, parents: parents.to_vec(), tree: tree(entries) }
}

/// Scenario: one requested package, no cache entry, remote has one commit.
/// The copy is cloned, the build runs not-as-dependency, and the report
/// says one package succeeded.
#[test]
fn fresh_package_is_cloned_and_built() {
    let mut run = InstallRun::new(config(), names(&["foo"]), Vec::new());
    assert!(!run.needs_foreign_list());
    run.resolve(None);
    while run.classification_pending() {
        let name = run.next_classify_name();
        assert_eq!(name, "foo");
        run.answer_is_dep(Some(false));
    }
    run.finish_classification();
    run.provide_info(&names(&["foo"]));
    assert!(!run.confirmation_needed());
    run.confirm(None);

    let name = run.begin_package().expect("one package queued");
    assert_eq!(name, "foo");
    run.cache_result(false);
    assert_eq!(run.phase, Phase::AwaitClone);

    // the harness performs the clone against the remote's history
    let remote = History { commits: vec![commit(1, &[], &[("PKGBUILD", "v1")])] };
    let (repo, cloned) = ensure_present(None, &remote, 1);
    assert!(cloned);
    assert_eq!(repo.head, Some(1));
    run.clone_result(true);

    let (build_name, opts) = run.build_request();
    assert_eq!(build_name, "foo");
    assert!(!opts.as_deps);
    run.build_result(true);

    assert!(run.begin_package().is_none());
    assert_eq!(run.counts(), (1, 0));
    assert_eq!(run.succeeded, vec!["foo".to_string()]);
    assert!(run.failed.is_empty());
}

/// Scenario: the package is cached and its local head equals the remote
/// head.  The refresh reports no change, the build tool is never invoked,
/// and nothing is reported as succeeded.
#[test]
fn cached_unchanged_package_is_skipped() {
    let mut run = InstallRun::new(config(), names(&["foo"]), Vec::new());
    assert!(!run.needs_foreign_list());
    run.resolve(None);
    while run.classification_pending() {
        run.answer_is_dep(Some(false));
    }
    run.finish_classification();
    run.provide_info(&names(&["foo"]));
    run.confirm(None);

    assert_eq!(run.begin_package().as_deref(), Some("foo"));
    run.cache_result(true);
    assert_eq!(run.phase, Phase::AwaitRefresh);

    let remote = History { commits: vec![commit(1, &[], &[("PKGBUILD", "v1")])] };
    let (mut repo, _) = ensure_present(None, &remote, 1);
    let r = refresh(&mut repo, &remote, 1);
    assert_eq!(r, Ok(false));
    run.refresh_result(r);

    // no build phase was entered; the next package is asked for at once
    assert_eq!(run.phase, Phase::NextPackage);
    assert!(run.begin_package().is_none());
    assert_eq!(run.counts(), (0, 0));
}

/// Scenario: a wildcard request with two foreign-installed names, one of
/// them recorded as a dependency.  The classifier keeps one explicit and
/// one dependency name, and the dependency is processed first and built
/// as a dependency.
#[test]
fn wildcard_request_classifies_and_orders_roles() {
    let mut run = InstallRun::new(config(), names(&["*"]), Vec::new());
    assert!(run.needs_foreign_list());
    run.resolve(Some(names(&["foo", "bar"])));
    let mut asked: Vec<String> = Vec::new();
    while run.classification_pending() {
        let name = run.next_classify_name();
        let is_dep = name == "bar";
        asked.push(name);
        run.answer_is_dep(Some(is_dep));
    }
    assert_eq!(asked, names(&["foo", "bar"]));
    assert_eq!(run.packages, names(&["foo"]));
    assert_eq!(run.deps, names(&["bar"]));
    run.finish_classification();
    run.provide_info(&names(&["foo", "bar"]));
    run.confirm(None);

    // the dependency role comes first
    assert_eq!(run.begin_package().as_deref(), Some("bar"));
    run.cache_result(false);
    run.clone_result(true);
    let (build_name, opts) = run.build_request();
    assert_eq!(build_name, "bar");
    assert!(opts.as_deps);
    run.build_result(true);

    assert_eq!(run.begin_package().as_deref(), Some("foo"));
    run.cache_result(false);
    run.clone_result(true);
    let (build_name, opts) = run.build_request();
    assert_eq!(build_name, "foo");
    assert!(!opts.as_deps);
    run.build_result(true);

    assert!(run.begin_package().is_none());
    assert_eq!(run.counts(), (2, 0));
}

/// Scenario: divergent histories with a real textual conflict.  The
/// refresh reports merge conflicts, the copy stays conflicted, the run
/// reports the package as failed, and an identical second run still
/// reports the conflict.
#[test]
fn conflicting_package_fails_and_stays_conflicted() {
    let base = commit(1, &[], &[("PKGBUILD", "1")]);
    let local_tip = commit(2, &[1], &[("PKGBUILD", "2")]);
    let remote_tip = commit(3, &[1], &[("PKGBUILD", "3")]);
    let mut repo = RepoState {
        history: History { commits: vec![base.clone(), local_tip] },
        head: Some(2),
        work_tree: tree(&[("PKGBUILD", "2")]),
        conflicts: Vec::new(),
    };
    let remote = History { commits: vec![base, remote_tip] };

    for _round in 0..2 {
        let mut run = InstallRun::new(config(), names(&["foo"]), Vec::new());
        run.resolve(None);
        while run.classification_pending() {
            run.answer_is_dep(Some(false));
        }
        run.finish_classification();
        run.provide_info(&names(&["foo"]));
        run.confirm(None);
        assert_eq!(run.begin_package().as_deref(), Some("foo"));
        run.cache_result(true);

        let r = refresh(&mut repo, &remote, 3);
        assert_eq!(r, Err(GitError::MergeConflicts));
        assert!(!repo.conflicts.is_empty());
        run.refresh_result(r);

        // fail-fast: the run is over, with the package reported failed
        assert_eq!(run.phase, Phase::Done);
        assert_eq!(run.counts(), (0, 1));
        assert_eq!(
            run.failed,
            vec![("foo".to_string(), AURError::MergeConflicts("foo".to_string()))]
        );
    }
}

/// Declining the confirmation aborts the run before any change.
#[test]
fn declined_confirmation_aborts_the_run() {
    let mut cfg = config();
    cfg.no_confirm = false;
    let mut run = InstallRun::new(cfg, names(&["foo"]), Vec::new());
    run.resolve(None);
    while run.classification_pending() {
        run.answer_is_dep(Some(false));
    }
    run.finish_classification();
    run.provide_info(&names(&["foo"]));
    assert!(run.confirmation_needed());
    run.confirm(Some("n".to_string()));
    assert_eq!(run.phase, Phase::Done);
    assert!(run.aborted);
    assert_eq!(run.counts(), (0, 0));
}

/// Empty confirmation input counts as affirmative.
#[test]
fn empty_confirmation_proceeds() {
    let mut cfg = config();
    cfg.no_confirm = false;
    let mut run = InstallRun::new(cfg, names(&["foo"]), Vec::new());
    run.resolve(None);
    while run.classification_pending() {
        run.answer_is_dep(Some(false));
    }
    run.finish_classification();
    run.provide_info(&names(&["foo"]));
    run.confirm(Some("  ".to_string()));
    assert_eq!(run.phase, Phase::NextPackage);
    assert!(!run.aborted);
}

/// With ignore-errors set, a failing build is recorded and the run goes
/// on; without it the first failure ends the run.
#[test]
fn ignored_errors_are_collected() {
    let mut cfg = config();
    cfg.ignore_errors = true;
    cfg.upgrade = true;
    cfg.refresh = false;
    let mut run = InstallRun::new(cfg, names(&["foo", "bar"]), Vec::new());
    run.resolve(None);
    while run.classification_pending() {
        run.answer_is_dep(Some(false));
    }
    run.finish_classification();
    run.provide_info(&names(&["foo", "bar"]));
    run.confirm(None);

    assert_eq!(run.begin_package().as_deref(), Some("foo"));
    run.cache_result(true);
    let (_, _) = run.build_request();
    run.build_result(false);
    assert_eq!(run.phase, Phase::NextPackage);

    assert_eq!(run.begin_package().as_deref(), Some("bar"));
    run.cache_result(true);
    run.build_result(true);

    assert!(run.begin_package().is_none());
    assert_eq!(run.counts(), (1, 1));
    assert_eq!(
        run.failed,
        vec![("foo".to_string(), AURError::InstallFailed)]
    );
    assert_eq!(run.succeeded, vec!["bar".to_string()]);
}

/// A failed clone and a failed fetch are each fatal for their package and
/// land in the report with their own causes.
#[test]
fn failed_clone_and_fetch_are_reported() {
    let mut cfg = config();
    cfg.ignore_errors = true;
    let mut run = InstallRun::new(cfg, names(&["foo", "bar"]), Vec::new());
    run.resolve(None);
    while run.classification_pending() {
        run.answer_is_dep(Some(false));
    }
    run.finish_classification();
    run.provide_info(&names(&["foo", "bar"]));
    run.confirm(None);

    assert_eq!(run.begin_package().as_deref(), Some("foo"));
    run.cache_result(false);
    run.clone_result(false);

    assert_eq!(run.begin_package().as_deref(), Some("bar"));
    run.cache_result(true);
    run.refresh_result(Err(GitError::FetchFailed));

    assert!(run.begin_package().is_none());
    assert_eq!(run.counts(), (0, 2));
    assert_eq!(
        run.failed,
        vec![
            ("foo".to_string(), AURError::CloneFailed("foo".to_string())),
            ("bar".to_string(), AURError::FetchFailed("bar".to_string())),
        ]
    );
}

/// A package the metadata provider does not know is silently skipped.
#[test]
fn unknown_packages_are_skipped() {
    let mut run = InstallRun::new(config(), names(&["foo", "ghost"]), Vec::new());
    run.resolve(None);
    while run.classification_pending() {
        run.answer_is_dep(Some(false));
    }
    run.finish_classification();
    run.provide_info(&names(&["foo"]));
    run.confirm(None);
    assert_eq!(run.begin_package().as_deref(), Some("foo"));
    run.cache_result(true);
    run.refresh_result(Ok(false));
    assert!(run.begin_package().is_none());
    assert_eq!(run.counts(), (0, 0));
}
