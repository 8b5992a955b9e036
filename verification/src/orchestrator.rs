//! The sync orchestrator: a state machine over the requested package set.
//!
//! One run resolves the requested names (expanding the wildcard to the
//! foreign-installed set), classifies roles, fetches remote metadata in two
//! batches, asks for confirmation, and then walks the packages — dependency
//! roles first — through cache check, clone or refresh, and build.  The
//! machine decides; its caller performs each decided action (a query, a
//! clone, a fetch, a build) and hands the outcome back as the next event.
//! Failures either abort the run at once or are collected to the end,
//! according to the ignore-errors policy.

use vstd::prelude::*;
use crate::classify::{contains_wildcard, has_wildcard, role_of, DependencyRole};
use crate::driver::BuildOptions;
use crate::errors::{AURError, GitError};
use crate::text::{str_eq, trim_spec, trimmed};

verus! {

/// The flags of one install run.
#[derive(Debug, Clone, Copy, PartialEq, Eq, Structural)]
pub struct InstallConfig {
    /// Register every built package as a dependency.
    pub as_deps: bool,
    /// Pull upstream changes for cached packages.
    pub refresh: bool,
    /// Build even when nothing changed.
    pub upgrade: bool,
    /// Resolve missing dependencies before building.
    pub sync_deps: bool,
    /// Remove build-only dependencies after success.
    pub rm_deps: bool,
    /// Clean build artifacts after success.
    pub clean: bool,
    /// Skip the operator's confirmation and the build tool's prompts.
    pub no_confirm: bool,
    /// Collect per-package failures instead of aborting on the first.
    pub ignore_errors: bool,
    /// Leave requested packages explicit even when recorded as
    /// dependencies.
    pub make_explicit: bool,
}

/// Where the run stands; each waiting phase names the event it expects.
#[derive(Debug, Clone, Copy, PartialEq, Eq, Structural)]
pub enum Phase {
    /// Waiting for wildcard resolution.
    Resolve,
    /// Asking the package manager about each requested name's role.
    Classify,
    /// Waiting for the metadata provider's answer.
    Info,
    /// Waiting for the operator's confirmation.
    Confirm,
    /// Ready to start (or finish) the per-package pipeline.
    NextPackage,
    /// Waiting for the cache inspector's answer for the current package.
    AwaitCache,
    /// Waiting for the clone of the current package.
    AwaitClone,
    /// Waiting for the refresh of the current package.
    AwaitRefresh,
    /// Waiting for the build of the current package.
    AwaitBuild,
    /// The run is over; the report is final.
    Done,
}

/// `found` holds a name with the characters of `n`.
pub open spec fn contains_str(found: Seq<String>, n: Seq<char>) -> bool {
    exists|i: int| 0 <= i < found.len() && found[i]@ == n
}

/// The names of `ns` the metadata provider knows, in order; missing names
/// are silently skipped.
pub open spec fn filter_found(ns: Seq<String>, found: Seq<String>) -> Seq<String>
    decreases ns.len(),
{
    if ns.len() == 0 {
        Seq::empty()
    } else {
        let rest = filter_found(ns.drop_last(), found);
        if contains_str(found, ns.last()@) {
            rest.push(ns.last())
        } else {
            rest
        }
    }
}

/// Each name paired with the given dependency flag.
pub open spec fn flagged(ns: Seq<String>, f: bool) -> Seq<(String, bool)>
    decreases ns.len(),
{
    if ns.len() == 0 {
        Seq::empty()
    } else {
        flagged(ns.drop_last(), f).push((ns.last(), f))
    }
}

/// An affirmative confirmation: empty input or a plain `y`.
pub open spec fn accepts(line: Seq<char>) -> bool {
    trim_spec(line) == Seq::<char>::empty() || trim_spec(line) == "y"@
}

/// One install run's state.
pub struct InstallRun {
    /// The run's flags.
    pub config: InstallConfig,
    /// Where the run stands.
    pub phase: Phase,
    /// The explicit-role candidates (requested names, after resolution and
    /// classification).
    pub packages: Vec<String>,
    /// The dependency-role names (extra dependencies, plus reclassified
    /// requested names).
    pub deps: Vec<String>,
    /// The next requested name to classify.
    pub cidx: usize,
    /// The processing queue: each known package with its dependency flag,
    /// dependency roles first.
    pub queue: Vec<(String, bool)>,
    /// The current position in the queue.
    pub pos: usize,
    /// Whether the current package was freshly cloned.
    pub cur_cloned: bool,
    /// Whether the current package's refresh brought changes.
    pub cur_changed: bool,
    /// The names installed so far.
    pub succeeded: Vec<String>,
    /// The names that failed, each with its cause.
    pub failed: Vec<(String, AURError)>,
    /// The operator declined the confirmation: nothing was done.
    pub aborted: bool,
}

impl InstallRun {
    /// Positions stay in range for the phase the run is in.
    pub open spec fn wf(&self) -> bool {
        &&& self.pos <= self.queue@.len()
        &&& ((self.phase == Phase::AwaitCache || self.phase == Phase::AwaitClone || self.phase
            == Phase::AwaitRefresh || self.phase == Phase::AwaitBuild) ==> self.pos
            < self.queue@.len())
        &&& (self.phase == Phase::Classify ==> self.cidx <= self.packages@.len())
    }

    /// A fresh run over `requested`, with `extra_deps` to install in the
    /// dependency role.
    pub fn new(config: InstallConfig, requested: Vec<String>, extra_deps: Vec<String>) -> (r:
        InstallRun)
        ensures
            r.wf(),
            r.phase == Phase::Resolve,
            r.config == config,
            r.packages == requested,
            r.deps == extra_deps,
            r.queue@.len() == 0,
            r.pos == 0,
            r.cidx == 0,
            r.succeeded@.len() == 0,
            r.failed@.len() == 0,
            !r.aborted,
    {
        InstallRun {
            config,
            phase: Phase::Resolve,
            packages: requested,
            deps: extra_deps,
            cidx: 0,
            queue: Vec::new(),
            pos: 0,
            cur_cloned: false,
            cur_changed: false,
            succeeded: Vec::new(),
            failed: Vec::new(),
            aborted: false,
        }
    }

    /// Whether resolution needs the foreign-installed package list: only
    /// when the request holds the wildcard.
    pub fn needs_foreign_list(&self) -> (r: bool)
        requires
            self.wf(),
            self.phase == Phase::Resolve,
        ensures
            r == contains_wildcard(self.packages@),
    {
        has_wildcard(&self.packages)
    }

    /// Resolve the request: the wildcard is replaced by the full
    /// foreign-installed set, an ordinary request stands as given.
    pub fn resolve(&mut self, foreign: Option<Vec<String>>)
        requires
            old(self).wf(),
            old(self).phase == Phase::Resolve,
            (foreign is Some) == contains_wildcard(old(self).packages@),
        ensures
            final(self).wf(),
            final(self).phase == Phase::Classify,
            final(self).cidx == 0,
            final(self).packages == (match foreign {
                Some(f) => f,
                None => old(self).packages,
            }),
            final(self).config == old(self).config,
            final(self).deps == old(self).deps,
            final(self).queue == old(self).queue,
            final(self).succeeded == old(self).succeeded,
            final(self).failed == old(self).failed,
            final(self).aborted == old(self).aborted,
    {
        match foreign {
            Some(f) => {
                self.packages = f;
            },
            None => {},
        }
        self.cidx = 0;
        self.phase = Phase::Classify;
    }

    /// Whether a classification query is still owed.  With the
    /// make-explicit flag no name is ever reclassified.
    pub fn classification_pending(&self) -> (r: bool)
        requires
            self.wf(),
            self.phase == Phase::Classify,
        ensures
            r == (!self.config.make_explicit && self.cidx < self.packages@.len()),
    {
        !self.config.make_explicit && self.cidx < self.packages.len()
    }

    /// The name the next classification query asks about.
    pub fn next_classify_name(&self) -> (r: String)
        requires
            self.wf(),
            self.phase == Phase::Classify,
            !self.config.make_explicit,
            self.cidx < self.packages@.len(),
        ensures
            r == self.packages@[self.cidx as int],
    {
        self.packages[self.cidx].clone()
    }

    /// Record the package manager's answer for the current name: a
    /// dependency moves to the dependency set, anything else — including a
    /// failed query — stays explicit.
    pub fn answer_is_dep(&mut self, answer: Option<bool>)
        requires
            old(self).wf(),
            old(self).phase == Phase::Classify,
            !old(self).config.make_explicit,
            old(self).cidx < old(self).packages@.len(),
        ensures
            final(self).wf(),
            final(self).phase == Phase::Classify,
            final(self).config == old(self).config,
            final(self).queue == old(self).queue,
            final(self).pos == old(self).pos,
            final(self).succeeded == old(self).succeeded,
            final(self).failed == old(self).failed,
            final(self).aborted == old(self).aborted,
            if role_of(answer) == DependencyRole::Dependency {
                &&& final(self).deps@ == old(self).deps@.push(
                    old(self).packages@[old(self).cidx as int],
                )
                &&& final(self).packages@ == old(self).packages@.remove(old(self).cidx as int)
                &&& final(self).cidx == old(self).cidx
            } else {
                &&& final(self).deps == old(self).deps
                &&& final(self).packages == old(self).packages
                &&& final(self).cidx == old(self).cidx + 1
            },
    {
        let _n: usize = self.packages.len();
        let is_dep: bool = match answer {
            Some(true) => true,
            _ => false,
        };
        if is_dep {
            let name = self.packages.remove(self.cidx);
            self.deps.push(name);
        } else {
            self.cidx = self.cidx + 1;
        }
    }

    /// Close the classification step and move on to the metadata fetch.
    pub fn finish_classification(&mut self)
        requires
            old(self).wf(),
            old(self).phase == Phase::Classify,
            old(self).config.make_explicit || old(self).cidx >= old(self).packages@.len(),
        ensures
            final(self).wf(),
            final(self).phase == Phase::Info,
            *final(self) == (InstallRun { phase: Phase::Info, ..*old(self) }),
    {
        self.phase = Phase::Info;
    }

    /// Record which names the metadata provider knows and queue the work:
    /// dependency-role packages first, then explicit ones, each kept only
    /// when the provider knows it, in request order.
    pub fn provide_info(&mut self, found: &Vec<String>)
        requires
            old(self).wf(),
            old(self).phase == Phase::Info,
        ensures
            final(self).wf(),
            final(self).phase == Phase::Confirm,
            final(self).pos == 0,
            final(self).queue@ == flagged(filter_found(old(self).deps@, found@), true) + flagged(
                filter_found(old(self).packages@, found@),
                false,
            ),
            final(self).config == old(self).config,
            final(self).packages == old(self).packages,
            final(self).deps == old(self).deps,
            final(self).succeeded == old(self).succeeded,
            final(self).failed == old(self).failed,
            final(self).aborted == old(self).aborted,
    {
        let mut queue: Vec<(String, bool)> = Vec::new();
        append_found(&mut queue, &self.deps, found, true);
        append_found(&mut queue, &self.packages, found, false);
        self.queue = queue;
        self.pos = 0;
        self.phase = Phase::Confirm;
    }

    /// Whether the operator must confirm before anything happens.
    pub fn confirmation_needed(&self) -> (r: bool)
        requires
            self.wf(),
            self.phase == Phase::Confirm,
        ensures
            r == !self.config.no_confirm,
    {
        !self.config.no_confirm
    }

    /// Apply the operator's answer (`None` when confirmation is
    /// suppressed).  Empty input counts as affirmative; anything but an
    /// affirmative answer aborts the whole run with no changes made.
    pub fn confirm(&mut self, answer: Option<String>)
        requires
            old(self).wf(),
            old(self).phase == Phase::Confirm,
            (answer is Some) == !old(self).config.no_confirm,
        ensures
            final(self).wf(),
            final(self).config == old(self).config,
            final(self).queue == old(self).queue,
            final(self).succeeded == old(self).succeeded,
            final(self).failed == old(self).failed,
            if (match answer {
                None => true,
                Some(line) => accepts(line@),
            }) {
                &&& final(self).phase == Phase::NextPackage
                &&& final(self).pos == 0
                &&& final(self).aborted == old(self).aborted
            } else {
                &&& final(self).phase == Phase::Done
                &&& final(self).aborted
            },
    {
        proof {
            reveal_strlit("");
            assert(""@ =~= Seq::<char>::empty());
        }
        let ok: bool = match answer {
            None => true,
            Some(line) => {
                let t = trimmed(line.as_str());
                str_eq(t.as_str(), "") || str_eq(t.as_str(), "y")
            },
        };
        if ok {
            self.pos = 0;
            self.phase = Phase::NextPackage;
        } else {
            self.aborted = true;
            self.phase = Phase::Done;
        }
    }

    /// Start the next package's pipeline: its name is returned and the
    /// cache inspector's answer is awaited.  With no package left the run
    /// finishes.
    pub fn begin_package(&mut self) -> (r: Option<String>)
        requires
            old(self).wf(),
            old(self).phase == Phase::NextPackage,
        ensures
            final(self).wf(),
            final(self).config == old(self).config,
            final(self).queue == old(self).queue,
            final(self).pos == old(self).pos,
            final(self).succeeded == old(self).succeeded,
            final(self).failed == old(self).failed,
            final(self).aborted == old(self).aborted,
            if old(self).pos < old(self).queue@.len() {
                &&& r == Some(old(self).queue@[old(self).pos as int].0)
                &&& final(self).phase == Phase::AwaitCache
                &&& !final(self).cur_cloned
                &&& !final(self).cur_changed
            } else {
                &&& r is None
                &&& final(self).phase == Phase::Done
            },
    {
        if self.pos < self.queue.len() {
            self.cur_cloned = false;
            self.cur_changed = false;
            self.phase = Phase::AwaitCache;
            Some(self.queue[self.pos].0.clone())
        } else {
            self.phase = Phase::Done;
            None
        }
    }

    /// Record the cache inspector's answer.  An absent copy is cloned; a
    /// present copy is refreshed when pulling is enabled; otherwise nothing
    /// changed, and the package builds only under the upgrade flag — else
    /// it is skipped without a report entry.
    pub fn cache_result(&mut self, present: bool)
        requires
            old(self).wf(),
            old(self).phase == Phase::AwaitCache,
        ensures
            final(self).wf(),
            final(self).config == old(self).config,
            final(self).queue == old(self).queue,
            final(self).succeeded == old(self).succeeded,
            final(self).failed == old(self).failed,
            final(self).aborted == old(self).aborted,
            final(self).cur_cloned == old(self).cur_cloned,
            final(self).cur_changed == old(self).cur_changed,
            if !present {
                final(self).phase == Phase::AwaitClone && final(self).pos == old(self).pos
            } else if old(self).config.refresh {
                final(self).phase == Phase::AwaitRefresh && final(self).pos == old(self).pos
            } else if old(self).config.upgrade {
                final(self).phase == Phase::AwaitBuild && final(self).pos == old(self).pos
            } else {
                final(self).phase == Phase::NextPackage && final(self).pos == old(self).pos + 1
            },
    {
        let _n: usize = self.queue.len();
        if !present {
            self.phase = Phase::AwaitClone;
        } else if self.config.refresh {
            self.phase = Phase::AwaitRefresh;
        } else if self.config.upgrade {
            self.phase = Phase::AwaitBuild;
        } else {
            self.pos = self.pos + 1;
            self.phase = Phase::NextPackage;
        }
    }

    /// Record the clone's outcome.  A fresh clone always proceeds to the
    /// build; a failed clone is fatal for the package, and for the run
    /// unless errors are ignored.
    pub fn clone_result(&mut self, ok: bool)
        requires
            old(self).wf(),
            old(self).phase == Phase::AwaitClone,
        ensures
            final(self).wf(),
            final(self).config == old(self).config,
            final(self).queue == old(self).queue,
            final(self).succeeded == old(self).succeeded,
            final(self).aborted == old(self).aborted,
            final(self).cur_changed == old(self).cur_changed,
            if ok {
                &&& final(self).phase == Phase::AwaitBuild
                &&& final(self).pos == old(self).pos
                &&& final(self).cur_cloned
                &&& final(self).failed == old(self).failed
            } else {
                &&& final(self).failed@ == old(self).failed@.push(
                    (
                        old(self).queue@[old(self).pos as int].0,
                        AURError::CloneFailed(old(self).queue@[old(self).pos as int].0),
                    ),
                )
                &&& if old(self).config.ignore_errors {
                    final(self).phase == Phase::NextPackage && final(self).pos == old(self).pos
                        + 1
                } else {
                    final(self).phase == Phase::Done
                }
            },
    {
        let _n: usize = self.queue.len();
        if ok {
            self.cur_cloned = true;
            self.phase = Phase::AwaitBuild;
        } else {
            let name = self.queue[self.pos].0.clone();
            let err = AURError::CloneFailed(self.queue[self.pos].0.clone());
            self.failed.push((name, err));
            if self.config.ignore_errors {
                self.pos = self.pos + 1;
                self.phase = Phase::NextPackage;
            } else {
                self.phase = Phase::Done;
            }
        }
    }

    /// Record the refresh's outcome.  A changed copy — or the upgrade flag
    /// — proceeds to the build; an unchanged copy is skipped.  A refresh
    /// failure (a merge conflict among them) is fatal for the package, and
    /// for the run unless errors are ignored.
    pub fn refresh_result(&mut self, res: Result<bool, GitError>)
        requires
            old(self).wf(),
            old(self).phase == Phase::AwaitRefresh,
        ensures
            final(self).wf(),
            final(self).config == old(self).config,
            final(self).queue == old(self).queue,
            final(self).succeeded == old(self).succeeded,
            final(self).aborted == old(self).aborted,
            final(self).cur_cloned == old(self).cur_cloned,
            match res {
                Ok(changed) => {
                    &&& final(self).cur_changed == changed
                    &&& final(self).failed == old(self).failed
                    &&& if changed || old(self).config.upgrade {
                        final(self).phase == Phase::AwaitBuild && final(self).pos == old(
                            self,
                        ).pos
                    } else {
                        final(self).phase == Phase::NextPackage && final(self).pos == old(
                            self,
                        ).pos + 1
                    }
                },
                Err(e) => {
                    &&& final(self).failed@ == old(self).failed@.push(
                        (
                            old(self).queue@[old(self).pos as int].0,
                            match e {
                                GitError::MergeConflicts => AURError::MergeConflicts(
                                    old(self).queue@[old(self).pos as int].0,
                                ),
                                GitError::NoCommonAncestor => AURError::FetchFailed(
                                    old(self).queue@[old(self).pos as int].0,
                                ),
                                GitError::FetchFailed => AURError::FetchFailed(
                                    old(self).queue@[old(self).pos as int].0,
                                ),
                            },
                        ),
                    )
                    &&& if old(self).config.ignore_errors {
                        final(self).phase == Phase::NextPackage && final(self).pos == old(
                            self,
                        ).pos + 1
                    } else {
                        final(self).phase == Phase::Done
                    }
                },
            },
    {
        let _n: usize = self.queue.len();
        match res {
            Ok(changed) => {
                self.cur_changed = changed;
                if changed || self.config.upgrade {
                    self.phase = Phase::AwaitBuild;
                } else {
                    self.pos = self.pos + 1;
                    self.phase = Phase::NextPackage;
                }
            },
            Err(e) => {
                let name = self.queue[self.pos].0.clone();
                let err = e.for_package(&self.queue[self.pos].0);
                self.failed.push((name, err));
                if self.config.ignore_errors {
                    self.pos = self.pos + 1;
                    self.phase = Phase::NextPackage;
                } else {
                    self.phase = Phase::Done;
                }
            },
        }
    }

    /// The build the current package needs: its name and the build tool's
    /// flags.  The package is registered as a dependency when it plays the
    /// dependency role or the run says so for every package.
    pub fn build_request(&self) -> (r: (String, BuildOptions))
        requires
            self.wf(),
            self.phase == Phase::AwaitBuild,
        ensures
            r.0 == self.queue@[self.pos as int].0,
            r.1 == (BuildOptions {
                sync_deps: self.config.sync_deps,
                rm_deps: self.config.rm_deps,
                clean: self.config.clean,
                as_deps: self.config.as_deps || self.queue@[self.pos as int].1,
                confirm: !self.config.no_confirm,
            }),
    {
        let name = self.queue[self.pos].0.clone();
        let opts = BuildOptions {
            sync_deps: self.config.sync_deps,
            rm_deps: self.config.rm_deps,
            clean: self.config.clean,
            as_deps: self.config.as_deps || self.queue[self.pos].1,
            confirm: !self.config.no_confirm,
        };
        (name, opts)
    }

    /// Record the build's exit status: success joins the report's
    /// successes, failure its failures — fatally for the run unless errors
    /// are ignored.
    pub fn build_result(&mut self, exit_success: bool)
        requires
            old(self).wf(),
            old(self).phase == Phase::AwaitBuild,
        ensures
            final(self).wf(),
            final(self).config == old(self).config,
            final(self).queue == old(self).queue,
            final(self).aborted == old(self).aborted,
            if exit_success {
                &&& final(self).succeeded@ == old(self).succeeded@.push(
                    old(self).queue@[old(self).pos as int].0,
                )
                &&& final(self).failed == old(self).failed
                &&& final(self).phase == Phase::NextPackage
                &&& final(self).pos == old(self).pos + 1
            } else {
                &&& final(self).succeeded == old(self).succeeded
                &&& final(self).failed@ == old(self).failed@.push(
                    (old(self).queue@[old(self).pos as int].0, AURError::InstallFailed),
                )
                &&& if old(self).config.ignore_errors {
                    final(self).phase == Phase::NextPackage && final(self).pos == old(self).pos
                        + 1
                } else {
                    final(self).phase == Phase::Done
                }
            },
    {
        let _n: usize = self.queue.len();
        if exit_success {
            self.succeeded.push(self.queue[self.pos].0.clone());
            self.pos = self.pos + 1;
            self.phase = Phase::NextPackage;
        } else {
            let name = self.queue[self.pos].0.clone();
            self.failed.push((name, AURError::InstallFailed));
            if self.config.ignore_errors {
                self.pos = self.pos + 1;
                self.phase = Phase::NextPackage;
            } else {
                self.phase = Phase::Done;
            }
        }
    }

    /// The final counts: how many packages succeeded and how many failed.
    pub fn counts(&self) -> (r: (usize, usize))
        ensures
            r.0 == self.succeeded@.len(),
            r.1 == self.failed@.len(),
    {
        (self.succeeded.len(), self.failed.len())
    }
}

/// Append to `queue` the names of `ns` that `found` knows, each flagged
/// with `flag`, in order.
fn append_found(queue: &mut Vec<(String, bool)>, ns: &Vec<String>, found: &Vec<String>, flag: bool)
    ensures
        final(queue)@ == old(queue)@ + flagged(filter_found(ns@, found@), flag),
{
    let ghost q0 = queue@;
    let n: usize = ns.len();
    let mut i: usize = 0;
    while i < n
        invariant
            n == ns@.len(),
            i <= n,
            queue@ == q0 + flagged(filter_found(ns@.take(i as int), found@), flag),
        decreases n - i,
    {
        proof {
            assert(ns@.take(i + 1).drop_last() =~= ns@.take(i as int));
            assert(ns@.take(i + 1).last() == ns@[i as int]);
        }
        if contains_name(found, &ns[i]) {
            queue.push((ns[i].clone(), flag));
            proof {
                let kept = filter_found(ns@.take(i + 1), found@);
                assert(kept == filter_found(ns@.take(i as int), found@).push(ns@[i as int]));
                assert(flagged(kept, flag) == flagged(kept.drop_last(), flag).push(
                    (kept.last(), flag),
                ));
                assert(kept.drop_last() =~= filter_found(ns@.take(i as int), found@));
                assert(queue@ =~= q0 + flagged(filter_found(ns@.take(i + 1), found@), flag));
            }
        } else {
            proof {
                assert(filter_found(ns@.take(i + 1), found@) == filter_found(
                    ns@.take(i as int),
                    found@,
                ));
            }
        }
        i += 1;
    }
    proof {
        assert(ns@.take(n as int) =~= ns@);
    }
}

/// Membership of a name, by characters, in a list of names.
fn contains_name(found: &Vec<String>, n: &String) -> (r: bool)
    ensures
        r == contains_str(found@, n@),
{
    let m: usize = found.len();
    let mut i: usize = 0;
    while i < m
        invariant
            m == found@.len(),
            i <= m,
            forall|k: int| 0 <= k < i ==> found@[k]@ != n@,
        decreases m - i,
    {
        if str_eq(found[i].as_str(), n.as_str()) {
            return true;
        }
        i += 1;
    }
    false
}

} // verus!
