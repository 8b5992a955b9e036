//! Dependency classification: partitioning a requested package set into
//! explicitly requested packages and packages installed as dependencies,
//! from the external package manager's answers.

use vstd::prelude::*;
use crate::text::{str_eq, trim_spec, trimmed};

verus! {

/// The role a package name plays in one run.
#[derive(Debug, Clone, Copy, PartialEq, Eq, Structural)]
pub enum DependencyRole {
    /// Requested directly, or not installed at all.
    Explicit,
    /// Recorded by the package manager as installed-as-dependency.
    Dependency,
}

/// The role a package-manager answer assigns.  `Some(true)` means the name
/// is recorded as installed-as-dependency; `Some(false)` means it is not
/// (explicitly installed, or not installed at all); `None` means the query
/// itself failed, which classifies as explicit rather than aborting the
/// run.
pub open spec fn role_of(answer: Option<bool>) -> DependencyRole {
    if answer == Some(true) {
        DependencyRole::Dependency
    } else {
        DependencyRole::Explicit
    }
}

/// The names among `ns` whose answers classify them as explicit, in order.
pub open spec fn explicit_of(ns: Seq<String>, answers: Seq<Option<bool>>) -> Seq<String>
    decreases ns.len(),
{
    if ns.len() == 0 {
        Seq::empty()
    } else {
        let rest = explicit_of(ns.drop_last(), answers.drop_last());
        if role_of(answers.last()) == DependencyRole::Explicit {
            rest.push(ns.last())
        } else {
            rest
        }
    }
}

/// The names among `ns` whose answers classify them as dependencies, in
/// order.
pub open spec fn dependency_of(ns: Seq<String>, answers: Seq<Option<bool>>) -> Seq<String>
    decreases ns.len(),
{
    if ns.len() == 0 {
        Seq::empty()
    } else {
        let rest = dependency_of(ns.drop_last(), answers.drop_last());
        if role_of(answers.last()) == DependencyRole::Dependency {
            rest.push(ns.last())
        } else {
            rest
        }
    }
}

/// Partition `names` into explicitly requested names and dependency-role
/// names, as their package-manager answers direct; a failed query counts
/// as explicit.  Order is preserved inside each part.
pub fn classify(names: &Vec<String>, answers: &Vec<Option<bool>>) -> (r: (Vec<String>, Vec<
    String,
>))
    requires
        names@.len() == answers@.len(),
    ensures
        r.0@ == explicit_of(names@, answers@),
        r.1@ == dependency_of(names@, answers@),
{
    let n: usize = names.len();
    let mut explicit: Vec<String> = Vec::new();
    let mut deps: Vec<String> = Vec::new();
    let mut i: usize = 0;
    while i < n
        invariant
            n == names@.len(),
            names@.len() == answers@.len(),
            i <= n,
            explicit@ == explicit_of(names@.take(i as int), answers@.take(i as int)),
            deps@ == dependency_of(names@.take(i as int), answers@.take(i as int)),
        decreases n - i,
    {
        let is_dep: bool = match answers[i] {
            Some(true) => true,
            _ => false,
        };
        proof {
            assert(names@.take(i + 1).drop_last() =~= names@.take(i as int));
            assert(answers@.take(i + 1).drop_last() =~= answers@.take(i as int));
            assert(names@.take(i + 1).last() == names@[i as int]);
            assert(answers@.take(i + 1).last() == answers@[i as int]);
        }
        if is_dep {
            deps.push(names[i].clone());
        } else {
            explicit.push(names[i].clone());
        }
        i += 1;
    }
    proof {
        assert(names@.take(n as int) =~= names@);
        assert(answers@.take(n as int) =~= answers@);
    }
    (explicit, deps)
}

/// Classification is idempotent: the same names with the same
/// installed-state answers always yield the same partition into explicit
/// and dependency names — repeating a classification with no intervening
/// installation change cannot alter it.
pub proof fn lemma_classify_idempotent(
    ns: Seq<String>,
    answers: Seq<Option<bool>>,
    e1: Seq<String>,
    d1: Seq<String>,
    e2: Seq<String>,
    d2: Seq<String>,
)
    requires
        e1 == explicit_of(ns, answers),
        d1 == dependency_of(ns, answers),
        e2 == explicit_of(ns, answers),
        d2 == dependency_of(ns, answers),
    ensures
        e1 == e2,
        d1 == d2,
{
}

/// Whether some requested entry, once trimmed, is the wildcard that stands
/// for "all foreign-installed packages".
pub open spec fn contains_wildcard(ns: Seq<String>) -> bool {
    exists|i: int| 0 <= i < ns.len() && trim_spec(ns[i]@) == "*"@
}

/// Scan a request list for the wildcard entry.
pub fn has_wildcard(requested: &Vec<String>) -> (r: bool)
    ensures
        r == contains_wildcard(requested@),
{
    let n: usize = requested.len();
    let mut i: usize = 0;
    while i < n
        invariant
            n == requested@.len(),
            i <= n,
            forall|k: int| 0 <= k < i ==> trim_spec(requested@[k]@) != "*"@,
        decreases n - i,
    {
        let t = trimmed(requested[i].as_str());
        if str_eq(t.as_str(), "*") {
            return true;
        }
        i += 1;
    }
    false
}

} // verus!
