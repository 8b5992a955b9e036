//! Reading the external package manager's answers: the installed version
//! of a name, whether a name is recorded as a dependency, and the list of
//! foreign-installed names.  The queries themselves run outside the
//! library; their exit status and output are interpreted here.

use vstd::prelude::*;
use crate::errors::AURError;
use crate::text::{
    lines_from, second_field, second_field_trimmed, split_lines, starts_with, str_starts_with,
    trim_spec, trimmed,
};

verus! {

/// The installed version a version query reports for `name`.  A failed
/// query is the "not installed" signal; on success the version is the
/// second space-separated field of the output, or "not installed" again
/// when no such field exists.
pub fn installed_version(name: &String, exit_success: bool, stdout: &str) -> (r: Result<
    String,
    AURError,
>)
    ensures
        match r {
            Ok(v) => exit_success && second_field(stdout@) is Some && v@ == trim_spec(
                second_field(stdout@)->0,
            ),
            Err(e) => (!exit_success || second_field(stdout@) is None) && e
                == AURError::NotInstalled(*name),
        },
{
    if !exit_success {
        return Err(AURError::NotInstalled(name.clone()));
    }
    match second_field_trimmed(stdout) {
        Some(v) => Ok(v),
        None => Err(AURError::NotInstalled(name.clone())),
    }
}

/// Whether a dependency query records `name` as installed-as-dependency.
/// A successful query means yes; a failed query whose output opens with an
/// error marker means the name is not installed at all; any other failure
/// means no.
pub fn is_dep_outcome(name: &String, exit_success: bool, stdout: &str) -> (r: Result<
    bool,
    AURError,
>)
    ensures
        r == (if exit_success {
            Ok::<bool, AURError>(true)
        } else if starts_with(trim_spec(stdout@), "error"@) {
            Err::<bool, AURError>(AURError::NotInstalled(*name))
        } else {
            Ok::<bool, AURError>(false)
        }),
{
    if exit_success {
        Ok(true)
    } else {
        let t = trimmed(stdout);
        if str_starts_with(t.as_str(), "error") {
            Err(AURError::NotInstalled(name.clone()))
        } else {
            Ok(false)
        }
    }
}

/// The foreign-installed package names a listing query printed, one per
/// line.
pub fn foreign_names(stdout: &str) -> (r: Vec<String>)
    ensures
        r.deep_view() == lines_from(stdout@, 0),
{
    split_lines(stdout)
}

} // verus!
