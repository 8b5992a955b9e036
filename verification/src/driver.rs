//! The build/install driver's decisions: which flags the external build
//! tool receives and what its exit status means.  The tool itself runs
//! outside the library; only its argument list and the reading of its exit
//! status are decided here.

use vstd::prelude::*;
use crate::errors::AURError;

verus! {

/// The behavioral flags of one build-and-install invocation.
#[derive(Debug, Clone, Copy, PartialEq, Eq, Structural)]
pub struct BuildOptions {
    /// Resolve missing dependencies with the package manager before
    /// building.
    pub sync_deps: bool,
    /// Remove build-only dependencies after a successful install.
    pub rm_deps: bool,
    /// Delete intermediate build artifacts on success.
    pub clean: bool,
    /// Register the resulting package as a dependency rather than as
    /// explicitly installed.
    pub as_deps: bool,
    /// Let the build tool prompt interactively; when `false`, its prompts
    /// are suppressed.
    pub confirm: bool,
}

/// The argument list the build tool receives for `o`: install with the
/// needed-only guard, then one flag per enabled option.
pub open spec fn args_of(o: BuildOptions) -> Seq<Seq<char>> {
    seq!["-i"@, "--needed"@] + (if o.sync_deps {
        seq!["-s"@]
    } else {
        Seq::empty()
    }) + (if o.rm_deps {
        seq!["-r"@]
    } else {
        Seq::empty()
    }) + (if o.clean {
        seq!["-c"@]
    } else {
        Seq::empty()
    }) + (if o.as_deps {
        seq!["--asdeps"@]
    } else {
        Seq::empty()
    }) + (if !o.confirm {
        seq!["--noconfirm"@]
    } else {
        Seq::empty()
    })
}

/// Build the argument list for one invocation of the build tool.
pub fn makepkg_args(opts: &BuildOptions) -> (r: Vec<String>)
    ensures
        r.deep_view() == args_of(*opts),
{
    let mut r: Vec<String> = Vec::new();
    r.push("-i".to_owned());
    r.push("--needed".to_owned());
    if opts.sync_deps {
        r.push("-s".to_owned());
    }
    if opts.rm_deps {
        r.push("-r".to_owned());
    }
    if opts.clean {
        r.push("-c".to_owned());
    }
    if opts.as_deps {
        r.push("--asdeps".to_owned());
    }
    if !opts.confirm {
        r.push("--noconfirm".to_owned());
    }
    proof {
        assert(r.deep_view() =~= args_of(*opts));
    }
    r
}

/// Read the build tool's exit status: a zero status is the only success
/// signal, anything else is a failed install.
pub fn install_outcome(exit_success: bool) -> (r: Result<(), AURError>)
    ensures
        r == if exit_success {
            Ok::<(), AURError>(())
        } else {
            Err::<(), AURError>(AURError::InstallFailed)
        },
{
    if exit_success {
        Ok(())
    } else {
        Err(AURError::InstallFailed)
    }
}

} // verus!
