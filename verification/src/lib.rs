//! `hhh`: a command-line helper for ModernJS projects. The library holds
//! its logic: layered configuration (`pkgs::rc`), npm registry lookups
//! (`pkgs::registry_url`, `pkgs::pkg_json`), the `init` command's decisions
//! (`init`), and the helpers they share.
use vstd::prelude::*;

pub mod json;
pub mod text;
pub mod pattern;
pub mod paths;
pub mod string_map;
pub mod pkgs;
pub mod init;
pub mod utils;

verus! {

/// `std::path::PathBuf`, carried as it is.
#[verifier::external_type_specification]
#[verifier::external_body]
pub struct ExPathBuf(std::path::PathBuf);

/// How a command was invoked.
pub struct CommandContext {
    pub app_dir: std::path::PathBuf,
    pub run_in_global_env: bool,
}

impl CommandContext {
    /// A context for a command run in directory `cwd`, in the global environment.
    pub fn new(cwd: std::path::PathBuf) -> (r: Self)
        ensures
            r.app_dir == cwd,
            r.run_in_global_env,
    {
        CommandContext { app_dir: cwd, run_in_global_env: true }
    }
}

} // verus!
