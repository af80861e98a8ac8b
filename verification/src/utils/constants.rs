//! File names that the tool looks for.
use vstd::prelude::*;

verus! {

/// The project's own configuration file.
pub const HHH_FILE_NAME: &'static str = "hhh.config.json";

/// The file that marks the root of a pnpm monorepo.
pub const PNPM_MONO_CONFIG_JSON: &'static str = "pnpm-workspace.yaml";

} // verus!
