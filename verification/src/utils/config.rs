//! The project's own configuration.
use vstd::prelude::*;

verus! {

/// The project's configuration file.
pub struct HHHConfig {
    pub name: Option<String>,
}

impl Default for HHHConfig {
    /// A configuration that names nothing.
    fn default() -> (r: Self)
        ensures
            r.name is None,
    {
        HHHConfig { name: None }
    }
}

} // verus!
