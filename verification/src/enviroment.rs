//! Project settings as the `MCPP.toml` manifest carries them.
use vstd::prelude::*;
use vstd::string::*;

verus! {

/// The settings of a project: its name, the game version it targets, and
/// the world used for testing.
#[derive(Debug)]
pub struct Enviroment {
    pub project_name: String,
    pub mc_version: String,
    pub test_world: String,
}

impl Enviroment {
    /// The settings a fresh project starts from.
    pub fn new() -> (r: Enviroment)
        ensures
            r.project_name@ == "Untitled".view(),
            r.mc_version@ == "1.20.1".view(),
            r.test_world@ == "THE_PATH_OF_TEST_WORLD_HERE".view(),
    {
        Enviroment {
            project_name: String::from_str("Untitled"),
            mc_version: String::from_str("1.20.1"),
            test_world: String::from_str("THE_PATH_OF_TEST_WORLD_HERE"),
        }
    }
}

} // verus!
