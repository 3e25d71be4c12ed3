//! What the application knows of the project that is open.
use vstd::prelude::*;

use crate::keyed::KeyedMap;

verus! {

/// The folder of the project, and the files that are open with their contents.
pub struct AppState {
    pub project_root: Option<String>,
    pub open_files: KeyedMap<String>,
}

impl AppState {
    /// Nothing is open.
    pub fn new() -> (r: Self)
        ensures
            r.project_root is None,
            r.open_files@ == Map::<Seq<char>, String>::empty(),
    {
        AppState { project_root: None, open_files: KeyedMap::new() }
    }
}

} // verus!
