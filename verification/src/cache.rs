//! A record of names seen under each location, with the mark of the
//! program that wrote it.

use std::collections::HashMap;
use vstd::prelude::*;

verus! {

/// The names seen under each location, keyed by the location's text.
pub struct EntriesCache {
    pub cache: HashMap<String, Vec<String>>,
    /// The name and version of the program that wrote the record.
    pub generated_by: String,
}

impl Default for EntriesCache {
    /// An empty record, marked by this version of the program.
    fn default() -> (fresh: Self)
        ensures
            fresh.cache@ == Map::<String, Vec<String>>::empty(),
            fresh.generated_by@ == "Blaze v0.1"@,
    {
        Self { cache: HashMap::new(), generated_by: "Blaze v0.1".to_owned() }
    }
}

} // verus!
