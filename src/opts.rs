//! Command-line options of the audio tool, as plain values.

use vstd::prelude::*;

verus! {

/// Options of a batch run.
pub struct Opts {
    /// Files to process.
    pub paths: Vec<String>,
    /// Print every tag item of each file instead of converting it.
    pub dump: bool,
}

impl Opts {
    /// Options naming `paths`, without dumping.
    pub fn new(paths: Vec<String>) -> (r: Opts)
        ensures
            r.paths@ == paths@,
            !r.dump,
    {
        Opts { paths, dump: false }
    }
}

} // verus!
