//! The plain-data part of the launcher's configuration. Reading and
//! decoding the configuration file is the host's job.

use vstd::prelude::*;

verus! {

/// Settings of the file-search module.
#[derive(Debug, Clone)]
pub struct FileSettings {
    /// Directories under the home directory that the file walk visits.
    pub search_directories: Vec<String>,
}

impl FileSettings {
    pub fn new(search_directories: Vec<String>) -> (r: FileSettings)
        ensures
            r.search_directories == search_directories,
    {
        FileSettings { search_directories }
    }
}

} // verus!
