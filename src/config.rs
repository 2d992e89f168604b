use vstd::prelude::*;

verus! {

/// The schema version of the configuration file that this library reads.
pub const SCHEMA_VERSION: i32 = 1;

/// The site's configuration.
pub struct Config {
    pub schema_version: i32,
    pub name: String,
    /// The index page's file, beside the configuration file.
    pub index: String,
    /// The post template's file, beside the configuration file.
    pub template: String,
    pub ref_from_index: String,
    /// A regular expression that the names of post files match.
    pub input: String,
    /// The directory that the pages are written to.
    pub output: String,
    /// The chrono format of publication dates, read and written.
    pub time_format: String,
}

impl Config {
    /// Whether the configuration is written for this library's schema.
    pub fn schema_matches(&self) -> (r: bool)
        ensures
            r == (self.schema_version == SCHEMA_VERSION),
    {
        self.schema_version == SCHEMA_VERSION
    }
}

} // verus!
