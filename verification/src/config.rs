//! Settings of one pipeline run.

use vstd::prelude::*;

verus! {

/// Arguments given on the command line.
#[derive(Debug, Clone, PartialEq, Eq)]
pub struct Args {
    /// Path of the settings file (YAML).
    pub config: String,
}

/// Settings of a pipeline run, as read from the settings file.
#[derive(Debug, Clone, PartialEq, Eq)]
pub struct Config {
    /// Base URL of the distribution API, without a trailing slash.
    pub base_url: String,
    /// Product whose deliveries are fetched.
    pub product_id: u32,
    /// Directory that receives the downloads.
    pub download_dir: String,
    /// Whether the download stage runs.
    pub download: bool,
    /// Whether the extraction stage runs.
    pub extract: bool,
    /// Whether the projection stage runs.
    pub parse: bool,
    /// Path of the CSV file that the projection stage writes.
    pub output_csv: String,
    /// Number of documents parsed together in one batch.
    pub batch_size: usize,
    /// Whether an archive is removed once it has been unpacked.
    pub delete_after_extract: bool,
}

/// The download stage runs unless the settings say otherwise.
pub fn default_download() -> (enabled: bool)
    ensures
        enabled,
{
    true
}

/// The extraction stage runs unless the settings say otherwise.
pub fn default_extract() -> (enabled: bool)
    ensures
        enabled,
{
    true
}

/// The projection stage runs unless the settings say otherwise.
pub fn default_parse() -> (enabled: bool)
    ensures
        enabled,
{
    true
}

/// Archives are removed after extraction unless the settings say otherwise.
pub fn default_delete_after_extract() -> (enabled: bool)
    ensures
        enabled,
{
    true
}

} // verus!
