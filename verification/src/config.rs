//! Where the browser looks, and how much content it loads unasked.
use vstd::prelude::*;

verus! {

/// Content larger than this many bytes is loaded only after confirmation.
pub const DEFAULT_PREVIEW_LIMIT: u64 = 1024 * 1024;

/// The settings of a session.
pub struct Config {
    /// Swamp repository to browse.
    pub repo_dir: std::path::PathBuf,
    /// Swamp executable to invoke.
    pub swamp_bin: std::path::PathBuf,
    pub preview_limit: u64,
}

impl Config {
    /// Settings for a repository and program, with the default preview limit.
    pub fn new(repo_dir: std::path::PathBuf, swamp_bin: std::path::PathBuf) -> (r: Self)
        ensures
            r.repo_dir == repo_dir,
            r.swamp_bin == swamp_bin,
            r.preview_limit == DEFAULT_PREVIEW_LIMIT,
    {
        Config { repo_dir, swamp_bin, preview_limit: DEFAULT_PREVIEW_LIMIT }
    }
}

} // verus!
