//! Configuration as the engine consumes it: a cache root, an optional
//! default game locator text, and where progress is drawn. Reading the
//! configuration file and deriving platform default paths happen outside
//! the engine; this type carries the result.

use vstd::prelude::*;

verus! {

/// Progress draw target type.
/// Stdout: write progress bar to `stdout`.
/// Hidden: do not write progress bar.
#[derive(Clone, Copy, PartialEq, Eq, Structural, Debug)]
pub enum ProgressDrawTargetType {
    Stdout,
    Hidden,
}

pub fn default_progress_draw_target() -> (r: ProgressDrawTargetType)
    ensures
        r == ProgressDrawTargetType::Stdout,
{
    ProgressDrawTargetType::Stdout
}

pub struct Config {
    pub default_game: Option<String>,
    /// Cache directory.
    pub cache_dir: String,
    /// Progress draw target.
    pub progress_draw_target: ProgressDrawTargetType,
}

impl Config {
    pub fn new(default_game: Option<String>, cache_dir: String, progress_draw_target:
        ProgressDrawTargetType) -> (r: Config)
        ensures
            r.default_game == default_game,
            r.cache_dir@ == cache_dir@,
            r.progress_draw_target == progress_draw_target,
    {
        Config { default_game, cache_dir, progress_draw_target }
    }
}

} // verus!
