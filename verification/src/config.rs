//! Settings of a stylization run.

use vstd::prelude::*;

verus! {

/// Settings of a stylization run.
pub struct Config {
    /// Input image path
    pub input: String,
    /// Output image path
    pub output: String,
    /// Number of iterations
    pub iterations: u32,
    /// Save every N iterations
    pub save_every: u32,
    /// RNG seed (optional)
    pub seed: Option<u64>,
}

impl Config {
    /// Whether the canvas is saved after iteration `i`: every `save_every`
    /// iterations, starting with the first.
    pub fn saves_at(&self, i: u32) -> (save: bool)
        requires
            self.save_every > 0,
        ensures
            save == (i % self.save_every == 0),
    {
        i % self.save_every == 0
    }
}

} // verus!
