//! Runtime configuration handed in by the surrounding program.

use vstd::prelude::*;

verus! {

/// The values the program needs at startup.  Reading them from the
/// environment is the caller's business; the core only carries them.
pub struct Config {
    pub bot_token: String,
}

} // verus!
