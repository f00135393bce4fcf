//! Settings of a `Rooster` client.
use vstd::prelude::*;

verus! {

/// The settings of a client.
pub struct RoosterConfig {
    experimental: bool,
}

impl RoosterConfig {
    /// Whether experimental behaviour is switched on.
    pub closed spec fn experimental(&self) -> bool {
        self.experimental
    }
}

/// Types that have a default configuration.
pub trait Config: Sized {
    fn default() -> Self;
}

impl Config for RoosterConfig {
    /// The default settings: experimental behaviour switched on.
    fn default() -> (r: RoosterConfig)
        ensures
            r.experimental(),
    {
        RoosterConfig { experimental: true }
    }
}

} // verus!
