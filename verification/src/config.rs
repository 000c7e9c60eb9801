//! Startup configuration.

use vstd::prelude::*;
use vstd::slice::slice_to_vec;
use vstd::string::StringSliceAdditionalSpecFns;

verus! {

/// What the host configures before serving: the channel new sessions start
/// in.
pub struct Config {
    pub default_channel: Vec<u8>,
}

impl Config {
    /// A configuration with the given starting channel.
    pub fn new(default_channel: Vec<u8>) -> (r: Config)
        ensures
            r.default_channel == default_channel,
    {
        Config { default_channel }
    }
}

impl Default for Config {
    /// The built-in default: sessions start in `general`.
    fn default() -> (r: Config)
        ensures
            r.default_channel@ == "general".spec_bytes(),
    {
        Config { default_channel: slice_to_vec("general".as_bytes()) }
    }
}

} // verus!
