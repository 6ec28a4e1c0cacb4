//! The WinpkFilter backend's own configuration.
use vstd::prelude::*;

use crate::datalink;

verus! {

/// Size of each buffer when none is configured.
pub const DEFAULT_BUFFER_SIZE: usize = 4096;

/// The WinpkFilter's specific configuration.
#[derive(Clone, Copy, Debug, PartialEq, Eq, Structural, Hash)]
pub struct Config {
    /// Size of buffer to use when writing packets.
    pub write_buffer_size: usize,
    /// Size of buffer to use when reading packets.
    pub read_buffer_size: usize,
}

impl<'a> From<&'a datalink::Config> for Config {
    fn from(config: &'a datalink::Config) -> (r: Config)
        ensures
            r.write_buffer_size == config.write_buffer_size,
            r.read_buffer_size == config.read_buffer_size,
    {
        Config {
            write_buffer_size: config.write_buffer_size,
            read_buffer_size: config.read_buffer_size,
        }
    }
}

impl<'a> vstd::std_specs::convert::FromSpecImpl<&'a datalink::Config> for Config {
    open spec fn obeys_from_spec() -> bool {
        true
    }

    open spec fn from_spec(config: &'a datalink::Config) -> Config {
        Config {
            write_buffer_size: config.write_buffer_size,
            read_buffer_size: config.read_buffer_size,
        }
    }
}

/// Converting the generic channel configuration keeps both buffer sizes as
/// they are, for every configuration.
pub proof fn lemma_from_keeps_buffer_sizes(config: &datalink::Config)
    ensures
        <Config as vstd::std_specs::convert::FromSpec<&datalink::Config>>::from_spec(config)
            == (Config {
            write_buffer_size: config.write_buffer_size,
            read_buffer_size: config.read_buffer_size,
        }),
{
}

impl Default for Config {
    fn default() -> (r: Config)
        ensures
            r.write_buffer_size == DEFAULT_BUFFER_SIZE,
            r.read_buffer_size == DEFAULT_BUFFER_SIZE,
    {
        Config { write_buffer_size: DEFAULT_BUFFER_SIZE, read_buffer_size: DEFAULT_BUFFER_SIZE }
    }
}

} // verus!
