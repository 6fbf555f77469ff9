//! Host-side interfaces: the accelerator operations and plugin
//! configurations given on the command line.

use crate::error::Result;
use crate::types::arb_data::ArbData;
use vstd::prelude::*;

verus! {

/// The primitive operations of an accelerator.
pub trait Accelerator {
    /// Starts a program on the accelerator.
    fn start(&mut self, args: ArbData) -> Result<()>;

    /// Waits for the accelerator to finish its current program.
    fn wait(&mut self) -> Result<ArbData>;

    /// Sends a message to the accelerator.
    fn send(&mut self, args: ArbData) -> Result<()>;

    /// Waits for the accelerator to send a message to us.
    fn recv(&mut self) -> Result<ArbData>;
}

/// The configuration of a plugin given on the command line: its name.
#[derive(Debug)]
pub struct PluginConfig {
    name: String,
}

impl View for PluginConfig {
    type V = Seq<char>;

    /// The plugin name.
    closed spec fn view(&self) -> Seq<char> {
        self.name@
    }
}

impl PluginConfig {
    /// Constructs a configuration from its textual form, the plugin name.
    pub fn from_str(s: &str) -> (c: PluginConfig)
        ensures
            c@ == s@,
    {
        PluginConfig { name: s.to_owned() }
    }

    /// The plugin name.
    pub fn name(&self) -> (s: &str)
        ensures
            s@ == self@,
    {
        self.name.as_str()
    }
}

} // verus!
