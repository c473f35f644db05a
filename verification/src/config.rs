//! Configuration shared by the core tools.
use vstd::prelude::*;

use crate::text::owned;

verus! {

/// Configuration for core tools.
#[derive(Debug, Clone)]
pub struct CoreToolConfig {
    /// Security root directory.
    pub root_dir: String,
    /// Terminal command timeout in seconds.
    pub terminal_timeout: u64,
    /// Maximum bytes to read from a file.
    pub max_read_bytes: usize,
    /// Maximum output bytes.
    pub max_output_bytes: usize,
    /// Whether terminal commands run in sandbox mode.
    pub sandbox: bool,
}

impl Default for CoreToolConfig {
    fn default() -> (r: Self)
        ensures
            r.root_dir@ == "."@,
            r.terminal_timeout == 120,
            r.max_read_bytes == 100_000,
            r.max_output_bytes == 50_000,
            !r.sandbox,
    {
        CoreToolConfig {
            root_dir: owned("."),
            terminal_timeout: 120,
            max_read_bytes: 100_000,
            max_output_bytes: 50_000,
            sandbox: false,
        }
    }
}

impl CoreToolConfig {
    /// Set sandbox mode for terminal execution.
    pub fn with_sandbox(self, sandbox: bool) -> (r: Self)
        ensures
            r.sandbox == sandbox,
            r.root_dir == self.root_dir,
            r.terminal_timeout == self.terminal_timeout,
            r.max_read_bytes == self.max_read_bytes,
            r.max_output_bytes == self.max_output_bytes,
    {
        CoreToolConfig { sandbox, ..self }
    }
}

} // verus!
