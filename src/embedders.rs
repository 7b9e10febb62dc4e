//! Feature flags of the Wasm execution environment.

use vstd::prelude::*;

verus! {

/// Whether a feature is switched on.
#[derive(Clone, Copy, Debug, PartialEq, Eq, Structural)]
pub enum FlagStatus {
    Enabled,
    Disabled,
}

/// Flags that switch experimental features on or off.
#[derive(Clone, Copy, Debug, PartialEq, Eq, Structural)]
pub struct FeatureFlags {
    pub rate_limiting_of_debug_prints: FlagStatus,
    /// Track dirty pages with a write barrier instead of the signal handler.
    pub write_barrier: FlagStatus,
    pub wasm_native_stable_memory: FlagStatus,
}

impl Default for FeatureFlags {
    /// Debug prints are rate limited; the other features are off.
    fn default() -> (r: Self)
        ensures
            r == (FeatureFlags {
                rate_limiting_of_debug_prints: FlagStatus::Enabled,
                write_barrier: FlagStatus::Disabled,
                wasm_native_stable_memory: FlagStatus::Disabled,
            }),
    {
        Self {
            rate_limiting_of_debug_prints: FlagStatus::Enabled,
            write_barrier: FlagStatus::Disabled,
            wasm_native_stable_memory: FlagStatus::Disabled,
        }
    }
}

} // verus!
