//! The performance modes that the configuration file lists.
use crate::hardware::cpu::CpuSettings;
use crate::hardware::gpu::GpuSettings;
use crate::hardware::platform::PlatformSettings;
use vstd::prelude::*;

verus! {

/// One performance mode: a name, the settings of each part, and a command to
/// run when the mode is applied.
#[derive(Debug)]
pub struct PerformanceMode {
    pub modename: String,
    pub cpu_settings: CpuSettings,
    pub gpu_settings: GpuSettings,
    pub platform_settings: PlatformSettings,
    pub hook: Option<String>,
}

/// The configuration: the modes, in order.
#[derive(Debug)]
pub struct Config {
    pub modes: Vec<PerformanceMode>,
}

impl Config {
    /// The mode to apply: the first one listed.
    pub fn next(&self) -> (m: &PerformanceMode)
        requires
            self.modes.len() > 0,
        ensures
            *m == self.modes@[0],
    {
        &self.modes[0]
    }
}

} // verus!
