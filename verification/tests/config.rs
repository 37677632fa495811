use amppo::config::{Config, PerformanceMode};
use amppo::hardware::cpu::CpuSettings;
use amppo::hardware::gpu::GpuSettings;
use amppo::hardware::platform::PlatformSettings;
use amppo::state::State;

fn mode(name: &str) -> PerformanceMode {
    PerformanceMode {
        modename: name.to_string(),
        cpu_settings: CpuSettings {
            turbo_boost: false,
            energy_performance_preference: "power".to_string(),
            scaling_governor: "powersave".to_string(),
            min_freq: 0,
            max_freq: 0,
            dynamic_epp: true,
        },
        gpu_settings: GpuSettings {
            card: 0,
            gpu_freq_min: 0,
            gpu_freq_max: 0,
            vram_freq_min: 0,
            vram_freq_max: 0,
            is_set: false,
        },
        platform_settings: PlatformSettings { profile: "low-power".to_string() },
        hook: None,
    }
}

#[test]
fn next_is_the_first_mode() {
    let config = Config { modes: vec![mode("quiet"), mode("turbo")] };
    assert_eq!(config.next().modename, "quiet");
}

#[test]
fn new_state_is_empty() {
    let s = State::new();
    assert_eq!(s.index_mod, 0);
    assert_eq!(s.current_mode, "");
}
