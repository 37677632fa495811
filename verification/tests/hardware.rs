use std::collections::HashMap;
use std::io::{Error, ErrorKind};

use amppo::hardware::cpu::{parse_cpu_range, update_cpu_settings, CpuSettings, UpdateCpuSettingsError};
use amppo::hardware::gpu::{update_video_settings, GpuSettings};
use amppo::hardware::platform::{
    update_platform_profile, PlatformSettings, UpdatePlatformSettingsError,
};
use amppo::sysfs::{Action, Outcome};

/// A file system of named files; writes are recorded, in order.
struct FakeFs {
    files: HashMap<String, Vec<u8>>,
    writes: Vec<(String, Vec<String>)>,
    reads: Vec<String>,
    fail_writes_to: Option<String>,
}

impl FakeFs {
    fn new(files: &[(&str, &str)]) -> Self {
        FakeFs {
            files: files.iter().map(|(p, c)| (p.to_string(), c.as_bytes().to_vec())).collect(),
            writes: Vec::new(),
            reads: Vec::new(),
            fail_writes_to: None,
        }
    }

    fn answer<E>(&mut self, action: Action<E>) -> Result<Outcome, Result<(), E>> {
        match action {
            Action::Write { path, chunks } => {
                if self.fail_writes_to.as_deref() == Some(path.as_str()) {
                    return Ok(Outcome::Written(Err(Error::new(ErrorKind::PermissionDenied, "denied"))));
                }
                self.writes.push((path, chunks));
                Ok(Outcome::Written(Ok(())))
            }
            Action::Read { path } => {
                self.reads.push(path.clone());
                match self.files.get(&path) {
                    Some(c) => Ok(Outcome::Read(Ok(c.clone()))),
                    None => Ok(Outcome::Read(Err(Error::new(ErrorKind::NotFound, "missing")))),
                }
            }
            Action::Done(r) => Err(r),
        }
    }
}

fn run_platform(fs: &mut FakeFs, s: &PlatformSettings) -> Result<(), UpdatePlatformSettingsError> {
    let (mut u, mut a) = update_platform_profile(s);
    loop {
        match fs.answer(a) {
            Ok(o) => a = u.step(o),
            Err(r) => return r,
        }
    }
}

fn run_gpu(fs: &mut FakeFs, s: &GpuSettings) -> Result<(), Error> {
    let (mut u, mut a) = update_video_settings(s);
    loop {
        match fs.answer(a) {
            Ok(o) => a = u.step(o),
            Err(r) => return r,
        }
    }
}

fn run_cpu(fs: &mut FakeFs, s: &CpuSettings) -> Result<(), UpdateCpuSettingsError> {
    let (mut u, mut a) = update_cpu_settings(s);
    loop {
        match fs.answer(a) {
            Ok(o) => a = u.step(o),
            Err(r) => return r,
        }
    }
}

fn w(path: &str, chunks: &[&str]) -> (String, Vec<String>) {
    (path.to_string(), chunks.iter().map(|c| c.to_string()).collect())
}

const CHOICES: &str = "/sys/firmware/acpi/platform_profile_choices";
const PROFILE: &str = "/sys/firmware/acpi/platform_profile";

#[test]
fn platform_profile_offered_is_written() {
    let mut fs = FakeFs::new(&[(CHOICES, "low-power balanced performance\n")]);
    let s = PlatformSettings { profile: "performance".to_string() };
    assert!(run_platform(&mut fs, &s).is_ok());
    assert_eq!(fs.reads, vec![CHOICES.to_string()]);
    assert_eq!(fs.writes, vec![w(PROFILE, &["performance\n"])]);
}

#[test]
fn platform_profile_not_offered_is_refused() {
    let mut fs = FakeFs::new(&[(CHOICES, "low-power balanced\n")]);
    let s = PlatformSettings { profile: "performance".to_string() };
    let r = run_platform(&mut fs, &s);
    assert!(matches!(r, Err(UpdatePlatformSettingsError::InvalidPlatformProfile)));
    assert!(fs.writes.is_empty());
}

#[test]
fn platform_choices_missing_is_io_error() {
    let mut fs = FakeFs::new(&[]);
    let s = PlatformSettings { profile: "balanced".to_string() };
    let r = run_platform(&mut fs, &s);
    match r {
        Err(UpdatePlatformSettingsError::Io(e)) => assert_eq!(e.kind(), ErrorKind::NotFound),
        _ => panic!("expected an I/O error"),
    }
    assert!(fs.writes.is_empty());
}

#[test]
fn platform_error_texts() {
    assert_eq!(
        UpdatePlatformSettingsError::InvalidPlatformProfile.message(),
        "Invalid platform profile"
    );
    let e = UpdatePlatformSettingsError::Io(Error::new(ErrorKind::Other, "boom"));
    assert_eq!(e.message(), "IO error: boom");
    assert!(e.source().is_some());
    assert!(UpdatePlatformSettingsError::InvalidPlatformProfile.source().is_none());
    let from: UpdatePlatformSettingsError = Error::new(ErrorKind::Other, "x").into();
    assert!(matches!(from, UpdatePlatformSettingsError::Io(_)));
}

fn gpu(is_set: bool, a: u32, b: u32, c: u32, d: u32) -> GpuSettings {
    GpuSettings { card: 1, gpu_freq_min: a, gpu_freq_max: b, vram_freq_min: c, vram_freq_max: d, is_set }
}

const LEVEL1: &str = "/sys/class/drm/card1/device/power_dpm_force_performance_level";
const CLOCK1: &str = "/sys/class/drm/card1/device/pp_od_clk_voltage";

#[test]
fn gpu_unset_goes_auto() {
    let mut fs = FakeFs::new(&[]);
    assert!(run_gpu(&mut fs, &gpu(false, 500, 2000, 96, 1000)).is_ok());
    assert_eq!(fs.writes, vec![w(LEVEL1, &["auto\n"])]);
}

#[test]
fn gpu_set_writes_manual_then_bounds() {
    let mut fs = FakeFs::new(&[]);
    assert!(run_gpu(&mut fs, &gpu(true, 500, 2000, 96, 1000)).is_ok());
    assert_eq!(
        fs.writes,
        vec![
            w(LEVEL1, &["manual\n"]),
            w(CLOCK1, &["s 0 500\n", "c\n"]),
            w(CLOCK1, &["s 1 2000\n", "c\n"]),
            w(CLOCK1, &["m 0 96\n", "c\n"]),
            w(CLOCK1, &["m 1 1000\n", "c\n"]),
        ]
    );
}

#[test]
fn gpu_zero_bounds_are_skipped() {
    let mut fs = FakeFs::new(&[]);
    let mut s = gpu(true, 0, 1800, 0, 0);
    s.card = 0;
    assert!(run_gpu(&mut fs, &s).is_ok());
    assert_eq!(
        fs.writes,
        vec![
            w("/sys/class/drm/card0/device/power_dpm_force_performance_level", &["manual\n"]),
            w("/sys/class/drm/card0/device/pp_od_clk_voltage", &["s 1 1800\n", "c\n"]),
        ]
    );
}

#[test]
fn gpu_failed_write_stops_the_update() {
    let mut fs = FakeFs::new(&[]);
    fs.fail_writes_to = Some(CLOCK1.to_string());
    let r = run_gpu(&mut fs, &gpu(true, 500, 2000, 0, 0));
    assert_eq!(r.unwrap_err().kind(), ErrorKind::PermissionDenied);
    assert_eq!(fs.writes, vec![w(LEVEL1, &["manual\n"])]);
}

#[test]
fn cpu_range_forms() {
    assert_eq!(parse_cpu_range(b"0-15\n").ok(), Some((0, 15)));
    assert_eq!(parse_cpu_range(b"3\n").ok(), Some((3, 3)));
    assert_eq!(parse_cpu_range(b"a-b").ok(), Some((0, 0)));
    assert_eq!(parse_cpu_range(b"").ok(), Some((0, 0)));
    assert_eq!(parse_cpu_range(&[0xff, 0xfe]).ok(), Some((0, 0)));
    assert_eq!(parse_cpu_range(b"2-\n").ok(), Some((2, 0)));
    assert_eq!(parse_cpu_range(b"1\n-\n7").ok(), Some((1, 7)));
    assert!(matches!(parse_cpu_range(b"0-3,5-7-9"), Err(UpdateCpuSettingsError::InvalidThreadsCount)));
}

fn cpu_settings(min: u32, max: u32) -> CpuSettings {
    CpuSettings {
        turbo_boost: true,
        energy_performance_preference: "balance_power".to_string(),
        scaling_governor: "powersave".to_string(),
        min_freq: min,
        max_freq: max,
        dynamic_epp: false,
    }
}

const PRESENT: &str = "/sys/devices/system/cpu/present";
const BOOST: &str = "/sys/devices/system/cpu/cpufreq/boost";
const DYN: &str = "/sys/devices/system/cpu/amd_pstate/dynamic_epp";

fn policy(core: usize, leaf: &str) -> String {
    format!("/sys/devices/system/cpu/cpufreq/policy{}/{}", core, leaf)
}

fn cpu_fs(present: &str, cores: &[usize]) -> FakeFs {
    let mut fs = FakeFs::new(&[(PRESENT, present)]);
    for c in cores {
        fs.files.insert(
            policy(*c, "energy_performance_available_preferences"),
            b"default performance balance_performance balance_power power\n".to_vec(),
        );
        fs.files.insert(policy(*c, "scaling_available_governors"), b"performance powersave\n".to_vec());
    }
    fs
}

#[test]
fn cpu_update_writes_every_present_core() {
    let mut fs = cpu_fs("0-1\n", &[0, 1]);
    assert!(run_cpu(&mut fs, &cpu_settings(400000, 3000000)).is_ok());
    let mut expected = vec![w(DYN, &["disabled\n"]), w(BOOST, &["1\n"])];
    for c in 0..2 {
        expected.push((policy(c, "energy_performance_preference"), vec!["balance_power\n".to_string()]));
        expected.push((policy(c, "scaling_governor"), vec!["powersave\n".to_string()]));
        expected.push((policy(c, "scaling_min_freq"), vec!["400000\n".to_string()]));
        expected.push((policy(c, "scaling_max_freq"), vec!["3000000\n".to_string()]));
    }
    assert_eq!(fs.writes, expected);
    assert_eq!(
        fs.reads,
        vec![
            PRESENT.to_string(),
            policy(0, "energy_performance_available_preferences"),
            policy(0, "scaling_available_governors"),
            policy(1, "energy_performance_available_preferences"),
            policy(1, "scaling_available_governors"),
        ]
    );
}

#[test]
fn cpu_zero_frequencies_are_left_alone() {
    let mut fs = cpu_fs("5\n", &[5]);
    let mut s = cpu_settings(0, 0);
    s.dynamic_epp = true;
    s.turbo_boost = false;
    assert!(run_cpu(&mut fs, &s).is_ok());
    assert_eq!(
        fs.writes,
        vec![
            w(DYN, &["enabled\n"]),
            w(BOOST, &["0\n"]),
            (policy(5, "energy_performance_preference"), vec!["balance_power\n".to_string()]),
            (policy(5, "scaling_governor"), vec!["powersave\n".to_string()]),
        ]
    );
}

#[test]
fn cpu_unoffered_governor_stops_before_writing_it() {
    let mut fs = cpu_fs("0-3\n", &[0, 1, 2, 3]);
    fs.files.insert(policy(1, "scaling_available_governors"), b"performance schedutil\n".to_vec());
    let r = run_cpu(&mut fs, &cpu_settings(0, 0));
    assert!(matches!(r, Err(UpdateCpuSettingsError::InvalidCpuPreference)));
    assert_eq!(fs.writes.len(), 2 + 2 + 1);
    assert_eq!(fs.writes[4], (policy(1, "energy_performance_preference"), vec!["balance_power\n".to_string()]));
}

#[test]
fn cpu_bad_range_stops_after_head() {
    let mut fs = cpu_fs("0-1-2\n", &[0]);
    let r = run_cpu(&mut fs, &cpu_settings(0, 0));
    assert!(matches!(r, Err(UpdateCpuSettingsError::InvalidThreadsCount)));
    assert_eq!(fs.writes.len(), 2);
}

#[test]
fn cpu_empty_range_writes_only_the_head() {
    let mut fs = cpu_fs("4-2\n", &[]);
    assert!(run_cpu(&mut fs, &cpu_settings(0, 0)).is_ok());
    assert_eq!(fs.writes, vec![w(DYN, &["disabled\n"]), w(BOOST, &["1\n"])]);
}

#[test]
fn cpu_missing_present_file_is_io_error() {
    let mut fs = FakeFs::new(&[]);
    let r = run_cpu(&mut fs, &cpu_settings(0, 0));
    assert!(matches!(r, Err(UpdateCpuSettingsError::Io(_))));
}

#[test]
fn cpu_failed_first_write_stops_at_once() {
    let mut fs = cpu_fs("0\n", &[0]);
    fs.fail_writes_to = Some(DYN.to_string());
    let r = run_cpu(&mut fs, &cpu_settings(0, 0));
    assert!(matches!(r, Err(UpdateCpuSettingsError::Io(_))));
    assert!(fs.writes.is_empty());
    assert!(fs.reads.is_empty());
}

#[test]
fn cpu_error_texts() {
    assert_eq!(UpdateCpuSettingsError::InvalidThreadsCount.message(), "Invalid threads count format");
    assert_eq!(
        UpdateCpuSettingsError::InvalidCpuPreference.message(),
        "Invalid energy performance preference or scaling governor"
    );
    let e: UpdateCpuSettingsError = Error::new(ErrorKind::Other, "oops").into();
    assert_eq!(e.message(), "IO error: oops");
    assert_eq!(e.source().map(|x| x.kind()), Some(ErrorKind::Other));
}

#[test]
fn cpu_io_failure_midway_keeps_the_writes_before_it() {
    let mut fs = cpu_fs("0-2\n", &[0, 1, 2]);
    fs.fail_writes_to = Some(policy(1, "scaling_governor"));
    let r = run_cpu(&mut fs, &cpu_settings(100, 200));
    match r {
        Err(UpdateCpuSettingsError::Io(e)) => assert_eq!(e.kind(), ErrorKind::PermissionDenied),
        _ => panic!("expected an I/O error"),
    }
    // head, four writes of processor 0, then the preference of processor 1
    assert_eq!(fs.writes.len(), 2 + 4 + 1);
    assert_eq!(fs.writes[6], (policy(1, "energy_performance_preference"), vec!["balance_power\n".to_string()]));
    assert!(!fs.reads.contains(&policy(2, "energy_performance_available_preferences")));
}

#[test]
fn cpu_write_count_is_within_bound() {
    let mut fs = cpu_fs("0-3\n", &[0, 1, 2, 3]);
    assert!(run_cpu(&mut fs, &cpu_settings(1, 0)).is_ok());
    assert_eq!(fs.writes.len(), 2 + 4 * 3);
    assert!(fs.writes.len() <= 2 + 4 * 4);
    assert!(fs.writes.iter().all(|(p, _)| !p.ends_with("scaling_max_freq")));
}
