use esp_host_bridge::gpu::{
    card_reading, gpu_from_sysfs, nvidia_gpu, CardReading, DrmCard, GpuReading,
};
use esp_host_bridge::sensors::HwmonEntry;

#[test]
fn nvidia_csv_is_read() {
    assert_eq!(
        nvidia_gpu("65, 80, 4096, 8192\n"),
        Some(GpuReading { temp: 65_000, util: 80_000, mem_pct: 50_000 })
    );
    assert_eq!(
        nvidia_gpu("[N/A], 5, 1, 0\n"),
        Some(GpuReading { temp: 0, util: 5_000, mem_pct: 0 })
    );
    assert_eq!(
        nvidia_gpu("garbage\n41, 3, 100, [N/A]\n"),
        Some(GpuReading { temp: 41_000, util: 3_000, mem_pct: 10_000_000 })
    );
    assert_eq!(nvidia_gpu("no gpu\n"), None);
}

#[test]
fn percentages_round_toward_zero() {
    assert_eq!(nvidia_gpu("0, 0, 1, 3\n").map(|g| g.mem_pct), Some(33_333));
    assert_eq!(nvidia_gpu("0, 0, -1, 3\n").map(|g| g.mem_pct), Some(-33_333));
    assert_eq!(nvidia_gpu("0, 0, 1e30, 1\n").map(|g| g.mem_pct), Some(i64::MAX));
}

#[test]
fn tiny_totals_still_divide() {
    assert_eq!(nvidia_gpu("0, 0, 0.0001, 0.0005\n").map(|g| g.mem_pct), Some(20_000));
    assert_eq!(nvidia_gpu("0, 0, 5, 0\n").map(|g| g.mem_pct), Some(0));
    assert_eq!(nvidia_gpu("0, 0, 5, -2\n").map(|g| g.mem_pct), Some(0));
    assert_eq!(nvidia_gpu("0, 0, 1.0005, 2\n").map(|g| g.mem_pct), Some(50_025));
}

fn card(name: &str) -> DrmCard {
    DrmCard {
        name: name.to_string(),
        gpu_busy_percent: None,
        vram_used: None,
        vram_total: None,
        vendor: None,
        cur_freq_mhz: None,
        max_freq_mhz: None,
    }
}

#[test]
fn amd_gpu_from_sysfs() {
    let hwmon = vec![HwmonEntry {
        name: Some("amdgpu\n".to_string()),
        temp1_input: Some("52000\n".to_string()),
    }];
    let mut connector = card("card0-HDMI-A-1");
    connector.gpu_busy_percent = Some("99\n".to_string());
    let mut c = card("card0");
    c.gpu_busy_percent = Some("37\n".to_string());
    c.vram_used = Some("1073741824\n".to_string());
    c.vram_total = Some("4294967296\n".to_string());
    let cards = vec![connector, c];
    assert_eq!(card_reading(&cards, CardReading::Busy), Some(37_000));
    assert_eq!(
        gpu_from_sysfs(None, &hwmon, &cards),
        Some(GpuReading { temp: 52_000, util: 37_000, mem_pct: 25_000 })
    );
    let sensors = "amdgpu-pci-0300\nAdapter: PCI adapter\n  edge: +61.0°C\n";
    assert_eq!(
        gpu_from_sysfs(Some(sensors), &hwmon, &cards),
        Some(GpuReading { temp: 61_000, util: 37_000, mem_pct: 25_000 })
    );
}

#[test]
fn intel_gpu_from_sysfs() {
    let hwmon = vec![HwmonEntry {
        name: Some("i915\n".to_string()),
        temp1_input: Some("48000\n".to_string()),
    }];
    let mut c = card("card1");
    c.vendor = Some("0x8086\n".to_string());
    c.cur_freq_mhz = Some("600\n".to_string());
    c.max_freq_mhz = Some("2400\n".to_string());
    let cards = vec![c];
    assert_eq!(
        gpu_from_sysfs(None, &hwmon, &cards),
        Some(GpuReading { temp: 48_000, util: 25_000, mem_pct: 0 })
    );
    let mut fast = card("card1");
    fast.vendor = Some("0x8086".to_string());
    fast.cur_freq_mhz = Some("3000".to_string());
    fast.max_freq_mhz = Some("2400".to_string());
    assert_eq!(card_reading(&vec![fast], CardReading::IntelUtil), Some(100_000));
}

#[test]
fn no_gpu_found() {
    assert_eq!(gpu_from_sysfs(None, &vec![], &vec![]), None);
    let mut other = card("card0");
    other.vendor = Some("0x10de".to_string());
    other.cur_freq_mhz = Some("600".to_string());
    other.max_freq_mhz = Some("2400".to_string());
    assert_eq!(gpu_from_sysfs(None, &vec![], &vec![other]), None);
}

use esp_host_bridge::gpu::{nvidia_step, GpuStep};

#[test]
fn nvidia_reading_comes_first() {
    match nvidia_step(Some("65, 80, 4096, 8192\n")) {
        GpuStep::Found(g) => assert_eq!((g.temp, g.util, g.mem_pct), (65_000, 80_000, 50_000)),
        GpuStep::ProbeSysfs => panic!("expected an NVIDIA reading"),
    }
    assert_eq!(nvidia_step(Some("garbage\n")), GpuStep::ProbeSysfs);
    assert_eq!(nvidia_step(None), GpuStep::ProbeSysfs);
}

#[test]
fn cards_with_tiny_totals_are_read() {
    let mut c = card("card0");
    c.vram_used = Some("0.0001\n".to_string());
    c.vram_total = Some("0.0005\n".to_string());
    assert_eq!(card_reading(&vec![c], CardReading::Vram), Some(20_000));
    let mut zero = card("card0");
    zero.vram_used = Some("1".to_string());
    zero.vram_total = Some("0.000".to_string());
    assert_eq!(card_reading(&vec![zero], CardReading::Vram), None);
    let mut intel = card("card1");
    intel.vendor = Some("0x8086".to_string());
    intel.cur_freq_mhz = Some("600".to_string());
    intel.max_freq_mhz = Some("0.0005".to_string());
    assert_eq!(card_reading(&vec![intel], CardReading::IntelUtil), Some(100_000));
    let mut half = card("card1");
    half.vendor = Some("0x8086".to_string());
    half.cur_freq_mhz = Some("0.00025".to_string());
    half.max_freq_mhz = Some("0.0005".to_string());
    assert_eq!(card_reading(&vec![half], CardReading::IntelUtil), Some(50_000));
}
