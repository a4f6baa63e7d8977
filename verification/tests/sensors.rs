use esp_host_bridge::sensors::{
    cpu_temp_from_zones, disk_temp_step, extract_amd_edge_temp_from_sensors,
    extract_celsius_value, extract_nvme_temp_from_sensors, extract_temp_from_text,
    gpu_temp_from_hwmon, DiskTempProbe, DiskTempStep, HwmonEntry, ThermalZone,
};

const SENSORS: &str = "coretemp-isa-0000
Adapter: ISA adapter
Package id 0:  +50.0°C  (high = +80.0°C, crit = +100.0°C)

acpitz-acpi-0
Adapter: ACPI interface
Composite:    +30.0°C

nvme-pci-0100
Adapter: PCI adapter
Composite:    +43.9°C  (low  = -273.1°C, high = +84.8°C)
Sensor 1:     +43.9°C  (low  = -273.1°C, high = +65261.8°C)
";

#[test]
fn celsius_value_takes_first_plausible_reading() {
    assert_eq!(
        extract_celsius_value("Composite:    +43.9°C  (low  = -273.1°C, high = +84.8°C)"),
        Some(43_900)
    );
    assert_eq!(extract_celsius_value("edge: -273.1°C +200.0°C +41C"), Some(41_000));
    assert_eq!(extract_celsius_value("no reading here"), None);
    assert_eq!(extract_celsius_value("45 degrees"), None);
}

#[test]
fn nvme_composite_from_sensors() {
    assert_eq!(extract_nvme_temp_from_sensors(SENSORS), Some(43_900));
}

#[test]
fn composite_outside_nvme_section_is_ignored() {
    let text = "acpitz-acpi-0\nAdapter: ACPI interface\nComposite:    +30.0°C\n";
    assert_eq!(extract_nvme_temp_from_sensors(text), None);
}

#[test]
fn nvme_section_ends_at_next_chip() {
    let text = "nvme-pci-0100\nAdapter: PCI adapter\n\nother-chip\nComposite: +44.0°C\n";
    assert_eq!(extract_nvme_temp_from_sensors(text), None);
}

#[test]
fn temperature_line_of_smartctl() {
    let text = "ID# ATTRIBUTE_NAME FLAG VALUE\n194 Temperature_Celsius     0x0022   036   045   000    Old_age   Always       -       36 (Min/Max 22/45)\n";
    assert_eq!(extract_temp_from_text(text), Some(36_000));
}

#[test]
fn temperature_line_of_nvme_smart_log() {
    let text = "critical_warning : 0\ntemperature : 38°C (311 Kelvin)\n";
    assert_eq!(extract_temp_from_text(text), Some(38_000));
    assert_eq!(extract_temp_from_text("Temperature:   38 Celsius\n"), Some(38_000));
    assert_eq!(extract_temp_from_text("Power Cycles: 12\n"), None);
}

#[test]
fn amd_edge_from_sensors() {
    let text = "amdgpu-pci-0300\nAdapter: PCI adapter\n  edge:         +45.0°C  (crit = +100.0°C)\n";
    assert_eq!(extract_amd_edge_temp_from_sensors(text), Some(45_000));
    let unindented = "amdgpu-pci-0300\nAdapter: PCI adapter\nvddgfx: 1.00 V\nedge: +45.0°C\n";
    assert_eq!(extract_amd_edge_temp_from_sensors(unindented), None);
}

fn zone(name: &str, kind: Option<&str>, temp: Option<&str>) -> ThermalZone {
    ThermalZone {
        name: name.to_string(),
        kind: kind.map(|k| k.to_string()),
        temp: temp.map(|t| t.to_string()),
    }
}

#[test]
fn cpu_zone_is_preferred() {
    let zones = vec![
        zone("cooling_device0", Some("Processor"), Some("3")),
        zone("thermal_zone0", Some("acpitz\n"), Some("27800\n")),
        zone("thermal_zone1", Some("x86_pkg_temp\n"), Some("45000\n")),
    ];
    assert_eq!(cpu_temp_from_zones(&zones), Some(45_000));
}

#[test]
fn any_zone_when_no_cpu_zone() {
    let zones = vec![
        zone("thermal_zone0", Some("acpitz\n"), Some("27800\n")),
        zone("thermal_zone1", Some("iwlwifi\n"), Some("40000\n")),
    ];
    assert_eq!(cpu_temp_from_zones(&zones), Some(27_800));
}

#[test]
fn implausible_zone_readings_are_skipped() {
    let zones = vec![
        zone("thermal_zone0", Some("CPU\n"), Some("-273000\n")),
        zone("thermal_zone1", None, Some("200\n")),
        zone("thermal_zone2", None, Some("42\n")),
    ];
    assert_eq!(cpu_temp_from_zones(&zones), Some(42_000));
    assert_eq!(cpu_temp_from_zones(&vec![]), None);
}

#[test]
fn hwmon_gpu_temperatures() {
    let entries = vec![
        HwmonEntry { name: Some("nvme\n".to_string()), temp1_input: Some("40000\n".to_string()) },
        HwmonEntry { name: Some("amdgpu\n".to_string()), temp1_input: Some("52500\n".to_string()) },
        HwmonEntry { name: Some("xe\n".to_string()), temp1_input: Some("48000".to_string()) },
    ];
    assert_eq!(gpu_temp_from_hwmon(&entries, true), Some(52_500));
    assert_eq!(gpu_temp_from_hwmon(&entries, false), Some(48_000));
    let nvme_only = vec![HwmonEntry {
        name: Some("nvme\n".to_string()),
        temp1_input: Some("40000\n".to_string()),
    }];
    assert_eq!(gpu_temp_from_hwmon(&nvme_only, true), None);
    let unreadable = vec![
        HwmonEntry { name: Some("amdgpu".to_string()), temp1_input: None },
        HwmonEntry { name: Some("amdgpu".to_string()), temp1_input: Some("-5500".to_string()) },
    ];
    assert_eq!(gpu_temp_from_hwmon(&unreadable, true), Some(-5_500));
}

#[test]
fn disk_temperature_probes_in_order() {
    assert_eq!(disk_temp_step(DiskTempProbe::first(), None), DiskTempStep::Next(DiskTempProbe::NvmeSmartLog));
    assert_eq!(
        disk_temp_step(DiskTempProbe::Sensors, Some(SENSORS)),
        DiskTempStep::Found(43_900)
    );
    assert_eq!(
        disk_temp_step(DiskTempProbe::NvmeSmartLog, Some("temperature : 38°C\n")),
        DiskTempStep::Found(38_000)
    );
    assert_eq!(
        disk_temp_step(DiskTempProbe::SmartctlNvme, Some("nothing\n")),
        DiskTempStep::Next(DiskTempProbe::SmartctlSda)
    );
    assert_eq!(disk_temp_step(DiskTempProbe::SmartctlSda, None), DiskTempStep::Unavailable);
}

#[test]
fn zone_reading_in_exponent_notation() {
    let zones = vec![zone("thermal_zone0", Some("x86_pkg_temp\n"), Some("4e4\n"))];
    assert_eq!(cpu_temp_from_zones(&zones), Some(40_000));
    let zones = vec![zone("thermal_zone0", None, Some("4.25E+1\n"))];
    assert_eq!(cpu_temp_from_zones(&zones), Some(42_500));
}

#[test]
fn zone_reading_just_above_a_thousand_is_millidegrees() {
    let zones = vec![zone("thermal_zone0", None, Some("1000.5"))];
    assert_eq!(cpu_temp_from_zones(&zones), Some(1_000));
    let zones = vec![zone("thermal_zone0", None, Some("1000"))];
    assert_eq!(cpu_temp_from_zones(&zones), None);
    let zones = vec![zone("thermal_zone0", None, Some("150000.5"))];
    assert_eq!(cpu_temp_from_zones(&zones), None);
    let zones = vec![zone("thermal_zone0", None, Some("150000"))];
    assert_eq!(cpu_temp_from_zones(&zones), Some(150_000));
}

#[test]
fn temperature_in_exponent_notation() {
    assert_eq!(extract_temp_from_text("temperature 4e1\n"), Some(40_000));
    assert_eq!(extract_temp_from_text("temperature 1.5E+2\n"), Some(150_000));
    assert_eq!(extract_temp_from_text("temperature e5 1e 45\n"), Some(45_000));
}

#[test]
fn range_is_tested_on_the_exact_value() {
    assert_eq!(extract_temp_from_text("temperature 150.0004\n"), None);
    assert_eq!(extract_temp_from_text("temperature 150.000\n"), Some(150_000));
    assert_eq!(extract_temp_from_text("temperature -20.0001\n"), None);
    assert_eq!(extract_temp_from_text("temperature -20\n"), Some(-20_000));
    assert_eq!(extract_temp_from_text("temperature 36.6789\n"), Some(36_678));
    assert_eq!(extract_celsius_value("edge: +150.0001°C +1.5e1°C"), Some(1_510));
}

#[test]
fn range_follows_the_parsed_float() {
    assert_eq!(extract_celsius_value("x: 150.000001°C"), Some(150_000));
    assert_eq!(extract_temp_from_text("temperature 150.000001\n"), Some(150_000));
    assert_eq!(extract_temp_from_text("temperature 150.00001\n"), None);
    assert_eq!(extract_temp_from_text("temperature -20.0000001\n"), Some(-20_000));
    assert_eq!(extract_temp_from_text("temperature -20.000001\n"), None);
    let zones = vec![zone("thermal_zone0", None, Some("150.00000000000001"))];
    assert_eq!(cpu_temp_from_zones(&zones), Some(150_000));
    let zones = vec![zone("thermal_zone0", None, Some("150.0000000001"))];
    assert_eq!(cpu_temp_from_zones(&zones), None);
    let zones = vec![zone("thermal_zone0", None, Some("1000.00000000000001"))];
    assert_eq!(cpu_temp_from_zones(&zones), None);
    let zones = vec![zone("thermal_zone0", None, Some("1000.0000000001"))];
    assert_eq!(cpu_temp_from_zones(&zones), Some(1_000));
    let zones = vec![zone("thermal_zone0", None, Some("150000.00000000001"))];
    assert_eq!(cpu_temp_from_zones(&zones), Some(150_000));
    let zones = vec![zone("thermal_zone0", None, Some("150000.00000000002"))];
    assert_eq!(cpu_temp_from_zones(&zones), None);
}
