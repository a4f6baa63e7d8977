use esp_host_bridge::disks::DiskSpace;
use esp_host_bridge::docker::DockerMetrics;
use esp_host_bridge::gpu::GpuReading;
use esp_host_bridge::host::{CollectOptions, HostMetrics, HostSample, InterfaceCounters};
use esp_host_bridge::sensors::ThermalZone;
use esp_host_bridge::vms::VmMetrics;

fn iface(name: &str, rx: u64, tx: u64) -> InterfaceCounters {
    InterfaceCounters { name: name.to_string(), received: rx, transmitted: tx }
}

const SECOND: u64 = 1_000_000_000;

#[test]
fn network_rates_between_samples() {
    let mut m = HostMetrics::new("h".to_string());
    let first = vec![iface("lo", 10, 10), iface("eth0", 1024, 2048), iface("docker0", 5, 5)];
    let (rx, tx, best) = m.network_rates(&first, SECOND);
    assert_eq!((rx, tx), (0, 0));
    assert_eq!(best, Some("eth0".to_string()));
    let second = vec![iface("lo", 99, 99), iface("eth0", 2048, 4096), iface("docker0", 50, 50)];
    let (rx, tx, _) = m.network_rates(&second, 2 * SECOND);
    assert_eq!((rx, tx), (1_000, 2_000));
    let (rx, tx, _) = m.network_rates(&second, 2 * SECOND);
    assert_eq!((rx, tx), (0, 0));
}

#[test]
fn counter_reset_gives_zero_rate() {
    let mut m = HostMetrics::new("h".to_string());
    m.network_rates(&vec![iface("eth0", 5000, 5000)], SECOND);
    let (rx, tx, _) = m.network_rates(&vec![iface("eth0", 10, 10)], 2 * SECOND);
    assert_eq!((rx, tx), (0, 0));
}

#[test]
fn busiest_or_preferred_interface() {
    let mut m = HostMetrics::new("h".to_string());
    let ifs = vec![iface("tun0", 100, 100), iface("wlan0", 0, 0), iface("enp3s0", 10, 0)];
    let (_, _, best) = m.network_rates(&ifs, SECOND);
    assert_eq!(best, Some("enp3s0".to_string()));
    let ifs = vec![iface("tun0", 100, 100), iface("wg0", 500, 0)];
    let (_, _, best) = m.network_rates(&ifs, 2 * SECOND);
    assert_eq!(best, Some("wg0".to_string()));
    let (_, _, best) = m.network_rates(&vec![iface("LO", 1, 1), iface("virbr0", 9, 9)], 3 * SECOND);
    assert_eq!(best, None);
}

#[test]
fn disk_rates_follow_the_chosen_disk() {
    let mut m = HostMetrics::new("h".to_string());
    let t1 = "8 0 sda 0 0 2 0 0 0 4 0 0 0 0 0\n";
    let (r, w, name) = m.disk_io_rates(Some(t1), SECOND);
    assert_eq!((r, w), (0, 0));
    assert_eq!(name, Some("sda".to_string()));
    m.active_disk = name;
    let t2 = "8 0 sda 0 0 6 0 0 0 8 0 0 0 0 0\n";
    let (r, w, _) = m.disk_io_rates(Some(t2), 2 * SECOND);
    assert_eq!((r, w), (2_000, 2_000));
    let (r, w, name) = m.disk_io_rates(None, 3 * SECOND);
    assert_eq!((r, w), (0, 0));
    assert_eq!(name, Some("sda".to_string()));
}

fn sample() -> HostSample {
    HostSample {
        cpu_pct: 12_500,
        used_memory: 1,
        total_memory: 3,
        uptime_secs: 99,
        thermal_zones: vec![ThermalZone {
            name: "thermal_zone0".to_string(),
            kind: Some("x86_pkg_temp".to_string()),
            temp: Some("51000".to_string()),
        }],
        interfaces: vec![iface("eth0", 0, 0)],
        net_time: SECOND,
        disks: vec![DiskSpace { mount: "/".to_string(), total: 4, available: 1 }],
        diskstats: Some("8 0 sda 0 0 2 0 0 0 4 0 0 0 0 0\n".to_string()),
        disk_time: SECOND,
        disk_temp: Some(38_000),
        gpu: Some(GpuReading { temp: 60_000, util: 10_000, mem_pct: 20_000 }),
        vms: Some(VmMetrics {
            running: 1,
            stopped: 0,
            paused: 0,
            other: 0,
            compact: "vm|running|1|1|Running".to_string(),
        }),
        docker: Some(DockerMetrics {
            running: 2,
            stopped: 1,
            unhealthy: 0,
            compact: "a|running".to_string(),
        }),
    }
}

#[test]
fn snapshot_from_a_sample() {
    let mut m = HostMetrics::new("testhost".to_string());
    let opts = CollectOptions { disable_gpu: false, enable_vms: true, enable_docker: true };
    let s = m.collect(&sample(), &opts);
    assert_eq!(s.hostname, "testhost");
    assert_eq!(s.mem_pct, 33_333);
    assert_eq!((s.cpu_temp, s.cpu_temp_available), (51_000, true));
    assert_eq!(s.iface, "eth0");
    assert_eq!(s.disk_pct, 75_000);
    assert_eq!((s.disk_temp, s.disk_temp_available), (38_000, true));
    assert!(!s.fan_available);
    assert!(s.gpu_available && s.gpu_enabled);
    assert_eq!(m.active_disk, Some("sda".to_string()));
    let frames = s.build_frames();
    assert_eq!(
        frames[0],
        "CPU=12.5,TEMP=51.0,MEM=33.3,UP=99,RX=0.0,TX=0.0,IFACE=eth0,TEMPAV=1,GPUEN=1,DOCKEREN=1,VMSEN=1,POWER=RUNNING\n"
    );
    assert_eq!(frames[2], "GPUT=60.0,GPUU=10.0,GPUVM=20.0,GPUAV=1,POWER=RUNNING\n");
    assert_eq!(frames[3], "DOCKRUN=2,DOCKSTOP=1,DOCKUNH=0,DOCKER=a|running,POWER=RUNNING\n");
    assert_eq!(frames[4], "VMSRUN=1,VMSSTOP=0,VMSPAUSE=0,VMSOTHER=0,VMS=vm|running|1|1|Running,POWER=RUNNING\n");
}

#[test]
fn disabled_collectors_report_nothing() {
    let mut m = HostMetrics::new("h".to_string());
    let opts = CollectOptions { disable_gpu: true, enable_vms: false, enable_docker: false };
    let s = m.collect(&sample(), &opts);
    assert!(!s.gpu_available && !s.gpu_enabled);
    assert_eq!((s.gpu_temp, s.gpu_util, s.gpu_mem), (0, 0, 0));
    assert!(!s.docker_enabled && !s.vms_enabled);
    assert_eq!((s.docker_running, s.vms_running), (0, 0));
    assert_eq!(s.docker_compact, "");
    assert_eq!(s.vms_compact, "");
}

#[test]
fn interface_is_remembered_when_none_is_found() {
    let mut m = HostMetrics::new("h".to_string());
    let opts = CollectOptions { disable_gpu: false, enable_vms: false, enable_docker: false };
    m.collect(&sample(), &opts);
    let mut later = sample();
    later.interfaces = vec![iface("lo", 1, 1)];
    later.net_time = 2 * SECOND;
    later.thermal_zones = vec![];
    later.disk_temp = None;
    let s = m.collect(&later, &opts);
    assert_eq!(s.iface, "eth0");
    assert!(!s.cpu_temp_available && s.cpu_temp == 0);
    assert!(!s.disk_temp_available);
}

#[test]
fn collector_keeps_host_name_and_disk_over_a_run() {
    let mut m = HostMetrics::new("first".to_string());
    let opts = CollectOptions { disable_gpu: false, enable_vms: true, enable_docker: true };
    let mut s = sample();
    for k in 1..5u64 {
        s.net_time = k * SECOND;
        s.disk_time = k * SECOND;
        if k == 3 {
            s.diskstats = Some("259 0 nvme0n1 0 0 8 0 0 0 8 0 0 0 0 0\n".to_string());
        }
        let snap = m.collect(&s, &opts);
        assert_eq!(snap.hostname, "first");
        assert_eq!(m.active_disk, Some("sda".to_string()));
        assert_eq!(snap.iface, "eth0");
    }
}

#[test]
fn implausible_samples_are_told_apart() {
    let mut s = sample();
    assert!(s.is_plausible());
    s.disk_temp = Some(150_001);
    assert!(!s.is_plausible());
    s.disk_temp = Some(-20_000);
    assert!(s.is_plausible());
    s.docker = Some(DockerMetrics { running: 1, stopped: 0, unhealthy: 2, compact: String::new() });
    assert!(!s.is_plausible());
    s.docker = None;
    s.vms = Some(VmMetrics { running: 11, stopped: 0, paused: 0, other: 0, compact: String::new() });
    assert!(!s.is_plausible());
}
