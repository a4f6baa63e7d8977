use esp_host_bridge::serial_proto::{hostname_line, MetricsSnapshot};

/// A measured value in thousandths, as the snapshot carries it.
fn milli(x: f32) -> i64 {
    (x as f64 * 1000.0).round() as i64
}

fn sample_snapshot() -> MetricsSnapshot {
    MetricsSnapshot {
        hostname: "testhost".to_string(),
        cpu_pct: milli(45.5),
        mem_pct: milli(62.3),
        uptime_secs: 12345,
        cpu_temp: milli(55.0),
        cpu_temp_available: true,
        rx_kbps: milli(100.5),
        tx_kbps: milli(50.2),
        iface: "eth0".to_string(),
        disk_pct: milli(75.0),
        disk_r_kbs: milli(10.0),
        disk_w_kbs: milli(5.0),
        disk_temp: milli(40.0),
        disk_temp_available: true,
        fan_rpm: milli(0.0),
        fan_available: false,
        gpu_temp: milli(0.0),
        gpu_util: milli(0.0),
        gpu_mem: milli(0.0),
        gpu_available: false,
        gpu_enabled: false,
        docker_enabled: false,
        docker_running: 0,
        docker_stopped: 0,
        docker_unhealthy: 0,
        docker_compact: String::new(),
        vms_enabled: false,
        vms_running: 0,
        vms_stopped: 0,
        vms_paused: 0,
        vms_other: 0,
        vms_compact: String::new(),
    }
}

#[test]
fn test_frame_format() {
    let snapshot = sample_snapshot();
    let frames = snapshot.build_frames();
    assert!(frames[0].starts_with("CPU=45.5,"));
    assert!(frames[0].ends_with("\n"));
    assert!(frames[0].contains("POWER=RUNNING"));
}

#[test]
fn core_frame_matches_readme_example() {
    let frames = sample_snapshot().build_frames();
    assert_eq!(
        frames[0],
        "CPU=45.5,TEMP=55.0,MEM=62.3,UP=12345,RX=100.5,TX=50.2,IFACE=eth0,TEMPAV=1,GPUEN=0,DOCKEREN=0,VMSEN=0,POWER=RUNNING\n"
    );
}

#[test]
fn disk_frame_blanks_unavailable_fan() {
    let frames = sample_snapshot().build_frames();
    assert_eq!(
        frames[1],
        "DISKTEMP=40.0,DISKPCT=75.0,DISKR=10.0,DISKW=5.0,FAN=,DISKTAV=1,FANAV=0,POWER=RUNNING\n"
    );
}

#[test]
fn disabled_sections_are_blank() {
    let frames = sample_snapshot().build_frames();
    assert_eq!(frames[2], "GPUT=,GPUU=,GPUVM=,GPUAV=0,POWER=RUNNING\n");
    assert_eq!(frames[3], "DOCKRUN=,DOCKSTOP=,DOCKUNH=,DOCKER=,POWER=RUNNING\n");
    assert_eq!(frames[4], "VMSRUN=,VMSSTOP=,VMSPAUSE=,VMSOTHER=,VMS=,POWER=RUNNING\n");
}

#[test]
fn enabled_sections_match_readme_examples() {
    let mut s = sample_snapshot();
    s.gpu_enabled = true;
    s.gpu_available = true;
    s.gpu_temp = milli(65.0);
    s.gpu_util = milli(80.0);
    s.gpu_mem = milli(50.0);
    s.docker_enabled = true;
    s.docker_running = 5;
    s.docker_stopped = 2;
    s.docker_unhealthy = 0;
    s.docker_compact = "nginx|running;redis|running".to_string();
    s.vms_enabled = true;
    s.vms_running = 2;
    s.vms_stopped = 1;
    s.vms_compact = "ubuntu|running|4|8192|Running;win10|stopped|2|4096|Stopped".to_string();
    let frames = s.build_frames();
    assert_eq!(frames[2], "GPUT=65.0,GPUU=80.0,GPUVM=50.0,GPUAV=1,POWER=RUNNING\n");
    assert_eq!(
        frames[3],
        "DOCKRUN=5,DOCKSTOP=2,DOCKUNH=0,DOCKER=nginx|running;redis|running,POWER=RUNNING\n"
    );
    assert_eq!(
        frames[4],
        "VMSRUN=2,VMSSTOP=1,VMSPAUSE=0,VMSOTHER=0,VMS=ubuntu|running|4|8192|Running;win10|stopped|2|4096|Stopped,POWER=RUNNING\n"
    );
}

#[test]
fn values_round_to_one_decimal() {
    let mut s = sample_snapshot();
    s.cpu_pct = 45_549;
    s.mem_pct = 45_550;
    s.rx_kbps = 0;
    s.cpu_temp = -40;
    s.tx_kbps = 250;
    let frames = s.build_frames();
    assert!(frames[0].starts_with("CPU=45.5,TEMP=-0.0,MEM=45.6,UP=12345,RX=0.0,TX=0.2,"));
}

#[test]
fn fan_speed_is_whole() {
    let mut s = sample_snapshot();
    s.fan_available = true;
    s.fan_rpm = 1_234_600;
    let frames = s.build_frames();
    assert!(frames[1].contains(",FAN=1235,"));
    s.fan_rpm = 1_234_500;
    let frames = s.build_frames();
    assert!(frames[1].contains(",FAN=1234,"));
    s.fan_rpm = 1_235_500;
    let frames = s.build_frames();
    assert!(frames[1].contains(",FAN=1236,"));
}

#[test]
fn hostname_line_is_one_line() {
    assert_eq!(hostname_line("testhost"), "HOSTNAME=testhost\n");
}

#[test]
fn every_frame_is_one_terminated_line() {
    let frames = sample_snapshot().build_frames();
    for f in frames.iter() {
        assert!(f.ends_with(",POWER=RUNNING\n"));
        assert_eq!(f.matches('\n').count(), 1);
    }
}
