use esp_host_bridge::session::{choose_serial_port, is_debug_mode, Session};

fn names(v: &[&str]) -> Vec<String> {
    v.iter().map(|s| s.to_string()).collect()
}

#[test]
fn usb_cdc_port_is_preferred() {
    let ports = names(&["/dev/ttyS0", "/dev/ttyUSB0", "/dev/ttyACM0", "/dev/ttyACM1"]);
    assert_eq!(choose_serial_port(&ports), Some("/dev/ttyACM0".to_string()));
    let ports = names(&["/dev/ttyS0", "/dev/ttyUSB1"]);
    assert_eq!(choose_serial_port(&ports), Some("/dev/ttyUSB1".to_string()));
    let ports = names(&["/dev/ttyS3", "/dev/ttyS0"]);
    assert_eq!(choose_serial_port(&ports), Some("/dev/ttyS3".to_string()));
    assert_eq!(choose_serial_port(&vec![]), None);
}

#[test]
fn debug_mode_selection() {
    assert!(is_debug_mode(true, None));
    assert!(is_debug_mode(false, Some("debug")));
    assert!(is_debug_mode(false, Some("none")));
    assert!(!is_debug_mode(false, Some("/dev/ttyACM0")));
    assert!(!is_debug_mode(false, None));
}

#[test]
fn frames_rotate_with_period_five() {
    let mut s = Session::new();
    let sent: Vec<usize> = (0..11).map(|_| s.next_frame()).collect();
    assert_eq!(sent, vec![0, 1, 2, 3, 4, 0, 1, 2, 3, 4, 0]);
}

#[test]
fn hostname_is_sent_once_per_connection() {
    let mut s = Session::new();
    assert!(s.needs_connect(false));
    assert!(!s.needs_connect(true));
    assert!(!s.needs_hostname());
    s.on_connected();
    assert!(s.needs_hostname());
    s.on_hostname_sent();
    assert!(!s.needs_hostname());
    s.next_frame();
    assert!(!s.needs_hostname());
    s.on_write_failed();
    assert!(s.needs_connect(false));
    assert!(!s.needs_hostname());
    s.on_connected();
    assert!(s.needs_hostname());
}

use esp_host_bridge::session::{open_retry_delay, pause_after_round};

#[test]
fn pauses_between_rounds() {
    assert_eq!(open_retry_delay(), 2000);
    assert_eq!(pause_after_round(false, 1_000_000_000, 300_000_000), 700_000_000);
    assert_eq!(pause_after_round(false, 1_000_000_000, 1_500_000_000), 0);
    assert_eq!(pause_after_round(true, 1_000_000_000, 300_000_000), 0);
}
