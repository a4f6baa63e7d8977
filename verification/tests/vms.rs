use esp_host_bridge::vms::{
    classify_vm_state, parse_dominfo, summarize_vms, vm_names, vm_names_can_be_cut,
};

fn class(s: &str) -> (String, String) {
    classify_vm_state(s)
}

#[test]
fn vm_states_are_classified() {
    assert_eq!(class("running"), ("running".to_string(), "Running".to_string()));
    assert_eq!(class("idle"), ("running".to_string(), "Running".to_string()));
    assert_eq!(class("RUNNING"), ("running".to_string(), "Running".to_string()));
    assert_eq!(class("paused"), ("paused".to_string(), "Paused".to_string()));
    assert_eq!(class("pmsuspended"), ("paused".to_string(), "Paused".to_string()));
    assert_eq!(class("shut off"), ("stopped".to_string(), "Stopped".to_string()));
    assert_eq!(class("crashed"), ("stopped".to_string(), "Stopped".to_string()));
    assert_eq!(class(""), ("stopped".to_string(), "Stopped".to_string()));
    assert_eq!(class("In Shutdown"), ("other".to_string(), "in shutdown".to_string()));
}

const DOMINFO: &str = "Id:             -
Name:           ubuntu
UUID:           0b4f6b5e-5c1e-4c56-a1ab-1f4a6b0d5e77
OS Type:        hvm
State:          shut off
CPU(s):         4
Max memory:     8388608 KiB
Used memory:    8388608 KiB
Persistent:     yes
";

#[test]
fn dominfo_is_parsed() {
    assert_eq!(
        parse_dominfo(DOMINFO),
        ("stopped".to_string(), "Stopped".to_string(), 4, 8192)
    );
}

#[test]
fn dominfo_with_bad_fields() {
    let text = "State: running\nCPU(s): many\nMax memory:\n";
    assert_eq!(parse_dominfo(text), ("running".to_string(), "Running".to_string(), 0, 0));
    assert_eq!(parse_dominfo(""), ("stopped".to_string(), "Stopped".to_string(), 0, 0));
}

#[test]
fn vm_names_are_trimmed_nonempty_lines() {
    assert_eq!(vm_names(" ubuntu \nwin10\n\n"), vec!["ubuntu".to_string(), "win10".to_string()]);
    assert!(vm_names("\n\n").is_empty());
}

fn info(state: &str, cpus: u32, kib: u64) -> Option<String> {
    Some(format!("State: {}\nCPU(s): {}\nMax memory: {} KiB\n", state, cpus, kib))
}

#[test]
fn vms_are_summarized() {
    let names = vec!["ubuntu".to_string(), "win10".to_string(), "old".to_string()];
    let infos = vec![info("running", 2, 2_097_152), info("shut off", 4, 8_388_608), None];
    assert!(vm_names_can_be_cut(&names, &infos));
    let m = summarize_vms(&names, &infos);
    assert_eq!((m.running, m.stopped, m.paused, m.other), (1, 1, 0, 0));
    assert_eq!(m.compact, "ubuntu|running|2|2048|Running;win10|stopped|4|8192|Stopped");
}

#[test]
fn vm_names_are_cleaned_and_cut() {
    let names = vec!["a|b;c,d-with-a-very-long-name-indeed".to_string()];
    let infos = vec![info("paused", 1, 1024)];
    let m = summarize_vms(&names, &infos);
    assert_eq!((m.running, m.stopped, m.paused, m.other), (0, 0, 1, 0));
    assert_eq!(m.compact, "a_b_c_d-with-a-very-long|paused|1|1|Paused");
}

#[test]
fn vm_names_that_cannot_be_cut_are_detected() {
    let names = vec!["ééééééééééééééééééééééééé".to_string()];
    let infos = vec![info("running", 1, 1024)];
    assert!(vm_names_can_be_cut(&names, &infos));
    let names = vec!["xéééééééééééééééééééééééé".to_string()];
    assert!(!vm_names_can_be_cut(&names, &infos));
}

#[test]
fn no_vms_and_no_reports() {
    let m = summarize_vms(&vec![], &vec![]);
    assert_eq!((m.running, m.stopped, m.paused, m.other), (0, 0, 0, 0));
    assert_eq!(m.compact, "");
    let m = summarize_vms(&vec!["vm".to_string()], &vec![None]);
    assert_eq!((m.running, m.stopped, m.paused, m.other), (0, 0, 0, 0));
    assert_eq!(m.compact, "-");
}

#[test]
fn other_states_are_counted_as_other() {
    let names = vec!["a".to_string(), "b".to_string()];
    let infos = vec![info("in shutdown", 1, 0), info("idle", 1, 0)];
    let m = summarize_vms(&names, &infos);
    assert_eq!((m.running, m.stopped, m.paused, m.other), (1, 0, 0, 1));
    assert_eq!(m.compact, "a|other|1|0|in shutdown;b|running|1|0|Running");
}

#[test]
fn classification_ignores_case() {
    for state in ["RUNNING", "Paused", "Shut Off", "CRASHED", "Blocked", "pmSuspended", ""] {
        let lower = state.to_lowercase();
        assert_eq!(class(state), class(&lower));
    }
    assert_eq!(class("Blocked"), ("other".to_string(), "blocked".to_string()));
    assert_eq!(class("Shut Off"), ("stopped".to_string(), "Stopped".to_string()));
}

use esp_host_bridge::vms::{virsh_dominfo_args, virsh_list_args};

#[test]
fn virsh_arguments() {
    assert_eq!(virsh_list_args(None), vec!["list", "--all", "--name"]);
    assert_eq!(
        virsh_list_args(Some("qemu:///system")),
        vec!["-cqemu:///system", "list", "--all", "--name"]
    );
    assert_eq!(virsh_dominfo_args(None, "web"), vec!["dominfo", "web"]);
    assert_eq!(
        virsh_dominfo_args(Some("qemu:///system"), "web"),
        vec!["-c", "qemu:///system", "dominfo", "web"]
    );
}
