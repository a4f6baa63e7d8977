use esp_host_bridge::docker::{docker_metrics, docker_names_can_be_cut};

#[test]
fn containers_are_summarized() {
    let text = r#"[{"Id":"abc","Names":["/nginx"],"State":"running","Status":"Up 2 hours (healthy)"},{"Id":"def","Names":["/redis"],"State":"exited","Status":"Exited (0) 3 days ago"}]"#;
    assert!(docker_names_can_be_cut(text));
    let m = docker_metrics(text);
    assert_eq!((m.running, m.stopped, m.unhealthy), (1, 1, 0));
    assert_eq!(m.compact, "nginx|running;redis|stopped");
}

#[test]
fn unhealthy_containers_are_counted() {
    let text = r#"[{"Id":"abc","Names":["/api"],"State":"Running","Status":"Up 1 hour (UNHEALTHY)"}]"#;
    let m = docker_metrics(text);
    assert_eq!((m.running, m.stopped, m.unhealthy), (1, 0, 1));
    assert_eq!(m.compact, "api|running");
}

#[test]
fn empty_listing() {
    let m = docker_metrics("[]");
    assert_eq!((m.running, m.stopped, m.unhealthy), (0, 0, 0));
    assert_eq!(m.compact, "-");
}

#[test]
fn only_ten_containers_are_reported() {
    let mut text = String::from("[");
    for i in 0..12 {
        text.push_str(&format!(r#"{{"Id":"{}","Names":["/c{}"],"State":"running"}},"#, i, i));
    }
    text.push(']');
    let m = docker_metrics(&text);
    assert_eq!(m.running + m.stopped, 10);
    assert_eq!(m.compact.split(';').count(), 10);
}

#[test]
fn container_names_are_cleaned_and_cut() {
    let text = r#"[{"Id":"a","Names":["//web|front;end,x-with-a-long-suffix"],"State":"created"}]"#;
    let m = docker_metrics(text);
    assert_eq!(m.compact, "web_front_end_x-with-a-l|stopped");
    let unnamed = r#"[{"Id":"a","State":"running"}]"#;
    let m = docker_metrics(unnamed);
    assert_eq!((m.running, m.stopped), (1, 0));
    assert_eq!(m.compact, "-");
}

use esp_host_bridge::docker::docker_summary;

#[test]
fn failed_query_lists_nothing() {
    let m = docker_summary(None);
    assert_eq!((m.running, m.stopped, m.unhealthy, m.compact.as_str()), (0, 0, 0, ""));
    let text = r#"[{"Id":"a1","Names":["/web"],"State":"running","Status":"Up (unhealthy)"}]"#;
    let m = docker_summary(Some(text));
    assert_eq!((m.running, m.stopped, m.unhealthy), (1, 0, 1));
}
