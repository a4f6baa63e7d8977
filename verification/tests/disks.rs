use esp_host_bridge::disks::{
    choose_disk, disk_usage_pct, parse_diskstats, totals_of, DiskSpace,
};

const DISKSTATS: &str = "   8       0 sda 1000 0 2048 100 500 0 4096 200 0 300 300 0 0 0 0
   8       1 sda1 900 0 1024 90 400 0 2048 100 0 200 200 0 0 0 0
 259       0 nvme0n1 10 0 20 1 5 0 40 2 0 3 3 0 0 0 0
 259       1 nvme0n1p1 10 0 20 1 5 0 40 2 0 3 3 0 0 0 0
   7       0 loop0 1 0 2 0 0 0 0 0 0 0 0 0 0 0 0
 253       0 dm-0 1 0 2 0 0 0 0 0 0 0 0 0 0 0 0
   8      16 sdb 1 0 x 0 0 0 0 0 0 0 0 0 0 0 0
   8      32 sdc 1 0 2
";

#[test]
fn whole_disks_are_read_from_diskstats() {
    let stats = parse_diskstats(DISKSTATS);
    let got: Vec<(String, u64, u64)> = stats
        .iter()
        .map(|c| (c.name.clone(), c.read_bytes, c.written_bytes))
        .collect();
    assert_eq!(
        got,
        vec![("sda".to_string(), 1_048_576, 2_097_152), ("nvme0n1".to_string(), 10_240, 20_480)]
    );
}

#[test]
fn later_lines_replace_earlier_ones() {
    let text = "8 0 sda 0 0 1 0 0 0 2 0 0 0 0 0\n8 0 sda 0 0 3 0 0 0 4 0 0 0 0 0\n";
    let stats = parse_diskstats(text);
    assert_eq!(stats.len(), 1);
    assert_eq!((stats[0].read_bytes, stats[0].written_bytes), (1536, 2048));
}

#[test]
fn preferred_disk_is_chosen() {
    let stats = parse_diskstats(DISKSTATS);
    assert_eq!(choose_disk(&None, &stats), Some("nvme0n1".to_string()));
    assert_eq!(choose_disk(&Some("sda".to_string()), &stats), Some("sda".to_string()));
    let vdisks = parse_diskstats("252 0 xvda 0 0 1 0 0 0 1 0 0 0 0 0\n252 16 vdb 0 0 1 0 0 0 1 0 0 0 0 0\n");
    assert_eq!(choose_disk(&None, &vdisks), Some("vdb".to_string()));
    let other = parse_diskstats("254 0 hda 0 0 1 0 0 0 1 0 0 0 0 0\n");
    assert_eq!(choose_disk(&None, &other), Some("hda".to_string()));
    assert_eq!(choose_disk(&None, &vec![]), None);
}

#[test]
fn totals_of_named_disk() {
    let stats = parse_diskstats(DISKSTATS);
    assert_eq!(totals_of(&stats, &Some("sda".to_string())), (1_048_576, 2_097_152));
    assert_eq!(totals_of(&stats, &Some("sdz".to_string())), (0, 0));
    assert_eq!(totals_of(&stats, &None), (0, 0));
}

fn space(mount: &str, total: u64, available: u64) -> DiskSpace {
    DiskSpace { mount: mount.to_string(), total, available }
}

#[test]
fn root_usage_is_reported() {
    let disks = vec![space("/boot", 1000, 500), space("/", 1000, 250), space("/data", 4000, 0)];
    assert_eq!(disk_usage_pct(&disks), 75_000);
}

#[test]
fn largest_disk_without_root() {
    let disks = vec![space("/boot", 1000, 500), space("/data", 4000, 1000), space("/b", 4000, 0)];
    assert_eq!(disk_usage_pct(&disks), 75_000);
    assert_eq!(disk_usage_pct(&vec![space("/", 0, 0)]), 0);
    assert_eq!(disk_usage_pct(&vec![]), 0);
    assert_eq!(disk_usage_pct(&vec![space("/", 3, 5)]), 0);
    assert_eq!(disk_usage_pct(&vec![space("/", 3, 1)]), 66_666);
}
