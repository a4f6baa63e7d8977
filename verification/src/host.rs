//! The host metrics collector: network and disk rates from successive
//! counter readings, and the assembly of a metrics snapshot from one
//! sample of the host's readings.

use vstd::prelude::*;
use crate::disks::{
    choose_disk, counters_view, disk_choice, disk_totals, disk_usage, disk_usage_pct, diskstats,
    opt_string_view, parse_diskstats, totals_of, DiskCounters, DiskSpace,
};
use crate::docker::{docker_report_limit, DockerMetrics};
use crate::gpu::GpuReading;
use crate::sensors::{
    cpu_temp, cpu_temp_from_zones, lemma_temperatures_plausible, temp_in_range, ThermalZone,
};
use crate::serial_proto::MetricsSnapshot;
use crate::text::{lines, lowercase, starts_with_str, eq_str, str_chars, to_lowercase};
use crate::vms::{vm_report_limit, VmMetrics};

verus! {

/// A network interface's name and its total bytes received and transmitted.
pub struct InterfaceCounters {
    pub name: String,
    pub received: u64,
    pub transmitted: u64,
}

/// `a + b` as `u64` arithmetic wraps it.
pub open spec fn wrap_add(a: u64, b: u64) -> u64 {
    ((a + b) % 0x1_0000_0000_0000_0000) as u64
}

fn wrap_add_exec(a: u64, b: u64) -> (r: u64)
    ensures
        r == wrap_add(a, b),
{
    ((a as u128 + b as u128) % 0x1_0000_0000_0000_0000u128) as u64
}

/// Loopback and virtual interfaces, which are not counted: `lo`, and names
/// starting with `veth`, `docker`, `br-` or `virbr` (in lower case).
pub open spec fn is_virtual_iface(lower: Seq<char>) -> bool {
    lower == "lo"@ || "veth"@.is_prefix_of(lower) || "docker"@.is_prefix_of(lower)
        || "br-"@.is_prefix_of(lower) || "virbr"@.is_prefix_of(lower)
}

/// Wired and wireless interfaces, which are preferred: names starting with
/// `eth`, `en` or `wl` (in lower case).
pub open spec fn is_preferred_iface(lower: Seq<char>) -> bool {
    "eth"@.is_prefix_of(lower) || "en"@.is_prefix_of(lower) || "wl"@.is_prefix_of(lower)
}

/// The interface scan: the best interface so far and its traffic, and the
/// received and transmitted totals over the counted interfaces.
pub open spec fn iface_fold(ifs: Seq<InterfaceCounters>) -> (Option<Seq<char>>, u64, u64, u64)
    decreases ifs.len(),
{
    if ifs.len() == 0 {
        (None, 0, 0, 0)
    } else {
        let (best, bt, rx, tx) = iface_fold(ifs.drop_last());
        let d = ifs.last();
        let lower = lowercase(d.name@);
        if is_virtual_iface(lower) {
            (best, bt, rx, tx)
        } else {
            let traffic = wrap_add(d.received, d.transmitted);
            let pref = is_preferred_iface(lower);
            let take = (best is None || (pref && traffic > 0) || traffic > bt) && (pref || traffic
                > bt);
            (
                if take {
                    Some(d.name@)
                } else {
                    best
                },
                if take {
                    traffic
                } else {
                    bt
                },
                wrap_add(rx, d.received),
                wrap_add(tx, d.transmitted),
            )
        }
    }
}

/// An interface that is never counted: loopback (`lo`), or a name that
/// starts, in lower case, with `veth`, `docker`, `br-` or `virbr`.
pub open spec fn ignored_iface(x: InterfaceCounters) -> bool {
    let n = lowercase(x.name@);
    n == "lo"@ || "veth"@.is_prefix_of(n) || "docker"@.is_prefix_of(n) || "br-"@.is_prefix_of(n)
        || "virbr"@.is_prefix_of(n)
}

/// Loopback and virtual interfaces (container `veth` pairs, Docker and
/// libvirt bridges) are ignored: inserting one, with any counters,
/// anywhere in the list changes neither the chosen interface, nor its
/// traffic, nor the received and transmitted totals that the rates are
/// worked out from.
pub proof fn lemma_virtual_iface_ignored(
    before: Seq<InterfaceCounters>,
    x: InterfaceCounters,
    after: Seq<InterfaceCounters>,
)
    requires
        ignored_iface(x),
    ensures
        iface_fold(before + seq![x] + after) == iface_fold(before + after),
    decreases after.len(),
{
    if after.len() == 0 {
        assert(before + seq![x] + after =~= before.push(x));
        assert(before + after =~= before);
        assert((before + seq![x] + after).drop_last() =~= before);
    } else {
        let z = before + seq![x] + after;
        let w = before + after;
        assert(z.drop_last() =~= before + seq![x] + after.drop_last());
        assert(w.drop_last() =~= before + after.drop_last());
        assert(z.last() == after.last() && w.last() == after.last());
        lemma_virtual_iface_ignored(before, x, after.drop_last());
    }
}

/// Every other interface is counted: appending one adds its received and
/// transmitted bytes to the totals (as `u64` addition wraps); and a wired
/// or wireless one (a name starting, in lower case, with `eth`, `en` or
/// `wl`) that has seen traffic becomes the chosen interface.
pub proof fn lemma_counted_iface(ifs: Seq<InterfaceCounters>, x: InterfaceCounters)
    requires
        !ignored_iface(x),
    ensures
        iface_fold(ifs.push(x)).2 == wrap_add(iface_fold(ifs).2, x.received),
        iface_fold(ifs.push(x)).3 == wrap_add(iface_fold(ifs).3, x.transmitted),
        ({
            let n = lowercase(x.name@);
            ("eth"@.is_prefix_of(n) || "en"@.is_prefix_of(n) || "wl"@.is_prefix_of(n)) && wrap_add(
                x.received,
                x.transmitted,
            ) > 0 ==> iface_fold(ifs.push(x)).0 == Some(x.name@)
        }),
{
    assert(ifs.push(x).drop_last() =~= ifs);
}

/// A rate in thousandths of KB/s: the counter's growth (none if it went
/// down) in bytes over `dt` nanoseconds, divided by 1024, rounded down
/// and limited to the machine range.
pub open spec fn rate_milli(prev: u64, cur: u64, dt: u64) -> int {
    let diff: int = if cur >= prev {
        cur - prev
    } else {
        0
    };
    let r = (diff * 1_000_000_000_000) / (dt * 1024);
    if r > i64::MAX {
        i64::MAX as int
    } else {
        r
    }
}

/// The rate of a counter since the previous reading, or 0 where there is
/// no previous reading or no time has passed.
pub open spec fn rate_since(prev: u64, prev_time: Option<u64>, cur: u64, now: u64) -> int {
    match prev_time {
        Some(t) => if now > t {
            rate_milli(prev, cur, (now - t) as u64)
        } else {
            0
        },
        None => 0,
    }
}

fn rate_since_exec(prev: u64, prev_time: Option<u64>, cur: u64, now: u64) -> (r: i64)
    ensures
        r == rate_since(prev, prev_time, cur, now),
        r >= 0,
{
    match prev_time {
        Some(t) => if now > t {
            let dt = now - t;
            let diff: u128 = if cur >= prev {
                (cur - prev) as u128
            } else {
                0
            };
            assert(diff * 1_000_000_000_000 <= 0xffff_ffff_ffff_ffff * 1_000_000_000_000)
                by (nonlinear_arith)
                requires diff <= 0xffff_ffff_ffff_ffff;
            assert(dt * 1024 <= 0xffff_ffff_ffff_ffff * 1024) by (nonlinear_arith)
                requires dt <= 0xffff_ffff_ffff_ffff;
            let q: u128 = (diff * 1_000_000_000_000) / ((dt as u128) * 1024);
            if q > 0x7fff_ffff_ffff_ffffu128 {
                0x7fff_ffff_ffff_ffff
            } else {
                q as i64
            }
        } else {
            0
        },
        None => 0,
    }
}

/// The state that the collector keeps between samples: the last counter
/// readings and when they were taken (nanoseconds on a monotonic clock),
/// the interface and disk last reported, and the host name.
pub struct HostMetrics {
    pub prev_net_rx: u64,
    pub prev_net_tx: u64,
    pub prev_net_time: Option<u64>,
    pub prev_disk_read: u64,
    pub prev_disk_write: u64,
    pub prev_disk_time: Option<u64>,
    pub active_iface: Option<String>,
    pub active_disk: Option<String>,
    pub hostname: String,
}

/// What one sample of the host gives: the CPU usage (in thousandths of a
/// percent), the used and total memory, the uptime in seconds, the thermal
/// zones, the network interfaces and when they were read, the mounted file
/// systems, the text of `/proc/diskstats` (`None` where it could not be
/// read) and when it was read, the disk temperature found by the probes,
/// the GPU reading, and the VM and Docker summaries.
pub struct HostSample {
    pub cpu_pct: i64,
    pub used_memory: u64,
    pub total_memory: u64,
    pub uptime_secs: u64,
    pub thermal_zones: Vec<ThermalZone>,
    pub interfaces: Vec<InterfaceCounters>,
    pub net_time: u64,
    pub disks: Vec<DiskSpace>,
    pub diskstats: Option<String>,
    pub disk_time: u64,
    pub disk_temp: Option<i64>,
    pub gpu: Option<GpuReading>,
    pub vms: Option<VmMetrics>,
    pub docker: Option<DockerMetrics>,
}

/// What one `collect` keeps of the collector's state: the host name, an
/// interface once chosen (it may give way to another chosen one, never to
/// none), and the disk once chosen.
pub open spec fn collect_keeps(before: HostMetrics, after: HostMetrics) -> bool {
    &&& after.hostname@ == before.hostname@
    &&& before.active_iface is Some ==> after.active_iface is Some
    &&& before.active_disk is Some ==> opt_string_view(after.active_disk) == opt_string_view(
        before.active_disk,
    )
}

/// Over any run of `collect` calls on one collector, the host name stays
/// the one it was made with, a chosen interface is never dropped, and a
/// chosen disk never changes.
#[verifier::spinoff_prover]
#[verifier::rlimit(40)]
pub proof fn lemma_collect_run(states: Seq<HostMetrics>)
    requires
        forall|i: int| 0 <= i < states.len() - 1 ==> collect_keeps(#[trigger] states[i], states[i + 1]),
    ensures
        forall|i: int| 0 <= i < states.len() ==> (#[trigger] states[i]).hostname@ == states[0].hostname@,
        forall|i: int, j: int|
            #![trigger states[i], states[j]]
            0 <= i <= j < states.len() && states[i].active_iface is Some ==> states[j].active_iface is Some,
        forall|i: int, j: int|
            #![trigger states[i], states[j]]
            0 <= i <= j < states.len() && states[i].active_disk is Some ==> opt_string_view(
                states[j].active_disk,
            ) == opt_string_view(states[i].active_disk),
    decreases states.len(),
{
    if states.len() > 1 {
        let init = states.drop_last();
        assert forall|i: int| 0 <= i < init.len() - 1 implies collect_keeps(#[trigger] init[i], init[i + 1]) by {
            assert(init[i] == states[i] && init[i + 1] == states[i + 1]);
            assert(collect_keeps(states[i], states[i + 1]));
        }
        lemma_collect_run(init);
        let n = states.len() - 1;
        assert(collect_keeps(states[n - 1], states[n]));
        assert forall|i: int| 0 <= i < states.len() implies (#[trigger] states[i]).hostname@
            == states[0].hostname@ by {
            if i < n {
                assert(init[i] == states[i]);
            } else {
                assert(init[n - 1] == states[n - 1]);
            }
            assert(init[0] == states[0]);
        }
        assert forall|i: int, j: int|
            #![trigger states[i], states[j]]
            0 <= i <= j < states.len() && states[i].active_iface is Some implies states[j].active_iface is Some by {
            assert(init[n - 1] == states[n - 1]);
            if j < n {
                assert(init[i] == states[i] && init[j] == states[j]);
            } else if i < n {
                assert(init[i] == states[i]);
            }
        }
        assert forall|i: int, j: int|
            #![trigger states[i], states[j]]
            0 <= i <= j < states.len() && states[i].active_disk is Some implies opt_string_view(
                states[j].active_disk,
            ) == opt_string_view(states[i].active_disk) by {
            assert(init[n - 1] == states[n - 1]);
            if j < n {
                assert(init[i] == states[i] && init[j] == states[j]);
            } else if i < n {
                assert(init[i] == states[i]);
            }
        }
    }
}

impl HostSample {
    /// What the probes guarantee of their readings: a disk temperature from
    /// -20 to 150 degrees, and VM and container summaries within their
    /// limits.
    pub open spec fn plausible(&self) -> bool {
        &&& self.disk_temp matches Some(t) ==> temp_in_range(t as int)
        &&& self.vms matches Some(v) ==> v.within_limit()
        &&& self.docker matches Some(d) ==> d.within_limit()
    }

    /// Whether the sample is `plausible`, the condition `collect` asks.
    pub fn is_plausible(&self) -> (b: bool)
        ensures
            b == self.plausible(),
    {
        let temp_ok = match self.disk_temp {
            Some(t) => -20000 <= t && t <= 150000,
            None => true,
        };
        let vms_ok = match &self.vms {
            Some(v) => (v.running as u64) + (v.stopped as u64) + (v.paused as u64) + (v.other as u64)
                <= 10,
            None => true,
        };
        let docker_ok = match &self.docker {
            Some(d) => (d.running as u64) + (d.stopped as u64) <= 10 && (d.unhealthy as u64) <= (
            d.running as u64) + (d.stopped as u64),
            None => true,
        };
        temp_ok && vms_ok && docker_ok
    }
}

/// Which optional collectors run.
pub struct CollectOptions {
    pub disable_gpu: bool,
    pub enable_vms: bool,
    pub enable_docker: bool,
}

/// The memory in use as a percentage of the total, in thousandths
/// (rounded down; 0 where the total is 0).
pub open spec fn mem_pct(used: u64, total: u64) -> int {
    if total > 0 {
        let p = (used * 100000) / (total as int);
        if p > i64::MAX {
            i64::MAX as int
        } else {
            p
        }
    } else {
        0
    }
}

fn mem_pct_exec(used: u64, total: u64) -> (r: i64)
    ensures
        r == mem_pct(used, total),
{
    if total > 0 {
        assert(used * 100000 <= 0xffff_ffff_ffff_ffff * 100000) by (nonlinear_arith)
            requires used <= 0xffff_ffff_ffff_ffff;
        let p: u128 = (used as u128 * 100000) / (total as u128);
        if p > 0x7fff_ffff_ffff_ffffu128 {
            0x7fff_ffff_ffff_ffff
        } else {
            p as i64
        }
    } else {
        0
    }
}

impl HostMetrics {
    /// A collector with no previous readings, for the named host.
    pub fn new(hostname: String) -> (r: HostMetrics)
        ensures
            r.prev_net_rx == 0,
            r.prev_net_tx == 0,
            r.prev_net_time is None,
            r.prev_disk_read == 0,
            r.prev_disk_write == 0,
            r.prev_disk_time is None,
            r.active_iface is None,
            r.active_disk is None,
            r.hostname@ == hostname@,
    {
        HostMetrics {
            prev_net_rx: 0,
            prev_net_tx: 0,
            prev_net_time: None,
            prev_disk_read: 0,
            prev_disk_write: 0,
            prev_disk_time: None,
            active_iface: None,
            active_disk: None,
            hostname,
        }
    }

    /// The receive and transmit rates since the last call and the busiest
    /// interface: loopback and virtual interfaces are skipped; the others
    /// are summed, and the best interface is the first counted one, then
    /// any preferred one (`eth*`, `en*`, `wl*`) with traffic and any with
    /// more traffic than the best so far. Records the totals and `now`.
    pub fn network_rates(&mut self, ifaces: &Vec<InterfaceCounters>, now: u64) -> (r: (
        i64,
        i64,
        Option<String>,
    ))
        ensures
            ({
                let (best, _, rx, tx) = iface_fold(ifaces@);
                &&& r.0 == rate_since(old(self).prev_net_rx, old(self).prev_net_time, rx, now)
                &&& r.1 == rate_since(old(self).prev_net_tx, old(self).prev_net_time, tx, now)
                &&& opt_string_view(r.2) == best
                &&& final(self).prev_net_rx == rx
                &&& final(self).prev_net_tx == tx
            }),
            r.0 >= 0,
            r.1 >= 0,
            final(self).prev_net_time == Some(now),
            final(self).prev_disk_read == old(self).prev_disk_read,
            final(self).prev_disk_write == old(self).prev_disk_write,
            final(self).prev_disk_time == old(self).prev_disk_time,
            final(self).active_iface == old(self).active_iface,
            final(self).active_disk == old(self).active_disk,
            final(self).hostname == old(self).hostname,
    {
        let mut best: Option<String> = None;
        let mut bt: u64 = 0;
        let mut rx: u64 = 0;
        let mut tx: u64 = 0;
        let mut i: usize = 0;
        while i < ifaces.len()
            invariant
                i <= ifaces.len(),
                iface_fold(ifaces@.take(i as int)) == (opt_string_view(best), bt, rx, tx),
            decreases ifaces.len() - i,
        {
            let d = &ifaces[i];
            proof {
                assert(ifaces@.take(i + 1).drop_last() =~= ifaces@.take(i as int));
                assert(ifaces@.take(i + 1).last() == *d);
            }
            let nm = str_chars(d.name.as_str());
            let lower = to_lowercase(&nm);
            let virt = eq_str(&lower, "lo") || starts_with_str(&lower, "veth") || starts_with_str(
                &lower,
                "docker",
            ) || starts_with_str(&lower, "br-") || starts_with_str(&lower, "virbr");
            if !virt {
                let traffic = wrap_add_exec(d.received, d.transmitted);
                let pref = starts_with_str(&lower, "eth") || starts_with_str(&lower, "en")
                    || starts_with_str(&lower, "wl");
                if (best.is_none() || (pref && traffic > 0) || traffic > bt) && (pref || traffic
                    > bt) {
                    best = Some(d.name.clone());
                    bt = traffic;
                }
                rx = wrap_add_exec(rx, d.received);
                tx = wrap_add_exec(tx, d.transmitted);
            }
            i = i + 1;
        }
        assert(ifaces@.take(ifaces.len() as int) =~= ifaces@);
        let rx_rate = rate_since_exec(self.prev_net_rx, self.prev_net_time, rx, now);
        let tx_rate = rate_since_exec(self.prev_net_tx, self.prev_net_time, tx, now);
        self.prev_net_rx = rx;
        self.prev_net_tx = tx;
        self.prev_net_time = Some(now);
        (rx_rate, tx_rate, best)
    }

    /// The disk read and write rates since the last call and the disk they
    /// are for: the disk reported before, else the preferred one in
    /// `/proc/diskstats` (`None` where it could not be read). Records its
    /// counters (zero where it is not listed) and `now`.
    pub fn disk_io_rates(&mut self, diskstats_text: Option<&str>, now: u64) -> (r: (
        i64,
        i64,
        Option<String>,
    ))
        ensures
            ({
                let es = match diskstats_text {
                    Some(t) => diskstats(lines(t@)),
                    None => Seq::empty(),
                };
                let name = disk_choice(opt_string_view(old(self).active_disk), es);
                let (rd, wr) = disk_totals(es, name);
                &&& opt_string_view(r.2) == name
                &&& r.0 == rate_since(old(self).prev_disk_read, old(self).prev_disk_time, rd, now)
                &&& r.1 == rate_since(old(self).prev_disk_write, old(self).prev_disk_time, wr, now)
                &&& final(self).prev_disk_read == rd
                &&& final(self).prev_disk_write == wr
            }),
            r.0 >= 0,
            r.1 >= 0,
            final(self).prev_disk_time == Some(now),
            final(self).prev_net_rx == old(self).prev_net_rx,
            final(self).prev_net_tx == old(self).prev_net_tx,
            final(self).prev_net_time == old(self).prev_net_time,
            final(self).active_iface == old(self).active_iface,
            final(self).active_disk == old(self).active_disk,
            final(self).hostname == old(self).hostname,
    {
        let stats: Vec<DiskCounters> = match diskstats_text {
            Some(t) => parse_diskstats(t),
            None => {
                let v: Vec<DiskCounters> = Vec::new();
                assert(counters_view(v@) =~= Seq::<(Seq<char>, u64, u64)>::empty());
                v
            },
        };
        let name = choose_disk(&self.active_disk, &stats);
        let (rd, wr) = totals_of(&stats, &name);
        let r_rate = rate_since_exec(self.prev_disk_read, self.prev_disk_time, rd, now);
        let w_rate = rate_since_exec(self.prev_disk_write, self.prev_disk_time, wr, now);
        self.prev_disk_read = rd;
        self.prev_disk_write = wr;
        self.prev_disk_time = Some(now);
        (r_rate, w_rate, name)
    }

    /// Takes a snapshot from one sample of the host: the CPU usage, the
    /// memory use, the uptime, the CPU temperature of the thermal zones,
    /// the network and disk rates (remembering the interface and disk they
    /// are for), the disk usage and temperature, and the GPU, VM and
    /// Docker readings where they are enabled (zero and empty otherwise).
    /// The fan is never available.
    pub fn collect(&mut self, sample: &HostSample, opts: &CollectOptions) -> (s: MetricsSnapshot)
        requires
            sample.plausible(),
        ensures
            collect_keeps(*old(self), *final(self)),
            s.cpu_temp_available ==> temp_in_range(s.cpu_temp as int),
            s.disk_temp_available ==> temp_in_range(s.disk_temp as int),
            s.vms_running + s.vms_stopped + s.vms_paused + s.vms_other <= vm_report_limit(),
            s.docker_running + s.docker_stopped <= docker_report_limit(),
            s.docker_unhealthy <= s.docker_running + s.docker_stopped,
            s.hostname@ == old(self).hostname@,
            s.cpu_pct == sample.cpu_pct,
            s.mem_pct == mem_pct(sample.used_memory, sample.total_memory),
            s.uptime_secs == sample.uptime_secs,
            match cpu_temp(sample.thermal_zones@) {
                Some(t) => s.cpu_temp_available && s.cpu_temp == t,
                None => !s.cpu_temp_available && s.cpu_temp == 0,
            },
            ({
                let (best, _, rx, tx) = iface_fold(sample.interfaces@);
                let iface = match best {
                    Some(b) => Some(b),
                    None => opt_string_view(old(self).active_iface),
                };
                &&& s.rx_kbps == rate_since(
                    old(self).prev_net_rx,
                    old(self).prev_net_time,
                    rx,
                    sample.net_time,
                )
                &&& s.tx_kbps == rate_since(
                    old(self).prev_net_tx,
                    old(self).prev_net_time,
                    tx,
                    sample.net_time,
                )
                &&& opt_string_view(final(self).active_iface) == iface
                &&& s.iface@ == match iface {
                    Some(b) => b,
                    None => Seq::empty(),
                }
                &&& final(self).prev_net_rx == rx
                &&& final(self).prev_net_tx == tx
                &&& final(self).prev_net_time == Some(sample.net_time)
            }),
            s.disk_pct == disk_usage(sample.disks@),
            ({
                let es = match sample.diskstats {
                    Some(t) => diskstats(lines(t@)),
                    None => Seq::empty(),
                };
                let name = disk_choice(opt_string_view(old(self).active_disk), es);
                let (rd, wr) = disk_totals(es, name);
                &&& s.disk_r_kbs == rate_since(
                    old(self).prev_disk_read,
                    old(self).prev_disk_time,
                    rd,
                    sample.disk_time,
                )
                &&& s.disk_w_kbs == rate_since(
                    old(self).prev_disk_write,
                    old(self).prev_disk_time,
                    wr,
                    sample.disk_time,
                )
                &&& opt_string_view(final(self).active_disk) == match name {
                    Some(n) => Some(n),
                    None => opt_string_view(old(self).active_disk),
                }
                &&& final(self).prev_disk_read == rd
                &&& final(self).prev_disk_write == wr
                &&& final(self).prev_disk_time == Some(sample.disk_time)
            }),
            match sample.disk_temp {
                Some(t) => s.disk_temp_available && s.disk_temp == t,
                None => !s.disk_temp_available && s.disk_temp == 0,
            },
            s.fan_rpm == 0,
            !s.fan_available,
            s.gpu_enabled == !opts.disable_gpu,
            match (opts.disable_gpu, sample.gpu) {
                (false, Some(g)) => s.gpu_available && s.gpu_temp == g.temp && s.gpu_util == g.util
                    && s.gpu_mem == g.mem_pct,
                _ => !s.gpu_available && s.gpu_temp == 0 && s.gpu_util == 0 && s.gpu_mem == 0,
            },
            s.docker_enabled == opts.enable_docker,
            match (opts.enable_docker, &sample.docker) {
                (true, Some(d)) => s.docker_running == d.running && s.docker_stopped == d.stopped
                    && s.docker_unhealthy == d.unhealthy && s.docker_compact@ == d.compact@,
                _ => s.docker_running == 0 && s.docker_stopped == 0 && s.docker_unhealthy == 0
                    && s.docker_compact@ == Seq::<char>::empty(),
            },
            s.vms_enabled == opts.enable_vms,
            match (opts.enable_vms, &sample.vms) {
                (true, Some(v)) => s.vms_running == v.running && s.vms_stopped == v.stopped
                    && s.vms_paused == v.paused && s.vms_other == v.other && s.vms_compact@
                    == v.compact@,
                _ => s.vms_running == 0 && s.vms_stopped == 0 && s.vms_paused == 0 && s.vms_other
                    == 0 && s.vms_compact@ == Seq::<char>::empty(),
            },
            final(self).hostname == old(self).hostname,
    {
        let cpu_temp = cpu_temp_from_zones(&sample.thermal_zones);
        proof {
            lemma_temperatures_plausible(Seq::empty(), sample.thermal_zones@);
        }
        let (rx_kbps, tx_kbps, iface) = self.network_rates(&sample.interfaces, sample.net_time);
        if iface.is_some() {
            self.active_iface = iface;
        }
        let disk_pct = disk_usage_pct(&sample.disks);
        let diskstats_text: Option<&str> = match &sample.diskstats {
            Some(t) => Some(t.as_str()),
            None => None,
        };
        let (disk_r_kbs, disk_w_kbs, disk_name) = self.disk_io_rates(diskstats_text, sample.disk_time);
        if disk_name.is_some() {
            self.active_disk = disk_name;
        }
        let (gpu_temp, gpu_util, gpu_mem, gpu_available) = if opts.disable_gpu {
            (0, 0, 0, false)
        } else {
            match &sample.gpu {
                Some(g) => (g.temp, g.util, g.mem_pct, true),
                None => (0, 0, 0, false),
            }
        };
        let (vms_running, vms_stopped, vms_paused, vms_other, vms_compact) = if opts.enable_vms {
            match &sample.vms {
                Some(v) => (v.running, v.stopped, v.paused, v.other, v.compact.clone()),
                None => (0, 0, 0, 0, String::new()),
            }
        } else {
            (0, 0, 0, 0, String::new())
        };
        let (docker_running, docker_stopped, docker_unhealthy, docker_compact) =
            if opts.enable_docker {
            match &sample.docker {
                Some(d) => (d.running, d.stopped, d.unhealthy, d.compact.clone()),
                None => (0, 0, 0, String::new()),
            }
        } else {
            (0, 0, 0, String::new())
        };
        let iface_text = match &self.active_iface {
            Some(n) => n.clone(),
            None => String::new(),
        };
        let (disk_temp, disk_temp_available) = match sample.disk_temp {
            Some(t) => (t, true),
            None => (0, false),
        };
        MetricsSnapshot {
            hostname: self.hostname.clone(),
            cpu_pct: sample.cpu_pct,
            mem_pct: mem_pct_exec(sample.used_memory, sample.total_memory),
            uptime_secs: sample.uptime_secs,
            cpu_temp: match cpu_temp {
                Some(t) => t,
                None => 0,
            },
            cpu_temp_available: cpu_temp.is_some(),
            rx_kbps,
            tx_kbps,
            iface: iface_text,
            disk_pct,
            disk_r_kbs,
            disk_w_kbs,
            disk_temp,
            disk_temp_available,
            fan_rpm: 0,
            fan_available: false,
            gpu_temp,
            gpu_util,
            gpu_mem,
            gpu_available,
            gpu_enabled: !opts.disable_gpu,
            docker_enabled: opts.enable_docker,
            docker_running,
            docker_stopped,
            docker_unhealthy,
            docker_compact,
            vms_enabled: opts.enable_vms,
            vms_running,
            vms_stopped,
            vms_paused,
            vms_other,
            vms_compact,
        }
    }
}


/// A rate is never negative, and a counter that did not grow (or went
/// down, as when it was reset) gives a rate of 0.
pub proof fn lemma_rate_of_counter(prev: u64, cur: u64, prev_time: Option<u64>, now: u64)
    ensures
        rate_since(prev, prev_time, cur, now) >= 0,
        cur <= prev ==> rate_since(prev, prev_time, cur, now) == 0,
{
    match prev_time {
        Some(t) => if now > t {
            let dt = (now - t) as u64;
            let diff: int = if cur >= prev {
                cur - prev
            } else {
                0
            };
            assert((diff * 1_000_000_000_000) / (dt * 1024) >= 0) by (nonlinear_arith)
                requires diff >= 0, dt > 0;
        },
        None => {},
    }
}

} // verus!
