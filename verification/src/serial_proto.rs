//! The serial protocol of the ESP display: newline-terminated lines of
//! comma-separated `KEY=value` pairs, sent in five rotating frames.
//!
//! Measured values are carried in thousandths and shown with one decimal.

use vstd::prelude::*;
use crate::number::{dec_text, push_dec, push_tenths, push_whole, tenths_text, whole_text};
use crate::text::{chars_string, push_str};

verus! {

/// A snapshot of all host metrics at a point in time. Percentages,
/// temperatures (degrees Celsius), rates (KB/s) and the fan speed (RPM)
/// are in thousandths.
pub struct MetricsSnapshot {
    pub hostname: String,
    // Core metrics (frame 1)
    pub cpu_pct: i64,
    pub mem_pct: i64,
    pub uptime_secs: u64,
    pub cpu_temp: i64,
    pub cpu_temp_available: bool,
    pub rx_kbps: i64,
    pub tx_kbps: i64,
    pub iface: String,
    // Disk metrics (frame 2)
    pub disk_pct: i64,
    pub disk_r_kbs: i64,
    pub disk_w_kbs: i64,
    pub disk_temp: i64,
    pub disk_temp_available: bool,
    pub fan_rpm: i64,
    pub fan_available: bool,
    // GPU metrics (frame 3)
    pub gpu_temp: i64,
    pub gpu_util: i64,
    pub gpu_mem: i64,
    pub gpu_available: bool,
    pub gpu_enabled: bool,
    // Docker metrics (frame 4)
    pub docker_enabled: bool,
    pub docker_running: u32,
    pub docker_stopped: u32,
    pub docker_unhealthy: u32,
    pub docker_compact: String,
    // VM metrics (frame 5)
    pub vms_enabled: bool,
    pub vms_running: u32,
    pub vms_stopped: u32,
    pub vms_paused: u32,
    pub vms_other: u32,
    pub vms_compact: String,
}

/// `1` for true, `0` for false.
pub open spec fn flag(b: bool) -> Seq<char> {
    if b {
        "1"@
    } else {
        "0"@
    }
}

/// A value with one decimal, or nothing where it is not available.
pub open spec fn opt_tenths(shown: bool, m: int) -> Seq<char> {
    if shown {
        tenths_text(m)
    } else {
        Seq::empty()
    }
}

/// A whole value, or nothing where it is not available.
pub open spec fn opt_whole(shown: bool, m: int) -> Seq<char> {
    if shown {
        whole_text(m)
    } else {
        Seq::empty()
    }
}

/// A count, or nothing where it is not available.
pub open spec fn opt_count(shown: bool, n: nat) -> Seq<char> {
    if shown {
        dec_text(n)
    } else {
        Seq::empty()
    }
}

/// A text, or nothing where it is not available.
pub open spec fn opt_text(shown: bool, t: Seq<char>) -> Seq<char> {
    if shown {
        t
    } else {
        Seq::empty()
    }
}

/// The end of every frame.
pub open spec fn frame_end() -> Seq<char> {
    ",POWER=RUNNING\n"@
}

/// The fields of frame 1.
pub open spec fn core_fields(s: MetricsSnapshot) -> Seq<char> {
    "CPU="@ + tenths_text(s.cpu_pct as int) + ",TEMP="@ + opt_tenths(
        s.cpu_temp_available,
        s.cpu_temp as int,
    ) + ",MEM="@ + tenths_text(s.mem_pct as int) + ",UP="@ + dec_text(s.uptime_secs as nat)
        + ",RX="@ + tenths_text(s.rx_kbps as int) + ",TX="@ + tenths_text(s.tx_kbps as int)
        + ",IFACE="@ + s.iface@ + ",TEMPAV="@ + flag(s.cpu_temp_available) + ",GPUEN="@ + flag(
        s.gpu_enabled,
    ) + ",DOCKEREN="@ + flag(s.docker_enabled) + ",VMSEN="@ + flag(s.vms_enabled)
}

/// The fields of frame 2.
pub open spec fn disk_fields(s: MetricsSnapshot) -> Seq<char> {
    "DISKTEMP="@ + opt_tenths(s.disk_temp_available, s.disk_temp as int) + ",DISKPCT="@
        + tenths_text(s.disk_pct as int) + ",DISKR="@ + tenths_text(s.disk_r_kbs as int)
        + ",DISKW="@ + tenths_text(s.disk_w_kbs as int) + ",FAN="@ + opt_whole(
        s.fan_available,
        s.fan_rpm as int,
    ) + ",DISKTAV="@ + flag(s.disk_temp_available) + ",FANAV="@ + flag(s.fan_available)
       
}

/// The fields of frame 3.
pub open spec fn gpu_fields(s: MetricsSnapshot) -> Seq<char> {
    "GPUT="@ + opt_tenths(s.gpu_available, s.gpu_temp as int) + ",GPUU="@ + opt_tenths(
        s.gpu_available,
        s.gpu_util as int,
    ) + ",GPUVM="@ + opt_tenths(s.gpu_available, s.gpu_mem as int) + ",GPUAV="@ + flag(
        s.gpu_available,
    )
}

/// The fields of frame 4.
pub open spec fn docker_fields(s: MetricsSnapshot) -> Seq<char> {
    "DOCKRUN="@ + opt_count(s.docker_enabled, s.docker_running as nat) + ",DOCKSTOP="@
        + opt_count(s.docker_enabled, s.docker_stopped as nat) + ",DOCKUNH="@ + opt_count(
        s.docker_enabled,
        s.docker_unhealthy as nat,
    ) + ",DOCKER="@ + opt_text(s.docker_enabled, s.docker_compact@)
}

/// The fields of frame 5.
pub open spec fn vms_fields(s: MetricsSnapshot) -> Seq<char> {
    "VMSRUN="@ + opt_count(s.vms_enabled, s.vms_running as nat) + ",VMSSTOP="@ + opt_count(
        s.vms_enabled,
        s.vms_stopped as nat,
    ) + ",VMSPAUSE="@ + opt_count(s.vms_enabled, s.vms_paused as nat) + ",VMSOTHER="@ + opt_count(
        s.vms_enabled,
        s.vms_other as nat,
    ) + ",VMS="@ + opt_text(s.vms_enabled, s.vms_compact@)
}

/// Frame 1: core system metrics.
pub open spec fn frame_core(s: MetricsSnapshot) -> Seq<char> {
    core_fields(s) + frame_end()
}

/// Frame 2: disk and fan metrics.
pub open spec fn frame_disk(s: MetricsSnapshot) -> Seq<char> {
    disk_fields(s) + frame_end()
}

/// Frame 3: GPU metrics.
pub open spec fn frame_gpu(s: MetricsSnapshot) -> Seq<char> {
    gpu_fields(s) + frame_end()
}

/// Frame 4: Docker container metrics.
pub open spec fn frame_docker(s: MetricsSnapshot) -> Seq<char> {
    docker_fields(s) + frame_end()
}

/// Frame 5: virtual machine metrics.
pub open spec fn frame_vms(s: MetricsSnapshot) -> Seq<char> {
    vms_fields(s) + frame_end()
}

/// The five frames, in the order they rotate.
pub open spec fn frames(s: MetricsSnapshot) -> Seq<Seq<char>> {
    seq![frame_core(s), frame_disk(s), frame_gpu(s), frame_docker(s), frame_vms(s)]
}

fn push_flag(out: &mut Vec<char>, b: bool)
    ensures
        final(out)@ == old(out)@ + flag(b),
{
    if b {
        push_str(out, "1");
    } else {
        push_str(out, "0");
    }
}

fn push_opt_tenths(out: &mut Vec<char>, shown: bool, m: i64)
    ensures
        final(out)@ == old(out)@ + opt_tenths(shown, m as int),
{
    if shown {
        push_tenths(out, m);
    } else {
        assert(old(out)@ + Seq::<char>::empty() =~= old(out)@);
    }
}

fn push_opt_whole(out: &mut Vec<char>, shown: bool, m: i64)
    ensures
        final(out)@ == old(out)@ + opt_whole(shown, m as int),
{
    if shown {
        push_whole(out, m);
    } else {
        assert(old(out)@ + Seq::<char>::empty() =~= old(out)@);
    }
}

fn push_opt_count(out: &mut Vec<char>, shown: bool, n: u32)
    ensures
        final(out)@ == old(out)@ + opt_count(shown, n as nat),
{
    if shown {
        push_dec(out, n as u64);
    } else {
        assert(old(out)@ + Seq::<char>::empty() =~= old(out)@);
    }
}

fn push_opt_text(out: &mut Vec<char>, shown: bool, t: &String)
    ensures
        final(out)@ == old(out)@ + opt_text(shown, t@),
{
    if shown {
        push_str(out, t.as_str());
    } else {
        assert(old(out)@ + Seq::<char>::empty() =~= old(out)@);
    }
}

impl MetricsSnapshot {
    /// Frame 1: core system metrics.
    fn frame1_core(&self) -> (r: String)
        ensures
            r@ == frame_core(*self),
    {
        let mut o: Vec<char> = Vec::new();
        push_str(&mut o, "CPU=");
        push_tenths(&mut o, self.cpu_pct);
        push_str(&mut o, ",TEMP=");
        push_opt_tenths(&mut o, self.cpu_temp_available, self.cpu_temp);
        push_str(&mut o, ",MEM=");
        push_tenths(&mut o, self.mem_pct);
        push_str(&mut o, ",UP=");
        push_dec(&mut o, self.uptime_secs);
        push_str(&mut o, ",RX=");
        push_tenths(&mut o, self.rx_kbps);
        push_str(&mut o, ",TX=");
        push_tenths(&mut o, self.tx_kbps);
        push_str(&mut o, ",IFACE=");
        push_str(&mut o, self.iface.as_str());
        push_str(&mut o, ",TEMPAV=");
        push_flag(&mut o, self.cpu_temp_available);
        push_str(&mut o, ",GPUEN=");
        push_flag(&mut o, self.gpu_enabled);
        push_str(&mut o, ",DOCKEREN=");
        push_flag(&mut o, self.docker_enabled);
        push_str(&mut o, ",VMSEN=");
        push_flag(&mut o, self.vms_enabled);
        push_str(&mut o, ",POWER=RUNNING\n");
        assert(Seq::<char>::empty() + "CPU="@ =~= "CPU="@);
        chars_string(&o)
    }

    /// Frame 2: disk and fan metrics.
    fn frame2_disk(&self) -> (r: String)
        ensures
            r@ == frame_disk(*self),
    {
        let mut o: Vec<char> = Vec::new();
        push_str(&mut o, "DISKTEMP=");
        push_opt_tenths(&mut o, self.disk_temp_available, self.disk_temp);
        push_str(&mut o, ",DISKPCT=");
        push_tenths(&mut o, self.disk_pct);
        push_str(&mut o, ",DISKR=");
        push_tenths(&mut o, self.disk_r_kbs);
        push_str(&mut o, ",DISKW=");
        push_tenths(&mut o, self.disk_w_kbs);
        push_str(&mut o, ",FAN=");
        push_opt_whole(&mut o, self.fan_available, self.fan_rpm);
        push_str(&mut o, ",DISKTAV=");
        push_flag(&mut o, self.disk_temp_available);
        push_str(&mut o, ",FANAV=");
        push_flag(&mut o, self.fan_available);
        push_str(&mut o, ",POWER=RUNNING\n");
        assert(Seq::<char>::empty() + "DISKTEMP="@ =~= "DISKTEMP="@);
        chars_string(&o)
    }

    /// Frame 3: GPU metrics.
    fn frame3_gpu(&self) -> (r: String)
        ensures
            r@ == frame_gpu(*self),
    {
        let mut o: Vec<char> = Vec::new();
        push_str(&mut o, "GPUT=");
        push_opt_tenths(&mut o, self.gpu_available, self.gpu_temp);
        push_str(&mut o, ",GPUU=");
        push_opt_tenths(&mut o, self.gpu_available, self.gpu_util);
        push_str(&mut o, ",GPUVM=");
        push_opt_tenths(&mut o, self.gpu_available, self.gpu_mem);
        push_str(&mut o, ",GPUAV=");
        push_flag(&mut o, self.gpu_available);
        push_str(&mut o, ",POWER=RUNNING\n");
        assert(Seq::<char>::empty() + "GPUT="@ =~= "GPUT="@);
        chars_string(&o)
    }

    /// Frame 4: Docker container metrics.
    fn frame4_docker(&self) -> (r: String)
        ensures
            r@ == frame_docker(*self),
    {
        let mut o: Vec<char> = Vec::new();
        push_str(&mut o, "DOCKRUN=");
        push_opt_count(&mut o, self.docker_enabled, self.docker_running);
        push_str(&mut o, ",DOCKSTOP=");
        push_opt_count(&mut o, self.docker_enabled, self.docker_stopped);
        push_str(&mut o, ",DOCKUNH=");
        push_opt_count(&mut o, self.docker_enabled, self.docker_unhealthy);
        push_str(&mut o, ",DOCKER=");
        push_opt_text(&mut o, self.docker_enabled, &self.docker_compact);
        push_str(&mut o, ",POWER=RUNNING\n");
        assert(Seq::<char>::empty() + "DOCKRUN="@ =~= "DOCKRUN="@);
        chars_string(&o)
    }

    /// Frame 5: virtual machine metrics.
    fn frame5_vms(&self) -> (r: String)
        ensures
            r@ == frame_vms(*self),
    {
        let mut o: Vec<char> = Vec::new();
        push_str(&mut o, "VMSRUN=");
        push_opt_count(&mut o, self.vms_enabled, self.vms_running);
        push_str(&mut o, ",VMSSTOP=");
        push_opt_count(&mut o, self.vms_enabled, self.vms_stopped);
        push_str(&mut o, ",VMSPAUSE=");
        push_opt_count(&mut o, self.vms_enabled, self.vms_paused);
        push_str(&mut o, ",VMSOTHER=");
        push_opt_count(&mut o, self.vms_enabled, self.vms_other);
        push_str(&mut o, ",VMS=");
        push_opt_text(&mut o, self.vms_enabled, &self.vms_compact);
        push_str(&mut o, ",POWER=RUNNING\n");
        assert(Seq::<char>::empty() + "VMSRUN="@ =~= "VMSRUN="@);
        chars_string(&o)
    }

    /// Builds the five rotating serial frames: core, disk, GPU, Docker, VMs.
    pub fn build_frames(&self) -> (r: [String; 5])
        ensures
            r[0]@ == frame_core(*self),
            r[1]@ == frame_disk(*self),
            r[2]@ == frame_gpu(*self),
            r[3]@ == frame_docker(*self),
            r[4]@ == frame_vms(*self),
    {
        [
            self.frame1_core(),
            self.frame2_disk(),
            self.frame3_gpu(),
            self.frame4_docker(),
            self.frame5_vms(),
        ]
    }
}

/// The line that announces the host name: `HOSTNAME=<name>` and a newline.
pub open spec fn hostname_line_text(hostname: Seq<char>) -> Seq<char> {
    "HOSTNAME="@ + hostname + "\n"@
}

/// The line that announces the host name, sent once after connecting.
pub fn hostname_line(hostname: &str) -> (r: String)
    ensures
        r@ == hostname_line_text(hostname@),
{
    let mut o: Vec<char> = Vec::new();
    push_str(&mut o, "HOSTNAME=");
    push_str(&mut o, hostname);
    push_str(&mut o, "\n");
    assert(Seq::<char>::empty() + "HOSTNAME="@ =~= "HOSTNAME="@);
    chars_string(&o)
}


/// Every frame ends with `,POWER=RUNNING` and a newline.
pub proof fn lemma_frames_end_with_power_running(s: MetricsSnapshot)
    ensures
        forall|k: int| 0 <= k < 5 ==> frame_end().is_suffix_of(#[trigger] frames(s)[k]),
        forall|k: int| 0 <= k < 5 ==> (#[trigger] frames(s)[k]).last() == '\n',
{
    reveal_strlit(",POWER=RUNNING\n");
    assert forall|k: int| 0 <= k < 5 implies frame_end().is_suffix_of(#[trigger] frames(s)[k]) && frames(
        s,
    )[k].last() == '\n' by {
        let f = frames(s)[k];
        assert(f.len() >= frame_end().len());
        assert(f.subrange(f.len() - frame_end().len(), f.len() as int) =~= frame_end());
        assert(f.last() == frame_end().last());
    }
}

pub broadcast proof fn lemma_prefix_extend(a: Seq<char>, x: Seq<char>, y: Seq<char>)
    requires
        a.is_prefix_of(x),
    ensures
        #[trigger] a.is_prefix_of(x + y),
{
    assert((x + y).take(a.len() as int) =~= x.take(a.len() as int));
}

/// Frame 1 begins with the CPU usage.
pub proof fn lemma_core_frame_starts_with_cpu(s: MetricsSnapshot)
    ensures
        "CPU="@.is_prefix_of(frame_core(s)),
{
    broadcast use lemma_prefix_extend;

    assert("CPU="@.is_prefix_of("CPU="@ + tenths_text(s.cpu_pct as int))) by {
        assert(("CPU="@ + tenths_text(s.cpu_pct as int)).take("CPU="@.len() as int) =~= "CPU="@);
    }
}

proof fn lemma_suffix_of_concat(p: Seq<char>, x: Seq<char>)
    ensures
        x.is_suffix_of(p + x),
{
    assert((p + x).subrange(p.len() as int, (p + x).len() as int) =~= x);
}

proof fn lemma_suffix_extend(x: Seq<char>, y: Seq<char>, z: Seq<char>)
    requires
        x.is_suffix_of(y),
    ensures
        (x + z).is_suffix_of(y + z),
{
    let k = y.len() - x.len();
    assert(y.subrange(k, y.len() as int) =~= x);
    assert((y + z).subrange(k, (y + z).len() as int) =~= x + z) by {
        assert forall|i: int| 0 <= i < (x + z).len() implies (y + z).subrange(
            k,
            (y + z).len() as int,
        )[i] == (x + z)[i] by {
            if i < x.len() {
                assert(y[k + i] == x[i]);
            }
        }
    }
}

/// Each on/off field of frame 1 reports its own flag of the snapshot: the
/// frame ends with `TEMPAV` (the CPU temperature is available), `GPUEN`,
/// `DOCKEREN` and `VMSEN` (the GPU, Docker and VM collectors are enabled),
/// each `1` exactly when its flag holds, and then `POWER=RUNNING`.
pub proof fn lemma_core_frame_flags(s: MetricsSnapshot)
    ensures
        (",TEMPAV="@ + flag(s.cpu_temp_available) + ",GPUEN="@ + flag(s.gpu_enabled)
            + ",DOCKEREN="@ + flag(s.docker_enabled) + ",VMSEN="@ + flag(s.vms_enabled)
            + ",POWER=RUNNING\n"@).is_suffix_of(frames(s)[0]),
{
    let p0 = "CPU="@ + tenths_text(s.cpu_pct as int) + ",TEMP="@ + opt_tenths(
        s.cpu_temp_available,
        s.cpu_temp as int,
    ) + ",MEM="@ + tenths_text(s.mem_pct as int) + ",UP="@ + dec_text(s.uptime_secs as nat)
        + ",RX="@ + tenths_text(s.rx_kbps as int) + ",TX="@ + tenths_text(s.tx_kbps as int)
        + ",IFACE="@ + s.iface@;
    let t = ",TEMPAV="@;
    lemma_suffix_of_concat(p0, t);
    lemma_suffix_extend(t, p0 + t, flag(s.cpu_temp_available));
    let a1 = t + flag(s.cpu_temp_available);
    let b1 = p0 + t + flag(s.cpu_temp_available);
    lemma_suffix_extend(a1, b1, ",GPUEN="@);
    lemma_suffix_extend(a1 + ",GPUEN="@, b1 + ",GPUEN="@, flag(s.gpu_enabled));
    let a2 = a1 + ",GPUEN="@ + flag(s.gpu_enabled);
    let b2 = b1 + ",GPUEN="@ + flag(s.gpu_enabled);
    lemma_suffix_extend(a2, b2, ",DOCKEREN="@);
    lemma_suffix_extend(a2 + ",DOCKEREN="@, b2 + ",DOCKEREN="@, flag(s.docker_enabled));
    let a3 = a2 + ",DOCKEREN="@ + flag(s.docker_enabled);
    let b3 = b2 + ",DOCKEREN="@ + flag(s.docker_enabled);
    lemma_suffix_extend(a3, b3, ",VMSEN="@);
    lemma_suffix_extend(a3 + ",VMSEN="@, b3 + ",VMSEN="@, flag(s.vms_enabled));
    let a4 = a3 + ",VMSEN="@ + flag(s.vms_enabled);
    let b4 = b3 + ",VMSEN="@ + flag(s.vms_enabled);
    lemma_suffix_extend(a4, b4, frame_end());
    assert(b4 == core_fields(s));
}

/// Frame 2 ends with `DISKTAV` and `FANAV`, each `1` exactly when the disk
/// temperature, or the fan speed, is available, and then `POWER=RUNNING`.
pub proof fn lemma_disk_frame_flags(s: MetricsSnapshot)
    ensures
        (",DISKTAV="@ + flag(s.disk_temp_available) + ",FANAV="@ + flag(s.fan_available)
            + ",POWER=RUNNING\n"@).is_suffix_of(frames(s)[1]),
{
    let p1 = "DISKTEMP="@ + opt_tenths(s.disk_temp_available, s.disk_temp as int) + ",DISKPCT="@
        + tenths_text(s.disk_pct as int) + ",DISKR="@ + tenths_text(s.disk_r_kbs as int)
        + ",DISKW="@ + tenths_text(s.disk_w_kbs as int) + ",FAN="@ + opt_whole(
        s.fan_available,
        s.fan_rpm as int,
    );
    let t = ",DISKTAV="@;
    lemma_suffix_of_concat(p1, t);
    lemma_suffix_extend(t, p1 + t, flag(s.disk_temp_available));
    let a1 = t + flag(s.disk_temp_available);
    let b1 = p1 + t + flag(s.disk_temp_available);
    lemma_suffix_extend(a1, b1, ",FANAV="@);
    lemma_suffix_extend(a1 + ",FANAV="@, b1 + ",FANAV="@, flag(s.fan_available));
    let a2 = a1 + ",FANAV="@ + flag(s.fan_available);
    let b2 = b1 + ",FANAV="@ + flag(s.fan_available);
    lemma_suffix_extend(a2, b2, frame_end());
    assert(b2 == disk_fields(s));
}

/// Frame 3 ends with `GPUAV`, `1` exactly when a GPU reading is available,
/// and then `POWER=RUNNING`.
pub proof fn lemma_gpu_frame_flag(s: MetricsSnapshot)
    ensures
        (",GPUAV="@ + flag(s.gpu_available) + ",POWER=RUNNING\n"@).is_suffix_of(frames(s)[2]),
{
    let p2 = "GPUT="@ + opt_tenths(s.gpu_available, s.gpu_temp as int) + ",GPUU="@ + opt_tenths(
        s.gpu_available,
        s.gpu_util as int,
    ) + ",GPUVM="@ + opt_tenths(s.gpu_available, s.gpu_mem as int);
    let t = ",GPUAV="@;
    lemma_suffix_of_concat(p2, t);
    lemma_suffix_extend(t, p2 + t, flag(s.gpu_available));
    let a1 = t + flag(s.gpu_available);
    let b1 = p2 + t + flag(s.gpu_available);
    lemma_suffix_extend(a1, b1, frame_end());
    assert(b1 == gpu_fields(s));
}

/// A collector that is off shows no figures: with Docker disabled, frame 4
/// is the same whatever the container counts and listing; with VMs
/// disabled, frame 5 is the same whatever the VM counts and listing; with
/// no GPU reading, frame 3 is the same whatever the GPU figures.
pub proof fn lemma_disabled_frames_fixed(s1: MetricsSnapshot, s2: MetricsSnapshot)
    ensures
        !s1.docker_enabled && !s2.docker_enabled ==> frames(s1)[3] == frames(s2)[3],
        !s1.vms_enabled && !s2.vms_enabled ==> frames(s1)[4] == frames(s2)[4],
        !s1.gpu_available && !s2.gpu_available ==> frames(s1)[2] == frames(s2)[2],
{
}

pub open spec fn no_newline(t: Seq<char>) -> bool {
    !t.contains('\n')
}

pub broadcast proof fn lemma_no_newline_concat(a: Seq<char>, b: Seq<char>)
    ensures
        #[trigger] no_newline(a + b) == (no_newline(a) && no_newline(b)),
{
    if (a + b).contains('\n') {
        let i = choose|i: int| 0 <= i < (a + b).len() && (a + b)[i] == '\n';
        if i < a.len() {
            assert(a[i] == '\n');
        } else {
            assert(b[i - a.len()] == '\n');
        }
    }
    if a.contains('\n') {
        let i = choose|i: int| 0 <= i < a.len() && a[i] == '\n';
        assert((a + b)[i] == '\n');
    }
    if b.contains('\n') {
        let i = choose|i: int| 0 <= i < b.len() && b[i] == '\n';
        assert((a + b)[a.len() + i] == '\n');
    }
}

proof fn lemma_dec_text_no_newline(n: nat)
    ensures
        no_newline(dec_text(n)),
    decreases n,
{
    if n >= 10 {
        lemma_dec_text_no_newline(n / 10);
        let d = crate::number::digit_char((n % 10) as int);
        assert(d != '\n');
        lemma_no_newline_concat(dec_text(n / 10), seq![d]);
        assert(dec_text(n / 10).push(d) =~= dec_text(n / 10) + seq![d]);
    } else {
        let d = crate::number::digit_char(n as int);
        assert(d != '\n');
        assert(!seq![d].contains('\n')) by {
            if seq![d].contains('\n') {
                assert(seq![d][0] == '\n');
            }
        }
    }
}

proof fn lemma_single_no_newline(c: char)
    requires
        c != '\n',
    ensures
        no_newline(seq![c]),
{
    if seq![c].contains('\n') {
        assert(seq![c][0] == '\n');
    }
}

proof fn lemma_tenths_no_newline(m: int)
    ensures
        no_newline(tenths_text(m)),
        no_newline(whole_text(m)),
{
    let t = crate::number::rounded_tenths(m);
    let sign: Seq<char> = if m < 0 {
        seq!['-']
    } else {
        Seq::empty()
    };
    lemma_single_no_newline('-');
    assert(no_newline(sign)) by {
        if m >= 0 {
            assert(!Seq::<char>::empty().contains('\n'));
        }
    }
    lemma_dec_text_no_newline(t / 10);
    let d = crate::number::digit_char((t % 10) as int);
    assert(no_newline(seq!['.', d])) by {
        if seq!['.', d].contains('\n') {
            let i = choose|i: int| 0 <= i < 2 && seq!['.', d][i] == '\n';
            assert(i == 0 || i == 1);
        }
    }
    lemma_no_newline_concat(sign, dec_text(t / 10));
    lemma_no_newline_concat(sign + dec_text(t / 10), seq!['.', d]);
    lemma_dec_text_no_newline(crate::number::round_half_even(crate::number::abs(m) as nat, 1000));
    lemma_no_newline_concat(
        sign,
        dec_text(crate::number::round_half_even(crate::number::abs(m) as nat, 1000)),
    );
}

proof fn lemma_flags_no_newline()
    ensures
        no_newline(flag(true)),
        no_newline(flag(false)),
        no_newline(Seq::<char>::empty()),
{
    reveal_strlit("1");
    reveal_strlit("0");
}

#[verifier::rlimit(100)]
proof fn lemma_core_fields_no_newline(s: MetricsSnapshot)
    requires
        no_newline(s.iface@),
    ensures
        no_newline(core_fields(s)),
{
    broadcast use lemma_no_newline_concat;

    lemma_flags_no_newline();
    reveal_strlit("CPU=");
    reveal_strlit(",TEMP=");
    reveal_strlit(",MEM=");
    reveal_strlit(",UP=");
    reveal_strlit(",RX=");
    reveal_strlit(",TX=");
    reveal_strlit(",IFACE=");
    reveal_strlit(",TEMPAV=");
    reveal_strlit(",GPUEN=");
    reveal_strlit(",DOCKEREN=");
    reveal_strlit(",VMSEN=");
    lemma_tenths_no_newline(s.cpu_pct as int);
    lemma_tenths_no_newline(s.cpu_temp as int);
    lemma_tenths_no_newline(s.mem_pct as int);
    lemma_tenths_no_newline(s.rx_kbps as int);
    lemma_tenths_no_newline(s.tx_kbps as int);
    lemma_dec_text_no_newline(s.uptime_secs as nat);
    assert(no_newline("CPU="@));
    assert(no_newline(",TEMP="@));
    assert(no_newline(",MEM="@));
    assert(no_newline(",UP="@));
    assert(no_newline(",RX="@));
    assert(no_newline(",TX="@));
    assert(no_newline(",IFACE="@));
    assert(no_newline(",TEMPAV="@));
    assert(no_newline(",GPUEN="@));
    assert(no_newline(",DOCKEREN="@));
    assert(no_newline(",VMSEN="@));
}

#[verifier::rlimit(100)]
proof fn lemma_disk_fields_no_newline(s: MetricsSnapshot)
    ensures
        no_newline(disk_fields(s)),
{
    broadcast use lemma_no_newline_concat;

    lemma_flags_no_newline();
    reveal_strlit("DISKTEMP=");
    reveal_strlit(",DISKPCT=");
    reveal_strlit(",DISKR=");
    reveal_strlit(",DISKW=");
    reveal_strlit(",FAN=");
    reveal_strlit(",DISKTAV=");
    reveal_strlit(",FANAV=");
    lemma_tenths_no_newline(s.disk_temp as int);
    lemma_tenths_no_newline(s.disk_pct as int);
    lemma_tenths_no_newline(s.disk_r_kbs as int);
    lemma_tenths_no_newline(s.disk_w_kbs as int);
    lemma_tenths_no_newline(s.fan_rpm as int);
    assert(no_newline("DISKTEMP="@));
    assert(no_newline(",DISKPCT="@));
    assert(no_newline(",DISKR="@));
    assert(no_newline(",DISKW="@));
    assert(no_newline(",FAN="@));
    assert(no_newline(",DISKTAV="@));
    assert(no_newline(",FANAV="@));
}

#[verifier::rlimit(100)]
proof fn lemma_gpu_fields_no_newline(s: MetricsSnapshot)
    ensures
        no_newline(gpu_fields(s)),
{
    broadcast use lemma_no_newline_concat;

    lemma_flags_no_newline();
    reveal_strlit("GPUT=");
    reveal_strlit(",GPUU=");
    reveal_strlit(",GPUVM=");
    reveal_strlit(",GPUAV=");
    lemma_tenths_no_newline(s.gpu_temp as int);
    lemma_tenths_no_newline(s.gpu_util as int);
    lemma_tenths_no_newline(s.gpu_mem as int);
    assert(no_newline("GPUT="@));
    assert(no_newline(",GPUU="@));
    assert(no_newline(",GPUVM="@));
    assert(no_newline(",GPUAV="@));
}

#[verifier::rlimit(100)]
proof fn lemma_docker_fields_no_newline(s: MetricsSnapshot)
    requires
        no_newline(s.docker_compact@),
    ensures
        no_newline(docker_fields(s)),
{
    broadcast use lemma_no_newline_concat;

    lemma_flags_no_newline();
    reveal_strlit("DOCKRUN=");
    reveal_strlit(",DOCKSTOP=");
    reveal_strlit(",DOCKUNH=");
    reveal_strlit(",DOCKER=");
    lemma_dec_text_no_newline(s.docker_running as nat);
    lemma_dec_text_no_newline(s.docker_stopped as nat);
    lemma_dec_text_no_newline(s.docker_unhealthy as nat);
    assert(no_newline("DOCKRUN="@));
    assert(no_newline(",DOCKSTOP="@));
    assert(no_newline(",DOCKUNH="@));
    assert(no_newline(",DOCKER="@));
}

#[verifier::rlimit(100)]
proof fn lemma_vms_fields_no_newline(s: MetricsSnapshot)
    requires
        no_newline(s.vms_compact@),
    ensures
        no_newline(vms_fields(s)),
{
    broadcast use lemma_no_newline_concat;

    lemma_flags_no_newline();
    reveal_strlit("VMSRUN=");
    reveal_strlit(",VMSSTOP=");
    reveal_strlit(",VMSPAUSE=");
    reveal_strlit(",VMSOTHER=");
    reveal_strlit(",VMS=");
    lemma_dec_text_no_newline(s.vms_running as nat);
    lemma_dec_text_no_newline(s.vms_stopped as nat);
    lemma_dec_text_no_newline(s.vms_paused as nat);
    lemma_dec_text_no_newline(s.vms_other as nat);
    assert(no_newline("VMSRUN="@));
    assert(no_newline(",VMSSTOP="@));
    assert(no_newline(",VMSPAUSE="@));
    assert(no_newline(",VMSOTHER="@));
    assert(no_newline(",VMS="@));
}

/// Every frame is a single line: where the interface name and the compact
/// listings hold no newline, the only newline of a frame is its last
/// character.
pub proof fn lemma_frames_single_line(s: MetricsSnapshot)
    requires
        no_newline(s.iface@),
        no_newline(s.docker_compact@),
        no_newline(s.vms_compact@),
    ensures
        forall|k: int| 0 <= k < 5 ==> no_newline((#[trigger] frames(s)[k]).drop_last()),
{
    broadcast use lemma_no_newline_concat;

    reveal_strlit(",POWER=RUNNING\n");
    reveal_strlit(",POWER=RUNNING");
    let body = ",POWER=RUNNING"@;
    assert(frame_end().drop_last() =~= body);
    assert(no_newline(body));
    lemma_core_fields_no_newline(s);
    lemma_disk_fields_no_newline(s);
    lemma_gpu_fields_no_newline(s);
    lemma_docker_fields_no_newline(s);
    lemma_vms_fields_no_newline(s);
    assert(frame_core(s).drop_last() =~= core_fields(s) + body);
    assert(frame_disk(s).drop_last() =~= disk_fields(s) + body);
    assert(frame_gpu(s).drop_last() =~= gpu_fields(s) + body);
    assert(frame_docker(s).drop_last() =~= docker_fields(s) + body);
    assert(frame_vms(s).drop_last() =~= vms_fields(s) + body);
}

} // verus!
