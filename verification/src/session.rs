//! The decisions of the bridge's main loop: which serial port to use,
//! whether to run without one, which frame to send next, and when to
//! announce the host name.

use vstd::prelude::*;
use crate::sensors::{first_some, lemma_first_some_hit, lemma_first_some_step};
use crate::text::{contains, contains_str, eq_str, str_chars};

verus! {

pub open spec fn first_containing(names: Seq<Seq<char>>, p: Seq<char>) -> Option<Seq<char>> {
    first_some(
        names,
        |n: Seq<char>|
            if contains(n, p) {
                Some(n)
            } else {
                None
            },
    )
}

/// The serial port to use: the first USB CDC device (a name holding
/// `ttyACM`), else the first USB serial adapter (`ttyUSB`), else the first
/// port listed.
pub open spec fn port_choice(names: Seq<Seq<char>>) -> Option<Seq<char>> {
    match first_containing(names, "ttyACM"@) {
        Some(n) => Some(n),
        None => match first_containing(names, "ttyUSB"@) {
            Some(n) => Some(n),
            None => if names.len() > 0 {
                Some(names[0])
            } else {
                None
            },
        },
    }
}

fn first_containing_exec(names: &Vec<String>, p: &str) -> (r: Option<String>)
    ensures
        match r {
            Some(n) => first_containing(names@.map_values(|s: String| s@), p@) == Some(n@),
            None => first_containing(names@.map_values(|s: String| s@), p@) is None,
        },
{
    let ghost ns = names@.map_values(|s: String| s@);
    let ghost f = |n: Seq<char>|
        if contains(n, p@) {
            Some(n)
        } else {
            None
        };
    assert(ns.skip(0) =~= ns);
    let mut i: usize = 0;
    while i < names.len()
        invariant
            i <= names.len(),
            ns == names@.map_values(|s: String| s@),
            f == (|n: Seq<char>|
                if contains(n, p@) {
                    Some(n)
                } else {
                    None
                }),
            first_some(ns, f) == first_some(ns.skip(i as int), f),
        decreases names.len() - i,
    {
        let n = str_chars(names[i].as_str());
        assert(ns[i as int] == names@[i as int]@);
        if contains_str(&n, p) {
            proof {
                lemma_first_some_hit(ns, f, i as int);
            }
            return Some(names[i].clone());
        }
        proof {
            lemma_first_some_step(ns, f, i as int);
        }
        i = i + 1;
    }
    assert(ns.skip(i as int).len() == 0);
    None
}

/// Picks the serial port among the available ones, as `port_choice` says.
pub fn choose_serial_port(names: &Vec<String>) -> (r: Option<String>)
    ensures
        match r {
            Some(n) => port_choice(names@.map_values(|s: String| s@)) == Some(n@),
            None => port_choice(names@.map_values(|s: String| s@)) is None,
        },
        r is None <==> names.len() == 0,
{
    let acm = first_containing_exec(names, "ttyACM");
    if acm.is_some() {
        return acm;
    }
    let usb = first_containing_exec(names, "ttyUSB");
    if usb.is_some() {
        return usb;
    }
    if names.len() > 0 {
        assert(names@.map_values(|s: String| s@)[0] == names@[0]@);
        Some(names[0].clone())
    } else {
        None
    }
}

/// The bridge runs without a serial port when asked to, or when the port
/// is given as `debug` or `none`.
pub open spec fn debug_mode(debug: bool, port: Option<Seq<char>>) -> bool {
    debug || port == Some("debug"@) || port == Some("none"@)
}

pub fn is_debug_mode(debug: bool, port: Option<&str>) -> (b: bool)
    ensures
        b == debug_mode(
            debug,
            match port {
                Some(p) => Some(p@),
                None => None,
            },
        ),
{
    if debug {
        return true;
    }
    match port {
        Some(p) => {
            let pv = str_chars(p);
            eq_str(&pv, "debug") || eq_str(&pv, "none")
        },
        None => false,
    }
}

/// The number of rotating frames.
pub open spec fn frame_count() -> nat {
    5
}

/// The frame that follows frame `i` in the rotation.
pub open spec fn next_index(i: nat) -> nat {
    ((i + 1) % 5) as nat
}

/// The state of the main loop: the frame to send next, whether a serial
/// port is open, and whether the host name was sent on it.
pub struct Session {
    pub frame_index: usize,
    pub connected: bool,
    pub hostname_sent: bool,
}

impl Session {
    /// The session is well formed: the frame index names a frame.
    pub open spec fn wf(&self) -> bool {
        self.frame_index < 5
    }

    /// A session before the first frame, with no port open.
    pub fn new() -> (s: Session)
        ensures
            s.wf(),
            s.frame_index == 0,
            !s.connected,
            !s.hostname_sent,
    {
        Session { frame_index: 0, connected: false, hostname_sent: false }
    }

    /// Whether to try to open the serial port: outside debug mode, when none is open.
    pub fn needs_connect(&self, debug: bool) -> (b: bool)
        ensures
            b == (!debug && !self.connected),
    {
        !debug && !self.connected
    }

    /// The port was opened: the host name is due on it.
    pub fn on_connected(&mut self)
        requires
            old(self).wf(),
        ensures
            final(self).wf(),
            final(self).connected,
            !final(self).hostname_sent,
            final(self).frame_index == old(self).frame_index,
    {
        self.connected = true;
        self.hostname_sent = false;
    }

    /// A write failed: the port is closed and will be opened again.
    pub fn on_write_failed(&mut self)
        requires
            old(self).wf(),
        ensures
            final(self).wf(),
            !final(self).connected,
            final(self).hostname_sent == old(self).hostname_sent,
            final(self).frame_index == old(self).frame_index,
    {
        self.connected = false;
    }

    /// Whether the host name must be sent before the next frame: the port
    /// is open and the name was not sent on it yet.
    pub fn needs_hostname(&self) -> (b: bool)
        ensures
            b == (self.connected && !self.hostname_sent),
    {
        self.connected && !self.hostname_sent
    }

    /// The host name was sent on the open port.
    pub fn on_hostname_sent(&mut self)
        requires
            old(self).wf(),
        ensures
            final(self).wf(),
            final(self).hostname_sent,
            final(self).connected == old(self).connected,
            final(self).frame_index == old(self).frame_index,
    {
        self.hostname_sent = true;
    }

    /// The frame to send now; the rotation moves on to the next one.
    pub fn next_frame(&mut self) -> (i: usize)
        requires
            old(self).wf(),
        ensures
            final(self).wf(),
            i == old(self).frame_index,
            i < frame_count(),
            final(self).frame_index == next_index(old(self).frame_index as nat),
            final(self).connected == old(self).connected,
            final(self).hostname_sent == old(self).hostname_sent,
    {
        let i = self.frame_index;
        self.frame_index = (self.frame_index + 1) % 5;
        i
    }
}

/// The frame index after `k` frames were sent from index `i`.
pub open spec fn index_after(i: nat, k: nat) -> nat
    decreases k,
{
    if k == 0 {
        i
    } else {
        next_index(index_after(i, (k - 1) as nat))
    }
}

/// The frames rotate with period five: `k` sends after frame `i`, frame
/// `(i + k) % 5` is due, so five consecutive sends cover every frame and
/// the sixth repeats the first.
pub proof fn lemma_rotation_period(i: nat, k: nat)
    requires
        i < 5,
    ensures
        index_after(i, k) == (i + k) % 5,
    decreases k,
{
    if k > 0 {
        lemma_rotation_period(i, (k - 1) as nat);
    }
}

/// How long to wait, in milliseconds, before trying again to open the
/// serial port after it failed to open.
pub open spec fn open_retry_millis() -> nat {
    2000
}

pub fn open_retry_delay() -> (ms: u64)
    ensures
        ms == open_retry_millis(),
{
    2000
}

/// How long to pause after a round, in nanoseconds: nothing after a failed
/// write (the next round reconnects at once), else what is left of the
/// interval (nothing where the round took the whole interval or longer).
pub open spec fn pause_after(write_failed: bool, interval: nat, elapsed: nat) -> nat {
    if write_failed || elapsed >= interval {
        0
    } else {
        (interval - elapsed) as nat
    }
}

pub fn pause_after_round(write_failed: bool, interval_nanos: u64, elapsed_nanos: u64) -> (r: u64)
    ensures
        r == pause_after(write_failed, interval_nanos as nat, elapsed_nanos as nat),
{
    if write_failed || elapsed_nanos >= interval_nanos {
        0
    } else {
        interval_nanos - elapsed_nanos
    }
}

} // verus!
