//! The traffic of all network interfaces together.
//!
//! The system lists every filter driver as an interface of its own, with the counters of
//! the card below it. They are left out, or each card would count several times.
use vstd::prelude::*;

use crate::config::Config;
use crate::detect;
use crate::detect::{RateMeter, Reason};
use crate::double;
use crate::double::Double;
use crate::text;

verus! {

/// Bytes per second as kilobytes per second, and those as megabytes.
pub open spec fn kilo(rate: Double) -> Double {
    rate.share(double::rounded(1024, 1))
}

pub fn kilo_of(rate: Double) -> (r: Double)
    ensures
        r == kilo(rate),
{
    rate.over(Double::whole(1024))
}

/// An interface as the system lists it.
pub struct NetRow {
    /// The flags of the interface; the second bit marks a filter driver.
    pub flags: u8,
    pub oper_status: i32,
    pub kind: u32,
    pub in_octets: u64,
    pub out_octets: u64,
    pub alias: Vec<u16>,
}

/// `windows::Win32::NetworkManagement::Ndis::IfOperStatusUp`: the status of an interface
/// that works. Its value is 1.
#[verifier::external_body]
fn if_oper_status_up() -> (r: i32)
    ensures
        r == 1i32,
{
    windows::Win32::NetworkManagement::Ndis::IfOperStatusUp.0
}

/// `windows::Win32::NetworkManagement::IpHelper::IF_TYPE_SOFTWARE_LOOPBACK`: the kind of
/// the loopback interface. Its value is 24.
#[verifier::external_body]
fn if_type_software_loopback() -> (r: u32)
    ensures
        r == 24u32,
{
    windows::Win32::NetworkManagement::IpHelper::IF_TYPE_SOFTWARE_LOOPBACK
}

impl NetRow {
    /// Whether the interface is a real one that works.
    pub open spec fn counts(self) -> bool {
        self.oper_status == 1 && self.kind != 24 && self.flags / 2 % 2 == 0
    }

    /// The bytes that it has carried both ways. The counter wraps round.
    pub open spec fn bytes(self) -> u64 {
        ((self.in_octets + self.out_octets) % 0x1_0000_0000_0000_0000) as u64
    }
}

/// The real interfaces among the first `n` rows, with their bytes.
pub open spec fn interfaces(rows: Seq<NetRow>, n: nat) -> Seq<(Seq<char>, u64)>
    decreases n,
{
    if n == 0 {
        Seq::empty()
    } else {
        let before = interfaces(rows, (n - 1) as nat);
        let row = rows[n - 1];
        if row.counts() {
            before.push((detect::wide_text(row.alias@), row.bytes()))
        } else {
            before
        }
    }
}

/// The bytes of all interfaces. The counter wraps round.
pub open spec fn total(ifaces: Seq<(Seq<char>, u64)>) -> u64
    decreases ifaces.len(),
{
    if ifaces.len() == 0 {
        0
    } else {
        ((total(ifaces.drop_last()) + ifaces.last().1) % 0x1_0000_0000_0000_0000) as u64
    }
}

pub open spec fn ifaces_view(v: Seq<(String, u64)>) -> Seq<(Seq<char>, u64)> {
    Seq::new(v.len(), |i: int| (v[i].0@, v[i].1))
}

/// The sum of two counters, which wraps round.
pub fn wrapping_sum(a: u64, b: u64) -> (r: u64)
    ensures
        r == (a + b) % 0x1_0000_0000_0000_0000,
{
    if a <= u64::MAX - b {
        a + b
    } else {
        a - (u64::MAX - b) - 1
    }
}

/// The bytes of all real interfaces, and those of each.
pub fn sample(rows: &Vec<NetRow>) -> (r: (u64, Vec<(String, u64)>))
    ensures
        ifaces_view(r.1@) == interfaces(rows@, rows@.len()),
        r.0 == total(interfaces(rows@, rows@.len())),
{
    let mut sum: u64 = 0;
    let mut ifaces: Vec<(String, u64)> = Vec::new();
    let mut i: usize = 0;
    assert(ifaces_view(ifaces@) == interfaces(rows@, 0));
    while i < rows.len()
        invariant
            i <= rows@.len(),
            ifaces_view(ifaces@) == interfaces(rows@, i as nat),
            sum == total(interfaces(rows@, i as nat)),
        decreases rows@.len() - i,
    {
        let row = &rows[i];
        let ghost done = interfaces(rows@, i as nat);
        let is_filter = row.flags / 2 % 2 != 0;
        if row.oper_status == if_oper_status_up() && row.kind != if_type_software_loopback()
            && !is_filter {
            let bytes: u64 = wrapping_sum(row.in_octets, row.out_octets);
            sum = wrapping_sum(sum, bytes);
            ifaces.push((detect::wide_to_string(row.alias.as_slice()), bytes));
            assert(ifaces_view(ifaces@) == done.push((detect::wide_text(row.alias@), bytes)));
            assert(interfaces(rows@, (i + 1) as nat).drop_last() == done);
        }
        i = i + 1;
    }
    (sum, ifaces)
}

pub struct NetDetector {
    /// The meter of the full rounds.
    pub meter: RateMeter,
    /// The meter of the quick looks. It must be another one: a quick look just before a
    /// round would leave that a window too short to measure anything.
    pub probe_meter: RateMeter,
    /// How many rounds in a row were above the threshold.
    pub consec: u32,
    /// The rate of the last round, in kilobytes per second.
    pub kbps: Double,
    /// The rate of the last quick look.
    pub probe_kbps: Double,
    pub ifaces: Vec<(String, u64)>,
}

/// What a detector knows.
pub struct NetState {
    pub meter: Option<(u64, u64)>,
    pub probe_meter: Option<(u64, u64)>,
    pub consec: u32,
    pub kbps: Double,
    pub probe_kbps: Double,
    pub ifaces: Seq<(Seq<char>, u64)>,
}

/// The least rate that counts, in kilobytes per second.
pub open spec fn threshold(cfg: Config) -> Double {
    double::rounded(cfg.net_threshold_kbps as nat, 1)
}

/// The rate in kilobytes per second that a meter gives.
pub open spec fn measured(prev: Option<(u64, u64)>, rows: Seq<NetRow>, now: u64) -> Option<Double> {
    match detect::rate_between(prev, total(interfaces(rows, rows.len())), now) {
        Some(r) => Some(kilo(r)),
        None => None,
    }
}

pub open spec fn initial() -> NetState {
    NetState {
        meter: None,
        probe_meter: None,
        consec: 0,
        kbps: double::nothing(),
        probe_kbps: double::nothing(),
        ifaces: Seq::empty(),
    }
}

/// The state after a quick look.
pub open spec fn after_probe(s: NetState, cfg: Config, rows: Seq<NetRow>, now: u64) -> NetState {
    let ifaces = interfaces(rows, rows.len());
    if !cfg.net_enabled {
        s
    } else {
        NetState {
            ifaces,
            probe_meter: Some((total(ifaces), now)),
            probe_kbps: match measured(s.probe_meter, rows, now) {
                Some(r) => r,
                None => s.probe_kbps,
            },
            ..s
        }
    }
}

/// Whether a quick look sees traffic.
pub open spec fn probed(s: NetState, cfg: Config, rows: Seq<NetRow>, now: u64) -> bool {
    cfg.net_enabled && match measured(s.probe_meter, rows, now) {
        Some(r) => !r.under(threshold(cfg)),
        None => false,
    }
}

/// One round more above the threshold.
pub open spec fn next(n: u32) -> u32 {
    if n < u32::MAX {
        (n + 1) as u32
    } else {
        n
    }
}

/// The state after a round. A disabled detector forgets everything, so that what is
/// carried in the meantime is not taken for one burst later.
pub open spec fn after_tick(s: NetState, cfg: Config, rows: Seq<NetRow>, now: u64) -> NetState {
    let ifaces = interfaces(rows, rows.len());
    let seen = NetState { ifaces, meter: Some((total(ifaces), now)), ..s };
    if !cfg.net_enabled {
        initial()
    } else {
        match measured(s.meter, rows, now) {
            Some(r) => NetState {
                kbps: r,
                consec: if !r.under(threshold(cfg)) {
                    next(s.consec)
                } else {
                    0
                },
                ..seen
            },
            None => seen,
        }
    }
}

/// A rate as it is told: in megabytes from one on.
pub open spec fn detail(kbps: Double) -> Seq<char> {
    if !kbps.under(double::rounded(1024, 1)) {
        kilo(kbps).text(1) + "MB/s"@
    } else {
        kbps.text(0) + "KB/s"@
    }
}

/// The reasons of a round: the traffic, once it has been above the threshold for
/// enough rounds in a row.
pub open spec fn reasons(s: NetState, cfg: Config, rows: Seq<NetRow>, now: u64) -> Seq<
    (Seq<char>, Seq<char>),
> {
    let t = after_tick(s, cfg, rows, now);
    let seen = measured(s.meter, rows, now);
    if cfg.net_enabled && seen is Some && !(seen->0).under(threshold(cfg)) && t.consec
        >= cfg.net_min_consecutive_tick {
        seq![("net"@, detail(t.kbps))]
    } else {
        Seq::empty()
    }
}

pub open spec fn status_head(s: NetState, cfg: Config) -> Seq<char> {
    "  rate="@ + s.kbps.text(1) + " KB/s ("@ + kilo(s.kbps).text(2) + " MB/s)  probe="@
        + s.probe_kbps.text(1) + " KB/s  threshold="@ + text::dec(cfg.net_threshold_kbps as nat) + " KB/s  consec="@
        + text::dec(s.consec as nat) + "/"@ + text::dec(cfg.net_min_consecutive_tick as nat)
}

pub open spec fn status_row(alias: Seq<char>, bytes: u64) -> Seq<char> {
    "    "@ + text::pad_right(alias, 34) + " total="@ + text::dec(bytes as nat) + " B"@
}

/// The lines that show the detector.
pub open spec fn status(s: NetState, cfg: Config) -> Seq<Seq<char>> {
    if !cfg.net_enabled {
        seq!["  (disabled)"@]
    } else {
        seq![status_head(s, cfg)] + Seq::new(
            s.ifaces.len(),
            |i: int| status_row(s.ifaces[i].0, s.ifaces[i].1),
        )
    }
}

fn detail_string(kbps: Double) -> (r: String)
    ensures
        r@ == detail(kbps),
{
    if !kbps.less(Double::whole(1024)) {
        let mut r = kilo_of(kbps).show(1);
        r.append("MB/s");
        r
    } else {
        let mut r = kbps.show(0);
        r.append("KB/s");
        r
    }
}

fn row_string(alias: &str, bytes: u64) -> (r: String)
    ensures
        r@ == status_row(alias@, bytes),
{
    let mut r = "    ".to_owned();
    text::push_right_padded(&mut r, alias, 34);
    r.append(" total=");
    text::push_dec(&mut r, bytes as u128);
    r.append(" B");
    r
}

/// The least rate that counts.
fn least(cfg: &Config) -> (r: Double)
    ensures
        r == threshold(*cfg),
{
    Double::whole(cfg.net_threshold_kbps)
}

impl NetDetector {
    pub open spec fn state(self) -> NetState {
        NetState {
            meter: self.meter.prev,
            probe_meter: self.probe_meter.prev,
            consec: self.consec,
            kbps: self.kbps,
            probe_kbps: self.probe_kbps,
            ifaces: ifaces_view(self.ifaces@),
        }
    }

    pub fn new() -> (d: NetDetector)
        ensures
            d.state() == initial(),
    {
        let d = NetDetector {
            meter: RateMeter::new(),
            probe_meter: RateMeter::new(),
            consec: 0,
            kbps: Double::zero(),
            probe_kbps: Double::zero(),
            ifaces: Vec::new(),
        };
        assert(d.state().ifaces == initial().ifaces);
        d
    }

    /// A quick look: whether there may be traffic. Counting rounds is left to `tick`.
    pub fn probe(&mut self, cfg: &Config, rows: &Vec<NetRow>, now: u64) -> (r: bool)
        ensures
            final(self).state() == after_probe(old(self).state(), *cfg, rows@, now),
            r == probed(old(self).state(), *cfg, rows@, now),
    {
        if !cfg.net_enabled {
            return false;
        }
        let (sum, ifaces) = sample(rows);
        self.ifaces = ifaces;
        match self.probe_meter.update(sum, now) {
            Some(rate) => {
                self.probe_kbps = kilo_of(rate);
                !self.probe_kbps.less(least(cfg))
            },
            None => false,
        }
    }

    /// One round.
    pub fn tick(&mut self, cfg: &Config, rows: &Vec<NetRow>, now: u64) -> (out: Vec<Reason>)
        ensures
            final(self).state() == after_tick(old(self).state(), *cfg, rows@, now),
            detect::pairs(out@) == reasons(old(self).state(), *cfg, rows@, now),
    {
        let mut out: Vec<Reason> = Vec::new();
        assert(detect::pairs(out@) == Seq::<(Seq<char>, Seq<char>)>::empty());
        if !cfg.net_enabled {
            self.consec = 0;
            self.kbps = Double::zero();
            self.probe_kbps = Double::zero();
            self.ifaces = Vec::new();
            self.meter = RateMeter::new();
            self.probe_meter = RateMeter::new();
            assert(self.state().ifaces == initial().ifaces);
            return out;
        }
        let (sum, ifaces) = sample(rows);
        self.ifaces = ifaces;
        let kbps = match self.meter.update(sum, now) {
            Some(rate) => kilo_of(rate),
            None => {
                return out;
            },
        };
        self.kbps = kbps;
        if kbps.less(least(cfg)) {
            self.consec = 0;
            return out;
        }
        if self.consec < u32::MAX {
            self.consec = self.consec + 1;
        }
        if self.consec < cfg.net_min_consecutive_tick {
            return out;
        }
        out.push(Reason { kind: "net", detail: detail_string(kbps) });
        assert(detect::pairs(out@) == seq![("net"@, detail(kbps))]);
        out
    }

    pub fn status_lines(&self, cfg: &Config) -> (lines: Vec<String>)
        ensures
            text::views(lines@) == status(self.state(), *cfg),
    {
        let ghost s = self.state();
        let mut lines: Vec<String> = Vec::new();
        if !cfg.net_enabled {
            lines.push("  (disabled)".to_owned());
            assert(text::views(lines@) == seq!["  (disabled)"@]);
            return lines;
        }
        let mut head = "  rate=".to_owned();
        head.append(self.kbps.show(1).as_str());
        head.append(" KB/s (");
        head.append(kilo_of(self.kbps).show(2).as_str());
        head.append(" MB/s)  probe=");
        head.append(self.probe_kbps.show(1).as_str());
        head.append(" KB/s  threshold=");
        text::push_dec(&mut head, cfg.net_threshold_kbps as u128);
        head.append(" KB/s  consec=");
        text::push_dec(&mut head, self.consec as u128);
        head.append("/");
        text::push_dec(&mut head, cfg.net_min_consecutive_tick as u128);
        assert(head@ == status_head(s, *cfg));
        let ghost first = head@;
        lines.push(head);
        let mut i: usize = 0;
        assert(text::views(lines@) == seq![first] + Seq::new(
            0,
            |k: int| status_row(s.ifaces[k].0, s.ifaces[k].1),
        ));
        while i < self.ifaces.len()
            invariant
                i <= self.ifaces@.len(),
                s == self.state(),
                text::views(lines@) == seq![first] + Seq::new(
                    i as nat,
                    |k: int| status_row(s.ifaces[k].0, s.ifaces[k].1),
                ),
            decreases self.ifaces@.len() - i,
        {
            let ghost done = text::views(lines@);
            lines.push(row_string(self.ifaces[i].0.as_str(), self.ifaces[i].1));
            assert(text::views(lines@) == done.push(
                status_row(s.ifaces[i as int].0, s.ifaces[i as int].1),
            ));
            i = i + 1;
            assert(text::views(lines@) == seq![first] + Seq::new(
                i as nat,
                |k: int| status_row(s.ifaces[k].0, s.ifaces[k].1),
            ));
        }
        lines
    }
}

/// A quick look before a round changes nothing about the round: neither its reasons
/// nor what it measures and counts.
pub proof fn law_probe_leaves_the_round_alone(
    s: NetState,
    cfg: Config,
    looked_at: Seq<NetRow>,
    looked: u64,
    rows: Seq<NetRow>,
    now: u64,
)
    ensures
        ({
            let p = after_probe(s, cfg, looked_at, looked);
            let (a, b) = (after_tick(s, cfg, rows, now), after_tick(p, cfg, rows, now));
            &&& reasons(p, cfg, rows, now) == reasons(s, cfg, rows, now)
            &&& a.meter == b.meter
            &&& a.kbps == b.kbps
            &&& a.consec == b.consec
            &&& a.ifaces == b.ifaces
        }),
{
}

/// After a round with the detector disabled, the first round with it enabled gives no
/// reason, whatever was carried in between.
pub proof fn law_enabling_starts_afresh(
    s: NetState,
    off: Config,
    unseen: Seq<NetRow>,
    at: u64,
    on: Config,
    rows: Seq<NetRow>,
    now: u64,
)
    requires
        !off.net_enabled,
    ensures
        reasons(after_tick(s, off, unseen, at), on, rows, now) == Seq::<
            (Seq<char>, Seq<char>),
        >::empty(),
        !probed(after_tick(s, off, unseen, at), on, rows, now),
{
}

/// A round below the threshold breaks the row: the next one counts from one.
pub proof fn law_a_quiet_round_breaks_the_row(
    s: NetState,
    cfg: Config,
    quiet: Seq<NetRow>,
    at: u64,
    rows: Seq<NetRow>,
    now: u64,
)
    requires
        cfg.net_enabled,
        cfg.net_min_consecutive_tick > 1,
        ({
            let r = measured(s.meter, quiet, at);
            r is Some && (r->0).under(threshold(cfg))
        }),
    ensures
        after_tick(after_tick(s, cfg, quiet, at), cfg, rows, now).consec <= 1,
        reasons(after_tick(s, cfg, quiet, at), cfg, rows, now) == Seq::<
            (Seq<char>, Seq<char>),
        >::empty(),
{
}

} // verus!
