//! What holds of the traffic.
use vstd::prelude::*;

use crate::config::Config;
use crate::detect;
use crate::detect::net;
use crate::detect::net::{NetRow, NetState};
use crate::double;
use crate::double::Double;
use crate::double_laws;

verus! {

// ───────────────────────── counting bytes ─────────────────────────

proof fn lemma_prefix(rows: Seq<NetRow>, row: NetRow, n: nat)
    requires
        n <= rows.len(),
    ensures
        net::interfaces(rows.push(row), n) == net::interfaces(rows, n),
    decreases n,
{
    if n > 0 {
        lemma_prefix(rows, row, (n - 1) as nat);
        assert(rows.push(row)[n - 1] == rows[n - 1]);
    }
}

/// An interface counts where it works, is not the loopback and is no filter driver: then it
/// adds the bytes that it has carried both ways, and otherwise it changes nothing. The
/// counters wrap round.
pub proof fn law_real_interfaces_add_their_bytes(rows: Seq<NetRow>, row: NetRow)
    ensures
        ({
            let before = net::interfaces(rows, rows.len());
            let after = net::interfaces(rows.push(row), rows.len() + 1);
            let counts = row.oper_status == 1 && row.kind != 24 && row.flags & 2 == 0;
            &&& counts ==> after == before.push(
                (
                    detect::wide_text(row.alias@),
                    ((row.in_octets + row.out_octets) % 0x1_0000_0000_0000_0000) as u64,
                ),
            )
            &&& counts ==> net::total(after) == (net::total(before) + row.in_octets
                + row.out_octets) % 0x1_0000_0000_0000_0000
            &&& !counts ==> after == before
        }),
        net::interfaces(Seq::empty(), 0) == Seq::<(Seq<char>, u64)>::empty(),
        net::total(Seq::empty()) == 0,
{
    let flags = row.flags;
    assert(flags & 2 == 0 <==> flags / 2 % 2 == 0) by (bit_vector);
    lemma_prefix(rows, row, rows.len());
    assert(rows.push(row)[rows.len() as int] == row);
    let before = net::interfaces(rows, rows.len());
    let x = (
        detect::wide_text(row.alias@),
        ((row.in_octets + row.out_octets) % 0x1_0000_0000_0000_0000) as u64,
    );
    assert(before.push(x).drop_last() == before);
}

// ───────────────────────── rates ─────────────────────────

/// The kilobytes per second from one state of a counter to another.
pub open spec fn kilobytes_per_second(old: u64, total: u64, nanos: u64) -> Double {
    let gained = if total >= old {
        (total - old) as nat
    } else {
        0
    };
    double::rounded(gained, 1).share(double::seconds(nanos)).share(double::rounded(1024, 1))
}

/// A round that can measure takes the traffic since the one before for its rate. Where that
/// reaches the threshold, however high it is, the row of such rounds grows by one, and once
/// it is long enough the round gives one reason; where it does not, the row is broken and
/// there is no reason.
pub proof fn law_rounds_count_traffic_in_a_row(
    s: NetState,
    cfg: Config,
    rows: Seq<NetRow>,
    old: u64,
    at: u64,
    now: u64,
)
    requires
        cfg.net_enabled,
        s.meter == Some((old, at)),
        detect::elapsed(at, now) > 50_000_000,
        s.consec < u32::MAX,
    ensures
        ({
            let total = net::total(net::interfaces(rows, rows.len()));
            let rate = kilobytes_per_second(old, total, detect::elapsed(at, now) as u64);
            let fast = !rate.under(double::rounded(cfg.net_threshold_kbps as nat, 1));
            let t = net::after_tick(s, cfg, rows, now);
            let told = net::reasons(s, cfg, rows, now);
            &&& t.kbps == rate
            &&& t.meter == Some((total, now))
            &&& t.ifaces == net::interfaces(rows, rows.len())
            &&& fast ==> t.consec == s.consec + 1
            &&& fast && s.consec + 1 >= cfg.net_min_consecutive_tick ==> told.len() == 1
                && told[0].0 == "net"@
            &&& fast && s.consec + 1 < cfg.net_min_consecutive_tick ==> told.len() == 0
            &&& !fast ==> t.consec == 0 && told.len() == 0
        }),
{
}

/// A first round, and one that comes too soon, measures nothing: it gives no reason and
/// leaves the row and the rate as they are, but keeps the counter for the next round.
pub proof fn law_rounds_without_a_measure_change_nothing(
    s: NetState,
    cfg: Config,
    rows: Seq<NetRow>,
    now: u64,
)
    requires
        cfg.net_enabled,
        s.meter is None || detect::elapsed((s.meter->0).1, now) <= 50_000_000,
    ensures
        ({
            let t = net::after_tick(s, cfg, rows, now);
            &&& t.consec == s.consec
            &&& t.kbps == s.kbps
            &&& t.meter == Some((net::total(net::interfaces(rows, rows.len())), now))
            &&& net::reasons(s, cfg, rows, now).len() == 0
        }),
{
}

/// A reason tells the rate of the round: in megabytes per second from 1024 kilobytes on,
/// with one place, and below in whole kilobytes.
pub proof fn law_the_reason_tells_the_rate(kbps: Double)
    ensures
        kbps.under(double::rounded(1024, 1)) ==> net::detail(kbps) == kbps.text(0) + "KB/s"@,
        !kbps.under(double::rounded(1024, 1)) ==> net::detail(kbps) == kbps.share(
            double::rounded(1024, 1),
        ).text(1) + "MB/s"@,
{
}

/// The reason of a round is about the rate of that round.
pub proof fn law_the_reason_is_about_this_round(
    s: NetState,
    cfg: Config,
    rows: Seq<NetRow>,
    now: u64,
)
    requires
        net::reasons(s, cfg, rows, now).len() > 0,
    ensures
        net::reasons(s, cfg, rows, now) == seq![
            ("net"@, net::detail(net::after_tick(s, cfg, rows, now).kbps)),
        ],
        cfg.net_enabled,
{
}

/// A disabled detector gives no reason and sees nothing in a quick look.
pub proof fn law_a_disabled_detector_is_blind(
    s: NetState,
    cfg: Config,
    rows: Seq<NetRow>,
    now: u64,
)
    requires
        !cfg.net_enabled,
    ensures
        net::reasons(s, cfg, rows, now).len() == 0,
        !net::probed(s, cfg, rows, now),
        net::after_probe(s, cfg, rows, now) == s,
        ({
            let t = net::after_tick(s, cfg, rows, now);
            t.meter is None && t.probe_meter is None && t.consec == 0 && t.kbps.is_zero()
                && t.probe_kbps.is_zero() && t.ifaces.len() == 0
        }),
{
}

/// A quick look sees traffic where the rate since the quick look before reaches the
/// threshold; it needs no row, and a first one sees none.
pub proof fn law_the_quick_look_sees_traffic(
    s: NetState,
    cfg: Config,
    rows: Seq<NetRow>,
    old: u64,
    at: u64,
    now: u64,
)
    requires
        cfg.net_enabled,
    ensures
        ({
            let total = net::total(net::interfaces(rows, rows.len()));
            let rate = kilobytes_per_second(old, total, detect::elapsed(at, now) as u64);
            let later = NetState { probe_meter: Some((old, at)), ..s };
            let first = NetState { probe_meter: None, ..s };
            &&& detect::elapsed(at, now) > 50_000_000 ==> (net::probed(later, cfg, rows, now) <==> !rate.under(
                double::rounded(cfg.net_threshold_kbps as nat, 1),
            ))
            &&& detect::elapsed(at, now) > 50_000_000 ==> net::after_probe(later, cfg, rows, now).probe_kbps == rate
            &&& detect::elapsed(at, now) <= 50_000_000 ==> !net::probed(later, cfg, rows, now)
            &&& !net::probed(first, cfg, rows, now)
            &&& net::after_probe(later, cfg, rows, now).probe_meter == Some((total, now))
        }),
{
}

/// A rate that reaches the threshold still does when it is higher.
pub proof fn law_faster_traffic_counts_too(rate: Double, faster: Double, cfg: Config)
    requires
        !rate.under(net::threshold(cfg)),
        !faster.under(rate),
    ensures
        !faster.under(double::rounded(cfg.net_threshold_kbps as nat, 1)),
{
    double_laws::law_order_is_transitive(net::threshold(cfg), rate, faster);
}

} // verus!
