//! What is held against sleep, and readings about power and time.
use vstd::prelude::*;

use crate::text;

verus! {

/// What the process holds against the system.
#[derive(Clone, Copy, Debug, PartialEq, Eq, Structural)]
pub enum Held {
    /// Nothing: the system sleeps as it likes.
    Nothing,
    /// Sleep is prevented, the screen may turn off.
    System,
    /// Sleep is prevented and the screen is kept on.
    SystemDisplay,
}

/// `windows::Win32::System::Power::ES_CONTINUOUS`: the flag that makes a request stay in
/// force until the next one. Its value is the highest bit.
#[verifier::external_body]
fn es_continuous() -> (r: u32)
    ensures
        r == 0x8000_0000u32,
{
    windows::Win32::System::Power::ES_CONTINUOUS.0
}

/// `windows::Win32::System::Power::ES_SYSTEM_REQUIRED`: the flag that keeps the system
/// awake. Its value is 1.
#[verifier::external_body]
fn es_system_required() -> (r: u32)
    ensures
        r == 1u32,
{
    windows::Win32::System::Power::ES_SYSTEM_REQUIRED.0
}

/// `windows::Win32::System::Power::ES_DISPLAY_REQUIRED`: the flag that keeps the screen
/// on. Its value is 2.
#[verifier::external_body]
fn es_display_required() -> (r: u32)
    ensures
        r == 2u32,
{
    windows::Win32::System::Power::ES_DISPLAY_REQUIRED.0
}

impl Held {
    /// The request as execution-state flags: the sticky bit, which is always there, the
    /// system bit and the display bit.
    pub open spec fn bits(self) -> u32 {
        match self {
            Held::Nothing => 0x8000_0000,
            Held::System => 0x8000_0001,
            Held::SystemDisplay => 0x8000_0003,
        }
    }

    pub fn flags(self) -> (r: u32)
        ensures
            r == self.bits(),
    {
        assert(0x8000_0000u32 | 1u32 == 0x8000_0001u32) by (bit_vector);
        assert(0x8000_0001u32 | 2u32 == 0x8000_0003u32) by (bit_vector);
        let f: u32 = es_continuous();
        match self {
            Held::Nothing => f,
            Held::System => f | es_system_required(),
            Held::SystemDisplay => f | es_system_required() | es_display_required(),
        }
    }

    /// The name in the log.
    pub open spec fn name(self) -> Seq<char> {
        match self {
            Held::Nothing => "none"@,
            Held::System => "system"@,
            Held::SystemDisplay => "system+display"@,
        }
    }

    pub fn label(self) -> (r: &'static str)
        ensures
            r@ == self.name(),
    {
        match self {
            Held::Nothing => "none",
            Held::System => "system",
            Held::SystemDisplay => "system+display",
        }
    }
}

/// Every request is sticky: without that bit it would only reset the idle timer once.
pub proof fn law_requests_are_sticky(held: Held)
    ensures
        held.bits() & 0x8000_0000 == 0x8000_0000,
        held.bits() & 1 == 1 <==> held != Held::Nothing,
        held.bits() & 2 == 2 <==> held == Held::SystemDisplay,
{
    assert(0x8000_0000u32 & 0x8000_0000u32 == 0x8000_0000u32 && 0x8000_0001u32 & 0x8000_0000u32
        == 0x8000_0000u32 && 0x8000_0003u32 & 0x8000_0000u32 == 0x8000_0000u32) by (bit_vector);
    assert(0x8000_0000u32 & 1u32 == 0u32 && 0x8000_0001u32 & 1u32 == 1u32 && 0x8000_0003u32 & 1u32
        == 1u32) by (bit_vector);
    assert(0x8000_0000u32 & 2u32 == 0u32 && 0x8000_0001u32 & 2u32 == 0u32 && 0x8000_0003u32 & 2u32
        == 2u32) by (bit_vector);
}

/// Whether a request was accepted, given the state before it that the system reports:
/// zero stands for a failed call.
pub fn accepted(previous: u32) -> (r: bool)
    ensures
        r == (previous != 0),
{
    previous != 0
}

/// Where the power comes from.
#[derive(Clone, Copy, Debug, PartialEq, Eq, Structural)]
pub enum PowerSource {
    Ac,
    Dc,
    Unknown,
}

/// The source that an AC line status stands for; nothing where the status could not be
/// read.
pub open spec fn source_of(line: Option<u8>) -> PowerSource {
    match line {
        Some(n) => if n == 1 {
            PowerSource::Ac
        } else if n == 0 {
            PowerSource::Dc
        } else {
            PowerSource::Unknown
        },
        None => PowerSource::Unknown,
    }
}

pub fn power_source(line: Option<u8>) -> (r: PowerSource)
    ensures
        r == source_of(line),
{
    match line {
        Some(n) => if n == 1 {
            PowerSource::Ac
        } else if n == 0 {
            PowerSource::Dc
        } else {
            PowerSource::Unknown
        },
        None => PowerSource::Unknown,
    }
}

/// A point in local time.
#[derive(Clone, Copy, Debug)]
pub struct LocalTime {
    pub year: u16,
    pub month: u16,
    pub day: u16,
    pub hour: u16,
    pub minute: u16,
    pub second: u16,
}

/// A number with leading zeros.
pub open spec fn zeros(n: u16, width: nat) -> Seq<char> {
    text::pad_left(text::dec(n as nat), '0', width)
}

impl LocalTime {
    /// `YYYY-MM-DD hh:mm:ss`.
    pub open spec fn stamp(self) -> Seq<char> {
        zeros(self.year, 4) + "-"@ + zeros(self.month, 2) + "-"@ + zeros(self.day, 2) + " "@
            + zeros(self.hour, 2) + ":"@ + zeros(self.minute, 2) + ":"@ + zeros(self.second, 2)
    }
}

fn push_zeros(out: &mut String, n: u16, width: usize)
    ensures
        final(out)@ == old(out)@ + zeros(n, width as nat),
{
    text::push_left_padded(out, text::dec_string(n as u128).as_str(), '0', width);
}

/// A point in local time as the log shows it.
pub fn now_local(now: LocalTime) -> (r: String)
    ensures
        r@ == now.stamp(),
{
    let mut r = String::new();
    push_zeros(&mut r, now.year, 4);
    r.append("-");
    push_zeros(&mut r, now.month, 2);
    r.append("-");
    push_zeros(&mut r, now.day, 2);
    r.append(" ");
    push_zeros(&mut r, now.hour, 2);
    r.append(":");
    push_zeros(&mut r, now.minute, 2);
    r.append(":");
    push_zeros(&mut r, now.second, 2);
    assert(r@ == now.stamp());
    r
}

/// When the user was last seen.
#[derive(Clone, Copy, Debug)]
pub struct LastInput {
    /// The ticks of the last input, in milliseconds, counted in 32 bits.
    pub at: u32,
    /// The ticks now, counted in 64 bits.
    pub now: u64,
}

/// The milliseconds since the last input. Its counter wraps round, after 49.7 days of
/// uptime and again each time, so the difference is taken on that circle.
pub open spec fn idle_millis(input: LastInput) -> int {
    (input.now - input.at) % 0x1_0000_0000
}

/// Whether the user did something within the last seconds.
pub open spec fn active_within(input: Option<LastInput>, window_secs: u64) -> bool {
    match input {
        Some(i) => idle_millis(i) < window_secs * 1000,
        None => true,
    }
}

/// A user whose last input is some milliseconds ago is active within the window where those
/// are less than it, though the counter of the input has wrapped round in between.
pub proof fn law_idle_time_is_counted_round_the_wrap(now: u64, ago: u64, window_secs: u64)
    requires
        ago <= now,
        ago < 0x1_0000_0000,
    ensures
        ({
            let at = ((now - ago) % 0x1_0000_0000) as u32;
            let input = Some(LastInput { at, now });
            active_within(input, window_secs) <==> ago < window_secs * 1000
        }),
        active_within(None, window_secs),
{
    let then = now - ago;
    let at = then % 0x1_0000_0000;
    assert((now - at) % 0x1_0000_0000 == ago) by {
        assert(now - at == ago + (then / 0x1_0000_0000) * 0x1_0000_0000);
    }
}

/// The line status says whether the machine runs on AC power or on battery; anything else,
/// and no status, says nothing.
pub proof fn law_the_line_status_tells_the_source(line: Option<u8>)
    ensures
        source_of(line) == PowerSource::Ac <==> line == Some(1u8),
        source_of(line) == PowerSource::Dc <==> line == Some(0u8),
        source_of(line) == PowerSource::Unknown <==> line != Some(0u8) && line != Some(1u8),
{
}

proof fn lemma_zeros_value(s: Seq<char>, k: nat)
    requires
        text::all_digits(s),
    ensures
        text::value(text::repeat('0', k) + s) == text::value(s),
        text::all_digits(text::repeat('0', k) + s),
    decreases k + s.len(),
{
    let all = text::repeat('0', k) + s;
    if s.len() > 0 {
        assert forall|j: int| 0 <= j < s.drop_last().len() implies text::is_digit(
            #[trigger] s.drop_last()[j],
        ) by {
            assert(s.drop_last()[j] == s[j]);
        }
        lemma_zeros_value(s.drop_last(), k);
        assert(all.drop_last() == text::repeat('0', k) + s.drop_last());
        assert(all.last() == s.last());
        assert(text::is_digit(s[s.len() - 1]));
        assert(text::all_digits(all)) by {
            assert forall|j: int| 0 <= j < all.len() implies text::is_digit(#[trigger] all[j]) by {
                if j >= k {
                    assert(all[j] == s[j - k]);
                }
            }
        }
    } else if k > 0 {
        lemma_zeros_value(s, (k - 1) as nat);
        assert(all.drop_last() == text::repeat('0', (k - 1) as nat) + s);
        assert(all.last() == '0');
        assert(text::value(s) == 0);
        assert(text::all_digits(all)) by {
            assert forall|j: int| 0 <= j < all.len() implies text::is_digit(#[trigger] all[j]) by {
                assert(all[j] == '0');
            }
        }
    } else {
        assert(all == s);
    }
}

proof fn lemma_short(n: nat, k: nat)
    requires
        k == 2 || k == 4,
        k == 2 ==> n < 100,
        k == 4 ==> n < 10000,
    ensures
        text::dec(n).len() <= k,
{
    reveal_with_fuel(text::dec, 5);
}

/// A number with leading zeros has the width and reads back.
pub proof fn law_zeros_keep_the_number(n: u16, width: nat)
    requires
        width == 2 || width == 4,
        width == 2 ==> n < 100,
        width == 4 ==> n < 10000,
    ensures
        zeros(n, width).len() == width,
        text::all_digits(zeros(n, width)),
        text::value(zeros(n, width)) == n,
{
    text::law_digits_round_trip(n as nat);
    lemma_short(n as nat, width);
    lemma_zeros_value(text::dec(n as nat), text::lacking(text::dec(n as nat), width));
}

/// A point in time is told by its date and its time of day, each part at its place.
pub proof fn law_stamps_tell_the_time(t: LocalTime)
    requires
        t.year < 10000,
        t.month < 100,
        t.day < 100,
        t.hour < 100,
        t.minute < 100,
        t.second < 100,
    ensures
        ({
            let s = t.stamp();
            &&& s.len() == 19
            &&& text::value(s.subrange(0, 4)) == t.year
            &&& text::value(s.subrange(5, 7)) == t.month
            &&& text::value(s.subrange(8, 10)) == t.day
            &&& text::value(s.subrange(11, 13)) == t.hour
            &&& text::value(s.subrange(14, 16)) == t.minute
            &&& text::value(s.subrange(17, 19)) == t.second
            &&& s[4] == '-' && s[7] == '-' && s[10] == ' ' && s[13] == ':' && s[16] == ':'
        }),
{
    reveal_strlit("-");
    reveal_strlit(" ");
    reveal_strlit(":");
    law_zeros_keep_the_number(t.year, 4);
    law_zeros_keep_the_number(t.month, 2);
    law_zeros_keep_the_number(t.day, 2);
    law_zeros_keep_the_number(t.hour, 2);
    law_zeros_keep_the_number(t.minute, 2);
    law_zeros_keep_the_number(t.second, 2);
    let s = t.stamp();
    assert(s.subrange(0, 4) == zeros(t.year, 4));
    assert(s.subrange(5, 7) == zeros(t.month, 2));
    assert(s.subrange(8, 10) == zeros(t.day, 2));
    assert(s.subrange(11, 13) == zeros(t.hour, 2));
    assert(s.subrange(14, 16) == zeros(t.minute, 2));
    assert(s.subrange(17, 19) == zeros(t.second, 2));
}

/// Whether the user did something within the last seconds. Where the last input could
/// not be read, they are taken to be there.
pub fn user_active_recently(input: Option<LastInput>, window_secs: u64) -> (r: bool)
    requires
        window_secs * 1000 <= u64::MAX,
    ensures
        r == match input {
            Some(i) => idle_millis(i) < window_secs * 1000,
            None => true,
        },
        r == active_within(input, window_secs),
{
    match input {
        Some(i) => {
            let at: u64 = i.at as u64;
            let low: u64 = i.now % 0x1_0000_0000;
            let idle: u64 = if low >= at {
                low - at
            } else {
                0x1_0000_0000 - (at - low)
            };
            assert(idle == idle_millis(i));
            idle < window_secs * 1000
        },
        None => true,
    }
}

/// A request says that it lasts, and what for: the machine, or the screen as well.
pub proof fn law_requests_say_what_they_are_for(held: Held)
    ensures
        held.bits() == 0x8000_0000 + (if held == Held::Nothing {
            0int
        } else {
            1
        }) + (if held == Held::SystemDisplay {
            2int
        } else {
            0
        }),
{
}

} // verus!
