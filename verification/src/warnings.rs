//! What a configuration file says that is not taken as it stands.
//!
//! A value that makes no sense falls back to its default, and one out of range is
//! brought into it. Either would leave the user wondering why a setting has no effect.
use vstd::prelude::*;

use crate::config;
use crate::config::{Config, Settings};
use crate::fixed;
use crate::text;

verus! {

/// What is said of a value that is not taken as it stands.
pub open spec fn complaint(key: Seq<char>, value: Seq<char>, used: Seq<char>) -> Seq<char> {
    key + " = "@ + value + " 无效或超出范围, 按 "@ + used + " 处理"@
}

/// A list with the complaint where it is due.
pub open spec fn complaint_if(
    due: bool,
    key: Seq<char>,
    value: Seq<char>,
    used: Seq<char>,
) -> Seq<Seq<char>> {
    if due {
        seq![complaint(key, value, used)]
    } else {
        Seq::empty()
    }
}

/// Of a whole number that is none or was brought into range.
pub open spec fn whole_complaint(
    es: Seq<(Seq<char>, Seq<char>)>,
    key: Seq<char>,
    used: u64,
) -> Seq<Seq<char>> {
    let v = config::lookup(es, key);
    complaint_if(
        config::has_key(es, key) && text::parse_u64(v) != Some(used),
        key,
        v,
        text::dec(used as nat),
    )
}

/// Of a number that is none.
pub open spec fn number_complaint(
    es: Seq<(Seq<char>, Seq<char>)>,
    key: Seq<char>,
) -> Seq<Seq<char>> {
    let v = config::lookup(es, key);
    complaint_if(
        config::has_key(es, key) && fixed::parse_number(v) is None,
        key,
        v,
        "默认值"@,
    )
}

/// Of a switch in none of the known spellings: its meaning is then the default's.
pub open spec fn switch_complaint(
    es: Seq<(Seq<char>, Seq<char>)>,
    key: Seq<char>,
    used: bool,
) -> Seq<Seq<char>> {
    let v = config::lookup(es, key);
    complaint_if(
        config::has_key(es, key) && config::switch(v, true) != config::switch(v, false),
        key,
        v,
        text::truth(used),
    )
}

/// Of a policy that is neither of the two.
pub open spec fn policy_complaint(
    es: Seq<(Seq<char>, Seq<char>)>,
    key: Seq<char>,
    used: Seq<char>,
) -> Seq<Seq<char>> {
    let v = config::lookup(es, key);
    complaint_if(
        config::has_key(es, key) && text::lower(v) != "system"@ && text::lower(v) != "display"@,
        key,
        v,
        used,
    )
}

/// Everything that is not taken as it stands, in the order of the keys.
pub open spec fn warnings_of(es: Seq<(Seq<char>, Seq<char>)>, s: Settings) -> Seq<Seq<char>> {
    whole_complaint(es, "poll_interval_secs"@, s.poll_interval_secs)
        + whole_complaint(es, "fast_poll_secs"@, s.fast_poll_secs)
        + whole_complaint(es, "grace_secs"@, s.grace_secs)
        + policy_complaint(es, "policy_ac"@, s.policy_ac)
        + policy_complaint(es, "policy_dc"@, s.policy_dc)
        + switch_complaint(es, "never_wake_display"@, s.never_wake_display)
        + switch_complaint(es, "sleep_on_release"@, s.sleep_on_release)
        + switch_complaint(es, "audio_enabled"@, s.audio_enabled)
        + number_complaint(es, "audio_peak_threshold"@)
        + whole_complaint(es, "audio_hold_secs"@, s.audio_hold_secs)
        + switch_complaint(es, "net_enabled"@, s.net_enabled)
        + whole_complaint(es, "net_threshold_kbps"@, s.net_threshold_kbps)
        + whole_complaint(es, "net_min_consecutive_tick"@, s.net_min_consecutive_tick as u64)
        + switch_complaint(es, "proc_enabled"@, s.proc_enabled)
        + number_complaint(es, "proc_cpu_percent_1core"@)
        + switch_complaint(es, "dl_enabled"@, s.dl_enabled)
        + whole_complaint(es, "dl_io_kbps"@, s.dl_io_kbps)
        + whole_complaint(es, "dl_tcp_conns"@, s.dl_tcp_conns as u64)
        + switch_complaint(es, "hint_enabled"@, s.hint_enabled)
        + whole_complaint(es, "hint_ttl_secs"@, s.hint_ttl_secs)
}

fn key_set(es: &Vec<(Vec<char>, Vec<char>)>, key: &str) -> (r: bool)
    ensures
        r == config::has_key(config::pair_views(es@), key@),
{
    let ghost all = config::pair_views(es@);
    let k = text::chars_of(key);
    let mut i: usize = 0;
    while i < es.len()
        invariant
            i <= es@.len(),
            all == config::pair_views(es@),
            k@ == key@,
            forall|j: int| 0 <= j < i ==> (#[trigger] all[j]).0 != key@,
        decreases es@.len() - i,
    {
        assert(all[i as int].0 == es@[i as int].0@);
        if text::same_chars(es[i].0.as_slice(), k.as_slice()) {
            return true;
        }
        i = i + 1;
    }
    false
}

fn complain(out: &mut Vec<String>, due: bool, key: &str, value: &[char], used: &str)
    ensures
        text::views(final(out)@) == text::views(old(out)@) + complaint_if(
            due,
            key@,
            value@,
            used@,
        ),
{
    let ghost before = text::views(out@);
    if due {
        let mut line = key.to_owned();
        line.append(" = ");
        text::push_chars(&mut line, value);
        line.append(" 无效或超出范围, 按 ");
        line.append(used);
        line.append(" 处理");
        let ghost said = line@;
        out.push(line);
        assert(text::views(out@) == before.push(said));
        assert(before.push(said) == before + seq![said]);
    } else {
        assert(before + Seq::<Seq<char>>::empty() == before);
    }
}

fn complain_whole(out: &mut Vec<String>, es: &Vec<(Vec<char>, Vec<char>)>, key: &str, used: u64)
    ensures
        text::views(final(out)@) == text::views(old(out)@) + whole_complaint(
            config::pair_views(es@),
            key@,
            used,
        ),
{
    let v = config::get(es, key);
    let taken = match text::read_u64(v.as_slice()) {
        Some(n) => n == used,
        None => false,
    };
    let due = key_set(es, key) && !taken;
    complain(out, due, key, v.as_slice(), text::dec_string(used as u128).as_str());
}

fn complain_number(out: &mut Vec<String>, es: &Vec<(Vec<char>, Vec<char>)>, key: &str)
    ensures
        text::views(final(out)@) == text::views(old(out)@) + number_complaint(
            config::pair_views(es@),
            key@,
        ),
{
    let v = config::get(es, key);
    let taken = match fixed::read_number(v.as_slice()) {
        Some(_) => true,
        None => false,
    };
    let due = key_set(es, key) && !taken;
    complain(out, due, key, v.as_slice(), "默认值");
}

fn complain_switch(out: &mut Vec<String>, es: &Vec<(Vec<char>, Vec<char>)>, key: &str, used: bool)
    ensures
        text::views(final(out)@) == text::views(old(out)@) + switch_complaint(
            config::pair_views(es@),
            key@,
            used,
        ),
{
    let v = config::get(es, key);
    let due = key_set(es, key) && config::read_switch(v.as_slice(), true) != config::read_switch(
        v.as_slice(),
        false,
    );
    complain(
        out,
        due,
        key,
        v.as_slice(),
        text::truth_word(used),
    );
}

fn complain_policy(out: &mut Vec<String>, es: &Vec<(Vec<char>, Vec<char>)>, key: &str, used: &str)
    ensures
        text::views(final(out)@) == text::views(old(out)@) + policy_complaint(
            config::pair_views(es@),
            key@,
            used@,
        ),
{
    let v = config::get(es, key);
    let low = text::string_of(text::to_lower(v.as_slice()).as_slice());
    let due = key_set(es, key) && !text::same(low.as_str(), "system") && !text::same(
        low.as_str(),
        "display",
    );
    complain(out, due, key, v.as_slice(), used);
}

impl Config {
    /// What the file says that is not taken as it stands.
    pub fn warnings(&self) -> (out: Vec<String>)
        ensures
            text::views(out@) == warnings_of(config::entries(self.raw_lines()), self.settings()),
    {
        let es = config::read_entries(&self.raw);
        let mut out: Vec<String> = Vec::new();
        assert(text::views(out@) == Seq::<Seq<char>>::empty());
        complain_whole(&mut out, &es, "poll_interval_secs", self.poll_interval_secs);
        complain_whole(&mut out, &es, "fast_poll_secs", self.fast_poll_secs);
        complain_whole(&mut out, &es, "grace_secs", self.grace_secs);
        complain_policy(&mut out, &es, "policy_ac", self.policy_ac.as_str());
        complain_policy(&mut out, &es, "policy_dc", self.policy_dc.as_str());
        complain_switch(&mut out, &es, "never_wake_display", self.never_wake_display);
        complain_switch(&mut out, &es, "sleep_on_release", self.sleep_on_release);
        complain_switch(&mut out, &es, "audio_enabled", self.audio_enabled);
        complain_number(&mut out, &es, "audio_peak_threshold");
        complain_whole(&mut out, &es, "audio_hold_secs", self.audio_hold_secs);
        complain_switch(&mut out, &es, "net_enabled", self.net_enabled);
        complain_whole(&mut out, &es, "net_threshold_kbps", self.net_threshold_kbps);
        complain_whole(&mut out, &es, "net_min_consecutive_tick", self.net_min_consecutive_tick as u64);
        complain_switch(&mut out, &es, "proc_enabled", self.proc_enabled);
        complain_number(&mut out, &es, "proc_cpu_percent_1core");
        complain_switch(&mut out, &es, "dl_enabled", self.dl_enabled);
        complain_whole(&mut out, &es, "dl_io_kbps", self.dl_io_kbps);
        complain_whole(&mut out, &es, "dl_tcp_conns", self.dl_tcp_conns as u64);
        complain_switch(&mut out, &es, "hint_enabled", self.hint_enabled);
        complain_whole(&mut out, &es, "hint_ttl_secs", self.hint_ttl_secs);
        assert(text::views(out@) == warnings_of(
            config::entries(self.raw_lines()),
            self.settings(),
        ));
        out
    }
}

/// A whole number that the file sets and that is not complained of is in force as it
/// stands.
pub proof fn law_silence_means_taken(
    es: Seq<(Seq<char>, Seq<char>)>,
    key: Seq<char>,
    used: u64,
)
    requires
        config::has_key(es, key),
        whole_complaint(es, key, used).len() == 0,
    ensures
        text::parse_u64(config::lookup(es, key)) == Some(used),
{
}

} // verus!
