//! Battery probing.
//!
//! Battery data arrives in two shapes.  Power-management tool output is free
//! text: the percentage is the numeric run before the first `%`, the state is
//! classified by substrings, and an `H:MM` duration before "remaining" or
//! "until charged" becomes seconds.  Power-supply pseudo-files are key/value
//! data: an integer percentage, an enumerated status string, and energy and
//! power figures from which the remaining time is `energy / power` hours,
//! reported only when a positive power draw is known.  A field that cannot be
//! parsed is simply absent; no malformed input is an error.

use vstd::prelude::*;

use crate::text::{
    contains_sub, contains_str, dec_digits, find_char, find_char_at, find_char_str, find_sub,
    find_sub_str, lines_of, parse_u32, parse_u32_spec, parse_u64, parse_u64_spec,
    push_dec, rfind_char, rfind_char_str, rfind_ws, rfind_ws_str, split_lines, str_eq, trim_spec,
    trim_str, u64_to_dec,
};

verus! {

/// Charge state of one battery.
#[derive(Clone, Copy, PartialEq, Eq, Structural, Debug)]
pub enum BatteryState {
    Charging,
    Discharging,
    Full,
    NotCharging,
    Unknown,
}

/// The display name of a state.
pub open spec fn state_label(s: BatteryState) -> Seq<char> {
    match s {
        BatteryState::Charging => "Charging"@,
        BatteryState::Discharging => "Discharging"@,
        BatteryState::Full => "Full"@,
        BatteryState::NotCharging => "Not Charging"@,
        BatteryState::Unknown => "Unknown"@,
    }
}

impl BatteryState {
    /// The display name of this state.
    pub fn label(&self) -> (r: String)
        ensures
            r@ == state_label(*self),
    {
        match self {
            BatteryState::Charging => String::from_str("Charging"),
            BatteryState::Discharging => String::from_str("Discharging"),
            BatteryState::Full => String::from_str("Full"),
            BatteryState::NotCharging => String::from_str("Not Charging"),
            BatteryState::Unknown => String::from_str("Unknown"),
        }
    }
}

/// One battery: whole-number charge percentage, state, and remaining time
/// in seconds to empty (discharging) or to full (charging).
#[derive(Clone, Copy, PartialEq, Eq, Debug)]
pub struct BatteryInfo {
    pub percentage: u32,
    pub state: BatteryState,
    pub time_to_empty: Option<u64>,
    pub time_to_full: Option<u64>,
}

// ---------------------------------------------------------------------------
// "H:MM" durations

/// Seconds for an `H:MM` duration: exactly one colon, digits on both sides
/// (whitespace around them ignored), absent on any other shape or on
/// overflow.
pub open spec fn time_str_spec(s: Seq<char>) -> Option<u64> {
    match find_char(s, ':') {
        None => None,
        Some(i) => {
            if find_char_at(s, ':', i + 1) is Some {
                None
            } else {
                match (
                    parse_u64_spec(trim_spec(s.take(i))),
                    parse_u64_spec(trim_spec(s.skip(i + 1))),
                ) {
                    (Some(h), Some(m)) => {
                        if h * 3600 + m * 60 <= u64::MAX {
                            Some((h * 3600 + m * 60) as u64)
                        } else {
                            None
                        }
                    },
                    _ => None,
                }
            }
        },
    }
}

/// Parses an `H:MM` duration into seconds.
pub fn parse_time_str(time_str: &str) -> (r: Option<u64>)
    ensures
        r == time_str_spec(time_str@),
{
    let n = time_str.unicode_len();
    let i = match find_char_str(time_str, ':') {
        None => {
            return None;
        },
        Some(i) => i,
    };
    proof {
        if find_char(time_str@, ':') matches Some(p) {
            crate::text::lemma_find_char_at_range(time_str@, ':', 0);
        }
    }
    let rest = time_str.substring_char(i + 1, n);
    if find_char_str(rest, ':').is_some() {
        proof {
            lemma_find_char_shift(time_str@, ':', i + 1);
        }
        return None;
    }
    proof {
        lemma_find_char_shift(time_str@, ':', i + 1);
    }
    let head = time_str.substring_char(0, i);
    let h = match parse_u64(trim_str(head)) {
        None => {
            proof {
                assert(head@ =~= time_str@.take(i as int));
            }
            return None;
        },
        Some(h) => h,
    };
    let m = match parse_u64(trim_str(rest)) {
        None => {
            proof {
                assert(head@ =~= time_str@.take(i as int));
                assert(rest@ =~= time_str@.skip(i + 1));
            }
            return None;
        },
        Some(m) => m,
    };
    proof {
        assert(head@ =~= time_str@.take(i as int));
        assert(rest@ =~= time_str@.skip(i + 1));
    }
    if h > u64::MAX / 3600 {
        return None;
    }
    let hs = h * 3600;
    if m > (u64::MAX - hs) / 60 {
        return None;
    }
    Some(hs + m * 60)
}

/// Searching a suffix finds the same occurrences, shifted.
proof fn lemma_find_char_shift_at(s: Seq<char>, c: char, base: int, k: int)
    requires
        0 <= base <= s.len(),
        0 <= k,
    ensures
        match find_char_at(s.skip(base), c, k) {
            Some(j) => find_char_at(s, c, base + k) == Some(base + j),
            None => find_char_at(s, c, base + k) is None,
        },
    decreases s.len() - base - k,
{
    let t = s.skip(base);
    if base + k < s.len() {
        assert(t[k] == s[base + k]);
        if s[base + k] != c {
            lemma_find_char_shift_at(s, c, base, k + 1);
        }
    }
}

/// Searching a suffix equals searching from its start.
proof fn lemma_find_char_shift(s: Seq<char>, c: char, base: int)
    requires
        0 <= base <= s.len(),
    ensures
        match find_char(s.skip(base), c) {
            Some(j) => find_char_at(s, c, base) == Some(base + j),
            None => find_char_at(s, c, base) is None,
        },
{
    lemma_find_char_shift_at(s, c, base, 0);
}

// ---------------------------------------------------------------------------
// Free-text battery lines

/// The leading whole-number part of a token: the digits before the first
/// non-digit, or the whole token when it is all digits.
pub open spec fn digit_prefix(s: Seq<char>) -> Seq<char> {
    match crate::text::find_non_digit(s) {
        Some(i) => s.take(i),
        None => s,
    }
}

/// The percentage in a battery line: the whole-number part of the numeric
/// run between the last whitespace and the first `%` (so a fractional
/// figure keeps its integer part); zero when absent or malformed.
pub open spec fn pct_of_line(line: Seq<char>) -> u32 {
    match find_char(line, '%') {
        None => 0,
        Some(p) => {
            let start = match rfind_ws(line.take(p)) {
                Some(w) => w + 1,
                None => 0,
            };
            match parse_u32_spec(digit_prefix(trim_spec(line.subrange(start, p)))) {
                Some(v) => v,
                None => 0,
            }
        },
    }
}

/// The state in a battery line, classified by substring priority:
/// "charging;" with neither "discharging" nor "not charging" means charging;
/// "discharging" wins next; "charged" or a full percentage means full;
/// "not charging" comes after; anything else is unknown.
pub open spec fn state_of_line(line: Seq<char>, pct: u32) -> BatteryState {
    if contains_sub(line, "charging;"@) && !contains_sub(line, "discharging"@) && !contains_sub(
        line,
        "not charging"@,
    ) {
        BatteryState::Charging
    } else if contains_sub(line, "discharging"@) {
        BatteryState::Discharging
    } else if contains_sub(line, "charged"@) || pct >= 100 {
        BatteryState::Full
    } else if contains_sub(line, "not charging"@) {
        BatteryState::NotCharging
    } else {
        BatteryState::Unknown
    }
}

/// The `H:MM` duration between the last semicolon and `pos`, in seconds.
pub open spec fn time_before(line: Seq<char>, pos: int) -> Option<u64>
    recommends
        0 <= pos <= line.len(),
{
    let before = trim_spec(line.take(pos));
    match rfind_char(before, ';') {
        Some(ts) => time_str_spec(trim_spec(before.skip(ts + 1))),
        None => None,
    }
}

/// The remaining-time figure in a battery line: the `H:MM` duration whose
/// text precedes "remaining", or failing that "until charged"; absent when
/// neither keyword or no well-formed duration is present.
pub open spec fn time_of_line(line: Seq<char>) -> Option<u64> {
    match find_sub(line, "remaining"@) {
        Some(rp) => time_before(line, rp),
        None => match find_sub(line, "until charged"@) {
            Some(up) => time_before(line, up),
            None => None,
        },
    }
}

/// The battery record a free-text line describes: the duration counts
/// toward empty when discharging, toward full when charging, and is
/// otherwise dropped.
pub open spec fn battery_of_line(line: Seq<char>) -> BatteryInfo {
    let pct = pct_of_line(line);
    let st = state_of_line(line, pct);
    let t = time_of_line(line);
    BatteryInfo {
        percentage: pct,
        state: st,
        time_to_empty: if st is Discharging {
            t
        } else {
            None
        },
        time_to_full: if st is Charging {
            t
        } else {
            None
        },
    }
}

/// The battery records of the first `n` lines: one per line that mentions
/// an internal battery.
pub open spec fn batteries_upto(ls: Seq<Seq<char>>, n: int) -> Seq<BatteryInfo>
    decreases n,
{
    if n <= 0 || n > ls.len() {
        Seq::empty()
    } else {
        let rest = batteries_upto(ls, n - 1);
        if contains_sub(ls[n - 1], "InternalBattery"@) {
            rest.push(battery_of_line(ls[n - 1]))
        } else {
            rest
        }
    }
}

/// The battery records described by a whole probe output.
pub open spec fn pmset_batteries(text: Seq<char>) -> Seq<BatteryInfo> {
    batteries_upto(lines_of(text), lines_of(text).len() as int)
}

/// Executable percentage extraction.
fn pct_of_line_exec(line: &str) -> (r: u32)
    ensures
        r == pct_of_line(line@),
{
    let p = match find_char_str(line, '%') {
        None => {
            return 0;
        },
        Some(p) => p,
    };
    proof {
        crate::text::lemma_find_char_at_range(line@, '%', 0);
    }
    let before = line.substring_char(0, p);
    proof {
        assert(before@ =~= line@.take(p as int));
    }
    let start = match rfind_ws_str(before) {
        Some(w) => {
            proof {
                crate::text::lemma_rfind_ws_bounds(before@);
            }
            w + 1
        },
        None => 0,
    };
    let token = line.substring_char(start, p);
    proof {
        assert(token@ =~= line@.subrange(start as int, p as int));
    }
    let trimmed = trim_str(token);
    let tn = trimmed.unicode_len();
    let run = match crate::text::find_non_digit_str(trimmed) {
        Some(i) => {
            proof {
                crate::text::lemma_find_non_digit_range(trimmed@, 0);
            }
            trimmed.substring_char(0, i)
        },
        None => trimmed.substring_char(0, tn),
    };
    proof {
        assert(run@ =~= digit_prefix(trimmed@));
    }
    match parse_u32(run) {
        Some(v) => v,
        None => 0,
    }
}

/// Executable state classification.
fn state_of_line_exec(line: &str, pct: u32) -> (r: BatteryState)
    ensures
        r == state_of_line(line@, pct),
{
    if contains_str(line, "charging;") && !contains_str(line, "discharging") && !contains_str(
        line,
        "not charging",
    ) {
        BatteryState::Charging
    } else if contains_str(line, "discharging") {
        BatteryState::Discharging
    } else if contains_str(line, "charged") || pct >= 100 {
        BatteryState::Full
    } else if contains_str(line, "not charging") {
        BatteryState::NotCharging
    } else {
        BatteryState::Unknown
    }
}

/// Executable duration extraction before a keyword position.
fn time_before_exec(line: &str, pos: usize) -> (r: Option<u64>)
    requires
        pos <= line@.len(),
    ensures
        r == time_before(line@, pos as int),
{
    let raw = line.substring_char(0, pos);
    proof {
        assert(raw@ =~= line@.take(pos as int));
    }
    let before = trim_str(raw);
    let ts = match rfind_char_str(before, ';') {
        Some(ts) => {
            proof {
                crate::text::lemma_rfind_char_bounds(before@, ';');
            }
            ts
        },
        None => {
            return None;
        },
    };
    let blen = before.unicode_len();
    let tail = before.substring_char(ts + 1, blen);
    proof {
        assert(tail@ =~= before@.skip(ts + 1));
    }
    parse_time_str(trim_str(tail))
}

/// Executable remaining-time extraction.
fn time_of_line_exec(line: &str) -> (r: Option<u64>)
    ensures
        r == time_of_line(line@),
{
    match find_sub_str(line, "remaining") {
        Some(rp) => {
            proof {
                crate::text::lemma_find_sub_at_range(line@, "remaining"@, 0);
            }
            time_before_exec(line, rp)
        },
        None => match find_sub_str(line, "until charged") {
            Some(up) => {
                proof {
                    crate::text::lemma_find_sub_at_range(line@, "until charged"@, 0);
                }
                time_before_exec(line, up)
            },
            None => None,
        },
    }
}

/// Executable record extraction from one line.
fn battery_of_line_exec(line: &str) -> (r: BatteryInfo)
    ensures
        r == battery_of_line(line@),
{
    let pct = pct_of_line_exec(line);
    let st = state_of_line_exec(line, pct);
    let t = time_of_line_exec(line);
    let (tte, ttf) = match st {
        BatteryState::Discharging => (t, None),
        BatteryState::Charging => (None, t),
        _ => (None, None),
    };
    BatteryInfo { percentage: pct, state: st, time_to_empty: tte, time_to_full: ttf }
}

// ---------------------------------------------------------------------------
// Key/value battery data

/// The state for a power-supply status string, after trimming: an exact
/// finite table.
pub open spec fn sysfs_state(status: Seq<char>) -> BatteryState {
    if trim_spec(status) == "Charging"@ {
        BatteryState::Charging
    } else if trim_spec(status) == "Discharging"@ {
        BatteryState::Discharging
    } else if trim_spec(status) == "Full"@ {
        BatteryState::Full
    } else if trim_spec(status) == "Not charging"@ {
        BatteryState::NotCharging
    } else {
        BatteryState::Unknown
    }
}

/// Seconds until a quantity of energy is consumed at a positive power draw:
/// `energy / power` hours, saturating.
pub open spec fn drain_seconds(energy: u64, power: u64) -> u64
    recommends
        power > 0,
{
    if (energy as int) * 3600 / (power as int) > u64::MAX {
        u64::MAX
    } else {
        ((energy as int) * 3600 / (power as int)) as u64
    }
}

/// The battery record for power-supply key/value data.  The remaining time
/// is computed only when a positive power draw and the needed energy figure
/// are both known: time to empty when discharging, time to full (from the
/// missing charge) when charging.
pub open spec fn sysfs_battery(
    percentage: u32,
    status: Seq<char>,
    energy_now: Option<u64>,
    power_now: Option<u64>,
    energy_full: Option<u64>,
) -> BatteryInfo {
    let st = sysfs_state(status);
    let tte = match (st, energy_now, power_now) {
        (BatteryState::Discharging, Some(e), Some(p)) => if p > 0 {
            Some(drain_seconds(e, p))
        } else {
            None
        },
        _ => None,
    };
    let ttf = match (st, energy_now, power_now, energy_full) {
        (BatteryState::Charging, Some(e), Some(p), Some(f)) => if p > 0 {
            Some(drain_seconds(f.saturating_sub(e), p))
        } else {
            None
        },
        _ => None,
    };
    BatteryInfo { percentage, state: st, time_to_empty: tte, time_to_full: ttf }
}

/// Executable drain time.
fn drain_seconds_exec(energy: u64, power: u64) -> (r: u64)
    requires
        power > 0,
    ensures
        r == drain_seconds(energy, power),
{
    let v: u128 = (energy as u128) * 3600 / (power as u128);
    if v > u64::MAX as u128 {
        u64::MAX
    } else {
        v as u64
    }
}

/// Battery probing state: the records seen this tick and whether any
/// battery is present.
pub struct BatteryData {
    pub batteries: Vec<BatteryInfo>,
    pub has_battery: bool,
}

impl BatteryData {
    /// No batteries seen yet.
    pub fn new() -> (r: BatteryData)
        ensures
            r.batteries@.len() == 0,
            !r.has_battery,
    {
        BatteryData { batteries: Vec::new(), has_battery: false }
    }

    /// Parses power-management tool output, appending one record per line
    /// that mentions an internal battery.
    pub fn parse_pmset_output(&mut self, output: &str)
        ensures
            final(self).batteries@ == old(self).batteries@ + pmset_batteries(output@),
            final(self).has_battery == old(self).has_battery,
    {
        let ghost ls = lines_of(output@);
        let lines = split_lines(output);
        proof {
            assert(old(self).batteries@ + batteries_upto(ls, 0) =~= old(self).batteries@);
        }
        let mut i: usize = 0;
        while i < lines.len()
            invariant
                i <= lines@.len(),
                ls == lines_of(output@),
                lines.deep_view() == ls,
                self.has_battery == old(self).has_battery,
                self.batteries@ == old(self).batteries@ + batteries_upto(ls, i as int),
            decreases lines@.len() - i,
        {
            proof {
                assert(lines@[i as int]@ == ls[i as int]);
            }
            if contains_str(lines[i].as_str(), "InternalBattery") {
                let rec = battery_of_line_exec(lines[i].as_str());
                self.batteries.push(rec);
                proof {
                    assert(self.batteries@ =~= old(self).batteries@ + batteries_upto(ls, i + 1));
                }
            }
            i = i + 1;
        }
        proof {
            assert(batteries_upto(ls, ls.len() as int) == pmset_batteries(output@));
        }
    }

    /// One tick from free-text probe output: replaces the records with the
    /// lines' batteries and notes whether any were found.
    pub fn update(&mut self, output: &str)
        ensures
            final(self).batteries@ == pmset_batteries(output@),
            final(self).has_battery == (pmset_batteries(output@).len() > 0),
    {
        self.batteries = Vec::new();
        proof {
            assert(self.batteries@ + pmset_batteries(output@) =~= pmset_batteries(output@));
        }
        self.parse_pmset_output(output);
        self.has_battery = self.batteries.len() > 0;
    }

    /// The battery record for power-supply key/value data.
    pub fn from_sysfs(
        percentage: u32,
        status: &str,
        energy_now: Option<u64>,
        power_now: Option<u64>,
        energy_full: Option<u64>,
    ) -> (r: BatteryInfo)
        ensures
            r == sysfs_battery(percentage, status@, energy_now, power_now, energy_full),
    {
        let trimmed = trim_str(status);
        let st = if str_eq(trimmed, "Charging") {
            BatteryState::Charging
        } else if str_eq(trimmed, "Discharging") {
            BatteryState::Discharging
        } else if str_eq(trimmed, "Full") {
            BatteryState::Full
        } else if str_eq(trimmed, "Not charging") {
            BatteryState::NotCharging
        } else {
            BatteryState::Unknown
        };
        let tte = match (st, energy_now, power_now) {
            (BatteryState::Discharging, Some(e), Some(p)) => if p > 0 {
                Some(drain_seconds_exec(e, p))
            } else {
                None
            },
            _ => None,
        };
        let ttf = match (st, energy_now, power_now, energy_full) {
            (BatteryState::Charging, Some(e), Some(p), Some(f)) => if p > 0 {
                Some(drain_seconds_exec(f.saturating_sub(e), p))
            } else {
                None
            },
            _ => None,
        };
        BatteryInfo { percentage, state: st, time_to_empty: tte, time_to_full: ttf }
    }

    /// The display text for a duration: whole hours and minutes, minutes
    /// alone under an hour.
    pub fn format_time(seconds: u64) -> (r: String)
        ensures
            r@ == time_text(seconds),
    {
        let hours = seconds / 3600;
        let minutes = (seconds % 3600) / 60;
        if hours > 0 {
            let mut out = u64_to_dec(hours);
            out.append("h ");
            push_dec(minutes, &mut out);
            out.append("m");
            out
        } else {
            let mut out = u64_to_dec(minutes);
            out.append("m");
            out
        }
    }
}

/// The display text for a duration in seconds.
pub open spec fn time_text(seconds: u64) -> Seq<char> {
    let hours = (seconds as nat) / 3600;
    let minutes = ((seconds as nat) % 3600) / 60;
    if hours > 0 {
        dec_digits(hours) + "h "@ + dec_digits(minutes) + "m"@
    } else {
        dec_digits(minutes) + "m"@
    }
}

} // verus!
