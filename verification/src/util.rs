//! Display classification and small parsing utilities.
//!
//! Everything here is shared glue: fitting strings into table columns,
//! canonical short names for connection states and process statuses, the
//! kilobyte figures of the memory pseudo-file, and the match ranges used to
//! highlight filter hits.

use vstd::prelude::*;

use crate::text::{
    contains_str, contains_sub, lines_of, match_at_str, matches_at, parse_u64,
    parse_u64_spec, split_lines, split_ws, starts_with, starts_with_str, str_eq, tokens,
};

verus! {

/// `s` cut to `max` characters: over-long text keeps `max - 1` characters
/// and an ellipsis.
pub open spec fn truncated(s: Seq<char>, max: int) -> Seq<char>
    recommends
        max >= 1,
{
    if s.len() > max {
        s.take(max - 1).push('…')
    } else {
        s
    }
}

/// Cuts an address to at most `max_len` characters for a table column.
pub fn truncate_addr(addr: &str, max_len: usize) -> (r: String)
    requires
        max_len >= 1,
    ensures
        r@ == truncated(addr@, max_len as int),
{
    let n = addr.unicode_len();
    if n > max_len {
        let mut out = addr.substring_char(0, max_len - 1).to_owned();
        crate::text::push_char(&mut out, '…');
        proof {
            assert(out@ =~= addr@.take(max_len - 1).push('…'));
        }
        out
    } else {
        addr.to_owned()
    }
}

/// Cuts a name to at most `max_len` characters for a table column.
pub fn truncate_string(s: &str, max_len: usize) -> (r: String)
    requires
        max_len >= 1,
    ensures
        r@ == truncated(s@, max_len as int),
{
    truncate_addr(s, max_len)
}

/// The short display form of a connection state: the well-known states get
/// fixed short names, anything else keeps its first ten characters.
pub open spec fn state_text(state: Seq<char>) -> Seq<char> {
    if state == "ESTABLISHED"@ {
        "ESTAB"@
    } else if state == "CLOSE_WAIT"@ || state == "CLOSE-WAIT"@ {
        "CLOSE-W"@
    } else if state == "TIME_WAIT"@ || state == "TIME-WAIT"@ {
        "TIME-W"@
    } else if state.len() > 10 {
        state.take(10)
    } else {
        state
    }
}

/// The short display form of a connection state.
pub fn format_state(state: &str) -> (r: String)
    ensures
        r@ == state_text(state@),
{
    if str_eq(state, "ESTABLISHED") {
        String::from_str("ESTAB")
    } else if str_eq(state, "CLOSE_WAIT") || str_eq(state, "CLOSE-WAIT") {
        String::from_str("CLOSE-W")
    } else if str_eq(state, "TIME_WAIT") || str_eq(state, "TIME-WAIT") {
        String::from_str("TIME-W")
    } else {
        let n = state.unicode_len();
        if n > 10 {
            let r = state.substring_char(0, 10).to_owned();
            proof {
                assert(r@ =~= state@.take(10));
            }
            r
        } else {
            state.to_owned()
        }
    }
}

/// The display bucket of a process status: one of the five well-known
/// names by substring, anything else its first seven characters.
pub open spec fn status_text(status: Seq<char>) -> Seq<char> {
    if contains_sub(status, "Run"@) {
        "Running"@
    } else if contains_sub(status, "Sleep"@) {
        "Sleep"@
    } else if contains_sub(status, "Idle"@) {
        "Idle"@
    } else if contains_sub(status, "Zombie"@) {
        "Zombie"@
    } else if status.len() > 7 {
        status.take(7)
    } else {
        status
    }
}

/// The display bucket of a process status.
pub fn format_status(status: &str) -> (r: String)
    ensures
        r@ == status_text(status@),
{
    if contains_str(status, "Run") {
        String::from_str("Running")
    } else if contains_str(status, "Sleep") {
        String::from_str("Sleep")
    } else if contains_str(status, "Idle") {
        String::from_str("Idle")
    } else if contains_str(status, "Zombie") {
        String::from_str("Zombie")
    } else {
        let n = status.unicode_len();
        if n > 7 {
            let r = status.substring_char(0, 7).to_owned();
            proof {
                assert(r@ =~= status@.take(7));
            }
            r
        } else {
            status.to_owned()
        }
    }
}

// ---------------------------------------------------------------------------
// Memory pseudo-file lines

/// The byte figure of a memory pseudo-file line such as
/// `Cached:  1234567 kB`: the second column read as kilobytes, zero when
/// missing or malformed, saturating on overflow.
pub open spec fn meminfo_value(line: Seq<char>) -> u64 {
    let ts = tokens(line);
    if ts.len() >= 2 {
        match parse_u64_spec(ts[1]) {
            Some(kb) => if kb * 1024 > u64::MAX {
                u64::MAX
            } else {
                (kb * 1024) as u64
            },
            None => 0,
        }
    } else {
        0
    }
}

/// Reads the byte figure of one memory pseudo-file line.
pub fn parse_meminfo_value(line: &str) -> (r: u64)
    ensures
        r == meminfo_value(line@),
{
    let ts = split_ws(line);
    if ts.len() < 2 {
        return 0;
    }
    proof {
        assert(ts@[1]@ == tokens(line@)[1]);
    }
    match parse_u64(ts[1].as_str()) {
        Some(kb) => {
            if kb > u64::MAX / 1024 {
                u64::MAX
            } else {
                kb * 1024
            }
        },
        None => 0,
    }
}

/// The cached and buffer figures of a whole memory pseudo-file, scanning
/// the first `n` lines; a later line overrides an earlier one.
pub open spec fn meminfo_scan(ls: Seq<Seq<char>>, n: int) -> (u64, u64)
    decreases n,
{
    if n <= 0 || n > ls.len() {
        (0, 0)
    } else {
        let prev = meminfo_scan(ls, n - 1);
        if starts_with(ls[n - 1], "Cached:"@) {
            (meminfo_value(ls[n - 1]), prev.1)
        } else if starts_with(ls[n - 1], "Buffers:"@) {
            (prev.0, meminfo_value(ls[n - 1]))
        } else {
            prev
        }
    }
}

/// Reads the cached and buffer byte figures from memory pseudo-file text.
pub fn parse_meminfo(content: &str) -> (r: (u64, u64))
    ensures
        r == meminfo_scan(lines_of(content@), lines_of(content@).len() as int),
{
    let ghost ls = lines_of(content@);
    let lines = split_lines(content);
    let mut cached: u64 = 0;
    let mut buffers: u64 = 0;
    let mut i: usize = 0;
    while i < lines.len()
        invariant
            i <= lines@.len(),
            ls == lines_of(content@),
            lines.deep_view() == ls,
            (cached, buffers) == meminfo_scan(ls, i as int),
        decreases lines@.len() - i,
    {
        proof {
            assert(lines@[i as int]@ == ls[i as int]);
        }
        if starts_with_str(lines[i].as_str(), "Cached:") {
            cached = parse_meminfo_value(lines[i].as_str());
        } else if starts_with_str(lines[i].as_str(), "Buffers:") {
            buffers = parse_meminfo_value(lines[i].as_str());
        }
        i = i + 1;
    }
    (cached, buffers)
}

// ---------------------------------------------------------------------------
// Filter-match highlighting

/// The non-overlapping occurrences of `q` in `s` from position `i` on, as
/// half-open ranges, scanning left to right.
pub open spec fn match_ranges_at(s: Seq<char>, q: Seq<char>, i: int) -> Seq<(usize, usize)>
    decreases s.len() - i,
{
    if i < 0 || q.len() == 0 || i + q.len() > s.len() {
        Seq::empty()
    } else if matches_at(s, q, i) {
        seq![(i as usize, (i + q.len()) as usize)] + match_ranges_at(s, q, i + q.len())
    } else {
        match_ranges_at(s, q, i + 1)
    }
}

/// The non-overlapping occurrences of `q` in `s`, as half-open character
/// ranges in scan order.
pub open spec fn match_ranges(s: Seq<char>, q: Seq<char>) -> Seq<(usize, usize)> {
    match_ranges_at(s, q, 0)
}

/// Finds the non-overlapping occurrences of `query` in `text`, for
/// highlighting matches: each range is a half-open pair of character
/// positions.
pub fn find_matches(text: &str, query: &str) -> (r: Vec<(usize, usize)>)
    ensures
        r@ == match_ranges(text@, query@),
{
    let n = text.unicode_len();
    let m = query.unicode_len();
    let mut out: Vec<(usize, usize)> = Vec::new();
    if m == 0 {
        proof {
            assert(out@ =~= match_ranges(text@, query@));
        }
        return out;
    }
    let mut i: usize = 0;
    while i <= n && m <= n - i
        invariant
            n == text@.len(),
            m == query@.len(),
            m >= 1,
            i <= n + 1,
            match_ranges(text@, query@) == out@ + match_ranges_at(text@, query@, i as int),
        decreases n - i,
    {
        if match_at_str(text, query, i) {
            let ghost before = out@;
            out.push((i, i + m));
            proof {
                let pair = (i, (i + m) as usize);
                assert(out@ =~= before + seq![pair]);
                assert(before + (seq![pair] + match_ranges_at(text@, query@, i + m))
                    =~= out@ + match_ranges_at(text@, query@, i + m));
            }
            i = i + m;
        } else {
            i = i + 1;
        }
    }
    proof {
        assert(match_ranges_at(text@, query@, i as int) =~= Seq::<(usize, usize)>::empty());
        assert(out@ + Seq::<(usize, usize)>::empty() =~= out@);
    }
    out
}

} // verus!
