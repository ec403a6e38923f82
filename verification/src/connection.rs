//! Open-connection probing.
//!
//! Connection listings arrive as whitespace-delimited tool output, one row
//! per socket, with protocol, state, addresses and an optional owning
//! process at tool-specific fixed columns.  Rows are partitioned into
//! listening sockets and active connections; rows in any other state are
//! dropped.  One tool encodes `address:port` with a dot, which a
//! rightmost-dot split normalizes; the wildcard form becomes `*:*`.  A row
//! or field that cannot be read is skipped alone, never an error.

use vstd::prelude::*;

use crate::text::{
    find_char, find_char_str, find_non_digit, find_non_digit_str, find_sub, find_sub_str,
    lemma_find_non_digit_range, lines_of, parse_u32, parse_u32_spec, rfind_char, rfind_char_str,
    split_lines, split_ws, str_eq, to_upper, tokens, upper_of,
};

verus! {

/// One socket: protocol, addresses, state, and the owning process when the
/// tool reports it.
pub struct ConnectionInfo {
    pub protocol: String,
    pub local_addr: String,
    pub remote_addr: String,
    pub state: String,
    pub pid: Option<u32>,
    pub process_name: Option<String>,
}

/// Ghost image of a `ConnectionInfo`.
pub struct ConnView {
    pub protocol: Seq<char>,
    pub local_addr: Seq<char>,
    pub remote_addr: Seq<char>,
    pub state: Seq<char>,
    pub pid: Option<u32>,
    pub process_name: Option<Seq<char>>,
}

impl View for ConnectionInfo {
    type V = ConnView;

    open spec fn view(&self) -> ConnView {
        ConnView {
            protocol: self.protocol@,
            local_addr: self.local_addr@,
            remote_addr: self.remote_addr@,
            state: self.state@,
            pid: self.pid,
            process_name: match self.process_name {
                Some(ref n) => Some(n@),
                None => None,
            },
        }
    }
}

/// The views of a connection list.
pub open spec fn conn_views(s: Seq<ConnectionInfo>) -> Seq<ConnView> {
    s.map_values(|c: ConnectionInfo| c@)
}

// ---------------------------------------------------------------------------
// Address normalization

/// Dot-notation normalization: the wildcard becomes `*:*`; otherwise the
/// rightmost dot, which separates the port, becomes a colon; an address
/// without a dot passes through.
pub open spec fn macos_addr(addr: Seq<char>) -> Seq<char> {
    if addr == "*.*"@ {
        "*:*"@
    } else {
        match rfind_char(addr, '.') {
            Some(ld) => addr.take(ld) + ":"@ + addr.skip(ld + 1),
            None => addr,
        }
    }
}

/// Normalizes a dot-notation `address.port` into `address:port`.
pub fn format_macos_addr(addr: &str) -> (r: String)
    ensures
        r@ == macos_addr(addr@),
{
    if str_eq(addr, "*.*") {
        return String::from_str("*:*");
    }
    let ld = match rfind_char_str(addr, '.') {
        Some(ld) => ld,
        None => {
            return addr.to_owned();
        },
    };
    proof {
        crate::text::lemma_rfind_char_bounds(addr@, '.');
    }
    let n = addr.unicode_len();
    let mut out = addr.substring_char(0, ld).to_owned();
    out.append(":");
    out.append(addr.substring_char(ld + 1, n));
    proof {
        assert(out@ =~= addr@.take(ld as int) + ":"@ + addr@.skip(ld + 1));
    }
    out
}

// ---------------------------------------------------------------------------
// Owner annotations

/// The process name inside a bracketed owner annotation: the text between
/// the opening `(("` and the next quote.
pub open spec fn owner_name(info: Seq<char>) -> Option<Seq<char>> {
    match find_sub(info, "((\""@) {
        Some(st) => match find_char(info.skip(st + 3), '"') {
            Some(e) => Some(info.skip(st + 3).take(e)),
            None => None,
        },
        None => None,
    }
}

/// The pid inside a bracketed owner annotation: the digit run after `pid=`,
/// read only when a non-digit terminates it within the text.
pub open spec fn owner_pid(info: Seq<char>) -> Option<u32> {
    match find_sub(info, "pid="@) {
        Some(ps) => match find_non_digit(info.skip(ps + 4)) {
            Some(pe) => parse_u32_spec(info.skip(ps + 4).take(pe)),
            None => None,
        },
        None => None,
    }
}

/// Extracts the owning pid and process name from a bracketed owner
/// annotation such as `users:(("sshd",pid=1234,fd=3))`; either part may be
/// absent without error.
pub fn parse_ss_process_info(info: &str) -> (r: (Option<u32>, Option<String>))
    ensures
        r.0 == owner_pid(info@),
        match r.1 {
            Some(name) => owner_name(info@) == Some(name@),
            None => owner_name(info@) is None,
        },
{
    let n = info.unicode_len();
    let name = match find_sub_str(info, "((\"") {
        Some(st) => {
            proof {
                reveal_strlit("((\"");
                assert("((\""@.len() == 3);
                crate::text::lemma_find_sub_bounds(info@, "((\""@);
            }
            let rest = info.substring_char(st + 3, n);
            proof {
                assert(rest@ =~= info@.skip(st + 3));
            }
            match find_char_str(rest, '"') {
                Some(e) => {
                    proof {
                        crate::text::lemma_find_char_bounds(rest@, '"');
                    }
                    Some(rest.substring_char(0, e).to_owned())
                },
                None => None,
            }
        },
        None => None,
    };
    let pid = match find_sub_str(info, "pid=") {
        Some(ps) => {
            proof {
                reveal_strlit("pid=");
                assert("pid="@.len() == 4);
                crate::text::lemma_find_sub_bounds(info@, "pid="@);
            }
            let after = info.substring_char(ps + 4, n);
            proof {
                assert(after@ =~= info@.skip(ps + 4));
            }
            match find_non_digit_str(after) {
                Some(pe) => {
                    proof {
                        lemma_find_non_digit_range(after@, 0);
                    }
                    let run = after.substring_char(0, pe);
                    proof {
                        assert(run@ =~= after@.take(pe as int));
                    }
                    parse_u32(run)
                },
                None => None,
            }
        },
        None => None,
    };
    (pid, name)
}

// ---------------------------------------------------------------------------
// Linux tool rows

/// The record a socket-statistics row describes.  Columns: protocol, state,
/// two queue figures, local address, remote address, then the owner
/// annotation; a missing remote address becomes the wildcard.
pub open spec fn ss_conn(line: Seq<char>) -> ConnView
    recommends
        tokens(line).len() >= 5,
{
    let ts = tokens(line);
    ConnView {
        protocol: upper_of(ts[0]),
        local_addr: ts[4],
        remote_addr: if ts.len() > 5 {
            ts[5]
        } else {
            "*:*"@
        },
        state: ts[1],
        pid: if ts.len() > 6 {
            owner_pid(ts[6])
        } else {
            None
        },
        process_name: if ts.len() > 6 {
            owner_name(ts[6])
        } else {
            None
        },
    }
}

/// A socket-statistics row for a listening socket.
pub open spec fn ss_is_listen(line: Seq<char>) -> bool {
    tokens(line).len() >= 5 && tokens(line)[1] == "LISTEN"@
}

/// A socket-statistics row for an active connection.
pub open spec fn ss_is_active(line: Seq<char>) -> bool {
    tokens(line).len() >= 5 && (tokens(line)[1] == "ESTAB"@ || tokens(line)[1] == "CLOSE-WAIT"@
        || tokens(line)[1] == "TIME-WAIT"@)
}

/// The listening records among the first `n` rows.
pub open spec fn ss_listening_upto(ls: Seq<Seq<char>>, n: int) -> Seq<ConnView>
    decreases n,
{
    if n <= 0 || n > ls.len() {
        Seq::empty()
    } else {
        let rest = ss_listening_upto(ls, n - 1);
        if ss_is_listen(ls[n - 1]) {
            rest.push(ss_conn(ls[n - 1]))
        } else {
            rest
        }
    }
}

/// The active-connection records among the first `n` rows.
pub open spec fn ss_active_upto(ls: Seq<Seq<char>>, n: int) -> Seq<ConnView>
    decreases n,
{
    if n <= 0 || n > ls.len() {
        Seq::empty()
    } else {
        let rest = ss_active_upto(ls, n - 1);
        if ss_is_active(ls[n - 1]) {
            rest.push(ss_conn(ls[n - 1]))
        } else {
            rest
        }
    }
}

/// The listening records of a whole socket-statistics output.
pub open spec fn ss_listening(text: Seq<char>) -> Seq<ConnView> {
    ss_listening_upto(lines_of(text), lines_of(text).len() as int)
}

/// The active-connection records of a whole socket-statistics output.
pub open spec fn ss_active(text: Seq<char>) -> Seq<ConnView> {
    ss_active_upto(lines_of(text), lines_of(text).len() as int)
}

// ---------------------------------------------------------------------------
// Dot-notation tool rows

/// The record a netstat-style row describes, for a given protocol.
/// Columns: protocol, two queue figures, local address, remote address, and
/// an optional state; both addresses are dot-notation normalized.
pub open spec fn netstat_conn(line: Seq<char>, protocol: Seq<char>) -> ConnView
    recommends
        tokens(line).len() >= 5,
{
    let ts = tokens(line);
    ConnView {
        protocol: protocol,
        local_addr: macos_addr(ts[3]),
        remote_addr: macos_addr(ts[4]),
        state: if ts.len() >= 6 {
            ts[5]
        } else {
            Seq::empty()
        },
        pid: None,
        process_name: None,
    }
}

/// The state column of a netstat-style row, empty when absent.
pub open spec fn netstat_state(line: Seq<char>) -> Seq<char> {
    if tokens(line).len() >= 6 {
        tokens(line)[5]
    } else {
        Seq::empty()
    }
}

/// A netstat-style row for a listening socket: an explicit listen state or
/// a wildcard remote address.
pub open spec fn netstat_is_listen(line: Seq<char>) -> bool {
    tokens(line).len() >= 5 && (netstat_state(line) == "LISTEN"@ || tokens(line)[4] == "*.*"@)
}

/// A netstat-style row for an active connection.
pub open spec fn netstat_is_active(line: Seq<char>) -> bool {
    tokens(line).len() >= 5 && !netstat_is_listen(line) && (netstat_state(line) == "ESTABLISHED"@
        || netstat_state(line) == "CLOSE_WAIT"@ || netstat_state(line) == "TIME_WAIT"@)
}

/// The listening records among the first `n` rows; the two header rows are
/// never read.
pub open spec fn netstat_listening_upto(ls: Seq<Seq<char>>, protocol: Seq<char>, n: int) -> Seq<
    ConnView,
>
    decreases n,
{
    if n <= 2 || n > ls.len() {
        Seq::empty()
    } else {
        let rest = netstat_listening_upto(ls, protocol, n - 1);
        if netstat_is_listen(ls[n - 1]) {
            rest.push(netstat_conn(ls[n - 1], protocol))
        } else {
            rest
        }
    }
}

/// The active-connection records among the first `n` rows.
pub open spec fn netstat_active_upto(ls: Seq<Seq<char>>, protocol: Seq<char>, n: int) -> Seq<
    ConnView,
>
    decreases n,
{
    if n <= 2 || n > ls.len() {
        Seq::empty()
    } else {
        let rest = netstat_active_upto(ls, protocol, n - 1);
        if netstat_is_active(ls[n - 1]) {
            rest.push(netstat_conn(ls[n - 1], protocol))
        } else {
            rest
        }
    }
}

/// The listening records of a whole netstat-style output.
pub open spec fn netstat_listening(text: Seq<char>, protocol: Seq<char>) -> Seq<ConnView> {
    netstat_listening_upto(lines_of(text), protocol, lines_of(text).len() as int)
}

/// The active-connection records of a whole netstat-style output.
pub open spec fn netstat_active(text: Seq<char>, protocol: Seq<char>) -> Seq<ConnView> {
    netstat_active_upto(lines_of(text), protocol, lines_of(text).len() as int)
}

/// Reads one socket-statistics row: the record plus whether it is a
/// listening socket; `None` for rows too short or in a dropped state.
fn ss_row_exec(line: &str) -> (r: Option<(ConnectionInfo, bool)>)
    ensures
        match r {
            Some(p) => {
                &&& tokens(line@).len() >= 5
                &&& p.0@ == ss_conn(line@)
                &&& p.1 == ss_is_listen(line@)
                &&& (p.1 || ss_is_active(line@))
                &&& (p.1 ==> !ss_is_active(line@))
            },
            None => !ss_is_listen(line@) && !ss_is_active(line@),
        },
{
    let ts = split_ws(line);
    if ts.len() < 5 {
        return None;
    }
    proof {
        assert(ts@[0]@ == tokens(line@)[0]);
        assert(ts@[1]@ == tokens(line@)[1]);
        assert(ts@[4]@ == tokens(line@)[4]);
        reveal_strlit("LISTEN");
        reveal_strlit("ESTAB");
        reveal_strlit("CLOSE-WAIT");
        reveal_strlit("TIME-WAIT");
        assert("LISTEN"@.len() == 6);
        assert("ESTAB"@.len() == 5);
        assert("CLOSE-WAIT"@.len() == 10);
        assert("TIME-WAIT"@.len() == 9);
    }
    let state_is_listen = str_eq(ts[1].as_str(), "LISTEN");
    let state_is_active = str_eq(ts[1].as_str(), "ESTAB") || str_eq(ts[1].as_str(), "CLOSE-WAIT")
        || str_eq(ts[1].as_str(), "TIME-WAIT");
    if !state_is_listen && !state_is_active {
        return None;
    }
    let protocol = to_upper(ts[0].as_str());
    let local_addr = ts[4].clone();
    let remote_addr = if ts.len() > 5 {
        proof {
            assert(ts@[5]@ == tokens(line@)[5]);
        }
        ts[5].clone()
    } else {
        String::from_str("*:*")
    };
    let (pid, process_name) = if ts.len() > 6 {
        proof {
            assert(ts@[6]@ == tokens(line@)[6]);
        }
        parse_ss_process_info(ts[6].as_str())
    } else {
        (None, None)
    };
    let conn = ConnectionInfo {
        protocol,
        local_addr,
        remote_addr,
        state: ts[1].clone(),
        pid,
        process_name,
    };
    Some((conn, state_is_listen))
}

/// Reads one netstat-style row for `protocol`: the record plus whether it
/// is a listening socket; `None` for rows too short or in a dropped state.
fn netstat_row_exec(line: &str, protocol: &str) -> (r: Option<(ConnectionInfo, bool)>)
    ensures
        match r {
            Some(p) => {
                &&& tokens(line@).len() >= 5
                &&& p.0@ == netstat_conn(line@, protocol@)
                &&& p.1 == netstat_is_listen(line@)
                &&& (p.1 || netstat_is_active(line@))
            },
            None => !netstat_is_listen(line@) && !netstat_is_active(line@),
        },
{
    let ts = split_ws(line);
    if ts.len() < 5 {
        return None;
    }
    proof {
        assert(ts@[3]@ == tokens(line@)[3]);
        assert(ts@[4]@ == tokens(line@)[4]);
    }
    let state = if ts.len() >= 6 {
        proof {
            assert(ts@[5]@ == tokens(line@)[5]);
        }
        ts[5].clone()
    } else {
        String::new()
    };
    let is_listen = str_eq(state.as_str(), "LISTEN") || str_eq(ts[4].as_str(), "*.*");
    let is_active = !is_listen && (str_eq(state.as_str(), "ESTABLISHED") || str_eq(
        state.as_str(),
        "CLOSE_WAIT",
    ) || str_eq(state.as_str(), "TIME_WAIT"));
    if !is_listen && !is_active {
        return None;
    }
    let conn = ConnectionInfo {
        protocol: protocol.to_owned(),
        local_addr: format_macos_addr(ts[3].as_str()),
        remote_addr: format_macos_addr(ts[4].as_str()),
        state,
        pid: None,
        process_name: None,
    };
    Some((conn, is_listen))
}

/// The connection table for one tick, partitioned into active connections
/// and listening sockets.
pub struct ConnectionData {
    pub connections: Vec<ConnectionInfo>,
    pub listening_ports: Vec<ConnectionInfo>,
}

impl ConnectionData {
    /// An empty table.
    pub fn new() -> (r: ConnectionData)
        ensures
            r.connections@.len() == 0,
            r.listening_ports@.len() == 0,
    {
        ConnectionData { connections: Vec::new(), listening_ports: Vec::new() }
    }

    /// Parses socket-statistics output, appending each listening row to the
    /// listening list and each active row to the connection list; other
    /// rows are dropped.
    pub fn parse_ss_output(&mut self, output: &str)
        ensures
            conn_views(final(self).listening_ports@) == conn_views(old(self).listening_ports@)
                + ss_listening(output@),
            conn_views(final(self).connections@) == conn_views(old(self).connections@)
                + ss_active(output@),
    {
        let ghost ls = lines_of(output@);
        let lines = split_lines(output);
        proof {
            assert(conn_views(old(self).listening_ports@) + ss_listening_upto(ls, 0) =~= conn_views(
                old(self).listening_ports@,
            ));
            assert(conn_views(old(self).connections@) + ss_active_upto(ls, 0) =~= conn_views(
                old(self).connections@,
            ));
        }
        let mut i: usize = 0;
        while i < lines.len()
            invariant
                i <= lines@.len(),
                ls == lines_of(output@),
                lines.deep_view() == ls,
                conn_views(self.listening_ports@) == conn_views(old(self).listening_ports@)
                    + ss_listening_upto(ls, i as int),
                conn_views(self.connections@) == conn_views(old(self).connections@)
                    + ss_active_upto(ls, i as int),
            decreases lines@.len() - i,
        {
            proof {
                assert(lines@[i as int]@ == ls[i as int]);
            }
            match ss_row_exec(lines[i].as_str()) {
                Some((conn, listen)) => {
                    if listen {
                        let ghost before = conn_views(self.listening_ports@);
                        self.listening_ports.push(conn);
                        proof {
                            assert(conn_views(self.listening_ports@) =~= before.push(
                                ss_conn(ls[i as int]),
                            ));
                            assert(conn_views(self.listening_ports@) =~= conn_views(
                                old(self).listening_ports@,
                            ) + ss_listening_upto(ls, i + 1));
                        }
                    } else {
                        let ghost before = conn_views(self.connections@);
                        self.connections.push(conn);
                        proof {
                            assert(conn_views(self.connections@) =~= before.push(
                                ss_conn(ls[i as int]),
                            ));
                            assert(conn_views(self.connections@) =~= conn_views(
                                old(self).connections@,
                            ) + ss_active_upto(ls, i + 1));
                        }
                    }
                },
                None => {},
            }
            i = i + 1;
        }
    }

    /// Parses netstat-style output for one protocol, appending to the two
    /// lists as `parse_ss_output` does; the two header rows are skipped.
    pub fn parse_netstat_output(&mut self, output: &str, protocol: &str)
        ensures
            conn_views(final(self).listening_ports@) == conn_views(old(self).listening_ports@)
                + netstat_listening(output@, protocol@),
            conn_views(final(self).connections@) == conn_views(old(self).connections@)
                + netstat_active(output@, protocol@),
    {
        let ghost ls = lines_of(output@);
        let lines = split_lines(output);
        proof {
            assert(conn_views(old(self).listening_ports@) + netstat_listening_upto(ls, protocol@, 0)
                =~= conn_views(old(self).listening_ports@));
            assert(conn_views(old(self).connections@) + netstat_active_upto(ls, protocol@, 0)
                =~= conn_views(old(self).connections@));
        }
        let mut i: usize = 0;
        while i < lines.len()
            invariant
                i <= lines@.len(),
                ls == lines_of(output@),
                lines.deep_view() == ls,
                conn_views(self.listening_ports@) == conn_views(old(self).listening_ports@)
                    + netstat_listening_upto(ls, protocol@, i as int),
                conn_views(self.connections@) == conn_views(old(self).connections@)
                    + netstat_active_upto(ls, protocol@, i as int),
            decreases lines@.len() - i,
        {
            proof {
                assert(lines@[i as int]@ == ls[i as int]);
            }
            if i >= 2 {
                match netstat_row_exec(lines[i].as_str(), protocol) {
                    Some((conn, listen)) => {
                        if listen {
                            let ghost before = conn_views(self.listening_ports@);
                            self.listening_ports.push(conn);
                            proof {
                                assert(conn_views(self.listening_ports@) =~= before.push(
                                    netstat_conn(ls[i as int], protocol@),
                                ));
                                assert(conn_views(self.listening_ports@) =~= conn_views(
                                    old(self).listening_ports@,
                                ) + netstat_listening_upto(ls, protocol@, i + 1));
                            }
                        } else {
                            let ghost before = conn_views(self.connections@);
                            self.connections.push(conn);
                            proof {
                                assert(conn_views(self.connections@) =~= before.push(
                                    netstat_conn(ls[i as int], protocol@),
                                ));
                                assert(conn_views(self.connections@) =~= conn_views(
                                    old(self).connections@,
                                ) + netstat_active_upto(ls, protocol@, i + 1));
                            }
                        }
                    },
                    None => {},
                }
            }
            i = i + 1;
        }
    }

    /// One tick from socket-statistics output: replaces both lists with the
    /// rows' records.
    pub fn update(&mut self, ss_output: &str)
        ensures
            conn_views(final(self).listening_ports@) == ss_listening(ss_output@),
            conn_views(final(self).connections@) == ss_active(ss_output@),
    {
        self.connections = Vec::new();
        self.listening_ports = Vec::new();
        proof {
            assert(conn_views(self.listening_ports@) + ss_listening(ss_output@) =~= ss_listening(
                ss_output@,
            ));
            assert(conn_views(self.connections@) + ss_active(ss_output@) =~= ss_active(
                ss_output@,
            ));
        }
        self.parse_ss_output(ss_output);
    }
}

} // verus!
