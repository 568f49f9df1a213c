//! The port reaper: from the output of the platform's process-by-port
//! enumeration tool it plans which processes to terminate so that the
//! service port comes free, followed by a fixed settle wait.
//!
//! Planning always succeeds: zero discovered processes is not an error,
//! and the plan asks for the settle wait whether or not anything was
//! found.  A kill that fails because the process is already dead is the
//! embedding application's to log and ignore.

use vstd::prelude::*;
use crate::bytes::contains_seq;
use crate::bytes::contains_bytes;
use crate::bytes::dec_digits;
use crate::bytes::last_token;
use crate::bytes::last_token_vec;
use crate::bytes::line_views;
use crate::bytes::parse_pid;
use crate::bytes::parse_pid_spec;
use crate::bytes::split_lines;
use crate::bytes::split_lines_vec;
use crate::bytes::u16_to_dec;

verus! {

/// How long to let the operating system release the socket after the
/// kills, in milliseconds.
pub const SETTLE_MILLIS: u64 = 500;

/// What the embedding application must do to free the port: force-kill
/// each listed process id, then wait out the settle interval.
#[derive(PartialEq, Eq, Debug)]
pub struct ReapPlan {
    /// Process ids to force-kill, in the order the tool reported them.
    pub kills: Vec<i32>,
    /// The settle wait that follows the kills unconditionally.
    pub settle_millis: u64,
}

/// The process ids found in enumeration output where every line is one
/// optional process id: each line that parses as a process id contributes
/// it, in order.
pub open spec fn pids_of_lines(lines: Seq<Seq<u8>>) -> Seq<i32>
    decreases lines.len(),
{
    if lines.len() == 0 {
        Seq::empty()
    } else {
        match parse_pid_spec(lines.first()) {
            Some(pid) => seq![pid] + pids_of_lines(lines.drop_first()),
            None => pids_of_lines(lines.drop_first()),
        }
    }
}

/// The process ids to kill according to one-pid-per-line output.
pub open spec fn reap_pids(out: Seq<u8>) -> Seq<i32> {
    pids_of_lines(split_lines(out))
}

/// The bytes of the socket-table mark of a listening entry.
pub open spec fn listening_mark() -> Seq<u8> {
    seq![76u8, 73u8, 83u8, 84u8, 69u8, 78u8, 73u8, 78u8, 71u8]
}

/// The bytes that a socket-table line shows for a bound port: a colon,
/// then the port in decimal.
pub open spec fn port_pattern(port: u16) -> Seq<u8> {
    seq![58u8] + dec_digits(port as nat)
}

/// The process id of one socket-table line: the line counts when it shows
/// the port pattern and the listening mark, and its last token parses as a
/// process id.
pub open spec fn table_line_pid(line: Seq<u8>, port: u16) -> Option<i32> {
    if contains_seq(line, port_pattern(port)) && contains_seq(line, listening_mark()) {
        parse_pid_spec(last_token(line))
    } else {
        None
    }
}

/// The process ids found in socket-table output, in order.
pub open spec fn table_pids_of_lines(lines: Seq<Seq<u8>>, port: u16) -> Seq<i32>
    decreases lines.len(),
{
    if lines.len() == 0 {
        Seq::empty()
    } else {
        match table_line_pid(lines.first(), port) {
            Some(pid) => seq![pid] + table_pids_of_lines(lines.drop_first(), port),
            None => table_pids_of_lines(lines.drop_first(), port),
        }
    }
}

/// The process ids to kill according to socket-table output.
pub open spec fn netstat_pids(out: Seq<u8>, port: u16) -> Seq<i32> {
    table_pids_of_lines(split_lines(out), port)
}

/// Plans the reap from the output of a one-pid-per-line enumeration (the
/// Unix way: the tool lists the ids of the processes bound to the port).
/// Planning never fails: absent or empty output plans no kill, and the
/// settle wait is always ordered.
pub fn plan_reap_unix(enum_stdout: Option<&[u8]>) -> (plan: ReapPlan)
    ensures
        plan.settle_millis == SETTLE_MILLIS,
        (match enum_stdout {
            Some(out) => plan.kills@ == reap_pids(out@),
            None => plan.kills@ == Seq::<i32>::empty(),
        }),
{
    let mut kills: Vec<i32> = Vec::new();
    match enum_stdout {
        None => {},
        Some(out) => {
            let lines = split_lines_vec(out);
            let ghost ls = line_views(lines@);
            let mut i: usize = 0;
            assert(ls.skip(0) =~= ls);
            assert(kills@ + pids_of_lines(ls.skip(0)) =~= pids_of_lines(ls));
            while i < lines.len()
                invariant
                    0 <= i <= lines@.len(),
                    ls == line_views(lines@),
                    ls.len() == lines@.len(),
                    pids_of_lines(ls) == kills@ + pids_of_lines(ls.skip(i as int)),
                decreases lines@.len() - i,
            {
                proof {
                    assert(ls.skip(i as int).first() == ls[i as int]);
                    assert(ls.skip(i as int).drop_first() =~= ls.skip(i as int + 1));
                    assert(ls[i as int] == lines@[i as int]@);
                }
                let pid_opt = parse_pid(lines[i].as_slice());
                match pid_opt {
                    Some(pid) => {
                        proof {
                            assert(kills@ + (seq![pid] + pids_of_lines(ls.skip(i as int + 1)))
                                =~= kills@.push(pid) + pids_of_lines(ls.skip(i as int + 1)));
                        }
                        kills.push(pid);
                    },
                    None => {},
                }
                i = i + 1;
            }
            assert(ls.skip(ls.len() as int) =~= Seq::<Seq<u8>>::empty());
            assert(kills@ + pids_of_lines(ls.skip(ls.len() as int)) =~= kills@);
        },
    }
    ReapPlan { kills, settle_millis: SETTLE_MILLIS }
}

/// Plans the reap from socket-table output (the Windows way: the tool
/// lists every connection; a line counts when it shows the port and the
/// listening mark, its last column being the process id).  Planning never
/// fails: absent output or no matching line plans no kill, and the settle
/// wait is always ordered.
pub fn plan_reap_windows(table_stdout: Option<&[u8]>, port: u16) -> (plan: ReapPlan)
    ensures
        plan.settle_millis == SETTLE_MILLIS,
        (match table_stdout {
            Some(out) => plan.kills@ == netstat_pids(out@, port),
            None => plan.kills@ == Seq::<i32>::empty(),
        }),
{
    let mut kills: Vec<i32> = Vec::new();
    match table_stdout {
        None => {},
        Some(out) => {
            let mut pattern: Vec<u8> = Vec::new();
            pattern.push(58);
            let mut digits = u16_to_dec(port);
            pattern.append(&mut digits);
            assert(pattern@ =~= port_pattern(port));
            let mut mark: Vec<u8> = Vec::new();
            mark.push(76);
            mark.push(73);
            mark.push(83);
            mark.push(84);
            mark.push(69);
            mark.push(78);
            mark.push(73);
            mark.push(78);
            mark.push(71);
            assert(mark@ =~= listening_mark());
            let lines = split_lines_vec(out);
            let ghost ls = line_views(lines@);
            let mut i: usize = 0;
            assert(ls.skip(0) =~= ls);
            assert(kills@ + table_pids_of_lines(ls.skip(0), port) =~= table_pids_of_lines(ls, port));
            while i < lines.len()
                invariant
                    0 <= i <= lines@.len(),
                    ls == line_views(lines@),
                    ls.len() == lines@.len(),
                    pattern@ == port_pattern(port),
                    mark@ == listening_mark(),
                    table_pids_of_lines(ls, port) == kills@ + table_pids_of_lines(
                        ls.skip(i as int),
                        port,
                    ),
                decreases lines@.len() - i,
            {
                proof {
                    assert(ls.skip(i as int).first() == ls[i as int]);
                    assert(ls.skip(i as int).drop_first() =~= ls.skip(i as int + 1));
                    assert(ls[i as int] == lines@[i as int]@);
                }
                let shows_port = contains_bytes(lines[i].as_slice(), pattern.as_slice());
                let shows_mark = contains_bytes(lines[i].as_slice(), mark.as_slice());
                if shows_port && shows_mark {
                    let token = last_token_vec(lines[i].as_slice());
                    let pid_opt = parse_pid(token.as_slice());
                    match pid_opt {
                        Some(pid) => {
                            proof {
                                assert(kills@ + (seq![pid] + table_pids_of_lines(
                                    ls.skip(i as int + 1),
                                    port,
                                )) =~= kills@.push(pid) + table_pids_of_lines(
                                    ls.skip(i as int + 1),
                                    port,
                                ));
                            }
                            kills.push(pid);
                        },
                        None => {},
                    }
                }
                i = i + 1;
            }
            assert(ls.skip(ls.len() as int) =~= Seq::<Seq<u8>>::empty());
            assert(kills@ + table_pids_of_lines(ls.skip(ls.len() as int), port) =~= kills@);
        },
    }
    ReapPlan { kills, settle_millis: SETTLE_MILLIS }
}

} // verus!