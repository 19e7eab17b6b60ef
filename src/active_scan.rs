//! The decisions of an active scan for meters.
use crate::authn::{command_failure, first_command_failure, setpwd_bytes, setpwd_command, setrbid_bytes, setrbid_command, Credentials, Error, Progress};
use crate::commands::{
    bytes_crlf, bytes_echo_off, bytes_skreset, bytes_skscan, text_crlf, text_echo_off, text_skreset,
    text_skscan,
};
use crate::parser::views;
use crate::skrxd::{Epandesc, Reply, SkRxD};
use crate::text::{hex_text, push_all, push_hex};
use vstd::prelude::*;

verus! {

/// The number of commands that start a scan.
pub const SCAN_COMMANDS: usize = 5;

/// The commands that start a scan of dwell time `scan_time`: reset, no
/// echo, password, identifier, scan.
pub open spec fn scan_commands_spec(c: Credentials, scan_time: u8) -> Seq<Seq<u8>> {
    seq![
        text_skreset(),
        text_echo_off(),
        setpwd_command(c.password@),
        setrbid_command(c.id@),
        text_skscan() + hex_text(scan_time as nat, 1) + text_crlf(),
    ]
}

/// The commands that start a scan, in the order they are sent.
pub fn scan_commands(c: &Credentials, scan_time: u8) -> (r: Vec<Vec<u8>>)
    requires
        1 <= scan_time <= 14,
    ensures
        views(r@) == scan_commands_spec(*c, scan_time),
{
    let mut cmds: Vec<Vec<u8>> = Vec::new();
    cmds.push(bytes_skreset());
    cmds.push(bytes_echo_off());
    cmds.push(setpwd_bytes(c));
    cmds.push(setrbid_bytes(c));
    let mut scan = bytes_skscan();
    push_hex(&mut scan, scan_time as u128, 1);
    push_all(&mut scan, bytes_crlf().as_slice());
    cmds.push(scan);
    assert(views(cmds@) =~= scan_commands_spec(*c, scan_time));
    cmds
}

/// The descriptors found from reply `j` on, after those in `found`, and
/// whether the scan has ended: EVENT 20 (a beacon) and records other than
/// events and FAIL go on; any other event, EVENT 22 among them, or a FAIL
/// ends it.
pub open spec fn scan_from(rs: Seq<Reply>, j: int, found: Seq<Epandesc>) -> (Seq<Epandesc>, bool)
    decreases rs.len() - j,
{
    if j < 0 || j >= rs.len() {
        (found, false)
    } else {
        match rs[j] {
            Reply::Record(SkRxD::Epandesc(d)) => scan_from(rs, j + 1, found.push(d)),
            Reply::Record(SkRxD::Event(e)) => if e.code == 0x20 {
                scan_from(rs, j + 1, found)
            } else {
                (found, true)
            },
            Reply::Record(SkRxD::Fail(_)) => (found, true),
            _ => scan_from(rs, j + 1, found),
        }
    }
}

/// What comes next in a scan after the replies `rs`, and the descriptors
/// found so far, in the order they came.
pub open spec fn scan_progress(rs: Seq<Reply>) -> (Progress<Result<(), Error>>, Seq<Epandesc>) {
    match command_failure(rs, 0, SCAN_COMMANDS as int) {
        Some(e) => (Progress::Finished(Err(e)), Seq::empty()),
        None => if rs.len() < SCAN_COMMANDS {
            (Progress::Send(rs.len() as usize), Seq::empty())
        } else {
            let (found, done) = scan_from(rs, SCAN_COMMANDS as int, Seq::empty());
            (if done { Progress::Finished(Ok(())) } else { Progress::Receive }, found)
        },
    }
}

/// Decides what comes next in an active scan, given every reply read so far:
/// the index of the next command of `scan_commands` to send, another read,
/// or the end of the scan; and the descriptors found so far. A FAIL or a
/// timed-out read in answer to a command refuses the scan; none found is an
/// empty list, not an error.
pub fn active_scan(rs: &Vec<Reply>) -> (r: (Progress<Result<(), Error>>, Vec<Epandesc>))
    ensures
        (r.0, r.1@) == scan_progress(rs@),
{
    match first_command_failure(rs, SCAN_COMMANDS) {
        Some(e) => (Progress::Finished(Err(e)), Vec::new()),
        None => {
            if rs.len() < SCAN_COMMANDS {
                return (Progress::Send(rs.len()), Vec::new());
            }
            let mut found: Vec<Epandesc> = Vec::new();
            let mut j: usize = SCAN_COMMANDS;
            while j < rs.len()
                invariant
                    SCAN_COMMANDS <= j,
                    SCAN_COMMANDS <= rs@.len(),
                    command_failure(rs@, 0, SCAN_COMMANDS as int) is None,
                    scan_from(rs@, SCAN_COMMANDS as int, Seq::empty()) == scan_from(rs@, j as int, found@),
                decreases rs@.len() - j,
            {
                match &rs[j] {
                    Reply::Record(SkRxD::Epandesc(d)) => {
                        found.push(*d);
                    },
                    Reply::Record(SkRxD::Event(e)) => {
                        if e.code != 0x20 {
                            return (Progress::Finished(Ok(())), found);
                        }
                    },
                    Reply::Record(SkRxD::Fail(_)) => {
                        return (Progress::Finished(Ok(())), found);
                    },
                    _ => {},
                }
                j = j + 1;
            }
            (Progress::Receive, found)
        },
    }
}

} // verus!
