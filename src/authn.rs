//! Route-B credentials and the decisions of joining a meter's PANA session.
use crate::commands::{
    bytes_crlf, bytes_echo_off, bytes_setpwd, bytes_setrbid, bytes_skjoin, bytes_skreset, bytes_sreg_s2,
    bytes_sreg_s3, text_crlf, text_echo_off, text_setpwd, text_setrbid, text_skjoin, text_skreset,
    text_sreg_s2, text_sreg_s3,
};
use crate::parser::views;
use crate::skrxd::{Reply, SkRxD};
use crate::text::{hex_text, ipv6_text, push_all, push_hex, push_ipv6};
use vstd::prelude::*;
use vstd::string::StringSliceAdditionalSpecFns;

verus! {

/// Why a session could not be set up.
#[derive(Clone, Copy, PartialEq, Eq, Debug)]
pub enum Error {
    /// The module refused a command, with its error code.
    Fail(u8),
    /// The PANA session failed or ended.
    PanaSessionDisconnected,
    /// The module gave no answer to a command before the read timed out.
    NoReply,
}

/// Why a credential was refused.
#[derive(Clone, Copy, PartialEq, Eq, Debug)]
pub enum CredentialError {
    /// The route-B identifier is not 32 printable characters.
    InvalidId,
    /// The route-B password is not 12 printable characters.
    InvalidPassword,
}

/// A printable ASCII character, space included.
pub open spec fn is_printable(c: u8) -> bool {
    0x20 <= c && c <= 0x7e
}

pub open spec fn all_printable(t: Seq<u8>) -> bool {
    forall|i: int| 0 <= i < t.len() ==> is_printable(#[trigger] t[i])
}

fn check_printable(t: &[u8]) -> (r: bool)
    ensures
        r == all_printable(t@),
{
    let mut i: usize = 0;
    while i < t.len()
        invariant
            i <= t@.len(),
            forall|j: int| 0 <= j < i ==> is_printable(#[trigger] t@[j]),
        decreases t@.len() - i,
    {
        if t[i] < 0x20 || t[i] > 0x7e {
            return false;
        }
        i = i + 1;
    }
    true
}

fn copy_bytes(t: &[u8]) -> (r: Vec<u8>)
    ensures
        r@ == t@,
{
    let mut v: Vec<u8> = Vec::new();
    push_all(&mut v, t);
    v
}

/// The route-B identifier: 32 printable characters.
#[derive(Clone, PartialEq, Eq, Debug)]
pub struct Id {
    text: Vec<u8>,
}

impl View for Id {
    type V = Seq<u8>;

    closed spec fn view(&self) -> Seq<u8> {
        self.text@
    }
}

impl Id {
    /// The identifier written in `s`, where `s` is 32 printable characters.
    pub fn from_str(s: &str) -> (r: Result<Id, CredentialError>)
        ensures
            r is Ok <==> s.spec_bytes().len() == 32 && all_printable(s.spec_bytes()),
            r matches Ok(id) ==> id@ == s.spec_bytes(),
            r is Err ==> r == Err::<Id, CredentialError>(CredentialError::InvalidId),
    {
        let b = s.as_bytes();
        if b.len() == 32 && check_printable(b) {
            Ok(Id { text: copy_bytes(b) })
        } else {
            Err(CredentialError::InvalidId)
        }
    }

    /// The characters of the identifier.
    pub fn as_bytes(&self) -> (r: &[u8])
        ensures
            r@ == self@,
    {
        self.text.as_slice()
    }
}

/// The route-B password: 12 printable characters.
#[derive(Clone, PartialEq, Eq, Debug)]
pub struct Password {
    text: Vec<u8>,
}

impl View for Password {
    type V = Seq<u8>;

    closed spec fn view(&self) -> Seq<u8> {
        self.text@
    }
}

impl Password {
    /// The password written in `s`, where `s` is 12 printable characters.
    pub fn from_str(s: &str) -> (r: Result<Password, CredentialError>)
        ensures
            r is Ok <==> s.spec_bytes().len() == 12 && all_printable(s.spec_bytes()),
            r matches Ok(p) ==> p@ == s.spec_bytes(),
            r is Err ==> r == Err::<Password, CredentialError>(CredentialError::InvalidPassword),
    {
        let b = s.as_bytes();
        if b.len() == 12 && check_printable(b) {
            Ok(Password { text: copy_bytes(b) })
        } else {
            Err(CredentialError::InvalidPassword)
        }
    }

    /// The characters of the password.
    pub fn as_bytes(&self) -> (r: &[u8])
        ensures
            r@ == self@,
    {
        self.text.as_slice()
    }
}

/// The route-B credentials.
#[derive(Clone, PartialEq, Eq, Debug)]
pub struct Credentials {
    pub id: Id,
    pub password: Password,
}

/// `SKSETPWD C <password>`, CRLF.
pub open spec fn setpwd_command(pw: Seq<u8>) -> Seq<u8> {
    text_setpwd() + pw + text_crlf()
}

/// `SKSETRBID <id>`, CRLF.
pub open spec fn setrbid_command(id: Seq<u8>) -> Seq<u8> {
    text_setrbid() + id + text_crlf()
}

/// The commands that bring up a session with the meter at `sender`: reset,
/// no echo, password, identifier, channel, PAN identifier, join.
pub open spec fn connect_commands_spec(c: Credentials, sender: u128, channel: u8, pan_id: u16) -> Seq<Seq<u8>> {
    seq![
        text_skreset(),
        text_echo_off(),
        setpwd_command(c.password@),
        setrbid_command(c.id@),
        text_sreg_s2() + hex_text(channel as nat, 2) + text_crlf(),
        text_sreg_s3() + hex_text(pan_id as nat, 4) + text_crlf(),
        text_skjoin() + ipv6_text(sender) + text_crlf(),
    ]
}

/// The password command with the credentials' password.
pub fn setpwd_bytes(c: &Credentials) -> (r: Vec<u8>)
    ensures
        r@ == setpwd_command(c.password@),
{
    let mut v = bytes_setpwd();
    push_all(&mut v, c.password.as_bytes());
    push_all(&mut v, bytes_crlf().as_slice());
    v
}

/// The identifier command with the credentials' identifier.
pub fn setrbid_bytes(c: &Credentials) -> (r: Vec<u8>)
    ensures
        r@ == setrbid_command(c.id@),
{
    let mut v = bytes_setrbid();
    push_all(&mut v, c.id.as_bytes());
    push_all(&mut v, bytes_crlf().as_slice());
    v
}

/// The commands that bring up a session, in the order they are sent.
pub fn connect_commands(c: &Credentials, sender: u128, channel: u8, pan_id: u16) -> (r: Vec<Vec<u8>>)
    ensures
        views(r@) == connect_commands_spec(*c, sender, channel, pan_id),
{
    let mut cmds: Vec<Vec<u8>> = Vec::new();
    cmds.push(bytes_skreset());
    cmds.push(bytes_echo_off());
    cmds.push(setpwd_bytes(c));
    cmds.push(setrbid_bytes(c));
    let mut s2 = bytes_sreg_s2();
    push_hex(&mut s2, channel as u128, 2);
    push_all(&mut s2, bytes_crlf().as_slice());
    cmds.push(s2);
    let mut s3 = bytes_sreg_s3();
    push_hex(&mut s3, pan_id as u128, 4);
    push_all(&mut s3, bytes_crlf().as_slice());
    cmds.push(s3);
    let mut join = bytes_skjoin();
    push_ipv6(&mut join, sender);
    push_all(&mut join, bytes_crlf().as_slice());
    cmds.push(join);
    assert(views(cmds@) =~= connect_commands_spec(*c, sender, channel, pan_id));
    cmds
}

/// What to do next in a command exchange with the module.
#[derive(Clone, Copy, PartialEq, Eq, Debug)]
pub enum Progress<T> {
    /// Send the command of this index, then read one reply.
    Send(usize),
    /// Read one more reply.
    Receive,
    /// The exchange is over.
    Finished(T),
}

/// The first refusal among the replies to the first `n` commands, from
/// reply `j` on: a FAIL record, or a read that timed out. Any other record
/// acknowledges its command.
pub open spec fn command_failure(rs: Seq<Reply>, j: int, n: int) -> Option<Error>
    decreases n - j,
{
    if j < 0 || j >= n || j >= rs.len() {
        None
    } else {
        match rs[j] {
            Reply::Timeout => Some(Error::NoReply),
            Reply::Record(SkRxD::Fail(code)) => Some(Error::Fail(code)),
            _ => command_failure(rs, j + 1, n),
        }
    }
}

/// The end of a join, from reply `j` on: EVENT 25 joins, EVENT 24 or a FAIL
/// ends it with an error; other records and timeouts are passed over.
pub open spec fn join_outcome(rs: Seq<Reply>, j: int) -> Option<Result<(), Error>>
    decreases rs.len() - j,
{
    if j < 0 || j >= rs.len() {
        None
    } else {
        match rs[j] {
            Reply::Record(SkRxD::Fail(code)) => Some(Err(Error::Fail(code))),
            Reply::Record(SkRxD::Event(e)) => if e.code == 0x24 {
                Some(Err(Error::PanaSessionDisconnected))
            } else if e.code == 0x25 {
                Some(Ok(()))
            } else {
                join_outcome(rs, j + 1)
            },
            _ => join_outcome(rs, j + 1),
        }
    }
}

/// The number of commands that bring up a session.
pub const CONNECT_COMMANDS: usize = 7;

/// What comes next in bringing up a session, after the replies `rs`.
pub open spec fn connect_progress(rs: Seq<Reply>) -> Progress<Result<(), Error>> {
    match command_failure(rs, 0, CONNECT_COMMANDS as int) {
        Some(e) => Progress::Finished(Err(e)),
        None => if rs.len() < CONNECT_COMMANDS {
            Progress::Send(rs.len() as usize)
        } else {
            match join_outcome(rs, CONNECT_COMMANDS as int) {
                Some(o) => Progress::Finished(o),
                None => Progress::Receive,
            }
        },
    }
}

/// The first refusal among the replies to the first `n` commands.
pub fn first_command_failure(rs: &Vec<Reply>, n: usize) -> (r: Option<Error>)
    ensures
        r == command_failure(rs@, 0, n as int),
{
    let mut j: usize = 0;
    while j < n && j < rs.len()
        invariant
            command_failure(rs@, 0, n as int) == command_failure(rs@, j as int, n as int),
        decreases n - j,
    {
        match &rs[j] {
            Reply::Timeout => {
                return Some(Error::NoReply);
            },
            Reply::Record(SkRxD::Fail(code)) => {
                return Some(Error::Fail(*code));
            },
            _ => {},
        }
        j = j + 1;
    }
    None
}

/// Decides what comes next in bringing up a session with the meter, given
/// every reply read so far: the index of the next command of
/// `connect_commands` to send, another read, or the end of the exchange.
/// The commands are sent one by one, each followed by one read; a FAIL or a
/// read that timed out refuses the session. Then EVENT 25 joins it, and
/// EVENT 24 or a FAIL ends it.
pub fn connect(rs: &Vec<Reply>) -> (r: Progress<Result<(), Error>>)
    ensures
        r == connect_progress(rs@),
{
    match first_command_failure(rs, CONNECT_COMMANDS) {
        Some(e) => Progress::Finished(Err(e)),
        None => {
            if rs.len() < CONNECT_COMMANDS {
                return Progress::Send(rs.len());
            }
            let mut j: usize = CONNECT_COMMANDS;
            while j < rs.len()
                invariant
                    CONNECT_COMMANDS <= j,
                    CONNECT_COMMANDS <= rs@.len(),
                    command_failure(rs@, 0, CONNECT_COMMANDS as int) is None,
                    join_outcome(rs@, CONNECT_COMMANDS as int) == join_outcome(rs@, j as int),
                decreases rs@.len() - j,
            {
                match &rs[j] {
                    Reply::Record(SkRxD::Fail(code)) => {
                        return Progress::Finished(Err(Error::Fail(*code)));
                    },
                    Reply::Record(SkRxD::Event(e)) => {
                        if e.code == 0x24 {
                            return Progress::Finished(Err(Error::PanaSessionDisconnected));
                        } else if e.code == 0x25 {
                            return Progress::Finished(Ok(()));
                        }
                    },
                    _ => {},
                }
                j = j + 1;
            }
            Progress::Receive
        },
    }
}

/// Whether `pat` occurs in `s` at `i`.
pub open spec fn occurs_at(s: Seq<u8>, pat: Seq<u8>, i: int) -> bool {
    0 <= i && i + pat.len() <= s.len() && s.subrange(i, i + pat.len()) == pat
}

/// The first place at or after `i` where `pat` occurs in `s`.
pub open spec fn first_occurrence(s: Seq<u8>, pat: Seq<u8>, i: int) -> Option<int>
    decreases s.len() - i,
{
    if i < 0 || i >= s.len() || i + pat.len() > s.len() {
        None
    } else if occurs_at(s, pat, i) {
        Some(i)
    } else {
        first_occurrence(s, pat, i + 1)
    }
}

/// The length of a masked password.
pub const PASSWORD_LEN: usize = 12;

/// A log line with the password masked: after the first `SKSETPWD C `, the
/// twelve bytes of the password, or as many as the line still holds,
/// become `#`.
pub open spec fn masked_line(s: Seq<u8>) -> Seq<u8> {
    match first_occurrence(s, text_setpwd(), 0) {
        None => s,
        Some(p) => {
            let start = p + text_setpwd().len();
            let end = if start + PASSWORD_LEN < s.len() { start + PASSWORD_LEN } else { s.len() as int };
            Seq::new(s.len(), |j: int| if start <= j < end { 0x23u8 } else { s[j] })
        },
    }
}

/// The first place where `pat` occurs in `s`.
fn find_pattern(s: &[u8], pat: &[u8]) -> (r: Option<usize>)
    ensures
        match r {
            Some(p) => first_occurrence(s@, pat@, 0) == Some(p as int) && p < s@.len() && p + pat@.len() <= s@.len(),
            None => first_occurrence(s@, pat@, 0) is None,
        },
{
    let mut p: usize = 0;
    while p < s.len() && s.len() - p >= pat.len()
        invariant
            first_occurrence(s@, pat@, 0) == first_occurrence(s@, pat@, p as int),
        decreases s@.len() - p,
    {
        if crate::parser::starts_with_at(s, p, pat) {
            return Some(p);
        }
        p = p + 1;
    }
    None
}

/// Masks the route-B password in a log line, so that no credential reaches
/// the log.
pub fn mask_password(line: &[u8]) -> (r: Vec<u8>)
    ensures
        r@ == masked_line(line@),
{
    let pat = bytes_setpwd();
    let mut out: Vec<u8> = Vec::new();
    let p = match find_pattern(line, pat.as_slice()) {
        None => {
            push_all(&mut out, line);
            return out;
        },
        Some(p) => p,
    };
    let n = line.len();
    assert(p + pat@.len() <= n);
    let start = p + pat.len();
    let end = if n - start > PASSWORD_LEN { start + PASSWORD_LEN } else { n };
    let mut j: usize = 0;
    while j < line.len()
        invariant
            j <= line@.len(),
            out@ == masked_line(line@).subrange(0, j as int),
            first_occurrence(line@, text_setpwd(), 0) == Some(p as int),
            start == p + text_setpwd().len(),
            end == (if start + PASSWORD_LEN < line@.len() { start + PASSWORD_LEN } else { line@.len() as int }),
        decreases line@.len() - j,
    {
        if start <= j && j < end {
            out.push(0x23);
        } else {
            out.push(line[j]);
        }
        j = j + 1;
        assert(out@ =~= masked_line(line@).subrange(0, j as int));
    }
    assert(out@ =~= masked_line(line@));
    out
}

} // verus!
