//! The SKSTACK response grammar. Each record ends with CRLF; fields are
//! separated by single spaces; numbers are hexadecimal; an IPv6 address is
//! eight colon-separated groups of one to four hex digits.
use crate::skrxd::{Epandesc, Erxudp, ErxudpView, Event, SkRxD, SkRxDView};
use vstd::prelude::*;

verus! {

/// Why no record could be read from the front of a buffer.
#[derive(Clone, Copy, PartialEq, Eq, Debug)]
pub enum ParseError {
    /// The buffer ends before the record does: read more and try again.
    Incomplete,
    /// The first line starts no record.
    Invalid,
}

pub open spec fn is_hex_digit(c: u8) -> bool {
    (0x30 <= c && c <= 0x39) || (0x41 <= c && c <= 0x46) || (0x61 <= c && c <= 0x66)
}

pub open spec fn hex_digit_value(c: u8) -> int {
    if c <= 0x39 {
        c - 0x30
    } else if c <= 0x46 {
        c - 0x41 + 10
    } else {
        c - 0x61 + 10
    }
}

pub open spec fn all_hex(t: Seq<u8>) -> bool {
    forall|i: int| 0 <= i < t.len() ==> is_hex_digit(#[trigger] t[i])
}

/// The number that a string of hex digits stands for.
pub open spec fn hex_value(t: Seq<u8>) -> int
    decreases t.len(),
{
    if t.len() == 0 {
        0
    } else {
        hex_value(t.drop_last()) * 16 + hex_digit_value(t.last())
    }
}

/// A hex field: one or more digits whose value is below `bound`.
pub open spec fn hex_field(t: Seq<u8>, bound: int) -> Option<int> {
    if t.len() >= 1 && all_hex(t) && hex_value(t) < bound {
        Some(hex_value(t))
    } else {
        None
    }
}

/// Splitting `l` at each `sep`: the fields that are closed, and the one that
/// is still open at the end of `l`.
pub open spec fn split_prefix(l: Seq<u8>, sep: u8) -> (Seq<Seq<u8>>, Seq<u8>)
    decreases l.len(),
{
    if l.len() == 0 {
        (Seq::empty(), Seq::empty())
    } else {
        let (done, cur) = split_prefix(l.drop_last(), sep);
        if l.last() == sep {
            (done.push(cur), Seq::empty())
        } else {
            (done, cur.push(l.last()))
        }
    }
}

/// The fields of `l` between the separators `sep`.
pub open spec fn fields(l: Seq<u8>, sep: u8) -> Seq<Seq<u8>> {
    let (done, cur) = split_prefix(l, sep);
    done.push(cur)
}

pub open spec fn groups_value(gs: Seq<Seq<u8>>) -> int
    decreases gs.len(),
{
    if gs.len() == 0 {
        0
    } else {
        groups_value(gs.drop_last()) * 65536 + hex_value(gs.last())
    }
}

/// An IPv6 address written out in full: eight groups of one to four digits.
pub open spec fn ipv6_field(t: Seq<u8>) -> Option<int> {
    let gs = fields(t, 0x3a);
    if gs.len() == 8 && forall|i: int| 0 <= i < 8 ==> (#[trigger] gs[i]).len() <= 4 && hex_field(gs[i], 65536) is Some {
        Some(groups_value(gs))
    } else {
        None
    }
}

/// Bytes written as pairs of hex digits.
pub open spec fn hex_bytes(t: Seq<u8>) -> Seq<u8> {
    Seq::new((t.len() / 2) as nat, |i: int| hex_value(t.subrange(2 * i, 2 * i + 2)) as u8)
}

pub open spec fn text_ok() -> Seq<u8> {
    seq![0x4f, 0x4b]
}

pub open spec fn text_fail() -> Seq<u8> {
    seq![0x46, 0x41, 0x49, 0x4c, 0x20, 0x45, 0x52]
}

pub open spec fn text_event() -> Seq<u8> {
    seq![0x45, 0x56, 0x45, 0x4e, 0x54]
}

pub open spec fn text_erxudp() -> Seq<u8> {
    seq![0x45, 0x52, 0x58, 0x55, 0x44, 0x50]
}

pub open spec fn text_epandesc() -> Seq<u8> {
    seq![0x45, 0x50, 0x41, 0x4e, 0x44, 0x45, 0x53, 0x43]
}

pub open spec fn is_blank(l: Seq<u8>) -> bool {
    forall|i: int| 0 <= i < l.len() ==> (#[trigger] l[i] == 0x20 || l[i] == 0x09)
}

/// The record of an EVENT line's fields.
pub open spec fn event_of(ts: Seq<Seq<u8>>) -> Option<SkRxDView> {
    if (ts.len() == 3 || ts.len() == 4) && hex_field(ts[1], 256) is Some && ipv6_field(ts[2]) is Some
        && (ts.len() == 4 ==> hex_field(ts[3], 256) is Some) {
        Some(
            SkRxDView::Event(
                Event {
                    code: hex_field(ts[1], 256).unwrap() as u8,
                    sender: ipv6_field(ts[2]).unwrap() as u128,
                    param: if ts.len() == 4 {
                        Some(hex_field(ts[3], 256).unwrap() as u8)
                    } else {
                        None
                    },
                },
            ),
        )
    } else {
        None
    }
}

/// The record of an ERXUDP line's fields.
pub open spec fn erxudp_of(ts: Seq<Seq<u8>>) -> Option<SkRxDView> {
    if ts.len() == 9 && ipv6_field(ts[1]) is Some && ipv6_field(ts[2]) is Some && hex_field(ts[3], 0x1_0000) is Some
        && hex_field(ts[4], 0x1_0000) is Some && hex_field(ts[5], 0x1_0000_0000_0000_0000) is Some
        && hex_field(ts[6], 256) is Some && hex_field(ts[7], 0x1_0000) is Some && all_hex(ts[8])
        && ts[8].len() == 2 * hex_field(ts[7], 0x1_0000).unwrap() {
        Some(
            SkRxDView::Erxudp(
                ErxudpView {
                    sender: ipv6_field(ts[1]).unwrap() as u128,
                    destination: ipv6_field(ts[2]).unwrap() as u128,
                    sender_port: hex_field(ts[3], 0x1_0000).unwrap() as u16,
                    destination_port: hex_field(ts[4], 0x1_0000).unwrap() as u16,
                    senderlla: hex_field(ts[5], 0x1_0000_0000_0000_0000).unwrap() as u64,
                    secured: hex_field(ts[6], 256).unwrap() as u8,
                    datalen: hex_field(ts[7], 0x1_0000).unwrap() as u16,
                    data: hex_bytes(ts[8]),
                },
            ),
        )
    } else {
        None
    }
}

/// The record that a single line stands for, if any.
pub open spec fn parse_line(l: Seq<u8>) -> Option<SkRxDView> {
    if is_blank(l) {
        Some(SkRxDView::Void)
    } else if l == text_ok() {
        Some(SkRxDView::Okay)
    } else if l.len() == 9 && l.subrange(0, 7) == text_fail() && all_hex(l.subrange(7, 9)) {
        Some(SkRxDView::Fail(hex_value(l.subrange(7, 9)) as u8))
    } else {
        let ts = fields(l, 0x20);
        if ts[0] == text_event() {
            event_of(ts)
        } else if ts[0] == text_erxudp() {
            erxudp_of(ts)
        } else {
            None
        }
    }
}

pub open spec fn crlf_at(s: Seq<u8>, i: int) -> bool {
    0 <= i && i + 1 < s.len() && s[i] == 0x0d && s[i + 1] == 0x0a
}

/// The index of the first CRLF at or after `i`.
pub open spec fn first_crlf(s: Seq<u8>, i: int) -> Option<int>
    decreases s.len() - i,
{
    if i < 0 || i + 1 >= s.len() {
        None
    } else if crlf_at(s, i) {
        Some(i)
    } else {
        first_crlf(s, i + 1)
    }
}

/// The labels of the six lines of a PAN descriptor, after two spaces.
pub open spec fn epandesc_label(k: int) -> Seq<u8> {
    if k == 0 {
        seq![0x43, 0x68, 0x61, 0x6e, 0x6e, 0x65, 0x6c, 0x3a]
    } else if k == 1 {
        seq![0x43, 0x68, 0x61, 0x6e, 0x6e, 0x65, 0x6c, 0x20, 0x50, 0x61, 0x67, 0x65, 0x3a]
    } else if k == 2 {
        seq![0x50, 0x61, 0x6e, 0x20, 0x49, 0x44, 0x3a]
    } else if k == 3 {
        seq![0x41, 0x64, 0x64, 0x72, 0x3a]
    } else if k == 4 {
        seq![0x4c, 0x51, 0x49, 0x3a]
    } else {
        seq![0x50, 0x61, 0x69, 0x72, 0x49, 0x44, 0x3a]
    }
}

/// The bound of the value on each line of a PAN descriptor.
pub open spec fn epandesc_bound(k: int) -> int {
    if k == 2 {
        0x1_0000
    } else if k == 3 {
        0x1_0000_0000_0000_0000
    } else if k == 5 {
        0x1_0000_0000
    } else {
        256
    }
}

/// Reads the value of line `k` of a PAN descriptor that starts at `pos`:
/// where the line ends, and its value.
pub open spec fn epandesc_line(s: Seq<u8>, pos: int, k: int) -> Result<(int, int), ParseError> {
    match first_crlf(s, pos) {
        None => Err(ParseError::Incomplete),
        Some(e) => {
            let line = s.subrange(pos, e);
            let pre = seq![0x20u8, 0x20u8] + epandesc_label(k);
            if line.len() >= pre.len() && line.subrange(0, pre.len() as int) == pre {
                match hex_field(line.subrange(pre.len() as int, line.len() as int), epandesc_bound(k)) {
                    Some(v) => Ok((e + 2, v)),
                    None => Err(ParseError::Invalid),
                }
            } else {
                Err(ParseError::Invalid)
            }
        },
    }
}

/// Reads the six lines of a PAN descriptor from `pos` on, `k` of them read
/// already with values `vs`.
pub open spec fn epandesc_from(s: Seq<u8>, pos: int, k: nat, vs: Seq<int>) -> Result<(int, Seq<int>), ParseError>
    decreases 6 - k,
{
    if k >= 6 {
        Ok((pos, vs))
    } else {
        match epandesc_line(s, pos, k as int) {
            Ok((next, v)) => epandesc_from(s, next, k + 1, vs.push(v)),
            Err(e) => Err(e),
        }
    }
}

/// The record at the front of `s` and the number of bytes it takes.
#[verifier::opaque]
pub open spec fn parse_spec(s: Seq<u8>) -> Result<(int, SkRxDView), ParseError> {
    match first_crlf(s, 0) {
        None => Err(ParseError::Incomplete),
        Some(e) => {
            let line = s.subrange(0, e);
            if line == text_epandesc() {
                match epandesc_from(s, e + 2, 0, Seq::empty()) {
                    Ok((n, vs)) => Ok(
                        (
                            n,
                            SkRxDView::Epandesc(
                                Epandesc {
                                    channel: vs[0] as u8,
                                    channel_page: vs[1] as u8,
                                    pan_id: vs[2] as u16,
                                    addr: vs[3] as u64,
                                    lqi: vs[4] as u8,
                                    pair_id: vs[5] as u32,
                                },
                            ),
                        ),
                    ),
                    Err(err) => Err(err),
                }
            } else {
                match parse_line(line) {
                    Some(r) => Ok((e + 2, r)),
                    None => Err(ParseError::Invalid),
                }
            }
        },
    }
}

proof fn lemma_hex_value_nonneg(t: Seq<u8>)
    requires
        all_hex(t),
    ensures
        0 <= hex_value(t),
    decreases t.len(),
{
    if t.len() > 0 {
        lemma_hex_value_nonneg(t.drop_last());
        assert(is_hex_digit(t[t.len() - 1]));
    }
}

proof fn lemma_two_digits(p: Seq<u8>)
    requires
        p.len() == 2,
        all_hex(p),
    ensures
        hex_value(p) == hex_digit_value(p[0]) * 16 + hex_digit_value(p[1]),
        0 <= hex_value(p) < 256,
{
    assert(is_hex_digit(p[0]) && is_hex_digit(p[1]));
    assert(p.drop_last().drop_last() =~= Seq::<u8>::empty());
    assert(p.drop_last().last() == p[0]);
    let q = p.drop_last();
    assert(q.drop_last() =~= Seq::<u8>::empty());
    assert(hex_value(q.drop_last()) == 0);
    assert(q.last() == p[0]);
    assert(hex_value(q) == hex_digit_value(p[0]));
}

proof fn lemma_hex_value_prefix(t: Seq<u8>, i: int)
    requires
        all_hex(t),
        0 <= i <= t.len(),
    ensures
        hex_value(t.subrange(0, i)) <= hex_value(t),
    decreases t.len(),
{
    if i < t.len() {
        assert(t.drop_last().subrange(0, i) =~= t.subrange(0, i));
        lemma_hex_value_prefix(t.drop_last(), i);
        lemma_hex_value_nonneg(t.drop_last());
        assert(is_hex_digit(t[t.len() - 1]));
    } else {
        assert(t.subrange(0, i) =~= t);
    }
}

/// Whether `c` is a hex digit, and its value.
fn hex_digit(c: u8) -> (r: Option<u8>)
    ensures
        r is Some <==> is_hex_digit(c),
        r matches Some(v) ==> v as int == hex_digit_value(c) && v < 16,
{
    if 0x30 <= c && c <= 0x39 {
        Some(c - 0x30)
    } else if 0x41 <= c && c <= 0x46 {
        Some(c - 0x41 + 10)
    } else if 0x61 <= c && c <= 0x66 {
        Some(c - 0x61 + 10)
    } else {
        None
    }
}

/// The value of a hex field, where it is one and its value is below `bound`.
pub fn parse_hex(t: &[u8], bound: u128) -> (r: Option<u128>)
    requires
        1 <= bound <= 0x1_0000_0000_0000_0000,
    ensures
        match r {
            Some(x) => hex_field(t@, bound as int) == Some(x as int),
            None => hex_field(t@, bound as int) is None,
        },
{
    if t.len() == 0 {
        return None;
    }
    let mut acc: u128 = 0;
    let mut i: usize = 0;
    while i < t.len()
        invariant
            i <= t@.len(),
            bound <= 0x1_0000_0000_0000_0000,
            all_hex(t@.subrange(0, i as int)),
            acc as int == hex_value(t@.subrange(0, i as int)),
            acc < bound,
        decreases t@.len() - i,
    {
        match hex_digit(t[i]) {
            None => {
                assert(!all_hex(t@));
                return None;
            },
            Some(d) => {
                assert(t@.subrange(0, i as int + 1).drop_last() =~= t@.subrange(0, i as int));
                let next = acc * 16 + d as u128;
                assert(all_hex(t@.subrange(0, i as int + 1)));
                if next >= bound {
                    proof {
                        if all_hex(t@) {
                            lemma_hex_value_prefix(t@, i as int + 1);
                        }
                    }
                    return None;
                }
                acc = next;
                i = i + 1;
            },
        }
    }
    assert(t@.subrange(0, i as int) =~= t@);
    Some(acc)
}

/// The fields of `l` between the separators `sep`.
pub fn split_fields(l: &[u8], sep: u8) -> (r: Vec<Vec<u8>>)
    ensures
        r@.map_values(|v: Vec<u8>| v@) == fields(l@, sep),
{
    let mut done: Vec<Vec<u8>> = Vec::new();
    let mut cur: Vec<u8> = Vec::new();
    let mut i: usize = 0;
    while i < l.len()
        invariant
            i <= l@.len(),
            (done@.map_values(|v: Vec<u8>| v@), cur@) == split_prefix(l@.subrange(0, i as int), sep),
        decreases l@.len() - i,
    {
        assert(l@.subrange(0, i as int + 1).drop_last() =~= l@.subrange(0, i as int));
        if l[i] == sep {
            let ghost before = done@.map_values(|v: Vec<u8>| v@);
            let ghost c = cur@;
            done.push(cur);
            cur = Vec::new();
            assert(done@.map_values(|v: Vec<u8>| v@) =~= before.push(c));
        } else {
            cur.push(l[i]);
        }
        i = i + 1;
    }
    assert(l@.subrange(0, i as int) =~= l@);
    let ghost before = done@.map_values(|v: Vec<u8>| v@);
    let ghost c = cur@;
    done.push(cur);
    assert(done@.map_values(|v: Vec<u8>| v@) =~= before.push(c));
    done
}

/// An IPv6 address written out in full, as a 128-bit value.
pub fn parse_ipv6(t: &[u8]) -> (r: Option<u128>)
    ensures
        match r {
            Some(x) => ipv6_field(t@) == Some(x as int),
            None => ipv6_field(t@) is None,
        },
{
    let gs = split_fields(t, 0x3a);
    let ghost gv = gs@.map_values(|v: Vec<u8>| v@);
    if gs.len() != 8 {
        return None;
    }
    let mut acc: u128 = 0;
    let mut i: usize = 0;
    while i < 8
        invariant
            i <= 8,
            gs@.len() == 8,
            gv == gs@.map_values(|v: Vec<u8>| v@),
            gv == fields(t@, 0x3a),
            forall|j: int| 0 <= j < i ==> (#[trigger] gv[j]).len() <= 4 && hex_field(gv[j], 65536) is Some,
            acc as int == groups_value(gv.subrange(0, i as int)),
            acc as int <= groups_bound(i as nat) - 1,
        decreases 8 - i,
    {
        assert(gv[i as int] == gs[i as int]@);
        if gs[i].len() > 4 {
            return None;
        }
        let group = gs[i].as_slice();
        assert(group@ == gv[i as int]);
        match parse_hex(group, 65536) {
            None => {
                return None;
            },
            Some(g) => {
                assert(g as int == hex_value(gv[i as int]) && g < 65536);
                assert(gv.subrange(0, i as int + 1).drop_last() =~= gv.subrange(0, i as int));
                assert(gv.subrange(0, i as int + 1).last() == gv[i as int]);
                let ghost b = groups_bound(i as nat);
                assert(acc as int * 65536 + g as int <= b * 65536 - 1) by (nonlinear_arith)
                    requires
                        acc as int <= b - 1,
                        g < 65536,
                ;
                proof {
                    lemma_groups_bound_top(i as nat + 1);
                }
                acc = acc * 65536 + g;
                i = i + 1;
            },
        }
    }
    assert(gv.subrange(0, 8) =~= gv);
    Some(acc)
}

proof fn lemma_groups_bound_top(n: nat)
    requires
        n <= 8,
    ensures
        groups_bound(n) <= 0x1_0000_0000_0000_0000_0000_0000_0000_0000,
    decreases 8 - n,
{
    if n < 8 {
        lemma_groups_bound_top(n + 1);
    } else {
        reveal_with_fuel(groups_bound, 9);
    }
}

/// `65536` to the power `n`.
pub open spec fn groups_bound(n: nat) -> int
    decreases n,
{
    if n == 0 {
        1
    } else {
        65536 * groups_bound((n - 1) as nat)
    }
}

/// The contents of a list of byte vectors.
pub open spec fn views(ts: Seq<Vec<u8>>) -> Seq<Seq<u8>> {
    ts.map_values(|v: Vec<u8>| v@)
}

/// Whether two byte strings are equal.
fn same_bytes(a: &[u8], b: &[u8]) -> (r: bool)
    ensures
        r == (a@ == b@),
{
    if a.len() != b.len() {
        return false;
    }
    let mut i: usize = 0;
    while i < a.len()
        invariant
            i <= a@.len(),
            a@.len() == b@.len(),
            a@.subrange(0, i as int) == b@.subrange(0, i as int),
        decreases a@.len() - i,
    {
        if a[i] != b[i] {
            assert(a@[i as int] != b@[i as int]);
            return false;
        }
        assert(a@.subrange(0, i as int + 1) =~= a@.subrange(0, i as int).push(a@[i as int]));
        assert(b@.subrange(0, i as int + 1) =~= b@.subrange(0, i as int).push(b@[i as int]));
        i = i + 1;
    }
    assert(a@ =~= a@.subrange(0, i as int));
    assert(b@ =~= b@.subrange(0, i as int));
    true
}

fn bytes_ok() -> (r: Vec<u8>)
    ensures
        r@ == text_ok(),
{
    let v = vec![0x4fu8, 0x4b];
    assert(v@ =~= text_ok());
    v
}

fn bytes_fail() -> (r: Vec<u8>)
    ensures
        r@ == text_fail(),
{
    let v = vec![0x46u8, 0x41, 0x49, 0x4c, 0x20, 0x45, 0x52];
    assert(v@ =~= text_fail());
    v
}

fn bytes_event() -> (r: Vec<u8>)
    ensures
        r@ == text_event(),
{
    let v = vec![0x45u8, 0x56, 0x45, 0x4e, 0x54];
    assert(v@ =~= text_event());
    v
}

fn bytes_erxudp() -> (r: Vec<u8>)
    ensures
        r@ == text_erxudp(),
{
    let v = vec![0x45u8, 0x52, 0x58, 0x55, 0x44, 0x50];
    assert(v@ =~= text_erxudp());
    v
}

fn bytes_epandesc() -> (r: Vec<u8>)
    ensures
        r@ == text_epandesc(),
{
    let v = vec![0x45u8, 0x50, 0x41, 0x4e, 0x44, 0x45, 0x53, 0x43];
    assert(v@ =~= text_epandesc());
    v
}

/// Two spaces and the label of line `k` of a PAN descriptor.
fn epandesc_prefix(k: usize) -> (r: Vec<u8>)
    requires
        k < 6,
    ensures
        r@ == seq![0x20u8, 0x20u8] + epandesc_label(k as int),
{
    let v = if k == 0 {
        vec![0x20u8, 0x20, 0x43, 0x68, 0x61, 0x6e, 0x6e, 0x65, 0x6c, 0x3a]
    } else if k == 1 {
        vec![0x20u8, 0x20, 0x43, 0x68, 0x61, 0x6e, 0x6e, 0x65, 0x6c, 0x20, 0x50, 0x61, 0x67, 0x65, 0x3a]
    } else if k == 2 {
        vec![0x20u8, 0x20, 0x50, 0x61, 0x6e, 0x20, 0x49, 0x44, 0x3a]
    } else if k == 3 {
        vec![0x20u8, 0x20, 0x41, 0x64, 0x64, 0x72, 0x3a]
    } else if k == 4 {
        vec![0x20u8, 0x20, 0x4c, 0x51, 0x49, 0x3a]
    } else {
        vec![0x20u8, 0x20, 0x50, 0x61, 0x69, 0x72, 0x49, 0x44, 0x3a]
    };
    assert(v@ =~= seq![0x20u8, 0x20u8] + epandesc_label(k as int));
    v
}

fn epandesc_bound_of(k: usize) -> (r: u128)
    ensures
        r as int == epandesc_bound(k as int),
        1 <= r <= 0x1_0000_0000_0000_0000,
{
    if k == 2 {
        0x1_0000
    } else if k == 3 {
        0x1_0000_0000_0000_0000
    } else if k == 5 {
        0x1_0000_0000
    } else {
        256
    }
}

/// The index of the first CRLF at or after `from`.
pub fn find_crlf(s: &[u8], from: usize) -> (r: Option<usize>)
    ensures
        match r {
            Some(e) => first_crlf(s@, from as int) == Some(e as int) && from <= e && e + 2 <= s@.len(),
            None => first_crlf(s@, from as int) is None,
        },
{
    let mut i = from;
    while i < s.len() && s.len() - i > 1
        invariant
            from <= i,
            first_crlf(s@, from as int) == first_crlf(s@, i as int),
        decreases s@.len() - i,
    {
        if s[i] == 0x0d && s[i + 1] == 0x0a {
            return Some(i);
        }
        i = i + 1;
    }
    None
}

fn is_blank_line(l: &[u8]) -> (r: bool)
    ensures
        r == is_blank(l@),
{
    let mut i: usize = 0;
    while i < l.len()
        invariant
            i <= l@.len(),
            forall|j: int| 0 <= j < i ==> (#[trigger] l@[j] == 0x20 || l@[j] == 0x09),
        decreases l@.len() - i,
    {
        if l[i] != 0x20 && l[i] != 0x09 {
            return false;
        }
        i = i + 1;
    }
    true
}

/// Bytes written as pairs of hex digits.
fn decode_hex_bytes(t: &[u8]) -> (r: Vec<u8>)
    requires
        all_hex(t@),
        t@.len() % 2 == 0,
    ensures
        r@ == hex_bytes(t@),
{
    let mut out: Vec<u8> = Vec::new();
    let mut i: usize = 0;
    while i < t.len() / 2
        invariant
            i <= t@.len() / 2,
            t@.len() % 2 == 0,
            all_hex(t@),
            out@ == hex_bytes(t@).subrange(0, i as int),
        decreases t@.len() / 2 - i,
    {
        let pair = &t[2 * i..2 * i + 2];
        assert(all_hex(pair@));
        proof {
            lemma_two_digits(pair@);
        }
        match parse_hex(pair, 256) {
            Some(b) => {
                out.push(b as u8);
            },
            None => {
                assert(false);
                out.push(0);
            },
        }
        i = i + 1;
        assert(out@ =~= hex_bytes(t@).subrange(0, i as int));
    }
    assert(out@ =~= hex_bytes(t@));
    out
}

fn field_hex(ts: &Vec<Vec<u8>>, i: usize, bound: u128) -> (r: Option<u128>)
    requires
        i < ts@.len(),
        1 <= bound <= 0x1_0000_0000_0000_0000,
    ensures
        match r {
            Some(x) => hex_field(views(ts@)[i as int], bound as int) == Some(x as int),
            None => hex_field(views(ts@)[i as int], bound as int) is None,
        },
{
    let f = ts[i].as_slice();
    assert(f@ == views(ts@)[i as int]);
    parse_hex(f, bound)
}

fn field_ipv6(ts: &Vec<Vec<u8>>, i: usize) -> (r: Option<u128>)
    requires
        i < ts@.len(),
    ensures
        match r {
            Some(x) => ipv6_field(views(ts@)[i as int]) == Some(x as int),
            None => ipv6_field(views(ts@)[i as int]) is None,
        },
{
    let f = ts[i].as_slice();
    assert(f@ == views(ts@)[i as int]);
    parse_ipv6(f)
}

fn parse_event(ts: &Vec<Vec<u8>>) -> (r: Option<SkRxD>)
    ensures
        match r {
            Some(x) => event_of(views(ts@)) == Some(x@),
            None => event_of(views(ts@)) is None,
        },
{
    if ts.len() != 3 && ts.len() != 4 {
        return None;
    }
    let code = match field_hex(ts, 1, 256) {
        Some(c) => c as u8,
        None => {
            return None;
        },
    };
    let sender = match field_ipv6(ts, 2) {
        Some(a) => a,
        None => {
            return None;
        },
    };
    let param = if ts.len() == 4 {
        match field_hex(ts, 3, 256) {
            Some(p) => Some(p as u8),
            None => {
                return None;
            },
        }
    } else {
        None
    };
    Some(SkRxD::Event(Event { code, sender, param }))
}

fn parse_erxudp(ts: &Vec<Vec<u8>>) -> (r: Option<SkRxD>)
    ensures
        match r {
            Some(x) => erxudp_of(views(ts@)) == Some(x@),
            None => erxudp_of(views(ts@)) is None,
        },
{
    if ts.len() != 9 {
        return None;
    }
    let sender = match field_ipv6(ts, 1) {
        Some(a) => a,
        None => {
            return None;
        },
    };
    let destination = match field_ipv6(ts, 2) {
        Some(a) => a,
        None => {
            return None;
        },
    };
    let sender_port = match field_hex(ts, 3, 0x1_0000) {
        Some(v) => v as u16,
        None => {
            return None;
        },
    };
    let destination_port = match field_hex(ts, 4, 0x1_0000) {
        Some(v) => v as u16,
        None => {
            return None;
        },
    };
    let senderlla = match field_hex(ts, 5, 0x1_0000_0000_0000_0000) {
        Some(v) => v as u64,
        None => {
            return None;
        },
    };
    let secured = match field_hex(ts, 6, 256) {
        Some(v) => v as u8,
        None => {
            return None;
        },
    };
    let datalen = match field_hex(ts, 7, 0x1_0000) {
        Some(v) => v as u16,
        None => {
            return None;
        },
    };
    let text = ts[8].as_slice();
    assert(text@ == views(ts@)[8]);
    if text.len() != 2 * datalen as usize {
        return None;
    }
    let mut i: usize = 0;
    while i < text.len()
        invariant
            i <= text@.len(),
            text@ == views(ts@)[8],
            all_hex(text@.subrange(0, i as int)),
        decreases text@.len() - i,
    {
        if hex_digit(text[i]).is_none() {
            assert(!all_hex(text@));
            return None;
        }
        i = i + 1;
        assert(all_hex(text@.subrange(0, i as int)));
    }
    assert(text@.subrange(0, i as int) =~= text@);
    let data = decode_hex_bytes(text);
    Some(
        SkRxD::Erxudp(
            Erxudp {
                sender,
                destination,
                sender_port,
                destination_port,
                senderlla,
                secured,
                datalen,
                data,
            },
        ),
    )
}

/// The record that a single line stands for, if any.
pub fn parse_line_bytes(l: &[u8]) -> (r: Option<SkRxD>)
    ensures
        match r {
            Some(x) => parse_line(l@) == Some(x@),
            None => parse_line(l@) is None,
        },
{
    if is_blank_line(l) {
        return Some(SkRxD::Void);
    }
    let ok = bytes_ok();
    if same_bytes(l, ok.as_slice()) {
        return Some(SkRxD::Okay);
    }
    let fail = bytes_fail();
    if l.len() == 9 && same_bytes(&l[0..7], fail.as_slice()) {
        let code = parse_hex(&l[7..9], 256);
        match code {
            Some(c) => {
                return Some(SkRxD::Fail(c as u8));
            },
            None => {
                let digits = &l[7..9];
                if hex_digit(digits[0]).is_some() && hex_digit(digits[1]).is_some() {
                    proof {
                        assert(all_hex(digits@));
                        lemma_two_digits(digits@);
                    }
                    assert(false);
                }
                assert(!all_hex(digits@));
            },
        }
    }
    let ts = split_fields(l, 0x20);
    assert(views(ts@) == fields(l@, 0x20));
    let head = ts[0].as_slice();
    assert(head@ == views(ts@)[0]);
    let event = bytes_event();
    if same_bytes(head, event.as_slice()) {
        return parse_event(&ts);
    }
    let erxudp = bytes_erxudp();
    if same_bytes(head, erxudp.as_slice()) {
        return parse_erxudp(&ts);
    }
    None
}

fn parse_epandesc_line(s: &[u8], pos: usize, k: usize) -> (r: Result<(usize, u128), ParseError>)
    requires
        k < 6,
    ensures
        match r {
            Ok((n, v)) => epandesc_line(s@, pos as int, k as int) == Ok::<(int, int), ParseError>((n as int, v as int)) && pos < n <= s@.len(),
            Err(e) => epandesc_line(s@, pos as int, k as int) == Err::<(int, int), ParseError>(e),
        },
{
    match find_crlf(s, pos) {
        None => Err(ParseError::Incomplete),
        Some(e) => {
            let len = s.len();
            assert(e + 2 <= len);
            let line = &s[pos..e];
            let pre = epandesc_prefix(k);
            if line.len() >= pre.len() && same_bytes(&line[0..pre.len()], pre.as_slice()) {
                let bound = epandesc_bound_of(k);
                match parse_hex(&line[pre.len()..line.len()], bound) {
                    Some(v) => Ok((e + 2, v)),
                    None => Err(ParseError::Invalid),
                }
            } else {
                Err(ParseError::Invalid)
            }
        },
    }
}

/// Reads the record at the front of `input`: the number of bytes it takes
/// and the record, or why there is none yet.
pub fn parse_rxd(input: &[u8]) -> (r: Result<(usize, SkRxD), ParseError>)
    ensures
        match r {
            Ok((n, x)) => parse_spec(input@) == Ok::<(int, SkRxDView), ParseError>((n as int, x@)),
            Err(e) => parse_spec(input@) == Err::<(int, SkRxDView), ParseError>(e),
        },
        r matches Ok((n, _)) ==> n <= input@.len(),
{
    reveal(parse_spec);
    let e = match find_crlf(input, 0) {
        None => {
            return Err(ParseError::Incomplete);
        },
        Some(e) => e,
    };
    let len = input.len();
    assert(e + 2 <= len);
    let line = &input[0..e];
    let epandesc = bytes_epandesc();
    if same_bytes(line, epandesc.as_slice()) {
        let mut pos = e + 2;
        let mut k: usize = 0;
        let mut vs: Vec<u128> = Vec::new();
        assert(vs@.map_values(|v: u128| v as int) =~= Seq::<int>::empty());
        while k < 6
            invariant
                k <= 6,
                pos <= input@.len(),
                input@.subrange(0, e as int) == text_epandesc(),
                first_crlf(input@, 0) == Some(e as int),
                vs@.len() == k,
                forall|j: int| 0 <= j < k ==> #[trigger] vs@[j] < epandesc_bound(j),
                epandesc_from(input@, e + 2, 0, Seq::empty()) == epandesc_from(
                    input@,
                    pos as int,
                    k as nat,
                    vs@.map_values(|v: u128| v as int),
                ),
            decreases 6 - k,
        {
            match parse_epandesc_line(input, pos, k) {
                Ok((next, v)) => {
                    let ghost before = vs@.map_values(|v: u128| v as int);
                    vs.push(v);
                    assert(vs@.map_values(|v: u128| v as int) =~= before.push(v as int));
                    pos = next;
                    k = k + 1;
                },
                Err(err) => {
                    reveal(parse_spec);
                    assert(epandesc_from(input@, pos as int, k as nat, vs@.map_values(|v: u128| v as int))
                        == Err::<(int, Seq<int>), ParseError>(err));
                    assert(input@.subrange(0, e as int) == text_epandesc());
                    return Err(err);
                },
            }
        }
        let ghost vi = vs@.map_values(|v: u128| v as int);
        assert(vi[0] == vs@[0] as int && vi[1] == vs@[1] as int && vi[2] == vs@[2] as int);
        assert(vi[3] == vs@[3] as int && vi[4] == vs@[4] as int && vi[5] == vs@[5] as int);
        let d = Epandesc {
            channel: vs[0] as u8,
            channel_page: vs[1] as u8,
            pan_id: vs[2] as u16,
            addr: vs[3] as u64,
            lqi: vs[4] as u8,
            pair_id: vs[5] as u32,
        };
        return Ok((pos, SkRxD::Epandesc(d)));
    }
    match parse_line_bytes(line) {
        Some(r) => Ok((e + 2, r)),
        None => Err(ParseError::Invalid),
    }
}

/// The value of a hex field of up to sixty-four bits: the number and the
/// count of bytes it takes, where `input` is one.
pub fn u64_hex_digit(input: &[u8]) -> (r: Option<(usize, u64)>)
    ensures
        match r {
            Some((n, v)) => n == input@.len() && hex_field(input@, 0x1_0000_0000_0000_0000) == Some(v as int),
            None => hex_field(input@, 0x1_0000_0000_0000_0000) is None,
        },
{
    match parse_hex(input, 0x1_0000_0000_0000_0000) {
        Some(v) => Some((input.len(), v as u64)),
        None => None,
    }
}

/// Whether `pat` occurs in `s` at `at`.
pub fn starts_with_at(s: &[u8], at: usize, pat: &[u8]) -> (r: bool)
    ensures
        r == (at + pat@.len() <= s@.len() && s@.subrange(at as int, at + pat@.len()) == pat@),
{
    if at > s.len() || s.len() - at < pat.len() {
        return false;
    }
    same_bytes(&s[at..at + pat.len()], pat)
}

/// What has been read from the module and not yet taken as a record.
#[derive(Clone, PartialEq, Eq, Debug)]
pub struct RxBuffer {
    pub pending: Vec<u8>,
}

impl RxBuffer {
    /// An empty buffer.
    pub fn new() -> (r: RxBuffer)
        ensures
            r.pending@ == Seq::<u8>::empty(),
    {
        RxBuffer { pending: Vec::new() }
    }

    /// Adds a line read from the module and takes the record at the front,
    /// if one is complete: its text leaves the buffer. An incomplete record
    /// stays for the next line; text that starts no record is dropped.
    pub fn receive(&mut self, line: &[u8]) -> (r: Option<SkRxD>)
        ensures
            ({
                let all = old(self).pending@ + line@;
                match parse_spec(all) {
                    Ok((n, v)) => (r matches Some(x) && x@ == v) && final(self).pending@ == all.subrange(n, all.len() as int),
                    Err(ParseError::Incomplete) => r is None && final(self).pending@ == all,
                    Err(ParseError::Invalid) => r is None && final(self).pending@ == Seq::<u8>::empty(),
                }
            }),
    {
        let ghost all = self.pending@ + line@;
        crate::text::push_all(&mut self.pending, line);
        assert(self.pending@ == all);
        match parse_rxd(self.pending.as_slice()) {
            Ok((n, record)) => {
                let rest = self.pending.split_off(n);
                self.pending = rest;
                Some(record)
            },
            Err(ParseError::Incomplete) => None,
            Err(ParseError::Invalid) => {
                self.pending = Vec::new();
                None
            },
        }
    }
}

} // verus!
