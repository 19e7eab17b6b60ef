//! The texts of the records, each value at its usual width, and the laws
//! that the parser reads each text back as its record, consuming it whole,
//! while any proper prefix of it is incomplete.
use crate::parser::{
    all_hex, crlf_at, epandesc_bound, epandesc_from, epandesc_label, epandesc_line, erxudp_of,
    fields, first_crlf, groups_bound, groups_value, hex_bytes, hex_digit_value, hex_field,
    hex_value, ipv6_field, is_blank, is_hex_digit, parse_spec, split_prefix, text_epandesc,
    text_erxudp, text_event, text_fail, text_ok, ParseError,
};
use crate::skrxd::{Epandesc, ErxudpView, Event, SkRxDView};
use crate::text::{groups_text, hex_text, ipv6_text};
use vstd::prelude::*;

verus! {

proof fn lemma_first_crlf_none(s: Seq<u8>, i: int)
    requires
        0 <= i,
        forall|j: int| i <= j ==> !crlf_at(s, j),
    ensures
        first_crlf(s, i) is None,
    decreases s.len() - i,
{
    if i + 1 < s.len() {
        lemma_first_crlf_none(s, i + 1);
    }
}

proof fn lemma_first_crlf_at(s: Seq<u8>, i: int, e: int)
    requires
        0 <= i <= e,
        crlf_at(s, e),
        forall|j: int| i <= j < e ==> !crlf_at(s, j),
    ensures
        first_crlf(s, i) == Some(e),
    decreases e - i,
{
    if i < e {
        lemma_first_crlf_at(s, i + 1, e);
    }
}

/// Bytes without a line end at all are an incomplete record: the parser
/// asks for more and consumes nothing.
pub proof fn lemma_no_line_end_is_incomplete(s: Seq<u8>)
    requires
        forall|j: int| !crlf_at(s, j),
    ensures
        parse_spec(s) == Err::<(int, SkRxDView), ParseError>(ParseError::Incomplete),
{
    reveal(parse_spec);
    lemma_first_crlf_none(s, 0);
}

/// `16` to the power `n`.
pub open spec fn pow16(n: nat) -> nat
    decreases n,
{
    if n == 0 {
        1
    } else {
        16 * pow16((n - 1) as nat)
    }
}

proof fn lemma_hex_text_value(v: nat, w: nat)
    requires
        v < pow16(w),
    ensures
        hex_text(v, w).len() == w,
        all_hex(hex_text(v, w)),
        hex_value(hex_text(v, w)) == v,
        forall|i: int| 0 <= i < w ==> #[trigger] hex_text(v, w)[i] != 0x0d && hex_text(v, w)[i] != 0x20
            && hex_text(v, w)[i] != 0x3a,
    decreases w,
{
    if w > 0 {
        let q = v / 16;
        let p = pow16((w - 1) as nat);
        assert(q < p) by (nonlinear_arith)
            requires
                v < 16 * p,
                q == v / 16,
        ;
        lemma_hex_text_value(q, (w - 1) as nat);
        let t = hex_text(v, w);
        assert(t.drop_last() == hex_text(q, (w - 1) as nat));
        assert(all_hex(t)) by {
            assert forall|i: int| 0 <= i < t.len() implies is_hex_digit(#[trigger] t[i]) by {
                if i < t.len() - 1 {
                    assert(t[i] == hex_text(q, (w - 1) as nat)[i]);
                }
            }
        }
        assert(hex_digit_value(t.last()) == v % 16);
        assert(forall|i: int| 0 <= i < w ==> #[trigger] t[i] != 0x0d && t[i] != 0x20 && t[i] != 0x3a) by {
            assert forall|i: int| 0 <= i < w implies #[trigger] t[i] != 0x0d && t[i] != 0x20 && t[i] != 0x3a by {
                if i < w - 1 {
                    assert(t[i] == hex_text(q, (w - 1) as nat)[i]);
                }
            }
        }
    }
}

/// CR LF.
pub open spec fn crlf() -> Seq<u8> {
    seq![0x0du8, 0x0a]
}

/// The text of a FAIL record with the code `code`.
pub open spec fn fail_text(code: u8) -> Seq<u8> {
    text_fail() + hex_text(code as nat, 2) + crlf()
}

/// Parsing the text of a FAIL record gives that record and consumes the
/// whole text; any proper prefix of it is incomplete.
pub proof fn lemma_fail_text(code: u8)
    ensures
        fail_text(code).len() == 11,
        parse_spec(fail_text(code)) == Ok::<(int, SkRxDView), ParseError>((11, SkRxDView::Fail(code))),
        forall|k: int| 0 <= k < 11 ==> parse_spec(#[trigger] fail_text(code).subrange(0, k))
            == Err::<(int, SkRxDView), ParseError>(ParseError::Incomplete),
{
    reveal(parse_spec);
    reveal_with_fuel(pow16, 3);
    lemma_hex_text_value(code as nat, 2);
    let s = fail_text(code);
    let h = hex_text(code as nat, 2);
    assert(s.len() == 11);
    assert forall|j: int| 0 <= j < 9 implies s[j] != 0x0d by {
        if j >= 7 {
            assert(s[j] == h[j - 7]);
        }
    }
    lemma_first_crlf_at(s, 0, 9);
    let line = s.subrange(0, 9);
    assert(line.subrange(0, 7) =~= text_fail());
    assert(line.subrange(7, 9) =~= h);
    assert(!is_blank(line)) by {
        assert(line[0] == 0x46);
    }
    assert(line != text_ok()) by {
        assert(line.len() != text_ok().len());
    }
    assert forall|k: int| 0 <= k < 11 implies parse_spec(#[trigger] s.subrange(0, k))
        == Err::<(int, SkRxDView), ParseError>(ParseError::Incomplete) by {
        let p = s.subrange(0, k);
        assert forall|j: int| !crlf_at(p, j) by {
            if crlf_at(p, j) {
                assert(p[j] == s[j]);
                assert(j < 9);
            }
        }
        lemma_no_line_end_is_incomplete(p);
    }
}

/// Parsing `OK` CR LF gives the OK record and consumes it whole; any proper
/// prefix is incomplete. So is it for a blank line, CR LF alone.
pub proof fn lemma_ok_and_blank_text()
    ensures
        parse_spec(text_ok() + crlf()) == Ok::<(int, SkRxDView), ParseError>((4, SkRxDView::Okay)),
        forall|k: int| 0 <= k < 4 ==> parse_spec(#[trigger] (text_ok() + crlf()).subrange(0, k))
            == Err::<(int, SkRxDView), ParseError>(ParseError::Incomplete),
        parse_spec(crlf()) == Ok::<(int, SkRxDView), ParseError>((2, SkRxDView::Void)),
        parse_spec(crlf().subrange(0, 1)) == Err::<(int, SkRxDView), ParseError>(ParseError::Incomplete),
        parse_spec(Seq::<u8>::empty()) == Err::<(int, SkRxDView), ParseError>(ParseError::Incomplete),
{
    reveal(parse_spec);
    let s = text_ok() + crlf();
    lemma_first_crlf_at(s, 0, 2);
    assert(s.subrange(0, 2) =~= text_ok());
    assert(!is_blank(s.subrange(0, 2))) by {
        assert(s.subrange(0, 2)[0] == 0x4f);
    }
    assert forall|k: int| 0 <= k < 4 implies parse_spec(#[trigger] s.subrange(0, k))
        == Err::<(int, SkRxDView), ParseError>(ParseError::Incomplete) by {
        let p = s.subrange(0, k);
        assert forall|j: int| !crlf_at(p, j) by {
            if crlf_at(p, j) {
                assert(p[j] == s[j]);
            }
        }
        lemma_no_line_end_is_incomplete(p);
    }
    lemma_first_crlf_at(crlf(), 0, 0);
    assert(crlf().subrange(0, 0) =~= Seq::<u8>::empty());
    let one = crlf().subrange(0, 1);
    assert forall|j: int| !crlf_at(one, j) by {}
    lemma_no_line_end_is_incomplete(one);
    assert forall|j: int| !crlf_at(Seq::<u8>::empty(), j) by {}
    lemma_no_line_end_is_incomplete(Seq::<u8>::empty());
}

proof fn lemma_fields_concat(a: Seq<u8>, b: Seq<u8>, sep: u8)
    ensures
        fields(a + seq![sep] + b, sep) == fields(a, sep) + fields(b, sep),
    decreases b.len(),
{
    let (da, ca) = split_prefix(a, sep);
    let x = a + seq![sep];
    assert(x.drop_last() =~= a);
    if b.len() == 0 {
        assert(a + seq![sep] + b =~= x);
        assert(split_prefix(Seq::<u8>::empty(), sep) == (Seq::<Seq<u8>>::empty(), Seq::<u8>::empty()));
        assert(fields(Seq::<u8>::empty(), sep) =~= seq![Seq::<u8>::empty()]);
        assert(fields(x, sep) =~= fields(a, sep) + fields(b, sep));
    } else {
        let b0 = b.drop_last();
        lemma_split_concat(a, b, sep);
    }
}

proof fn lemma_split_concat(a: Seq<u8>, b: Seq<u8>, sep: u8)
    ensures
        ({
            let (da, ca) = split_prefix(a, sep);
            let (db, cb) = split_prefix(b, sep);
            split_prefix(a + seq![sep] + b, sep) == (da.push(ca) + db, cb)
        }),
    decreases b.len(),
{
    let (da, ca) = split_prefix(a, sep);
    let x = a + seq![sep];
    assert(x.drop_last() =~= a);
    if b.len() == 0 {
        assert(a + seq![sep] + b =~= x);
        assert(da.push(ca) + Seq::<Seq<u8>>::empty() =~= da.push(ca));
    } else {
        let b0 = b.drop_last();
        lemma_split_concat(a, b0, sep);
        let (db0, cb0) = split_prefix(b0, sep);
        let whole = a + seq![sep] + b;
        assert(whole.drop_last() =~= a + seq![sep] + b0);
        assert(whole.last() == b.last());
        if b.last() == sep {
            assert(da.push(ca) + db0.push(cb0) =~= (da.push(ca) + db0).push(cb0));
        }
    }
    let (db, cb) = split_prefix(b, sep);
    assert(fields(a + seq![sep] + b, sep) =~= fields(a, sep) + fields(b, sep)) by {
        assert(fields(a, sep) + fields(b, sep) =~= da.push(ca) + db.push(cb));
        assert(da.push(ca) + db.push(cb) =~= (da.push(ca) + db).push(cb));
    }
}

proof fn lemma_fields_single(a: Seq<u8>, sep: u8)
    requires
        forall|i: int| 0 <= i < a.len() ==> #[trigger] a[i] != sep,
    ensures
        split_prefix(a, sep) == (Seq::<Seq<u8>>::empty(), a),
        fields(a, sep) == seq![a],
    decreases a.len(),
{
    if a.len() > 0 {
        lemma_fields_single(a.drop_last(), sep);
        assert(a.drop_last().push(a.last()) =~= a);
    } else {
        assert(a =~= Seq::<u8>::empty());
    }
    assert(Seq::<Seq<u8>>::empty().push(a) =~= seq![a]);
}

#[verifier::spinoff_prover]
#[verifier::rlimit(60)]
proof fn lemma_groups_text(x: nat, k: nat)
    requires
        1 <= k <= 8,
        x < groups_bound(k),
    ensures
        fields(groups_text(x, k), 0x3a).len() == k,
        groups_value(fields(groups_text(x, k), 0x3a)) == x,
        forall|i: int| 0 <= i < k ==> (#[trigger] fields(groups_text(x, k), 0x3a)[i]).len() <= 4
            && hex_field(fields(groups_text(x, k), 0x3a)[i], 65536) is Some,
        forall|i: int| 0 <= i < groups_text(x, k).len() ==> #[trigger] groups_text(x, k)[i] != 0x0d
            && groups_text(x, k)[i] != 0x20,
    decreases k,
{
    reveal_with_fuel(pow16, 5);
    let low = x % 65536;
    let h = hex_text(low, 4);
    lemma_hex_text_value(low, 4);
    lemma_fields_single(h, 0x3a);
    if k == 1 {
        assert(groups_bound(1) == 65536) by {
            reveal_with_fuel(groups_bound, 2);
        }
        assert(low == x);
        assert(groups_text(x, 1) == h);
        let gs = fields(h, 0x3a);
        assert(gs == seq![h]);
        assert(gs.drop_last() =~= Seq::<Seq<u8>>::empty());
        assert(groups_value(gs.drop_last()) == 0);
    } else {
        let hi = x / 65536;
        assert(hi < groups_bound((k - 1) as nat)) by (nonlinear_arith)
            requires
                x < 65536 * groups_bound((k - 1) as nat),
                hi == x / 65536,
        ;
        lemma_groups_text(hi, (k - 1) as nat);
        let front = groups_text(hi, (k - 1) as nat);
        assert(groups_text(x, k) == front + seq![0x3au8] + h);
        lemma_fields_concat(front, h, 0x3a);
        let gf = fields(front, 0x3a);
        let gs = fields(groups_text(x, k), 0x3a);
        assert(gs == gf + seq![h]);
        assert(gs.drop_last() =~= gf);
        assert(gs.last() == h);
        assert(x == hi * 65536 + low);
        assert forall|i: int| 0 <= i < k implies (#[trigger] gs[i]).len() <= 4 && hex_field(gs[i], 65536) is Some by {
            if i < k - 1 {
                assert(gs[i] == gf[i]);
            }
        }
        let t = groups_text(x, k);
        assert forall|i: int| 0 <= i < t.len() implies #[trigger] t[i] != 0x0d && t[i] != 0x20 by {
            if i < front.len() {
                assert(t[i] == front[i]);
            } else if i > front.len() {
                assert(t[i] == h[i - front.len() - 1]);
            }
        }
    }
}

/// The IPv6 address written out in full reads back as the same address.
proof fn lemma_ipv6_text(a: u128)
    ensures
        ipv6_field(ipv6_text(a)) == Some(a as int),
        forall|i: int| 0 <= i < ipv6_text(a).len() ==> #[trigger] ipv6_text(a)[i] != 0x0d
            && ipv6_text(a)[i] != 0x20,
{
    reveal_with_fuel(groups_bound, 9);
    lemma_groups_text(a as nat, 8);
}

/// The line of an EVENT record, without its line end.
pub open spec fn event_line(code: u8, sender: u128, param: Option<u8>) -> Seq<u8> {
    let tail = match param {
        Some(p) => ipv6_text(sender) + seq![0x20u8] + hex_text(p as nat, 2),
        None => ipv6_text(sender),
    };
    text_event() + seq![0x20u8] + (hex_text(code as nat, 2) + seq![0x20u8] + tail)
}

/// Parsing the text of an EVENT record gives that record and consumes the
/// whole text; any proper prefix of it is incomplete.
#[verifier::spinoff_prover]
#[verifier::rlimit(60)]
pub proof fn lemma_event_text(code: u8, sender: u128, param: Option<u8>)
    ensures
        ({
            let s = event_line(code, sender, param) + crlf();
            &&& parse_spec(s) == Ok::<(int, SkRxDView), ParseError>(
                (s.len() as int, SkRxDView::Event(Event { code, sender, param })),
            )
            &&& forall|k: int| 0 <= k < s.len() ==> parse_spec(#[trigger] s.subrange(0, k))
                == Err::<(int, SkRxDView), ParseError>(ParseError::Incomplete)
        }),
{
    reveal(parse_spec);
    reveal_with_fuel(pow16, 3);
    let ip = ipv6_text(sender);
    let hc = hex_text(code as nat, 2);
    lemma_hex_text_value(code as nat, 2);
    lemma_ipv6_text(sender);
    lemma_fields_single(text_event(), 0x20);
    lemma_fields_single(hc, 0x20);
    lemma_fields_single(ip, 0x20);
    let tail = match param {
        Some(p) => ip + seq![0x20u8] + hex_text(p as nat, 2),
        None => ip,
    };
    match param {
        Some(p) => {
            lemma_hex_text_value(p as nat, 2);
            lemma_fields_single(hex_text(p as nat, 2), 0x20);
            lemma_fields_concat(ip, hex_text(p as nat, 2), 0x20);
        },
        None => {},
    }
    lemma_fields_concat(hc, tail, 0x20);
    lemma_fields_concat(text_event(), hc + seq![0x20u8] + tail, 0x20);
    let line = event_line(code, sender, param);
    let ts = fields(line, 0x20);
    assert(ts[0] == text_event());
    assert(ts[1] == hc);
    assert(ts[2] == ip);
    match param {
        Some(p) => {
            assert(ts.len() == 4);
            assert(ts[3] == hex_text(p as nat, 2));
        },
        None => {
            assert(ts.len() == 3);
        },
    }
    assert forall|j: int| 0 <= j < line.len() implies line[j] != 0x0d by {
        let n = text_event().len() + 1;
        if j >= n + hc.len() + 1 {
            let t = j - (n + hc.len() + 1);
            assert(line[j] == tail[t]);
            if t >= ip.len() + 1 {
                assert(tail[t] == hex_text(param.unwrap() as nat, 2)[t - ip.len() - 1]);
            } else if t < ip.len() {
                assert(tail[t] == ip[t]);
            }
        } else if j >= n && j < n + hc.len() {
            assert(line[j] == hc[j - n]);
        }
    }
    let s = line + crlf();
    lemma_first_crlf_at(s, 0, line.len() as int);
    assert(s.subrange(0, line.len() as int) =~= line);
    assert(!is_blank(line)) by {
        assert(line[0] == 0x45);
    }
    assert(line != text_ok()) by {
        assert(line.len() != text_ok().len());
    }
    assert(line != text_epandesc()) by {
        assert(line.len() != text_epandesc().len());
    }
    assert forall|k: int| 0 <= k < s.len() implies parse_spec(#[trigger] s.subrange(0, k))
        == Err::<(int, SkRxDView), ParseError>(ParseError::Incomplete) by {
        let p = s.subrange(0, k);
        assert forall|j: int| !crlf_at(p, j) by {
            if crlf_at(p, j) {
                assert(p[j] == s[j]);
                assert(j < line.len());
            }
        }
        lemma_no_line_end_is_incomplete(p);
    }
}

/// Bytes written as pairs of upper-case hex digits.
pub open spec fn hex_pairs(d: Seq<u8>) -> Seq<u8>
    decreases d.len(),
{
    if d.len() == 0 {
        Seq::empty()
    } else {
        hex_pairs(d.drop_last()) + hex_text(d.last() as nat, 2)
    }
}

proof fn lemma_hex_pairs(d: Seq<u8>)
    ensures
        hex_pairs(d).len() == 2 * d.len(),
        all_hex(hex_pairs(d)),
        forall|i: int| 0 <= i < d.len() ==> #[trigger] hex_pairs(d).subrange(2 * i, 2 * i + 2) == hex_text(d[i] as nat, 2),
        forall|i: int| 0 <= i < hex_pairs(d).len() ==> #[trigger] hex_pairs(d)[i] != 0x0d && hex_pairs(d)[i] != 0x20,
    decreases d.len(),
{
    if d.len() > 0 {
        reveal_with_fuel(pow16, 3);
        let init = d.drop_last();
        lemma_hex_pairs(init);
        lemma_hex_text_value(d.last() as nat, 2);
        let t = hex_pairs(d);
        let a = hex_pairs(init);
        let h = hex_text(d.last() as nat, 2);
        assert(t == a + h);
        assert forall|i: int| 0 <= i < d.len() implies #[trigger] t.subrange(2 * i, 2 * i + 2) == hex_text(d[i] as nat, 2) by {
            if i < d.len() - 1 {
                assert(t.subrange(2 * i, 2 * i + 2) =~= a.subrange(2 * i, 2 * i + 2));
                assert(init[i] == d[i]);
            } else {
                assert(t.subrange(2 * i, 2 * i + 2) =~= h);
            }
        }
        assert forall|i: int| 0 <= i < t.len() implies is_hex_digit(#[trigger] t[i]) by {
            if i < a.len() {
                assert(t[i] == a[i]);
            } else {
                assert(t[i] == h[i - a.len()]);
            }
        }
        assert forall|i: int| 0 <= i < t.len() implies #[trigger] t[i] != 0x0d && t[i] != 0x20 by {
            if i < a.len() {
                assert(t[i] == a[i]);
            } else {
                assert(t[i] == h[i - a.len()]);
            }
        }
    }
}

proof fn lemma_hex_bytes_of_pairs(d: Seq<u8>)
    ensures
        hex_bytes(hex_pairs(d)) == d,
{
    reveal_with_fuel(pow16, 3);
    lemma_hex_pairs(d);
    let t = hex_pairs(d);
    assert forall|i: int| 0 <= i < d.len() implies #[trigger] hex_bytes(t)[i] == d[i] by {
        assert(t.subrange(2 * i, 2 * i + 2) == hex_text(d[i] as nat, 2));
        lemma_hex_text_value(d[i] as nat, 2);
    }
    assert(hex_bytes(t) =~= d);
}

/// Fields joined by single separators.
pub open spec fn joined(fs: Seq<Seq<u8>>, sep: u8) -> Seq<u8>
    decreases fs.len(),
{
    if fs.len() <= 1 {
        if fs.len() == 1 {
            fs[0]
        } else {
            Seq::empty()
        }
    } else {
        fs[0] + seq![sep] + joined(fs.drop_first(), sep)
    }
}

proof fn lemma_joined_fields(fs: Seq<Seq<u8>>, sep: u8)
    requires
        fs.len() >= 1,
        sep != 0x0d,
        forall|i: int, j: int| 0 <= i < fs.len() && 0 <= j < fs[i].len() ==> #[trigger] fs[i][j] != sep && fs[i][j] != 0x0d,
    ensures
        fields(joined(fs, sep), sep) == fs,
        forall|j: int| 0 <= j < joined(fs, sep).len() ==> #[trigger] joined(fs, sep)[j] != 0x0d,
    decreases fs.len(),
{
    lemma_fields_single(fs[0], sep);
    if fs.len() > 1 {
        let rest = fs.drop_first();
        assert forall|i: int, j: int| 0 <= i < rest.len() && 0 <= j < rest[i].len() implies #[trigger] rest[i][j] != sep && rest[i][j] != 0x0d by {
            assert(rest[i] == fs[i + 1]);
        }
        lemma_joined_fields(rest, sep);
        lemma_fields_concat(fs[0], joined(rest, sep), sep);
        assert(seq![fs[0]] + rest =~= fs);
        let t = joined(fs, sep);
        assert forall|j: int| 0 <= j < t.len() implies #[trigger] t[j] != 0x0d by {
            if j < fs[0].len() {
                assert(t[j] == fs[0][j]);
            } else if j > fs[0].len() {
                assert(t[j] == joined(rest, sep)[j - fs[0].len() - 1]);
            } else {
                assert(t[j] == sep);
            }
        }
    } else {
        assert(joined(fs, sep) == fs[0]);
    }
}

/// The fields of an ERXUDP line: the fields at their usual widths, and the
/// data as pairs of hex digits.
pub open spec fn erxudp_fields(e: ErxudpView) -> Seq<Seq<u8>> {
    seq![
        text_erxudp(),
        ipv6_text(e.sender),
        ipv6_text(e.destination),
        hex_text(e.sender_port as nat, 4),
        hex_text(e.destination_port as nat, 4),
        hex_text(e.senderlla as nat, 16),
        hex_text(e.secured as nat, 2),
        hex_text(e.datalen as nat, 4),
        hex_pairs(e.data),
    ]
}

#[verifier::spinoff_prover]
#[verifier::rlimit(80)]
proof fn lemma_erxudp_fields(e: ErxudpView)
    requires
        e.data.len() == e.datalen,
    ensures
        forall|i: int, j: int| 0 <= i < erxudp_fields(e).len() && 0 <= j < erxudp_fields(e)[i].len()
            ==> #[trigger] erxudp_fields(e)[i][j] != 0x20 && erxudp_fields(e)[i][j] != 0x0d,
        erxudp_of(erxudp_fields(e)) == Some(SkRxDView::Erxudp(e)),
{
    reveal_with_fuel(pow16, 17);
    let fs = erxudp_fields(e);
    lemma_ipv6_text(e.sender);
    lemma_ipv6_text(e.destination);
    lemma_hex_text_value(e.sender_port as nat, 4);
    lemma_hex_text_value(e.destination_port as nat, 4);
    lemma_hex_text_value(e.senderlla as nat, 16);
    lemma_hex_text_value(e.secured as nat, 2);
    lemma_hex_text_value(e.datalen as nat, 4);
    lemma_hex_pairs(e.data);
    lemma_hex_bytes_of_pairs(e.data);
    assert forall|i: int, j: int| 0 <= i < fs.len() && 0 <= j < fs[i].len() implies #[trigger] fs[i][j] != 0x20 && fs[i][j] != 0x0d by {
        if i == 0 {
        } else if i == 1 {
            assert(fs[i] == ipv6_text(e.sender));
        } else if i == 2 {
            assert(fs[i] == ipv6_text(e.destination));
        } else if i == 3 {
            assert(fs[i] == hex_text(e.sender_port as nat, 4));
        } else if i == 4 {
            assert(fs[i] == hex_text(e.destination_port as nat, 4));
        } else if i == 5 {
            assert(fs[i] == hex_text(e.senderlla as nat, 16));
        } else if i == 6 {
            assert(fs[i] == hex_text(e.secured as nat, 2));
        } else if i == 7 {
            assert(fs[i] == hex_text(e.datalen as nat, 4));
        } else {
            assert(fs[i] == hex_pairs(e.data));
        }
    }
}

/// Parsing the text of an ERXUDP record whose length field is the length
/// of its data gives that record and consumes the whole text; any proper
/// prefix of it is incomplete.
#[verifier::spinoff_prover]
#[verifier::rlimit(60)]
pub proof fn lemma_erxudp_text(e: ErxudpView)
    requires
        e.data.len() == e.datalen,
    ensures
        ({
            let s = joined(erxudp_fields(e), 0x20) + crlf();
            &&& parse_spec(s) == Ok::<(int, SkRxDView), ParseError>((s.len() as int, SkRxDView::Erxudp(e)))
            &&& forall|k: int| 0 <= k < s.len() ==> parse_spec(#[trigger] s.subrange(0, k))
                == Err::<(int, SkRxDView), ParseError>(ParseError::Incomplete)
        }),
{
    reveal(parse_spec);
    let fs = erxudp_fields(e);
    lemma_erxudp_fields(e);
    lemma_joined_fields(fs, 0x20);
    let line = joined(fs, 0x20);
    let ts = fields(line, 0x20);
    assert(erxudp_of(ts) == Some(SkRxDView::Erxudp(e)));
    let s = line + crlf();
    lemma_first_crlf_at(s, 0, line.len() as int);
    assert(s.subrange(0, line.len() as int) =~= line);
    assert(line[0] == 0x45 && line[1] == 0x52) by {
        reveal_with_fuel(joined, 2);
        assert(line == fs[0] + seq![0x20u8] + joined(fs.drop_first(), 0x20));
    }
    assert(!is_blank(line));
    assert(line != text_ok()) by {
        if line == text_ok() {
            assert(line[0] == 0x4f);
        }
    }
    assert(line != text_epandesc()) by {
        if line == text_epandesc() {
            assert(line[1] == 0x50);
        }
    }
    assert(!(line.len() == 9 && line.subrange(0, 7) == text_fail())) by {
        if line.len() == 9 && line.subrange(0, 7) == text_fail() {
            assert(line.subrange(0, 7)[1] == 0x41);
        }
    }
    assert(ts[0] != text_event()) by {
        assert(ts[0].len() != text_event().len());
    }
    assert forall|k: int| 0 <= k < s.len() implies parse_spec(#[trigger] s.subrange(0, k))
        == Err::<(int, SkRxDView), ParseError>(ParseError::Incomplete) by {
        let p = s.subrange(0, k);
        assert forall|j: int| !crlf_at(p, j) by {
            if crlf_at(p, j) {
                assert(p[j] == s[j]);
                assert(j < line.len());
            }
        }
        lemma_no_line_end_is_incomplete(p);
    }
}

/// The hex width of the value on each line of a PAN descriptor.
pub open spec fn epandesc_width(k: int) -> nat {
    if k == 2 {
        4
    } else if k == 3 {
        16
    } else if k == 5 {
        8
    } else {
        2
    }
}

/// The values on the six lines of a PAN descriptor.
pub open spec fn epandesc_values(d: Epandesc) -> Seq<int> {
    seq![d.channel as int, d.channel_page as int, d.pan_id as int, d.addr as int, d.lqi as int, d.pair_id as int]
}

/// Line `k` of a PAN descriptor, with its line end.
pub open spec fn epandesc_line_text(d: Epandesc, k: int) -> Seq<u8> {
    seq![0x20u8, 0x20u8] + epandesc_label(k) + hex_text(epandesc_values(d)[k] as nat, epandesc_width(k)) + crlf()
}

/// Lines `k` to 5 of a PAN descriptor.
pub open spec fn epandesc_lines(d: Epandesc, k: int) -> Seq<u8>
    decreases 6 - k,
{
    if k >= 6 || k < 0 {
        Seq::empty()
    } else {
        epandesc_line_text(d, k) + epandesc_lines(d, k + 1)
    }
}

/// The text of an EPANDESC record: its first line and the six lines of the
/// descriptor, each value at its usual width.
pub open spec fn epandesc_text(d: Epandesc) -> Seq<u8> {
    text_epandesc() + crlf() + epandesc_lines(d, 0)
}

/// Where line `k` of a PAN descriptor starts in its text.
pub open spec fn epandesc_pos(d: Epandesc, k: int) -> int {
    epandesc_text(d).len() - epandesc_lines(d, k).len()
}

proof fn lemma_epandesc_line_facts(d: Epandesc, k: int)
    requires
        0 <= k < 6,
    ensures
        ({
            let t = epandesc_line_text(d, k);
            let pre = seq![0x20u8, 0x20u8] + epandesc_label(k);
            let h = hex_text(epandesc_values(d)[k] as nat, epandesc_width(k));
            &&& t == pre + h + crlf()
            &&& forall|j: int| 0 <= j < t.len() - 2 ==> #[trigger] t[j] != 0x0d
            &&& hex_field(h, epandesc_bound(k)) == Some(epandesc_values(d)[k])
        }),
{
    reveal_with_fuel(pow16, 17);
    let t = epandesc_line_text(d, k);
    let pre = seq![0x20u8, 0x20u8] + epandesc_label(k);
    let v = epandesc_values(d)[k];
    let h = hex_text(v as nat, epandesc_width(k));
    assert(0 <= v < epandesc_bound(k));
    assert(epandesc_bound(k) == pow16(epandesc_width(k)));
    lemma_hex_text_value(v as nat, epandesc_width(k));
    assert forall|j: int| 0 <= j < pre.len() implies #[trigger] pre[j] != 0x0d by {
        if k == 0 {
        } else if k == 1 {
        } else if k == 2 {
        } else if k == 3 {
        } else if k == 4 {
        } else {
        }
    }
    assert forall|j: int| 0 <= j < t.len() - 2 implies #[trigger] t[j] != 0x0d by {
        if j < pre.len() {
            assert(t[j] == pre[j]);
        } else {
            assert(t[j] == h[j - pre.len()]);
        }
    }
}

proof fn lemma_epandesc_suffix(d: Epandesc, k: int)
    requires
        0 <= k <= 6,
    ensures
        0 <= epandesc_pos(d, k) <= epandesc_text(d).len(),
        epandesc_text(d).subrange(epandesc_pos(d, k), epandesc_text(d).len() as int) == epandesc_lines(d, k),
        k < 6 ==> epandesc_pos(d, k + 1) == epandesc_pos(d, k) + epandesc_line_text(d, k).len(),
        epandesc_pos(d, 6) == epandesc_text(d).len(),
        epandesc_pos(d, 0) == 10,
    decreases k,
{
    let s = epandesc_text(d);
    if k == 0 {
        assert(s.subrange(10, s.len() as int) =~= epandesc_lines(d, 0));
    } else {
        lemma_epandesc_suffix(d, k - 1);
        let prev = epandesc_pos(d, k - 1);
        assert(epandesc_lines(d, k - 1) == epandesc_line_text(d, k - 1) + epandesc_lines(d, k));
        assert(s.subrange(epandesc_pos(d, k), s.len() as int) =~= s.subrange(prev, s.len() as int).subrange(
            epandesc_line_text(d, k - 1).len() as int,
            epandesc_lines(d, k - 1).len() as int,
        ));
    }
    if k < 6 {
        assert(epandesc_lines(d, k) == epandesc_line_text(d, k) + epandesc_lines(d, k + 1));
    }
    assert(epandesc_lines(d, 6) == Seq::<u8>::empty());
}

#[verifier::spinoff_prover]
#[verifier::rlimit(60)]
proof fn lemma_epandesc_from(d: Epandesc, q: Seq<u8>, k: int)
    requires
        0 <= k <= 6,
        q.len() <= epandesc_text(d).len(),
        q == epandesc_text(d).subrange(0, q.len() as int),
        q.len() >= epandesc_pos(d, k),
    ensures
        epandesc_from(q, epandesc_pos(d, k), k as nat, epandesc_values(d).subrange(0, k)) == (if q.len()
            == epandesc_text(d).len() {
            Ok::<(int, Seq<int>), ParseError>((epandesc_text(d).len() as int, epandesc_values(d)))
        } else {
            Err::<(int, Seq<int>), ParseError>(ParseError::Incomplete)
        }),
    decreases 6 - k,
{
    let s = epandesc_text(d);
    lemma_epandesc_suffix(d, k);
    if k == 6 {
        assert(epandesc_values(d).subrange(0, 6) =~= epandesc_values(d));
    } else {
        lemma_epandesc_suffix(d, k + 1);
        lemma_epandesc_line_facts(d, k);
        let pos = epandesc_pos(d, k);
        let next = epandesc_pos(d, k + 1);
        let t = epandesc_line_text(d, k);
        assert(s.subrange(pos, next) =~= t) by {
            assert(epandesc_lines(d, k) == t + epandesc_lines(d, k + 1));
            assert(s.subrange(pos, s.len() as int) == epandesc_lines(d, k));
        }
        if q.len() >= next {
            assert forall|j: int| pos <= j < next - 2 implies !crlf_at(q, j) by {
                assert(q[j] == s[j]);
                assert(s[j] == t[j - pos]);
            }
            assert(crlf_at(q, next - 2)) by {
                assert(q[next - 2] == s[next - 2] && s[next - 2] == t[t.len() - 2]);
                assert(q[next - 1] == s[next - 1] && s[next - 1] == t[t.len() - 1]);
            }
            lemma_first_crlf_at(q, pos, next - 2);
            let line = q.subrange(pos, next - 2);
            let pre = seq![0x20u8, 0x20u8] + epandesc_label(k);
            let h = hex_text(epandesc_values(d)[k] as nat, epandesc_width(k));
            assert(line =~= pre + h) by {
                assert(line =~= t.subrange(0, t.len() - 2));
            }
            assert(line.subrange(0, pre.len() as int) =~= pre);
            assert(line.subrange(pre.len() as int, line.len() as int) =~= h);
            assert(epandesc_line(q, pos, k) == Ok::<(int, int), ParseError>((next, epandesc_values(d)[k])));
            assert(epandesc_values(d).subrange(0, k).push(epandesc_values(d)[k]) =~= epandesc_values(d).subrange(0, k + 1));
            lemma_epandesc_from(d, q, k + 1);
        } else {
            assert forall|j: int| pos <= j implies !crlf_at(q, j) by {
                if crlf_at(q, j) {
                    assert(q[j] == s[j]);
                    assert(j < next - 2);
                    assert(s[j] == t[j - pos]);
                }
            }
            lemma_first_crlf_none(q, pos);
        }
    }
}

/// Parsing the text of an EPANDESC record gives that descriptor and
/// consumes the whole text; any proper prefix of its seven lines is
/// incomplete.
#[verifier::spinoff_prover]
#[verifier::rlimit(60)]
pub proof fn lemma_epandesc_text(d: Epandesc)
    ensures
        ({
            let s = epandesc_text(d);
            &&& parse_spec(s) == Ok::<(int, SkRxDView), ParseError>((s.len() as int, SkRxDView::Epandesc(d)))
            &&& forall|k: int| 0 <= k < s.len() ==> parse_spec(#[trigger] s.subrange(0, k))
                == Err::<(int, SkRxDView), ParseError>(ParseError::Incomplete)
        }),
{
    reveal(parse_spec);
    let s = epandesc_text(d);
    lemma_epandesc_suffix(d, 0);
    lemma_epandesc_suffix(d, 6);
    assert(s.subrange(0, 8) =~= text_epandesc());
    assert forall|j: int| 0 <= j < 8 implies !crlf_at(s, j) by {
        assert(s[j] == text_epandesc()[j]);
    }
    lemma_first_crlf_at(s, 0, 8);
    assert(s.subrange(0, s.len() as int) =~= s);
    lemma_epandesc_from(d, s, 0);
    assert(epandesc_values(d).subrange(0, 0) =~= Seq::<int>::empty());
    let vs = epandesc_values(d);
    assert(SkRxDView::Epandesc(
        Epandesc {
            channel: vs[0] as u8,
            channel_page: vs[1] as u8,
            pan_id: vs[2] as u16,
            addr: vs[3] as u64,
            lqi: vs[4] as u8,
            pair_id: vs[5] as u32,
        },
    ) == SkRxDView::Epandesc(d));
    assert forall|k: int| 0 <= k < s.len() implies parse_spec(#[trigger] s.subrange(0, k))
        == Err::<(int, SkRxDView), ParseError>(ParseError::Incomplete) by {
        let p = s.subrange(0, k);
        if k < 10 {
            assert forall|j: int| !crlf_at(p, j) by {
                if crlf_at(p, j) {
                    assert(p[j] == s[j]);
                    assert(j < 8);
                    assert(s[j] == text_epandesc()[j]);
                }
            }
            lemma_no_line_end_is_incomplete(p);
        } else {
            assert forall|j: int| 0 <= j < 8 implies !crlf_at(p, j) by {
                assert(p[j] == s[j]);
                assert(s[j] == text_epandesc()[j]);
            }
            lemma_first_crlf_at(p, 0, 8);
            assert(p.subrange(0, 8) =~= text_epandesc());
            assert(p =~= s.subrange(0, p.len() as int));
            lemma_epandesc_from(d, p, 0);
        }
    }
}

proof fn lemma_first_crlf_extend(s: Seq<u8>, t: Seq<u8>, i: int)
    requires
        first_crlf(s, i) is Some,
    ensures
        first_crlf(s + t, i) == first_crlf(s, i),
        i <= first_crlf(s, i).unwrap() && crlf_at(s, first_crlf(s, i).unwrap()),
    decreases s.len() - i,
{
    let u = s + t;
    assert(0 <= i && i + 1 < s.len());
    assert(u[i] == s[i] && u[i + 1] == s[i + 1]);
    if !crlf_at(s, i) {
        lemma_first_crlf_extend(s, t, i + 1);
    }
}

proof fn lemma_epandesc_from_extend(s: Seq<u8>, t: Seq<u8>, pos: int, k: nat, vs: Seq<int>)
    requires
        epandesc_from(s, pos, k, vs) is Ok,
    ensures
        epandesc_from(s + t, pos, k, vs) == epandesc_from(s, pos, k, vs),
    decreases 6 - k,
{
    if k < 6 {
        let e = first_crlf(s, pos).unwrap();
        lemma_first_crlf_extend(s, t, pos);
        assert((s + t).subrange(pos, e) =~= s.subrange(pos, e));
        assert(epandesc_line(s + t, pos, k as int) == epandesc_line(s, pos, k as int));
        let (next, v) = epandesc_line(s, pos, k as int).unwrap();
        lemma_epandesc_from_extend(s, t, next, k + 1, vs.push(v));
    }
}

/// Whatever follows a record does not change what the parser reads from
/// the front: the same record, and the same number of bytes.
pub proof fn lemma_parse_ignores_what_follows(s: Seq<u8>, t: Seq<u8>)
    requires
        parse_spec(s) is Ok,
    ensures
        parse_spec(s + t) == parse_spec(s),
{
    reveal(parse_spec);
    let e = first_crlf(s, 0).unwrap();
    lemma_first_crlf_extend(s, t, 0);
    assert((s + t).subrange(0, e) =~= s.subrange(0, e));
    if s.subrange(0, e) == text_epandesc() {
        lemma_epandesc_from_extend(s, t, e + 2, 0, Seq::empty());
    }
}

/// The text of a record, each value at its usual width: CR LF alone for a
/// blank line.
pub open spec fn record_text(r: SkRxDView) -> Seq<u8> {
    match r {
        SkRxDView::Void => crlf(),
        SkRxDView::Okay => text_ok() + crlf(),
        SkRxDView::Fail(code) => fail_text(code),
        SkRxDView::Event(e) => event_line(e.code, e.sender, e.param) + crlf(),
        SkRxDView::Erxudp(e) => joined(erxudp_fields(e), 0x20) + crlf(),
        SkRxDView::Epandesc(d) => epandesc_text(d),
    }
}

/// A record that has a text: a datagram's length field is the length of
/// its data.
pub open spec fn has_text(r: SkRxDView) -> bool {
    match r {
        SkRxDView::Erxudp(e) => e.data.len() == e.datalen,
        _ => true,
    }
}

/// For every record of the grammar, parsing any proper prefix of its text
/// is incomplete, and parsing its text, whatever follows it, gives the
/// record and consumes exactly the text.
pub proof fn lemma_record_text(r: SkRxDView, rest: Seq<u8>)
    requires
        has_text(r),
    ensures
        parse_spec(record_text(r)) == Ok::<(int, SkRxDView), ParseError>((record_text(r).len() as int, r)),
        parse_spec(record_text(r) + rest) == Ok::<(int, SkRxDView), ParseError>((record_text(r).len() as int, r)),
        forall|k: int| 0 <= k < record_text(r).len() ==> parse_spec(#[trigger] record_text(r).subrange(0, k))
            == Err::<(int, SkRxDView), ParseError>(ParseError::Incomplete),
{
    match r {
        SkRxDView::Void => {
            lemma_ok_and_blank_text();
            assert forall|k: int| 0 <= k < 2 implies parse_spec(#[trigger] crlf().subrange(0, k))
                == Err::<(int, SkRxDView), ParseError>(ParseError::Incomplete) by {
                if k == 0 {
                    assert(crlf().subrange(0, 0) =~= Seq::<u8>::empty());
                }
            }
        },
        SkRxDView::Okay => {
            lemma_ok_and_blank_text();
            assert(record_text(r).len() == 4);
        },
        SkRxDView::Fail(code) => {
            lemma_fail_text(code);
        },
        SkRxDView::Event(e) => {
            lemma_event_text(e.code, e.sender, e.param);
            assert(SkRxDView::Event(Event { code: e.code, sender: e.sender, param: e.param }) == r);
        },
        SkRxDView::Erxudp(e) => {
            lemma_erxudp_text(e);
        },
        SkRxDView::Epandesc(d) => {
            lemma_epandesc_text(d);
        },
    }
    lemma_parse_ignores_what_follows(record_text(r), rest);
}

} // verus!
