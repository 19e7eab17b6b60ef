//! The ECHONET Lite application frame: a fixed big-endian header followed by
//! property entries, each a code, a length and exactly that many data bytes.
use vstd::prelude::*;

verus! {

/// The EHD value that marks an ECHONET Lite frame.
pub const ECHONET_LITE_EHD: u16 = 0x1081;

/// Length of the fixed header in bytes.
pub const FRAME_HEADER_LEN: usize = 12;

/// One property entry: code, declared length and the data bytes, borrowed
/// from the buffer that the frame was decoded from.
#[derive(Clone, PartialEq, Eq, Debug)]
pub struct EchonetliteEdata<'a> {
    pub epc: u8,
    pub pdc: u8,
    pub edt: &'a [u8],
}

/// What a property entry holds, as plain values.
pub struct EdataView {
    pub epc: u8,
    pub pdc: u8,
    pub edt: Seq<u8>,
}

impl<'a> View for EchonetliteEdata<'a> {
    type V = EdataView;

    open spec fn view(&self) -> EdataView {
        EdataView { epc: self.epc, pdc: self.pdc, edt: self.edt@ }
    }
}

/// An ECHONET Lite frame.
#[derive(Clone, PartialEq, Eq, Debug)]
pub struct EchonetliteFrame<'a> {
    pub ehd: u16,
    pub tid: u16,
    pub seoj: [u8; 3],
    pub deoj: [u8; 3],
    pub esv: u8,
    pub opc: u8,
    pub edata: Vec<EchonetliteEdata<'a>>,
}

/// What a frame holds, as plain values.
pub struct FrameView {
    pub ehd: u16,
    pub tid: u16,
    pub seoj: Seq<u8>,
    pub deoj: Seq<u8>,
    pub esv: u8,
    pub opc: u8,
    pub edata: Seq<EdataView>,
}

impl<'a> View for EchonetliteFrame<'a> {
    type V = FrameView;

    open spec fn view(&self) -> FrameView {
        FrameView {
            ehd: self.ehd,
            tid: self.tid,
            seoj: self.seoj@,
            deoj: self.deoj@,
            esv: self.esv,
            opc: self.opc,
            edata: self.edata@.map_values(|e: EchonetliteEdata<'a>| e@),
        }
    }
}

/// Why a byte string is not an ECHONET Lite frame.
#[derive(Clone, Copy, PartialEq, Eq, Debug)]
pub enum FrameError {
    /// The bytes end before the frame does.
    Truncated,
    /// The EHD field is not 0x1081.
    NotEchonetLite,
}

/// A 16-bit value in big-endian order.
pub open spec fn be16(x: u16) -> Seq<u8> {
    seq![(x / 256) as u8, (x % 256) as u8]
}

/// The 16-bit value that two big-endian bytes stand for.
pub open spec fn be16_value(hi: u8, lo: u8) -> u16 {
    (hi as int * 256 + lo as int) as u16
}

/// The encoding of one property entry.
pub open spec fn edata_bytes(e: EdataView) -> Seq<u8> {
    seq![e.epc, e.pdc] + e.edt
}

/// The encoding of a list of property entries, one after another.
pub open spec fn edata_list_bytes(es: Seq<EdataView>) -> Seq<u8>
    decreases es.len(),
{
    if es.len() == 0 {
        Seq::empty()
    } else {
        edata_bytes(es[0]) + edata_list_bytes(es.drop_first())
    }
}

/// The encoding of a frame: each header field in big-endian fixed width, then
/// each entry's code, length and data bytes.
pub open spec fn frame_bytes(f: FrameView) -> Seq<u8> {
    be16(f.ehd) + be16(f.tid) + f.seoj + f.deoj + seq![f.esv, f.opc] + edata_list_bytes(f.edata)
}

/// An entry whose declared length is the length of its data.
pub open spec fn edata_consistent(e: EdataView) -> bool {
    e.pdc as int == e.edt.len()
}

/// A frame as the codec produces it: the ECHONET Lite EHD, three-byte object
/// identifiers, a count equal to the number of entries, and consistent entries.
pub open spec fn frame_well_formed(f: FrameView) -> bool {
    &&& f.ehd == ECHONET_LITE_EHD
    &&& f.seoj.len() == 3
    &&& f.deoj.len() == 3
    &&& f.opc as int == f.edata.len()
    &&& forall|i: int| 0 <= i < f.edata.len() ==> edata_consistent(#[trigger] f.edata[i])
}

/// Reads `count` entries from the front of `b`: the entries and the number of
/// bytes they take, or `None` where the bytes end first.
pub open spec fn decode_entries(b: Seq<u8>, count: nat) -> Option<(Seq<EdataView>, int)>
    decreases count,
{
    if count == 0 {
        Some((Seq::empty(), 0))
    } else if b.len() < 2 || b.len() - 2 < b[1] {
        None
    } else {
        let n = 2 + b[1] as int;
        let e = EdataView { epc: b[0], pdc: b[1], edt: b.subrange(2, n) };
        match decode_entries(b.subrange(n, b.len() as int), (count - 1) as nat) {
            Some((es, m)) => Some((seq![e] + es, n + m)),
            None => None,
        }
    }
}

/// Reads a frame from the front of `b`: the frame and the number of bytes it
/// takes, or why there is none.
pub open spec fn decode_frame(b: Seq<u8>) -> Result<(FrameView, int), FrameError> {
    if b.len() < 2 {
        Err(FrameError::Truncated)
    } else if be16_value(b[0], b[1]) != ECHONET_LITE_EHD {
        Err(FrameError::NotEchonetLite)
    } else if b.len() < FRAME_HEADER_LEN {
        Err(FrameError::Truncated)
    } else {
        match decode_entries(b.subrange(12, b.len() as int), b[11] as nat) {
            Some((es, m)) => Ok(
                (
                    FrameView {
                        ehd: ECHONET_LITE_EHD,
                        tid: be16_value(b[2], b[3]),
                        seoj: b.subrange(4, 7),
                        deoj: b.subrange(7, 10),
                        esv: b[10],
                        opc: b[11],
                        edata: es,
                    },
                    12 + m,
                ),
            ),
            None => Err(FrameError::Truncated),
        }
    }
}

proof fn lemma_be16_round_trip(x: u16)
    ensures
        be16_value(be16(x)[0], be16(x)[1]) == x,
{
}

proof fn lemma_edata_list_bytes_push(es: Seq<EdataView>, e: EdataView)
    ensures
        edata_list_bytes(es.push(e)) == edata_list_bytes(es) + edata_bytes(e),
    decreases es.len(),
{
    if es.len() == 0 {
        assert(es.push(e).drop_first() =~= Seq::<EdataView>::empty());
        assert(es.push(e)[0] == e);
        assert(edata_list_bytes(es.push(e).drop_first()) == Seq::<u8>::empty());
        assert(edata_list_bytes(es) == Seq::<u8>::empty());
        assert(edata_list_bytes(es.push(e)) =~= edata_list_bytes(es) + edata_bytes(e));
    } else {
        assert(es.push(e).drop_first() =~= es.drop_first().push(e));
        lemma_edata_list_bytes_push(es.drop_first(), e);
        assert(edata_list_bytes(es.push(e)) =~= edata_list_bytes(es) + edata_bytes(e));
    }
}

proof fn lemma_decode_entries_bytes(b: Seq<u8>, count: nat)
    requires
        decode_entries(b, count) is Some,
    ensures
        ({
            let (es, m) = decode_entries(b, count).unwrap();
            &&& 0 <= m <= b.len()
            &&& es.len() == count
            &&& edata_list_bytes(es) == b.subrange(0, m)
            &&& forall|i: int| 0 <= i < es.len() ==> edata_consistent(#[trigger] es[i])
        }),
    decreases count,
{
    if count > 0 {
        let n = 2 + b[1] as int;
        let rest = b.subrange(n, b.len() as int);
        lemma_decode_entries_bytes(rest, (count - 1) as nat);
        let (es, m) = decode_entries(b, count).unwrap();
        let (tail, k) = decode_entries(rest, (count - 1) as nat).unwrap();
        assert(es.drop_first() =~= tail);
        assert(edata_list_bytes(es) =~= b.subrange(0, m));
        assert forall|i: int| 0 <= i < es.len() implies edata_consistent(#[trigger] es[i]) by {
            if i > 0 {
                assert(es[i] == tail[i - 1]);
            }
        }
    }
}

proof fn lemma_entries_decode_own_bytes(es: Seq<EdataView>, rest: Seq<u8>)
    requires
        forall|i: int| 0 <= i < es.len() ==> edata_consistent(#[trigger] es[i]),
    ensures
        decode_entries(edata_list_bytes(es) + rest, es.len()) == Some(
            (es, edata_list_bytes(es).len() as int),
        ),
    decreases es.len(),
{
    if es.len() > 0 {
        let e = es[0];
        assert(edata_consistent(es[0]));
        let tail = es.drop_first();
        assert forall|i: int| 0 <= i < tail.len() implies edata_consistent(#[trigger] tail[i]) by {
            assert(tail[i] == es[i + 1]);
        }
        lemma_entries_decode_own_bytes(tail, rest);
        let b = edata_list_bytes(es) + rest;
        let n = 2 + e.pdc as int;
        assert(b =~= edata_bytes(e) + (edata_list_bytes(tail) + rest));
        assert(b.subrange(n, b.len() as int) =~= edata_list_bytes(tail) + rest);
        assert(b.subrange(2, n) =~= e.edt);
        assert(seq![e] + tail =~= es);
    }
}

/// Decoding a byte string and encoding the frame that comes out gives back
/// the bytes that the frame was read from, and that frame is well formed.
pub proof fn lemma_decode_then_encode(b: Seq<u8>)
    requires
        decode_frame(b) is Ok,
    ensures
        ({
            let (f, n) = decode_frame(b).unwrap();
            &&& 0 <= n <= b.len()
            &&& frame_well_formed(f)
            &&& frame_bytes(f) == b.subrange(0, n)
        }),
{
    let (f, n) = decode_frame(b).unwrap();
    let rest = b.subrange(12, b.len() as int);
    lemma_decode_entries_bytes(rest, b[11] as nat);
    assert(be16(f.ehd) =~= b.subrange(0, 2));
    assert(be16(f.tid) =~= b.subrange(2, 4));
    assert(frame_bytes(f) =~= b.subrange(0, n));
}

/// Encoding a well-formed frame and decoding the bytes, whatever follows
/// them, gives back that frame and the length of its encoding.
pub proof fn lemma_encode_then_decode(f: FrameView, rest: Seq<u8>)
    requires
        frame_well_formed(f),
    ensures
        decode_frame(frame_bytes(f) + rest) == Ok::<(FrameView, int), FrameError>(
            (f, frame_bytes(f).len() as int),
        ),
{
    let b = frame_bytes(f) + rest;
    let entries = edata_list_bytes(f.edata);
    lemma_be16_round_trip(f.ehd);
    lemma_be16_round_trip(f.tid);
    assert(b.subrange(12, b.len() as int) =~= entries + rest);
    lemma_entries_decode_own_bytes(f.edata, rest);
    assert(b.subrange(4, 7) =~= f.seoj);
    assert(b.subrange(7, 10) =~= f.deoj);
    let (g, n) = decode_frame(b).unwrap();
    assert(g =~= f);
}

impl<'a> EchonetliteEdata<'a> {
    /// Appends the encoding of this entry to `out`.
    pub fn encode(&self, out: &mut Vec<u8>)
        ensures
            final(out)@ == old(out)@ + edata_bytes(self@),
    {
        out.push(self.epc);
        out.push(self.pdc);
        let mut i: usize = 0;
        while i < self.edt.len()
            invariant
                i <= self.edt@.len(),
                out@ == old(out)@ + seq![self.epc, self.pdc] + self.edt@.subrange(0, i as int),
            decreases self.edt@.len() - i,
        {
            out.push(self.edt[i]);
            i = i + 1;
            assert(out@ =~= old(out)@ + seq![self.epc, self.pdc] + self.edt@.subrange(0, i as int));
        }
        assert(self.edt@.subrange(0, i as int) =~= self.edt@);
    }

    /// Reads one entry from the front of `b`: the entry, whose data borrows
    /// from `b`, and the number of bytes it takes.
    pub fn borrow_decode(b: &'a [u8]) -> (r: Option<(EchonetliteEdata<'a>, usize)>)
        ensures
            r is None <==> (b@.len() < 2 || b@.len() - 2 < b@[1]),
            r matches Some((e, n)) ==> {
                &&& n == 2 + b@[1] as int
                &&& n <= b@.len()
                &&& e@ == EdataView { epc: b@[0], pdc: b@[1], edt: b@.subrange(2, n as int) }
            },
    {
        if b.len() < 2 || b.len() - 2 < b[1] as usize {
            return None;
        }
        let n = 2 + b[1] as usize;
        let e = EchonetliteEdata { epc: b[0], pdc: b[1], edt: &b[2..n] };
        Some((e, n))
    }
}

impl<'a> EchonetliteFrame<'a> {
    /// The encoding of this frame. Each field is written as it stands,
    /// entries included, so the result is `frame_bytes` of the frame.
    pub fn encode(&self) -> (r: Vec<u8>)
        ensures
            r@ == frame_bytes(self@),
    {
        let mut out: Vec<u8> = Vec::new();
        out.push((self.ehd / 256) as u8);
        out.push((self.ehd % 256) as u8);
        out.push((self.tid / 256) as u8);
        out.push((self.tid % 256) as u8);
        out.push(self.seoj[0]);
        out.push(self.seoj[1]);
        out.push(self.seoj[2]);
        out.push(self.deoj[0]);
        out.push(self.deoj[1]);
        out.push(self.deoj[2]);
        out.push(self.esv);
        out.push(self.opc);
        let ghost header = be16(self.ehd) + be16(self.tid) + self.seoj@ + self.deoj@ + seq![
            self.esv,
            self.opc,
        ];
        assert(out@ =~= header);
        let ghost es = self@.edata;
        let mut i: usize = 0;
        while i < self.edata.len()
            invariant
                i <= self.edata@.len(),
                es == self@.edata,
                es.len() == self.edata@.len(),
                out@ == header + edata_list_bytes(es.take(i as int)),
            decreases self.edata@.len() - i,
        {
            self.edata[i].encode(&mut out);
            proof {
                assert(es.take(i as int + 1) =~= es.take(i as int).push(es[i as int]));
                lemma_edata_list_bytes_push(es.take(i as int), es[i as int]);
            }
            i = i + 1;
        }
        assert(es.take(i as int) =~= es);
        out
    }

    /// Reads a frame from the front of `b`: the frame, whose entries borrow
    /// their data from `b`, and the number of bytes it takes.
    pub fn borrow_decode(b: &'a [u8]) -> (r: Result<(EchonetliteFrame<'a>, usize), FrameError>)
        ensures
            match decode_frame(b@) {
                Ok((f, n)) => r matches Ok((g, m)) && g@ == f && m == n,
                Err(e) => r == Err::<(EchonetliteFrame<'a>, usize), FrameError>(e),
            },
    {
        if b.len() < 2 {
            return Err(FrameError::Truncated);
        }
        let ehd = b[0] as u16 * 256 + b[1] as u16;
        assert(ehd == be16_value(b@[0], b@[1]));
        if ehd != ECHONET_LITE_EHD {
            return Err(FrameError::NotEchonetLite);
        }
        if b.len() < FRAME_HEADER_LEN {
            return Err(FrameError::Truncated);
        }
        let tid = b[2] as u16 * 256 + b[3] as u16;
        let seoj: [u8; 3] = [b[4], b[5], b[6]];
        let deoj: [u8; 3] = [b[7], b[8], b[9]];
        let esv = b[10];
        let opc = b[11];
        let ghost whole = b@.subrange(12, b@.len() as int);
        let mut edata: Vec<EchonetliteEdata<'a>> = Vec::new();
        let mut pos: usize = FRAME_HEADER_LEN;
        let mut i: u8 = 0;
        while i < opc
            invariant
                12 <= pos <= b@.len(),
                i <= opc,
                opc == b@[11],
                be16_value(b@[0], b@[1]) == ECHONET_LITE_EHD,
                whole == b@.subrange(12, b@.len() as int),
                decode_entries(whole, opc as nat) == match decode_entries(
                    b@.subrange(pos as int, b@.len() as int),
                    (opc - i) as nat,
                ) {
                    Some((es, m)) => Some(
                        (edata@.map_values(|e: EchonetliteEdata<'a>| e@) + es, pos - 12 + m),
                    ),
                    None => None::<(Seq<EdataView>, int)>,
                },
            decreases opc - i,
        {
            let ghost rest = b@.subrange(pos as int, b@.len() as int);
            let ghost old_view = edata@.map_values(|e: EchonetliteEdata<'a>| e@);
            let tail = &b[pos..b.len()];
            assert(tail@ == rest);
            match EchonetliteEdata::borrow_decode(tail) {
                None => {
                    assert(decode_entries(rest, (opc - i) as nat) is None);
                    assert(decode_entries(whole, opc as nat) is None);
                    assert(be16_value(b@[0], b@[1]) == ECHONET_LITE_EHD);
                    assert(decode_frame(b@) == Err::<(FrameView, int), FrameError>(FrameError::Truncated));
                    return Err(FrameError::Truncated);
                },
                Some((e, n)) => {
                    proof {
                        let k = 2 + rest[1] as int;
                        assert(n == k);
                        let after = rest.subrange(k, rest.len() as int);
                        assert(after =~= b@.subrange(pos + n, b@.len() as int));
                        assert(e@ == EdataView { epc: rest[0], pdc: rest[1], edt: rest.subrange(2, k) });
                    }
                    edata.push(e);
                    proof {
                        let new_view = edata@.map_values(|e: EchonetliteEdata<'a>| e@);
                        assert(new_view =~= old_view.push(e@));
                        match decode_entries(b@.subrange(pos + n, b@.len() as int), (opc - i - 1) as nat) {
                            Some((es, m)) => {
                                assert(seq![e@] + es =~= seq![e@] + es);
                                assert(old_view + (seq![e@] + es) =~= new_view + es);
                            },
                            None => {},
                        }
                    }
                    pos = pos + n;
                    i = i + 1;
                },
            }
        }
        let frame = EchonetliteFrame { ehd, tid, seoj, deoj, esv, opc, edata };
        proof {
            let rest = b@.subrange(pos as int, b@.len() as int);
            assert(decode_entries(rest, 0) == Some((Seq::<EdataView>::empty(), 0int)));
            let v = edata@.map_values(|e: EchonetliteEdata<'a>| e@);
            assert(v + Seq::<EdataView>::empty() =~= v);
            assert(frame@.seoj =~= b@.subrange(4, 7));
            assert(frame@.deoj =~= b@.subrange(7, 10));
        }
        Ok((frame, pos))
    }
}

} // verus!
