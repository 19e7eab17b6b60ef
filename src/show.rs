//! Log text for frames and property entries.
use crate::connection_settings::unit_text_spec;
use crate::frame::{frame_bytes, EchonetliteEdata, EchonetliteFrame, EdataView, FrameView};
use crate::record_text::hex_pairs;
use crate::decimal::Decimal;
use crate::measurements::scaled;
use crate::smart_electric_energy_meter::{
    be16_signed, be32_signed, be32_value, history_slot, read_u32, unit_of_code, HistoricalCumlativeAmount,
    InstantiousCurrent, InstantiousPower, UnitForCumlativeAmountsPower, HISTORY_EDT_LEN, HISTORY_SLOTS,
    SINGLE_PHASE_MARKER,
};
use crate::superclass::{bitmap_codes, property_map_length_fits, GetPropertyMap, NotifyInstances};
use crate::text::{hex_text, push_all, push_hex};
use vstd::prelude::*;

verus! {

/// The name of a property in logs.
pub open spec fn property_label(epc: u8) -> Seq<u8> {
    if epc == 0xd3 {
        seq![0x43u8, 0x6f, 0x65, 0x66, 0x66, 0x69, 0x63, 0x69, 0x65, 0x6e, 0x74]
    } else if epc == 0xd7 {
        seq![0x45u8, 0x66, 0x66, 0x65, 0x63, 0x74, 0x69, 0x76, 0x65, 0x44, 0x69, 0x67, 0x69, 0x74, 0x73]
    } else if epc == 0xe0 {
        seq![0x43u8, 0x75, 0x6d, 0x75, 0x6c, 0x61, 0x74, 0x69, 0x76, 0x65, 0x41, 0x6d, 0x6f, 0x75, 0x6e, 0x74]
    } else if epc == 0xe1 {
        seq![0x55u8, 0x6e, 0x69, 0x74]
    } else if epc == 0xe2 {
        seq![0x48u8, 0x69, 0x73, 0x74, 0x6f, 0x72, 0x69, 0x63, 0x61, 0x6c, 0x43, 0x75, 0x6d, 0x75, 0x6c, 0x61, 0x74, 0x69, 0x76, 0x65, 0x41, 0x6d, 0x6f, 0x75, 0x6e, 0x74]
    } else if epc == 0xe7 {
        seq![0x49u8, 0x6e, 0x73, 0x74, 0x61, 0x6e, 0x74, 0x50, 0x6f, 0x77, 0x65, 0x72]
    } else if epc == 0xe8 {
        seq![0x49u8, 0x6e, 0x73, 0x74, 0x61, 0x6e, 0x74, 0x43, 0x75, 0x72, 0x72, 0x65, 0x6e, 0x74]
    } else if epc == 0xea {
        seq![0x43u8, 0x75, 0x6d, 0x75, 0x6c, 0x61, 0x74, 0x69, 0x76, 0x65, 0x41, 0x6d, 0x6f, 0x75, 0x6e, 0x74, 0x41, 0x74, 0x46, 0x69, 0x78, 0x65, 0x64, 0x54, 0x69, 0x6d, 0x65]
    } else if epc == 0x9f {
        seq![0x47u8, 0x65, 0x74, 0x50, 0x72, 0x6f, 0x70, 0x65, 0x72, 0x74, 0x79, 0x4d, 0x61, 0x70]
    } else if epc == 0x8a {
        seq![0x4du8, 0x61, 0x6e, 0x75, 0x66, 0x61, 0x63, 0x74, 0x75, 0x72, 0x65, 0x72]
    } else if epc == 0xd5 {
        seq![0x49u8, 0x6e, 0x73, 0x74, 0x61, 0x6e, 0x63, 0x65, 0x4c, 0x69, 0x73, 0x74]
    } else {
        seq![0x55u8, 0x4e, 0x4b, 0x4e, 0x4f, 0x57, 0x4e]
    }
}

fn label_bytes(epc: u8) -> (r: Vec<u8>)
    ensures
        r@ == property_label(epc),
{
    let v = if epc == 0xd3 {
        vec![0x43u8, 0x6f, 0x65, 0x66, 0x66, 0x69, 0x63, 0x69, 0x65, 0x6e, 0x74]
    } else if epc == 0xd7 {
        vec![0x45u8, 0x66, 0x66, 0x65, 0x63, 0x74, 0x69, 0x76, 0x65, 0x44, 0x69, 0x67, 0x69, 0x74, 0x73]
    } else if epc == 0xe0 {
        vec![0x43u8, 0x75, 0x6d, 0x75, 0x6c, 0x61, 0x74, 0x69, 0x76, 0x65, 0x41, 0x6d, 0x6f, 0x75, 0x6e, 0x74]
    } else if epc == 0xe1 {
        vec![0x55u8, 0x6e, 0x69, 0x74]
    } else if epc == 0xe2 {
        vec![0x48u8, 0x69, 0x73, 0x74, 0x6f, 0x72, 0x69, 0x63, 0x61, 0x6c, 0x43, 0x75, 0x6d, 0x75, 0x6c, 0x61, 0x74, 0x69, 0x76, 0x65, 0x41, 0x6d, 0x6f, 0x75, 0x6e, 0x74]
    } else if epc == 0xe7 {
        vec![0x49u8, 0x6e, 0x73, 0x74, 0x61, 0x6e, 0x74, 0x50, 0x6f, 0x77, 0x65, 0x72]
    } else if epc == 0xe8 {
        vec![0x49u8, 0x6e, 0x73, 0x74, 0x61, 0x6e, 0x74, 0x43, 0x75, 0x72, 0x72, 0x65, 0x6e, 0x74]
    } else if epc == 0xea {
        vec![0x43u8, 0x75, 0x6d, 0x75, 0x6c, 0x61, 0x74, 0x69, 0x76, 0x65, 0x41, 0x6d, 0x6f, 0x75, 0x6e, 0x74, 0x41, 0x74, 0x46, 0x69, 0x78, 0x65, 0x64, 0x54, 0x69, 0x6d, 0x65]
    } else if epc == 0x9f {
        vec![0x47u8, 0x65, 0x74, 0x50, 0x72, 0x6f, 0x70, 0x65, 0x72, 0x74, 0x79, 0x4d, 0x61, 0x70]
    } else if epc == 0x8a {
        vec![0x4du8, 0x61, 0x6e, 0x75, 0x66, 0x61, 0x63, 0x74, 0x75, 0x72, 0x65, 0x72]
    } else if epc == 0xd5 {
        vec![0x49u8, 0x6e, 0x73, 0x74, 0x61, 0x6e, 0x63, 0x65, 0x4c, 0x69, 0x73, 0x74]
    } else {
        vec![0x55u8, 0x4e, 0x4b, 0x4e, 0x4f, 0x57, 0x4e]
    };
    assert(v@ =~= property_label(epc));
    v
}

/// `0x` and two hex digits.
pub open spec fn byte_text(b: u8) -> Seq<u8> {
    seq![0x30u8, 0x78] + hex_text(b as nat, 2)
}

/// The bytes of `t` as a comma-separated list of `0x` numbers.
pub open spec fn byte_list_text(t: Seq<u8>) -> Seq<u8>
    decreases t.len(),
{
    if t.len() == 0 {
        Seq::empty()
    } else if t.len() == 1 {
        byte_text(t[0])
    } else {
        byte_list_text(t.drop_last()) + seq![0x2cu8] + byte_text(t.last())
    }
}

/// Whether a property is an amount counted in the meter's unit.
pub open spec fn counts_units(epc: u8) -> bool {
    epc == 0xe0 || epc == 0xe2 || epc == 0xea
}

/// The log text of an entry that is not decoded: the property's name, its
/// code and its data bytes; for an amount counted in units, the unit where
/// it is known.
pub open spec fn raw_show_text(e: EdataView, unit: Option<UnitForCumlativeAmountsPower>) -> Seq<u8> {
    let base = property_label(e.epc) + seq![0x20u8, 0x45, 0x50, 0x43, 0x3a] + byte_text(e.epc)
        + seq![0x2cu8, 0x20, 0x45, 0x44, 0x54, 0x3a, 0x5b] + byte_list_text(e.edt) + seq![0x5du8];
    match unit {
        Some(u) => if counts_units(e.epc) {
            base + seq![0x20u8, 0x78, 0x20] + unit_text_spec(u.0)
        } else {
            base
        },
        None => base,
    }
}

pub open spec fn is_ascii_text(t: Seq<u8>) -> bool {
    forall|i: int| 0 <= i < t.len() ==> #[trigger] t[i] < 128
}

/// The characters of ASCII text.
pub open spec fn ascii_chars(t: Seq<u8>) -> Seq<char> {
    t.map_values(|c: u8| c as char)
}

/// Relies on std's `String::from_utf8`: ASCII bytes are valid UTF-8, and
/// the string holds their characters in order.
#[verifier::external_body]
fn ascii_string(b: Vec<u8>) -> (r: String)
    requires
        is_ascii_text(b@),
    ensures
        r@ == ascii_chars(b@),
{
    match String::from_utf8(b) {
        Ok(s) => s,
        Err(_) => String::new(),
    }
}

fn push_byte_text(out: &mut Vec<u8>, b: u8)
    ensures
        final(out)@ == old(out)@ + byte_text(b),
{
    out.push(0x30);
    out.push(0x78);
    push_hex(out, b as u128, 2);
    assert(final(out)@ =~= old(out)@ + byte_text(b));
}

proof fn lemma_hex_text_ascii(v: nat, w: nat)
    ensures
        is_ascii_text(hex_text(v, w)),
    decreases w,
{
    if w > 0 {
        lemma_hex_text_ascii(v / 16, (w - 1) as nat);
    }
}

proof fn lemma_byte_list_ascii(t: Seq<u8>)
    ensures
        is_ascii_text(byte_list_text(t)),
    decreases t.len(),
{
    if t.len() >= 1 {
        lemma_hex_text_ascii(t.last() as nat, 2);
        lemma_hex_text_ascii(t[0] as nat, 2);
        if t.len() > 1 {
            lemma_byte_list_ascii(t.drop_last());
        }
    }
}

impl<'a> EchonetliteEdata<'a> {
    /// The log text of this entry: its decoded value where it is a property
    /// that decodes, else its raw bytes.
    pub fn show(&self, opt_unit: Option<&UnitForCumlativeAmountsPower>) -> (r: String)
        requires
            opt_unit matches Some(u) ==> u.wf(),
        ensures
            r@ == ascii_chars(show_text(self@, match opt_unit { Some(u) => Some(*u), None => None })),
    {
        match value_bytes(self, opt_unit) {
            Some(v) => ascii_string(v),
            None => ascii_string(self.raw_bytes(opt_unit)),
        }
    }

    fn raw_bytes(&self, opt_unit: Option<&UnitForCumlativeAmountsPower>) -> (r: Vec<u8>)
        requires
            opt_unit matches Some(u) ==> u.wf(),
        ensures
            r@ == raw_show_text(self@, match opt_unit { Some(u) => Some(*u), None => None }),
            is_ascii_text(r@),
    {
        let mut out = label_bytes(self.epc);
        push_all(&mut out, &[0x20u8, 0x45, 0x50, 0x43, 0x3a]);
        push_byte_text(&mut out, self.epc);
        push_all(&mut out, &[0x2cu8, 0x20, 0x45, 0x44, 0x54, 0x3a, 0x5b]);
        let ghost before = out@;
        let mut i: usize = 0;
        while i < self.edt.len()
            invariant
                i <= self.edt@.len(),
                out@ == before + byte_list_text(self.edt@.subrange(0, i as int)),
            decreases self.edt@.len() - i,
        {
            let ghost prefix = self.edt@.subrange(0, i as int + 1);
            assert(prefix.drop_last() =~= self.edt@.subrange(0, i as int));
            if i > 0 {
                out.push(0x2c);
            }
            push_byte_text(&mut out, self.edt[i]);
            i = i + 1;
            assert(out@ =~= before + byte_list_text(self.edt@.subrange(0, i as int)));
        }
        assert(self.edt@.subrange(0, i as int) =~= self.edt@);
        out.push(0x5d);
        match opt_unit {
            Some(u) => {
                if self.epc == 0xe0 || self.epc == 0xe2 || self.epc == 0xea {
                    push_all(&mut out, &[0x20u8, 0x78, 0x20]);
                    let t = u.unit_text();
                    push_all(&mut out, t.as_slice());
                }
            },
            None => {},
        }
        let ghost unit = match opt_unit {
            Some(u) => Some(*u),
            None => None,
        };
        proof {
            lemma_byte_list_ascii(self.edt@);
            lemma_hex_text_ascii(self.epc as nat, 2);
            assert(out@ =~= raw_show_text(self@, unit));
            assert(is_ascii_text(property_label(self.epc)));
            match unit {
                Some(u) => {
                    assert(is_ascii_text(unit_text_spec(u.0)));
                },
                None => {},
            }
            assert(is_ascii_text(out@));
        }
        out
    }
}

/// The name of a service in logs, where it is a response or a notification.
pub open spec fn service_label(esv: u8) -> Option<Seq<u8>> {
    if esv == 0x50 {
        Some(seq![0x53u8, 0x65, 0x74, 0x49, 0x5f, 0x53, 0x4e, 0x41])
    } else if esv == 0x51 {
        Some(seq![0x53u8, 0x65, 0x74, 0x43, 0x5f, 0x53, 0x4e, 0x41])
    } else if esv == 0x52 {
        Some(seq![0x47u8, 0x65, 0x74, 0x5f, 0x53, 0x4e, 0x41])
    } else if esv == 0x53 {
        Some(seq![0x49u8, 0x4e, 0x46, 0x5f, 0x53, 0x4e, 0x41])
    } else if esv == 0x71 {
        Some(seq![0x53u8, 0x65, 0x74, 0x5f, 0x72, 0x65, 0x73])
    } else if esv == 0x72 {
        Some(seq![0x47u8, 0x65, 0x74, 0x5f, 0x72, 0x65, 0x73])
    } else if esv == 0x73 {
        Some(seq![0x49u8, 0x4e, 0x46])
    } else if esv == 0x74 {
        Some(seq![0x49u8, 0x4e, 0x46, 0x43])
    } else {
        None
    }
}

fn service_label_bytes(esv: u8) -> (r: Option<Vec<u8>>)
    ensures
        match service_label(esv) {
            Some(t) => (r matches Some(v) && v@ == t),
            None => r is None,
        },
{
    if esv == 0x50 {
        let v = vec![0x53u8, 0x65, 0x74, 0x49, 0x5f, 0x53, 0x4e, 0x41];
        assert(v@ =~= service_label(esv).unwrap());
        Some(v)
    } else if esv == 0x51 {
        let v = vec![0x53u8, 0x65, 0x74, 0x43, 0x5f, 0x53, 0x4e, 0x41];
        assert(v@ =~= service_label(esv).unwrap());
        Some(v)
    } else if esv == 0x52 {
        let v = vec![0x47u8, 0x65, 0x74, 0x5f, 0x53, 0x4e, 0x41];
        assert(v@ =~= service_label(esv).unwrap());
        Some(v)
    } else if esv == 0x53 {
        let v = vec![0x49u8, 0x4e, 0x46, 0x5f, 0x53, 0x4e, 0x41];
        assert(v@ =~= service_label(esv).unwrap());
        Some(v)
    } else if esv == 0x71 {
        let v = vec![0x53u8, 0x65, 0x74, 0x5f, 0x72, 0x65, 0x73];
        assert(v@ =~= service_label(esv).unwrap());
        Some(v)
    } else if esv == 0x72 {
        let v = vec![0x47u8, 0x65, 0x74, 0x5f, 0x72, 0x65, 0x73];
        assert(v@ =~= service_label(esv).unwrap());
        Some(v)
    } else if esv == 0x73 {
        let v = vec![0x49u8, 0x4e, 0x46];
        assert(v@ =~= service_label(esv).unwrap());
        Some(v)
    } else if esv == 0x74 {
        let v = vec![0x49u8, 0x4e, 0x46, 0x43];
        assert(v@ =~= service_label(esv).unwrap());
        Some(v)
    } else {
        None
    }
}

/// A number in decimal digits.
pub open spec fn dec_text(n: nat) -> Seq<u8>
    decreases n,
{
    if n < 10 {
        seq![(0x30 + n) as u8]
    } else {
        dec_text(n / 10).push((0x30 + n % 10) as u8)
    }
}

fn push_dec(out: &mut Vec<u8>, n: u128)
    ensures
        final(out)@ == old(out)@ + dec_text(n as nat),
    decreases n,
{
    if n >= 10 {
        push_dec(out, n / 10);
    }
    out.push(0x30 + (n % 10) as u8);
    assert(final(out)@ =~= old(out)@ + dec_text(n as nat));
}

proof fn lemma_dec_text_ascii(n: nat)
    ensures
        is_ascii_text(dec_text(n)),
    decreases n,
{
    if n >= 10 {
        lemma_dec_text_ascii(n / 10);
    }
}

/// The log text of a frame: the service and the number of entries; for
/// any other service, its code and the whole frame in hex.
pub open spec fn frame_show_text(f: FrameView) -> Seq<u8> {
    let count = seq![0x20u8, 0x4e, 0x3d] + dec_text(f.opc as nat);
    match service_label(f.esv) {
        Some(t) => t + count,
        None => seq![0x45u8, 0x53, 0x56, 0x3a] + byte_text(f.esv) + count + seq![0x20u8, 0x66, 0x72, 0x61, 0x6d, 0x65, 0x3d]
            + hex_pairs(frame_bytes(f)),
    }
}

impl<'a> EchonetliteFrame<'a> {
    /// The log text of this frame.
    pub fn show(&self) -> (r: String)
        ensures
            r@ == ascii_chars(frame_show_text(self@)),
    {
        let mut out: Vec<u8> = Vec::new();
        match service_label_bytes(self.esv) {
            Some(t) => {
                push_all(&mut out, t.as_slice());
            },
            None => {
                push_all(&mut out, &[0x45u8, 0x53, 0x56, 0x3a]);
                push_byte_text(&mut out, self.esv);
            },
        }
        push_all(&mut out, &[0x20u8, 0x4e, 0x3d]);
        push_dec(&mut out, self.opc as u128);
        if service_label_bytes(self.esv).is_none() {
            push_all(&mut out, &[0x20u8, 0x66, 0x72, 0x61, 0x6d, 0x65, 0x3d]);
            let bytes = self.encode();
            let ghost before = out@;
            let mut i: usize = 0;
            while i < bytes.len()
                invariant
                    i <= bytes@.len(),
                    out@ == before + hex_pairs(bytes@.subrange(0, i as int)),
                decreases bytes@.len() - i,
            {
                assert(bytes@.subrange(0, i as int + 1).drop_last() =~= bytes@.subrange(0, i as int));
                push_hex(&mut out, bytes[i] as u128, 2);
                i = i + 1;
            }
            assert(bytes@.subrange(0, i as int) =~= bytes@);
        }
        proof {
            lemma_dec_text_ascii(self.opc as nat);
            lemma_hex_text_ascii(self.esv as nat, 2);
            lemma_hex_pairs_ascii(frame_bytes(self@));
            assert(out@ =~= frame_show_text(self@));
            assert(is_ascii_text(out@));
        }
        ascii_string(out)
    }
}

proof fn lemma_hex_pairs_ascii(d: Seq<u8>)
    ensures
        is_ascii_text(hex_pairs(d)),
    decreases d.len(),
{
    if d.len() > 0 {
        lemma_hex_pairs_ascii(d.drop_last());
        lemma_hex_text_ascii(d.last() as nat, 2);
    }
}

/// Ten to the power `n`.
pub open spec fn pow10(n: nat) -> nat
    decreases n,
{
    if n == 0 {
        1
    } else {
        10 * pow10((n - 1) as nat)
    }
}

/// The lowest `w` decimal digits of `v`, most significant first.
pub open spec fn dec_fixed(v: nat, w: nat) -> Seq<u8>
    decreases w,
{
    if w == 0 {
        Seq::empty()
    } else {
        dec_fixed(v / 10, (w - 1) as nat).push((0x30 + v % 10) as u8)
    }
}

/// A decimal written out: a sign where it is negative, the whole part, and
/// where the scale is not zero, a point and that many digits.
pub open spec fn decimal_text(d: Decimal) -> Seq<u8> {
    let a: nat = if d.mantissa < 0 { (-d.mantissa) as nat } else { d.mantissa as nat };
    let sign = if d.mantissa < 0 { seq![0x2du8] } else { Seq::<u8>::empty() };
    let frac = if d.scale > 0 {
        seq![0x2eu8] + dec_fixed(a % pow10(d.scale as nat), d.scale as nat)
    } else {
        Seq::<u8>::empty()
    };
    sign + dec_text(a / pow10(d.scale as nat)) + frac
}

/// An amount of units in kWh, where the unit is known.
pub open spec fn kwh_suffix(v: u32, unit: Option<UnitForCumlativeAmountsPower>) -> Seq<u8> {
    match unit {
        Some(u) => seq![0x20u8, 0x28] + decimal_text(scaled(v, u.0)) + seq![0x20u8, 0x6b, 0x57, 0x68, 0x29],
        None => Seq::empty(),
    }
}

/// A slot of a history in logs: `NA` without data, else its count, or its
/// amount in kWh where the unit is known.
pub open spec fn history_item(v: Option<u32>, unit: Option<UnitForCumlativeAmountsPower>) -> Seq<u8> {
    match v {
        None => seq![0x4eu8, 0x41],
        Some(x) => match unit {
            Some(u) => decimal_text(scaled(x, u.0)),
            None => dec_text(x as nat),
        },
    }
}

/// The slots of a history in logs, separated by commas.
pub open spec fn history_list(vs: Seq<Option<u32>>, unit: Option<UnitForCumlativeAmountsPower>) -> Seq<u8>
    decreases vs.len(),
{
    if vs.len() == 0 {
        Seq::empty()
    } else if vs.len() == 1 {
        history_item(vs[0], unit)
    } else {
        history_list(vs.drop_last(), unit) + seq![0x2cu8] + history_item(vs.last(), unit)
    }
}

/// An object identifier in logs: six hex digits.
pub open spec fn eoj_text(t: Seq<u8>) -> Seq<u8> {
    hex_text(t[0] as nat, 2) + hex_text(t[1] as nat, 2) + hex_text(t[2] as nat, 2)
}

/// The first `n` object identifiers of an instance list in logs, separated
/// by commas.
pub open spec fn instance_list(edt: Seq<u8>, n: nat) -> Seq<u8>
    decreases n,
{
    if n == 0 {
        Seq::empty()
    } else if n == 1 {
        eoj_text(edt.subrange(1, 4))
    } else {
        instance_list(edt, (n - 1) as nat) + seq![0x2cu8] + eoj_text(edt.subrange(1 + 3 * (n - 1), 4 + 3 * (n - 1)))
    }
}

/// The log text of an entry with a single value that decodes: the
/// property's name and its value.
pub open spec fn measure_text(e: EdataView, unit: Option<UnitForCumlativeAmountsPower>) -> Option<Seq<u8>> {
    let b = e.edt;
    let name = property_label(e.epc);
    let eq = seq![0x3du8];
    if e.epc == 0xd3 && b.len() == 0 {
        Some(name + seq![0x3du8, 0x31])
    } else if (e.epc == 0xd3 || e.epc == 0xd7) && b.len() == 1 {
        Some(name + eq + dec_text(b[0] as nat))
    } else if e.epc == 0xe0 && b.len() == 4 {
        Some(name + eq + dec_text(be32_value(b) as nat) + kwh_suffix(be32_value(b) as u32, unit))
    } else if e.epc == 0xe1 && b.len() == 1 && unit_of_code(b[0]) is Some {
        Some(name + eq + unit_text_spec(unit_of_code(b[0]).unwrap()))
    } else if e.epc == 0xe7 && b.len() == 4 {
        Some(name + eq + decimal_text(Decimal { mantissa: be32_signed(b) as i64, scale: 0 }) + seq![0x20u8, 0x57])
    } else if e.epc == 0xe8 && b.len() == 4 {
        let r = Decimal { mantissa: be16_signed(b[0], b[1]) as i64, scale: 1 };
        let t = if be16_signed(b[2], b[3]) == SINGLE_PHASE_MARKER as int {
            Seq::<u8>::empty()
        } else {
            seq![0x2cu8, 0x20, 0x54, 0x3d] + decimal_text(Decimal { mantissa: be16_signed(b[2], b[3]) as i64, scale: 1 })
                + seq![0x20u8, 0x41]
        };
        Some(name + seq![0x20u8, 0x52, 0x3d] + decimal_text(r) + seq![0x20u8, 0x41] + t)
    } else if e.epc == 0x8a && b.len() == 3 {
        Some(name + eq + hex_text(b[0] as nat, 2) + hex_text(b[1] as nat, 2) + hex_text(b[2] as nat, 2))
    } else if e.epc == 0xea && b.len() == 11 {
        Some(
            name + eq + dec_fixed((b[0] as int * 256 + b[1] as int) as nat, 4) + seq![0x2du8] + dec_fixed(b[2] as nat, 2)
                + seq![0x2du8] + dec_fixed(b[3] as nat, 2) + seq![0x20u8] + dec_fixed(b[4] as nat, 2) + seq![0x3au8]
                + dec_fixed(b[5] as nat, 2) + seq![0x3au8] + dec_fixed(b[6] as nat, 2) + seq![0x20u8]
                + dec_text(be32_value(b.subrange(7, 11)) as nat) + kwh_suffix(be32_value(b.subrange(7, 11)) as u32, unit),
        )
    } else {
        None
    }
}

/// The log text of an entry with a list of values that decodes: a day of
/// history, a property map or an instance list.
pub open spec fn listing_text(e: EdataView, unit: Option<UnitForCumlativeAmountsPower>) -> Option<Seq<u8>> {
    let b = e.edt;
    let name = property_label(e.epc);
    let eq = seq![0x3du8];
    if e.epc == 0xe2 && b.len() == HISTORY_EDT_LEN {
        Some(
            name + seq![0x20u8, 0x64, 0x61, 0x79, 0x73, 0x5f, 0x61, 0x67, 0x6f, 0x3d] + dec_text((b[0] as int * 256 + b[1] as int) as nat)
                + seq![0x20u8, 0x5b] + history_list(Seq::new(HISTORY_SLOTS as nat, |k: int| history_slot(b, k)), unit)
                + seq![0x5du8],
        )
    } else if e.epc == 0x9f && property_map_length_fits(b) {
        let codes = if b[0] < 16 { b.subrange(1, b.len() as int) } else { bitmap_codes(b.subrange(1, 17), 128) };
        Some(name + seq![0x3du8, 0x5b] + byte_list_text(codes) + seq![0x5du8])
    } else if e.epc == 0xd5 && b.len() >= 1 && b.len() == 1 + 3 * b[0] {
        Some(name + eq + dec_text(b[0] as nat) + seq![0x20u8, 0x5b] + instance_list(b, b[0] as nat) + seq![0x5du8])
    } else {
        None
    }
}

/// The log text of an entry that decodes: the property's name and its
/// value; `None` for an entry that does not decode.
pub open spec fn value_text(e: EdataView, unit: Option<UnitForCumlativeAmountsPower>) -> Option<Seq<u8>> {
    match measure_text(e, unit) {
        Some(t) => Some(t),
        None => listing_text(e, unit),
    }
}

/// The log text of an entry: its decoded value where it has one, else its
/// raw bytes.
pub open spec fn show_text(e: EdataView, unit: Option<UnitForCumlativeAmountsPower>) -> Seq<u8> {
    match value_text(e, unit) {
        Some(t) => t,
        None => raw_show_text(e, unit),
    }
}

proof fn lemma_pow10_bound(n: nat)
    requires
        n <= 18,
    ensures
        1 <= pow10(n) <= 1_000_000_000_000_000_000,
    decreases 18 - n,
{
    if n < 18 {
        lemma_pow10_bound(n + 1);
    } else {
        reveal_with_fuel(pow10, 19);
    }
}

fn push_dec_fixed(out: &mut Vec<u8>, v: u128, w: u32)
    ensures
        final(out)@ == old(out)@ + dec_fixed(v as nat, w as nat),
    decreases w,
{
    if w > 0 {
        push_dec_fixed(out, v / 10, w - 1);
        out.push(0x30 + (v % 10) as u8);
    }
}

fn push_decimal(out: &mut Vec<u8>, d: Decimal)
    requires
        d.scale <= 18,
    ensures
        final(out)@ == old(out)@ + decimal_text(d),
{
    let neg = d.mantissa < 0;
    let a: u128 = if neg { (0 - (d.mantissa as i128)) as u128 } else { d.mantissa as u128 };
    let mut p: u128 = 1;
    let mut i: u32 = 0;
    while i < d.scale
        invariant
            i <= d.scale <= 18,
            p as int == pow10(i as nat),
        decreases d.scale - i,
    {
        proof {
            lemma_pow10_bound(i as nat);
        }
        p = p * 10;
        i = i + 1;
    }
    proof {
        lemma_pow10_bound(d.scale as nat);
    }
    if neg {
        out.push(0x2d);
    }
    push_dec(out, a / p);
    if d.scale > 0 {
        out.push(0x2e);
        push_dec_fixed(out, a % p, d.scale);
    }
    assert(final(out)@ =~= old(out)@ + decimal_text(d));
}

proof fn lemma_dec_fixed_ascii(v: nat, w: nat)
    ensures
        is_ascii_text(dec_fixed(v, w)),
    decreases w,
{
    if w > 0 {
        lemma_dec_fixed_ascii(v / 10, (w - 1) as nat);
    }
}

proof fn lemma_decimal_ascii(d: Decimal)
    ensures
        is_ascii_text(decimal_text(d)),
{
    let a: nat = if d.mantissa < 0 { (-d.mantissa) as nat } else { d.mantissa as nat };
    lemma_dec_text_ascii(a / pow10(d.scale as nat));
    lemma_dec_fixed_ascii(a % pow10(d.scale as nat), d.scale as nat);
}

fn push_kwh_suffix(out: &mut Vec<u8>, v: u32, opt_unit: Option<&UnitForCumlativeAmountsPower>)
    requires
        opt_unit matches Some(u) ==> u.wf(),
    ensures
        final(out)@ == old(out)@ + kwh_suffix(v, match opt_unit { Some(u) => Some(*u), None => None }),
{
    match opt_unit {
        Some(u) => {
            push_all(out, &[0x20u8, 0x28]);
            let kwh = u.0.times_count(v);
            assert(kwh == scaled(v, u.0));
            push_decimal(out, kwh);
            push_all(out, &[0x20u8, 0x6b, 0x57, 0x68, 0x29]);
        },
        None => {},
    }
    assert(final(out)@ =~= old(out)@ + kwh_suffix(v, match opt_unit { Some(u) => Some(*u), None => None }));
}

proof fn lemma_kwh_suffix_ascii(v: u32, unit: Option<UnitForCumlativeAmountsPower>)
    ensures
        is_ascii_text(kwh_suffix(v, unit)),
{
    match unit {
        Some(u) => lemma_decimal_ascii(scaled(v, u.0)),
        None => {},
    }
}

/// The log text of an entry that decodes, as bytes.
fn value_bytes(e: &EchonetliteEdata, opt_unit: Option<&UnitForCumlativeAmountsPower>) -> (r: Option<Vec<u8>>)
    requires
        opt_unit matches Some(u) ==> u.wf(),
    ensures
        match value_text(e@, match opt_unit { Some(u) => Some(*u), None => None }) {
            Some(t) => (r matches Some(v) && v@ == t && is_ascii_text(t)),
            None => r is None,
        },
{
    match measure_bytes(e, opt_unit) {
        Some(v) => Some(v),
        None => listing_bytes(e, opt_unit),
    }
}

#[verifier::spinoff_prover]
#[verifier::rlimit(60)]
fn measure_bytes(e: &EchonetliteEdata, opt_unit: Option<&UnitForCumlativeAmountsPower>) -> (r: Option<Vec<u8>>)
    requires
        opt_unit matches Some(u) ==> u.wf(),
    ensures
        match measure_text(e@, match opt_unit { Some(u) => Some(*u), None => None }) {
            Some(t) => (r matches Some(v) && v@ == t && is_ascii_text(t)),
            None => r is None,
        },
{
    let ghost unit = match opt_unit {
        Some(u) => Some(*u),
        None => None,
    };
    let b = e.edt;
    let epc = e.epc;
    let mut out = label_bytes(epc);
    proof {
        assert(is_ascii_text(property_label(epc)));
    }
    if epc == 0xd3 && b.len() == 0 {
        push_all(&mut out, &[0x3du8, 0x31]);
    } else if (epc == 0xd3 || epc == 0xd7) && b.len() == 1 {
        out.push(0x3d);
        push_dec(&mut out, b[0] as u128);
        proof {
            lemma_dec_text_ascii(b@[0] as nat);
        }
    } else if epc == 0xe0 && b.len() == 4 {
        let v = read_u32(b, 0);
        assert(b@.subrange(0, 4) =~= b@);
        out.push(0x3d);
        push_dec(&mut out, v as u128);
        push_kwh_suffix(&mut out, v, opt_unit);
        proof {
            lemma_dec_text_ascii(v as nat);
            lemma_kwh_suffix_ascii(v, unit);
        }
    } else if epc == 0xe1 && b.len() == 1 {
        match UnitForCumlativeAmountsPower::decode_unit(b[0]) {
            Ok(u) => {
                out.push(0x3d);
                let t = u.unit_text();
                push_all(&mut out, t.as_slice());
                proof {
                    assert(is_ascii_text(unit_text_spec(u.0)));
                }
            },
            Err(_) => {
                return None;
            },
        }
    } else if epc == 0xe7 && b.len() == 4 {
        match InstantiousPower::try_from(e) {
            Ok(p) => {
                out.push(0x3d);
                push_decimal(&mut out, p.0);
                push_all(&mut out, &[0x20u8, 0x57]);
                proof {
                    lemma_decimal_ascii(p.0);
                }
            },
            Err(_) => {
                return None;
            },
        }
    } else if epc == 0xe8 && b.len() == 4 {
        match InstantiousCurrent::try_from(e) {
            Ok(c) => {
                push_all(&mut out, &[0x20u8, 0x52, 0x3d]);
                push_decimal(&mut out, c.r);
                push_all(&mut out, &[0x20u8, 0x41]);
                proof {
                    lemma_decimal_ascii(c.r);
                }
                match c.t {
                    Some(t) => {
                        push_all(&mut out, &[0x2cu8, 0x20, 0x54, 0x3d]);
                        push_decimal(&mut out, t);
                        push_all(&mut out, &[0x20u8, 0x41]);
                        proof {
                            lemma_decimal_ascii(t);
                        }
                    },
                    None => {},
                }
            },
            Err(_) => {
                return None;
            },
        }
    } else if epc == 0x8a && b.len() == 3 {
        out.push(0x3d);
        push_hex(&mut out, b[0] as u128, 2);
        push_hex(&mut out, b[1] as u128, 2);
        push_hex(&mut out, b[2] as u128, 2);
        proof {
            lemma_hex_text_ascii(b@[0] as nat, 2);
            lemma_hex_text_ascii(b@[1] as nat, 2);
            lemma_hex_text_ascii(b@[2] as nat, 2);
        }
    } else if epc == 0xea && b.len() == 11 {
        let year = b[0] as u128 * 256 + b[1] as u128;
        let v = read_u32(b, 7);
        out.push(0x3d);
        push_dec_fixed(&mut out, year, 4);
        out.push(0x2d);
        push_dec_fixed(&mut out, b[2] as u128, 2);
        out.push(0x2d);
        push_dec_fixed(&mut out, b[3] as u128, 2);
        out.push(0x20);
        push_dec_fixed(&mut out, b[4] as u128, 2);
        out.push(0x3a);
        push_dec_fixed(&mut out, b[5] as u128, 2);
        out.push(0x3a);
        push_dec_fixed(&mut out, b[6] as u128, 2);
        out.push(0x20);
        push_dec(&mut out, v as u128);
        push_kwh_suffix(&mut out, v, opt_unit);
        proof {
            lemma_dec_fixed_ascii(year as nat, 4);
            lemma_dec_fixed_ascii(b@[2] as nat, 2);
            lemma_dec_fixed_ascii(b@[3] as nat, 2);
            lemma_dec_fixed_ascii(b@[4] as nat, 2);
            lemma_dec_fixed_ascii(b@[5] as nat, 2);
            lemma_dec_fixed_ascii(b@[6] as nat, 2);
            lemma_dec_text_ascii(v as nat);
            lemma_kwh_suffix_ascii(v, unit);
        }
    } else {
        return None;
    }
    assert(measure_text(e@, unit) is Some);
    assert(out@ =~= measure_text(e@, unit).unwrap());
    assert(is_ascii_text(out@));
    Some(out)
}

#[verifier::spinoff_prover]
#[verifier::rlimit(60)]
fn listing_bytes(e: &EchonetliteEdata, opt_unit: Option<&UnitForCumlativeAmountsPower>) -> (r: Option<Vec<u8>>)
    requires
        opt_unit matches Some(u) ==> u.wf(),
    ensures
        match listing_text(e@, match opt_unit { Some(u) => Some(*u), None => None }) {
            Some(t) => (r matches Some(v) && v@ == t && is_ascii_text(t)),
            None => r is None,
        },
{
    let ghost unit = match opt_unit {
        Some(u) => Some(*u),
        None => None,
    };
    let b = e.edt;
    let epc = e.epc;
    let mut out = label_bytes(epc);
    proof {
        assert(is_ascii_text(property_label(epc)));
    }
    if epc == 0xe2 && b.len() == HISTORY_EDT_LEN {
        match HistoricalCumlativeAmount::try_from(e) {
            Ok(h) => {
                push_all(&mut out, &[0x20u8, 0x64, 0x61, 0x79, 0x73, 0x5f, 0x61, 0x67, 0x6f, 0x3d]);
                push_dec(&mut out, h.n_days_ago as u128);
                push_all(&mut out, &[0x20u8, 0x5b]);
                let ghost vs = Seq::new(HISTORY_SLOTS as nat, |k: int| history_slot(b@, k));
                assert(h.historical@ =~= vs);
                push_history_list(&mut out, &h.historical, opt_unit);
                out.push(0x5d);
                proof {
                    lemma_dec_text_ascii(h.n_days_ago as nat);
                    lemma_history_list_ascii(vs, unit);
                }
            },
            Err(_) => {
                return None;
            },
        }
    } else if epc == 0x9f {
        match GetPropertyMap::try_from(e) {
            Ok(m) => {
                push_all(&mut out, &[0x3du8, 0x5b]);
                push_byte_list(&mut out, m.properties.as_slice());
                out.push(0x5d);
                proof {
                    lemma_byte_list_ascii(m.properties@);
                }
            },
            Err(_) => {
                return None;
            },
        }
    } else if epc == 0xd5 {
        match NotifyInstances::try_from(e) {
            Ok(n) => {
                out.push(0x3d);
                push_dec(&mut out, n.count as u128);
                push_all(&mut out, &[0x20u8, 0x5b]);
                push_instance_list(&mut out, &n.instances, b);
                out.push(0x5d);
                proof {
                    lemma_dec_text_ascii(n.count as nat);
                    lemma_instance_list_ascii(b@, n.count as nat);
                }
            },
            Err(_) => {
                return None;
            },
        }
    } else {
        return None;
    }
    assert(listing_text(e@, unit) is Some);
    assert(out@ =~= listing_text(e@, unit).unwrap());
    assert(is_ascii_text(out@));
    Some(out)
}

fn push_history_list(out: &mut Vec<u8>, vs: &Vec<Option<u32>>, opt_unit: Option<&UnitForCumlativeAmountsPower>)
    requires
        opt_unit matches Some(u) ==> u.wf(),
    ensures
        final(out)@ == old(out)@ + history_list(vs@, match opt_unit { Some(u) => Some(*u), None => None }),
{
    let ghost unit = match opt_unit {
        Some(u) => Some(*u),
        None => None,
    };
    let mut i: usize = 0;
    while i < vs.len()
        invariant
            i <= vs@.len(),
            opt_unit matches Some(u) ==> u.wf(),
            unit == match opt_unit { Some(u) => Some(*u), None => None },
            out@ == old(out)@ + history_list(vs@.subrange(0, i as int), unit),
        decreases vs@.len() - i,
    {
        let ghost before = out@;
        assert(vs@.subrange(0, i as int + 1).drop_last() =~= vs@.subrange(0, i as int));
        if i > 0 {
            out.push(0x2c);
        }
        match vs[i] {
            None => {
                push_all(out, &[0x4eu8, 0x41]);
            },
            Some(x) => match opt_unit {
                Some(u) => {
                    let kwh = u.0.times_count(x);
                    assert(kwh == scaled(x, u.0));
                    push_decimal(out, kwh);
                },
                None => {
                    push_dec(out, x as u128);
                },
            },
        }
        i = i + 1;
        assert(out@ =~= old(out)@ + history_list(vs@.subrange(0, i as int), unit));
    }
    assert(vs@.subrange(0, i as int) =~= vs@);
}

proof fn lemma_history_list_ascii(vs: Seq<Option<u32>>, unit: Option<UnitForCumlativeAmountsPower>)
    ensures
        is_ascii_text(history_list(vs, unit)),
    decreases vs.len(),
{
    if vs.len() > 0 {
        let x = if vs.len() == 1 { vs[0] } else { vs.last() };
        match x {
            Some(v) => match unit {
                Some(u) => lemma_decimal_ascii(scaled(v, u.0)),
                None => lemma_dec_text_ascii(v as nat),
            },
            None => {},
        }
        if vs.len() > 1 {
            lemma_history_list_ascii(vs.drop_last(), unit);
        }
    }
}

fn push_byte_list(out: &mut Vec<u8>, t: &[u8])
    ensures
        final(out)@ == old(out)@ + byte_list_text(t@),
{
    let mut i: usize = 0;
    while i < t.len()
        invariant
            i <= t@.len(),
            out@ == old(out)@ + byte_list_text(t@.subrange(0, i as int)),
        decreases t@.len() - i,
    {
        assert(t@.subrange(0, i as int + 1).drop_last() =~= t@.subrange(0, i as int));
        if i > 0 {
            out.push(0x2c);
        }
        push_byte_text(out, t[i]);
        i = i + 1;
        assert(out@ =~= old(out)@ + byte_list_text(t@.subrange(0, i as int)));
    }
    assert(t@.subrange(0, i as int) =~= t@);
}

fn push_instance_list(out: &mut Vec<u8>, instances: &Vec<[u8; 3]>, edt: &[u8])
    requires
        edt@.len() >= 1,
        instances@.len() == edt@[0],
        edt@.len() == 1 + 3 * edt@[0],
        forall|i: int| 0 <= i < instances@.len() ==> #[trigger] instances@[i]@ == edt@.subrange(1 + 3 * i, 4 + 3 * i),
    ensures
        final(out)@ == old(out)@ + instance_list(edt@, edt@[0] as nat),
{
    let mut i: usize = 0;
    while i < instances.len()
        invariant
            i <= instances@.len(),
            instances@.len() == edt@[0],
            edt@.len() == 1 + 3 * edt@[0],
            forall|j: int| 0 <= j < instances@.len() ==> #[trigger] instances@[j]@ == edt@.subrange(1 + 3 * j, 4 + 3 * j),
            out@ == old(out)@ + instance_list(edt@, i as nat),
        decreases instances@.len() - i,
    {
        if i > 0 {
            out.push(0x2c);
        }
        let eoj = instances[i];
        assert(eoj@ == edt@.subrange(1 + 3 * i as int, 4 + 3 * i as int));
        push_hex(out, eoj[0] as u128, 2);
        push_hex(out, eoj[1] as u128, 2);
        push_hex(out, eoj[2] as u128, 2);
        i = i + 1;
        assert(out@ =~= old(out)@ + instance_list(edt@, i as nat));
    }
}

proof fn lemma_instance_list_ascii(edt: Seq<u8>, n: nat)
    requires
        edt.len() >= 1 + 3 * n,
    ensures
        is_ascii_text(instance_list(edt, n)),
    decreases n,
{
    if n > 0 {
        let t = edt.subrange(1 + 3 * (n - 1), 4 + 3 * (n - 1));
        lemma_hex_text_ascii(t[0] as nat, 2);
        lemma_hex_text_ascii(t[1] as nat, 2);
        lemma_hex_text_ascii(t[2] as nat, 2);
        if n > 1 {
            lemma_instance_list_ascii(edt, (n - 1) as nat);
        }
    }
}

} // verus!
