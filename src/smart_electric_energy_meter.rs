//! Properties of the low-voltage smart electricity meter class (0x028801):
//! each decoder reads one property entry and checks its code and length.
use crate::decimal::Decimal;
use crate::frame::EchonetliteEdata;
use vstd::prelude::*;

verus! {

/// Why a property entry could not be decoded.
#[derive(Clone, Copy, PartialEq, Eq, Debug)]
pub enum PropertyError {
    /// The code is not the one of the property asked for, or of any known one.
    UnknownProperty,
    /// The code is known and the data does not have its shape.
    BadFormat,
}

/// A value read from four big-endian bytes.
pub open spec fn be32_value(b: Seq<u8>) -> int {
    b[0] as int * 16777216 + b[1] as int * 65536 + b[2] as int * 256 + b[3] as int
}

/// A two's-complement value read from four big-endian bytes.
pub open spec fn be32_signed(b: Seq<u8>) -> int {
    if be32_value(b) >= 0x8000_0000 {
        be32_value(b) - 0x1_0000_0000
    } else {
        be32_value(b)
    }
}

/// A two's-complement value read from two big-endian bytes.
pub open spec fn be16_signed(hi: u8, lo: u8) -> int {
    let u = hi as int * 256 + lo as int;
    if u >= 0x8000 {
        u - 0x1_0000
    } else {
        u
    }
}

/// The 32-bit value of four big-endian bytes.
pub fn read_u32(b: &[u8], at: usize) -> (r: u32)
    requires
        at + 4 <= b@.len(),
    ensures
        r as int == be32_value(b@.subrange(at as int, at + 4)),
{
    b[at] as u32 * 16777216 + b[at + 1] as u32 * 65536 + b[at + 2] as u32 * 256 + b[at + 3] as u32
}

/// The two's-complement value of two big-endian bytes.
pub fn read_i16(hi: u8, lo: u8) -> (r: i16)
    ensures
        r as int == be16_signed(hi, lo),
{
    let u = hi as u32 * 256 + lo as u32;
    if u >= 0x8000 {
        (u as i32 - 0x1_0000) as i16
    } else {
        u as i16
    }
}

/// 0xD3: the multiplier of cumulative amounts.
#[derive(Clone, Copy, PartialEq, Eq, Debug)]
pub struct Coefficient(pub u8);

impl Coefficient {
    pub const EPC: u8 = 0xd3;

    /// One data byte gives the coefficient; no data means 1.
    pub fn try_from(edata: &EchonetliteEdata) -> (r: Result<Coefficient, PropertyError>)
        ensures
            edata.epc != Self::EPC ==> r == Err::<Coefficient, PropertyError>(PropertyError::UnknownProperty),
            edata.epc == Self::EPC ==> r == (if edata.edt@.len() == 1 {
                Ok(Coefficient(edata.edt@[0]))
            } else if edata.edt@.len() == 0 {
                Ok(Coefficient(1))
            } else {
                Err(PropertyError::BadFormat)
            }),
    {
        if edata.epc != Self::EPC {
            Err(PropertyError::UnknownProperty)
        } else if edata.edt.len() == 1 {
            Ok(Coefficient(edata.edt[0]))
        } else if edata.edt.len() == 0 {
            Ok(Coefficient(1))
        } else {
            Err(PropertyError::BadFormat)
        }
    }
}

/// 0xD7: the number of effective digits of cumulative amounts.
#[derive(Clone, Copy, PartialEq, Eq, Debug)]
pub struct NumberOfEffectiveDigits(pub u8);

impl NumberOfEffectiveDigits {
    pub const EPC: u8 = 0xd7;

    /// Exactly one data byte.
    pub fn try_from(edata: &EchonetliteEdata) -> (r: Result<NumberOfEffectiveDigits, PropertyError>)
        ensures
            edata.epc != Self::EPC ==> r == Err::<NumberOfEffectiveDigits, PropertyError>(PropertyError::UnknownProperty),
            edata.epc == Self::EPC ==> r == (if edata.edt@.len() == 1 {
                Ok(NumberOfEffectiveDigits(edata.edt@[0]))
            } else {
                Err(PropertyError::BadFormat)
            }),
    {
        if edata.epc != Self::EPC {
            Err(PropertyError::UnknownProperty)
        } else if edata.edt.len() == 1 {
            Ok(NumberOfEffectiveDigits(edata.edt[0]))
        } else {
            Err(PropertyError::BadFormat)
        }
    }
}

/// 0xE0: the cumulative amount of energy, forward direction, in units.
#[derive(Clone, Copy, PartialEq, Eq, Debug)]
pub struct CumlativeAmountsPower(pub u32);

impl CumlativeAmountsPower {
    pub const EPC: u8 = 0xe0;

    /// Four data bytes, an unsigned big-endian count.
    pub fn try_from(edata: &EchonetliteEdata) -> (r: Result<CumlativeAmountsPower, PropertyError>)
        ensures
            edata.epc != Self::EPC ==> r == Err::<CumlativeAmountsPower, PropertyError>(PropertyError::UnknownProperty),
            edata.epc == Self::EPC && edata.edt@.len() != 4 ==> r == Err::<CumlativeAmountsPower, PropertyError>(PropertyError::BadFormat),
            edata.epc == Self::EPC && edata.edt@.len() == 4 ==> (r matches Ok(a) && a.0 as int == be32_value(edata.edt@)),
    {
        if edata.epc != Self::EPC {
            Err(PropertyError::UnknownProperty)
        } else if edata.edt.len() == 4 {
            let v = read_u32(edata.edt, 0);
            assert(edata.edt@.subrange(0, 4) =~= edata.edt@);
            Ok(CumlativeAmountsPower(v))
        } else {
            Err(PropertyError::BadFormat)
        }
    }

    /// The amount in kWh under the meter's unit.
    pub fn kwh(&self, unit: &UnitForCumlativeAmountsPower) -> (r: Decimal)
        requires
            unit.wf(),
        ensures
            r.mantissa == self.0 as int * unit.0.mantissa, r.scale == unit.0.scale,
    {
        unit.0.times_count(self.0)
    }
}

/// The unit that a unit code stands for, in kWh, or `None` for a code that
/// stands for none.
pub open spec fn unit_of_code(code: u8) -> Option<Decimal> {
    if code == 0x00 {
        Some(Decimal { mantissa: 1, scale: 0 })
    } else if code == 0x01 {
        Some(Decimal { mantissa: 1, scale: 1 })
    } else if code == 0x02 {
        Some(Decimal { mantissa: 1, scale: 2 })
    } else if code == 0x03 {
        Some(Decimal { mantissa: 1, scale: 3 })
    } else if code == 0x04 {
        Some(Decimal { mantissa: 1, scale: 4 })
    } else if code == 0x0a {
        Some(Decimal { mantissa: 10, scale: 0 })
    } else if code == 0x0b {
        Some(Decimal { mantissa: 100, scale: 0 })
    } else if code == 0x0c {
        Some(Decimal { mantissa: 1000, scale: 0 })
    } else if code == 0x0d {
        Some(Decimal { mantissa: 10000, scale: 0 })
    } else {
        None
    }
}

/// One of the nine units a meter can report.
pub open spec fn is_canonical_unit(d: Decimal) -> bool {
    ||| d == Decimal { mantissa: 1, scale: 0 }
    ||| d == Decimal { mantissa: 1, scale: 1 }
    ||| d == Decimal { mantissa: 1, scale: 2 }
    ||| d == Decimal { mantissa: 1, scale: 3 }
    ||| d == Decimal { mantissa: 1, scale: 4 }
    ||| d == Decimal { mantissa: 10, scale: 0 }
    ||| d == Decimal { mantissa: 100, scale: 0 }
    ||| d == Decimal { mantissa: 1000, scale: 0 }
    ||| d == Decimal { mantissa: 10000, scale: 0 }
}

/// 0xE1: the unit of cumulative amounts, in kWh.
#[derive(Clone, Copy, PartialEq, Eq, Debug)]
pub struct UnitForCumlativeAmountsPower(pub Decimal);

impl UnitForCumlativeAmountsPower {
    pub const EPC: u8 = 0xe1;

    /// One of the nine units.
    pub open spec fn wf(&self) -> bool {
        is_canonical_unit(self.0)
    }

    /// The unit of a unit code.
    pub fn decode_unit(code: u8) -> (r: Result<UnitForCumlativeAmountsPower, PropertyError>)
        ensures
            match unit_of_code(code) {
                Some(d) => r == Ok::<UnitForCumlativeAmountsPower, PropertyError>(UnitForCumlativeAmountsPower(d)),
                None => r == Err::<UnitForCumlativeAmountsPower, PropertyError>(PropertyError::BadFormat),
            },
    {
        let d = if code == 0x00 {
            Decimal::new(1, 0)
        } else if code == 0x01 {
            Decimal::new(1, 1)
        } else if code == 0x02 {
            Decimal::new(1, 2)
        } else if code == 0x03 {
            Decimal::new(1, 3)
        } else if code == 0x04 {
            Decimal::new(1, 4)
        } else if code == 0x0a {
            Decimal::new(10, 0)
        } else if code == 0x0b {
            Decimal::new(100, 0)
        } else if code == 0x0c {
            Decimal::new(1000, 0)
        } else if code == 0x0d {
            Decimal::new(10000, 0)
        } else {
            return Err(PropertyError::BadFormat);
        };
        Ok(UnitForCumlativeAmountsPower(d))
    }

    /// One data byte, a unit code.
    pub fn try_from(edata: &EchonetliteEdata) -> (r: Result<UnitForCumlativeAmountsPower, PropertyError>)
        ensures
            edata.epc != Self::EPC ==> r == Err::<UnitForCumlativeAmountsPower, PropertyError>(PropertyError::UnknownProperty),
            edata.epc == Self::EPC && edata.edt@.len() != 1 ==> r == Err::<UnitForCumlativeAmountsPower, PropertyError>(PropertyError::BadFormat),
            edata.epc == Self::EPC && edata.edt@.len() == 1 ==> match unit_of_code(edata.edt@[0]) {
                Some(d) => r == Ok::<UnitForCumlativeAmountsPower, PropertyError>(UnitForCumlativeAmountsPower(d)),
                None => r == Err::<UnitForCumlativeAmountsPower, PropertyError>(PropertyError::BadFormat),
            },
    {
        if edata.epc != Self::EPC {
            Err(PropertyError::UnknownProperty)
        } else if edata.edt.len() == 1 {
            Self::decode_unit(edata.edt[0])
        } else {
            Err(PropertyError::BadFormat)
        }
    }
}

/// Every unit code of the nine decodes to one of the nine canonical units,
/// and every other byte is refused as badly formed.
pub proof fn lemma_unit_codes(code: u8)
    ensures
        (code <= 0x04 || (0x0a <= code && code <= 0x0d)) ==> (unit_of_code(code) matches Some(d)
            && is_canonical_unit(d)),
        !(code <= 0x04 || (0x0a <= code && code <= 0x0d)) ==> unit_of_code(code) is None,
{
}

/// The number of half-hour slots in a day of history.
pub const HISTORY_SLOTS: usize = 48;

/// The length of a day of history: two bytes of days ago, then the slots.
pub const HISTORY_EDT_LEN: usize = 194;

/// The marker of a slot without data.
pub const NO_DATA: u32 = 0xffff_fffe;

/// What slot `k` of a history holds: `None` for the no-data marker.
pub open spec fn history_slot(edt: Seq<u8>, k: int) -> Option<u32> {
    let v = be32_value(edt.subrange(2 + 4 * k, 6 + 4 * k));
    if v == NO_DATA as int {
        None
    } else {
        Some(v as u32)
    }
}

/// 0xE2: the cumulative amounts of one day, at half-hour steps from midnight.
#[derive(Clone, PartialEq, Eq, Debug)]
pub struct HistoricalCumlativeAmount {
    pub n_days_ago: u16,
    pub historical: Vec<Option<u32>>,
}

impl HistoricalCumlativeAmount {
    pub const EPC: u8 = 0xe2;

    /// Two bytes of days ago, then 48 four-byte counts.
    pub fn try_from(edata: &EchonetliteEdata) -> (r: Result<HistoricalCumlativeAmount, PropertyError>)
        ensures
            edata.epc != Self::EPC ==> r == Err::<HistoricalCumlativeAmount, PropertyError>(PropertyError::UnknownProperty),
            edata.epc == Self::EPC && edata.edt@.len() != HISTORY_EDT_LEN ==> r == Err::<HistoricalCumlativeAmount, PropertyError>(PropertyError::BadFormat),
            edata.epc == Self::EPC && edata.edt@.len() == HISTORY_EDT_LEN ==> (r matches Ok(h) && {
                &&& h.n_days_ago as int == edata.edt@[0] as int * 256 + edata.edt@[1] as int
                &&& h.historical@.len() == HISTORY_SLOTS
                &&& forall|k: int| 0 <= k < HISTORY_SLOTS ==> #[trigger] h.historical@[k] == history_slot(edata.edt@, k)
            }),
    {
        if edata.epc != Self::EPC {
            return Err(PropertyError::UnknownProperty);
        }
        if edata.edt.len() != HISTORY_EDT_LEN {
            return Err(PropertyError::BadFormat);
        }
        let day = edata.edt[0] as u16 * 256 + edata.edt[1] as u16;
        let mut vs: Vec<Option<u32>> = Vec::new();
        let mut k: usize = 0;
        while k < HISTORY_SLOTS
            invariant
                k <= HISTORY_SLOTS,
                edata.edt@.len() == HISTORY_EDT_LEN,
                vs@.len() == k,
                forall|j: int| 0 <= j < k ==> #[trigger] vs@[j] == history_slot(edata.edt@, j),
            decreases HISTORY_SLOTS - k,
        {
            let v = read_u32(edata.edt, 2 + 4 * k);
            vs.push(if v == NO_DATA { None } else { Some(v) });
            k = k + 1;
        }
        Ok(HistoricalCumlativeAmount { n_days_ago: day, historical: vs })
    }
}

/// 0xE7: the instantaneous power in watts; negative while exporting.
#[derive(Clone, Copy, PartialEq, Eq, Debug)]
pub struct InstantiousPower(pub Decimal);

impl InstantiousPower {
    pub const EPC: u8 = 0xe7;

    /// Four data bytes, a signed big-endian count of watts.
    pub fn try_from(edata: &EchonetliteEdata) -> (r: Result<InstantiousPower, PropertyError>)
        ensures
            edata.epc != Self::EPC ==> r == Err::<InstantiousPower, PropertyError>(PropertyError::UnknownProperty),
            edata.epc == Self::EPC && edata.edt@.len() != 4 ==> r == Err::<InstantiousPower, PropertyError>(PropertyError::BadFormat),
            edata.epc == Self::EPC && edata.edt@.len() == 4 ==> (r matches Ok(p) && p.0.mantissa as int
                == be32_signed(edata.edt@) && p.0.scale == 0),
    {
        if edata.epc != Self::EPC {
            Err(PropertyError::UnknownProperty)
        } else if edata.edt.len() == 4 {
            let u = read_u32(edata.edt, 0);
            assert(edata.edt@.subrange(0, 4) =~= edata.edt@);
            let w: i64 = if u >= 0x8000_0000 { u as i64 - 0x1_0000_0000 } else { u as i64 };
            Ok(InstantiousPower(Decimal::new(w, 0)))
        } else {
            Err(PropertyError::BadFormat)
        }
    }
}

/// The value of the T phase that marks a single-phase two-wire meter.
pub const SINGLE_PHASE_MARKER: i16 = 0x7ffe;

/// 0xE8: the instantaneous currents of the R and T phases in amperes; no T
/// phase on a single-phase two-wire meter.
#[derive(Clone, Copy, PartialEq, Eq, Debug)]
pub struct InstantiousCurrent {
    pub r: Decimal,
    pub t: Option<Decimal>,
}

impl InstantiousCurrent {
    pub const EPC: u8 = 0xe8;

    /// Four data bytes: two signed big-endian counts of tenths of an ampere.
    pub fn try_from(edata: &EchonetliteEdata) -> (r: Result<InstantiousCurrent, PropertyError>)
        ensures
            edata.epc != Self::EPC ==> r == Err::<InstantiousCurrent, PropertyError>(PropertyError::UnknownProperty),
            edata.epc == Self::EPC && edata.edt@.len() != 4 ==> r == Err::<InstantiousCurrent, PropertyError>(PropertyError::BadFormat),
            edata.epc == Self::EPC && edata.edt@.len() == 4 ==> (r matches Ok(c) && {
                let b = edata.edt@;
                &&& c.r.mantissa as int == be16_signed(b[0], b[1]) && c.r.scale == 1
                &&& if be16_signed(b[2], b[3]) == SINGLE_PHASE_MARKER as int {
                    c.t is None
                } else {
                    (c.t matches Some(t) && t.mantissa as int == be16_signed(b[2], b[3]) && t.scale == 1)
                }
            }),
    {
        if edata.epc != Self::EPC {
            Err(PropertyError::UnknownProperty)
        } else if edata.edt.len() == 4 {
            let r = read_i16(edata.edt[0], edata.edt[1]);
            let t = read_i16(edata.edt[2], edata.edt[3]);
            let t = if t == SINGLE_PHASE_MARKER { None } else { Some(Decimal::new(t as i64, 1)) };
            Ok(InstantiousCurrent { r: Decimal::new(r as i64, 1), t })
        } else {
            Err(PropertyError::BadFormat)
        }
    }
}

/// A civil date and time as the meter's clock gives it, not yet checked.
#[derive(Clone, Copy, PartialEq, Eq, Debug)]
pub struct CivilTime {
    pub year: u16,
    pub month: u8,
    pub day: u8,
    pub hour: u8,
    pub minute: u8,
    pub second: u8,
}

/// 0xEA: the cumulative amount, forward direction, at the time the meter
/// stamped on it.
#[derive(Clone, Copy, PartialEq, Eq, Debug)]
pub struct CumlativeAmountsOfPowerAtFixedTime {
    pub time_point: CivilTime,
    pub cumlative_amounts_power: u32,
}

impl CumlativeAmountsOfPowerAtFixedTime {
    pub const EPC: u8 = 0xea;

    /// Eleven data bytes: a big-endian year, month, day, hour, minute and
    /// second, then a four-byte count.
    pub fn try_from(edata: &EchonetliteEdata) -> (r: Result<CumlativeAmountsOfPowerAtFixedTime, PropertyError>)
        ensures
            edata.epc != Self::EPC ==> r == Err::<CumlativeAmountsOfPowerAtFixedTime, PropertyError>(PropertyError::UnknownProperty),
            edata.epc == Self::EPC && edata.edt@.len() != 11 ==> r == Err::<CumlativeAmountsOfPowerAtFixedTime, PropertyError>(PropertyError::BadFormat),
            edata.epc == Self::EPC && edata.edt@.len() == 11 ==> (r matches Ok(a) && {
                let b = edata.edt@;
                &&& a.time_point == (CivilTime {
                    year: (b[0] as int * 256 + b[1] as int) as u16,
                    month: b[2],
                    day: b[3],
                    hour: b[4],
                    minute: b[5],
                    second: b[6],
                })
                &&& a.cumlative_amounts_power as int == be32_value(b.subrange(7, 11))
            }),
    {
        if edata.epc != Self::EPC {
            Err(PropertyError::UnknownProperty)
        } else if edata.edt.len() == 11 {
            let b = edata.edt;
            let time_point = CivilTime {
                year: b[0] as u16 * 256 + b[1] as u16,
                month: b[2],
                day: b[3],
                hour: b[4],
                minute: b[5],
                second: b[6],
            };
            let v = read_u32(b, 7);
            Ok(CumlativeAmountsOfPowerAtFixedTime { time_point, cumlative_amounts_power: v })
        } else {
            Err(PropertyError::BadFormat)
        }
    }
}

/// A property of the smart meter class.
#[derive(Clone, PartialEq, Eq, Debug)]
pub enum Properties {
    Coefficient(Coefficient),
    NumberOfEffectiveDigits(NumberOfEffectiveDigits),
    CumlativeAmountsPower(CumlativeAmountsPower),
    UnitForCumlativeAmountsPower(UnitForCumlativeAmountsPower),
    HistoricalCumlativeAmount(HistoricalCumlativeAmount),
    InstantiousPower(InstantiousPower),
    InstantiousCurrent(InstantiousCurrent),
    CumlativeAmountsOfPowerAtFixedTime(CumlativeAmountsOfPowerAtFixedTime),
}

/// The codes of the smart meter class's properties.
pub open spec fn is_meter_epc(epc: u8) -> bool {
    epc == 0xd3 || epc == 0xd7 || epc == 0xe0 || epc == 0xe1 || epc == 0xe2 || epc == 0xe7
        || epc == 0xe8 || epc == 0xea
}

/// The data length that a property of the smart meter class must have.
pub open spec fn meter_length_fits(epc: u8, len: int) -> bool {
    if epc == 0xd3 {
        len == 0 || len == 1
    } else if epc == 0xd7 || epc == 0xe1 {
        len == 1
    } else if epc == 0xe0 || epc == 0xe7 || epc == 0xe8 {
        len == 4
    } else if epc == 0xe2 {
        len == HISTORY_EDT_LEN
    } else {
        len == 11
    }
}

impl Properties {
    /// Decodes an entry of the smart meter class by its code.
    pub fn try_from(edata: &EchonetliteEdata) -> (r: Result<Properties, PropertyError>)
        ensures
            !is_meter_epc(edata.epc) ==> r == Err::<Properties, PropertyError>(PropertyError::UnknownProperty),
            is_meter_epc(edata.epc) && !meter_length_fits(edata.epc, edata.edt@.len() as int) ==> r == Err::<Properties, PropertyError>(PropertyError::BadFormat),
            is_meter_epc(edata.epc) && meter_length_fits(edata.epc, edata.edt@.len() as int) ==> (r is Ok <==> (edata.epc != 0xe1 || unit_of_code(edata.edt@[0]) is Some)),
            edata.epc == 0xe1 && edata.edt@.len() == 1 && unit_of_code(edata.edt@[0]) is None ==> r == Err::<Properties, PropertyError>(PropertyError::BadFormat),
            r matches Ok(p) ==> match p {
                Properties::Coefficient(a) => edata.epc == Coefficient::EPC && a.0 == (if edata.edt@.len() == 1 { edata.edt@[0] } else { 1u8 }),
                Properties::NumberOfEffectiveDigits(a) => edata.epc == NumberOfEffectiveDigits::EPC && a.0 == edata.edt@[0],
                Properties::CumlativeAmountsPower(a) => edata.epc == CumlativeAmountsPower::EPC && a.0 as int == be32_value(edata.edt@),
                Properties::UnitForCumlativeAmountsPower(a) => edata.epc == UnitForCumlativeAmountsPower::EPC && unit_of_code(edata.edt@[0]) == Some(a.0),
                Properties::HistoricalCumlativeAmount(h) => edata.epc == HistoricalCumlativeAmount::EPC
                    && h.n_days_ago as int == edata.edt@[0] as int * 256 + edata.edt@[1] as int
                    && h.historical@.len() == HISTORY_SLOTS
                    && forall|k: int| 0 <= k < HISTORY_SLOTS ==> #[trigger] h.historical@[k] == history_slot(edata.edt@, k),
                Properties::InstantiousPower(a) => edata.epc == InstantiousPower::EPC && a.0.mantissa as int == be32_signed(edata.edt@) && a.0.scale == 0,
                Properties::InstantiousCurrent(c) => edata.epc == InstantiousCurrent::EPC
                    && c.r.mantissa as int == be16_signed(edata.edt@[0], edata.edt@[1]) && c.r.scale == 1
                    && (if be16_signed(edata.edt@[2], edata.edt@[3]) == SINGLE_PHASE_MARKER as int {
                        c.t is None
                    } else {
                        (c.t matches Some(t) && t.mantissa as int == be16_signed(edata.edt@[2], edata.edt@[3]) && t.scale == 1)
                    }),
                Properties::CumlativeAmountsOfPowerAtFixedTime(a) => edata.epc == CumlativeAmountsOfPowerAtFixedTime::EPC
                    && a.time_point == (CivilTime {
                        year: (edata.edt@[0] as int * 256 + edata.edt@[1] as int) as u16,
                        month: edata.edt@[2],
                        day: edata.edt@[3],
                        hour: edata.edt@[4],
                        minute: edata.edt@[5],
                        second: edata.edt@[6],
                    })
                    && a.cumlative_amounts_power as int == be32_value(edata.edt@.subrange(7, 11)),
            },
    {
        let epc = edata.epc;
        if epc == Coefficient::EPC {
            match Coefficient::try_from(edata) {
                Ok(a) => Ok(Properties::Coefficient(a)),
                Err(e) => Err(e),
            }
        } else if epc == NumberOfEffectiveDigits::EPC {
            match NumberOfEffectiveDigits::try_from(edata) {
                Ok(a) => Ok(Properties::NumberOfEffectiveDigits(a)),
                Err(e) => Err(e),
            }
        } else if epc == CumlativeAmountsPower::EPC {
            match CumlativeAmountsPower::try_from(edata) {
                Ok(a) => Ok(Properties::CumlativeAmountsPower(a)),
                Err(e) => Err(e),
            }
        } else if epc == UnitForCumlativeAmountsPower::EPC {
            match UnitForCumlativeAmountsPower::try_from(edata) {
                Ok(a) => Ok(Properties::UnitForCumlativeAmountsPower(a)),
                Err(e) => Err(e),
            }
        } else if epc == HistoricalCumlativeAmount::EPC {
            match HistoricalCumlativeAmount::try_from(edata) {
                Ok(a) => Ok(Properties::HistoricalCumlativeAmount(a)),
                Err(e) => Err(e),
            }
        } else if epc == InstantiousPower::EPC {
            match InstantiousPower::try_from(edata) {
                Ok(a) => Ok(Properties::InstantiousPower(a)),
                Err(e) => Err(e),
            }
        } else if epc == InstantiousCurrent::EPC {
            match InstantiousCurrent::try_from(edata) {
                Ok(a) => Ok(Properties::InstantiousCurrent(a)),
                Err(e) => Err(e),
            }
        } else if epc == CumlativeAmountsOfPowerAtFixedTime::EPC {
            match CumlativeAmountsOfPowerAtFixedTime::try_from(edata) {
                Ok(a) => Ok(Properties::CumlativeAmountsOfPowerAtFixedTime(a)),
                Err(e) => Err(e),
            }
        } else {
            Err(PropertyError::UnknownProperty)
        }
    }
}

} // verus!
