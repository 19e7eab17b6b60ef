//! The measurements that are stored: what the meter's answers become, each
//! stamped with a UTC instant, in seconds since the Unix epoch.
use crate::civil_time::{tokyo_utc, tokyo_utc_of};
use crate::decimal::Decimal;
use crate::frame::{EchonetliteEdata, EchonetliteFrame, EdataView};
use crate::smart_electric_energy_meter::{
    be16_signed, be32_signed, be32_value, history_slot, is_meter_epc, meter_length_fits,
    CumlativeAmountsOfPowerAtFixedTime, HistoricalCumlativeAmount, InstantiousCurrent,
    InstantiousPower, PropertyError, UnitForCumlativeAmountsPower, HISTORY_EDT_LEN, HISTORY_SLOTS,
    NO_DATA, SINGLE_PHASE_MARKER,
};
use vstd::prelude::*;

verus! {

/// Seconds in half an hour: the step between the slots of a history.
pub const HALF_HOUR: i64 = 1800;

/// Seconds in a day.
pub const DAY: i64 = 86400;

/// A cumulative amount in kWh at an instant.
#[derive(Clone, Copy, PartialEq, Eq, Debug)]
pub struct KwhRecord {
    pub recorded_at: i64,
    pub kwh: Decimal,
}

/// A measurement to store.
#[derive(Clone, PartialEq, Eq, Debug)]
pub enum Measurement {
    InstantPower { recorded_at: i64, watts: Decimal },
    InstantCurrent { recorded_at: i64, r: Decimal, t: Option<Decimal> },
    CumulativeAtFixedTime(KwhRecord),
    HistoricalCumulative(Vec<KwhRecord>),
}

/// A measurement, as plain values.
pub enum MeasurementView {
    InstantPower { recorded_at: i64, watts: Decimal },
    InstantCurrent { recorded_at: i64, r: Decimal, t: Option<Decimal> },
    CumulativeAtFixedTime(KwhRecord),
    HistoricalCumulative(Seq<KwhRecord>),
}

impl View for Measurement {
    type V = MeasurementView;

    open spec fn view(&self) -> MeasurementView {
        match self {
            Measurement::InstantPower { recorded_at, watts } => MeasurementView::InstantPower {
                recorded_at: *recorded_at,
                watts: *watts,
            },
            Measurement::InstantCurrent { recorded_at, r, t } => MeasurementView::InstantCurrent {
                recorded_at: *recorded_at,
                r: *r,
                t: *t,
            },
            Measurement::CumulativeAtFixedTime(k) => MeasurementView::CumulativeAtFixedTime(*k),
            Measurement::HistoricalCumulative(ks) => MeasurementView::HistoricalCumulative(ks@),
        }
    }
}

/// Why an entry of an answer gives no measurement.
#[derive(Clone, Copy, PartialEq, Eq, Debug)]
pub enum RecordError {
    /// The entry could not be decoded.
    Property(PropertyError),
    /// The meter's clock names no instant, or an instant out of range.
    TimeArithmetic,
    /// The property is decoded but is not a measurement that is stored.
    NotStored,
}

/// A count of units, in kWh.
pub open spec fn scaled(v: u32, unit: Decimal) -> Decimal {
    Decimal { mantissa: (v as int * unit.mantissa) as i64, scale: unit.scale }
}

/// The records of a day of history whose first slot is at `base`: one for
/// each slot with data, at `base` plus half an hour per slot.
pub open spec fn history_records(values: Seq<Option<u32>>, unit: Decimal, base: int) -> Seq<KwhRecord>
    decreases values.len(),
{
    if values.len() == 0 {
        Seq::empty()
    } else {
        let prev = history_records(values.drop_last(), unit, base);
        match values.last() {
            Some(v) => prev.push(
                KwhRecord {
                    recorded_at: (base + HALF_HOUR * (values.len() - 1)) as i64,
                    kwh: scaled(v, unit),
                },
            ),
            None => prev,
        }
    }
}

/// The slots of a history that hold data, in order.
pub open spec fn slots_with_data(values: Seq<Option<u32>>) -> Seq<int>
    decreases values.len(),
{
    if values.len() == 0 {
        Seq::empty()
    } else {
        let prev = slots_with_data(values.drop_last());
        if values.last() is Some {
            prev.push(values.len() - 1)
        } else {
            prev
        }
    }
}

proof fn lemma_history_records_slots(values: Seq<Option<u32>>, unit: Decimal, base: int)
    ensures
        ({
            let recs = history_records(values, unit, base);
            let ks = slots_with_data(values);
            &&& recs.len() == ks.len()
            &&& forall|i: int| 0 <= i < ks.len() ==> 0 <= #[trigger] ks[i] < values.len() && values[ks[i]] is Some
            &&& forall|i: int, j: int| 0 <= i < j < ks.len() ==> #[trigger] ks[i] < #[trigger] ks[j]
            &&& forall|k: int| 0 <= k < values.len() && values[k] is Some ==> exists|i: int| 0 <= i < ks.len() && #[trigger] ks[i] == k
            &&& forall|i: int| 0 <= i < ks.len() ==> #[trigger] recs[i] == KwhRecord {
                recorded_at: (base + HALF_HOUR * ks[i]) as i64,
                kwh: scaled(values[ks[i]].unwrap(), unit),
            }
        }),
    decreases values.len(),
{
    if values.len() > 0 {
        let init = values.drop_last();
        lemma_history_records_slots(init, unit, base);
        let recs = history_records(values, unit, base);
        let ks = slots_with_data(values);
        let prev_ks = slots_with_data(init);
        assert forall|i: int| 0 <= i < prev_ks.len() implies values[#[trigger] prev_ks[i]] == init[prev_ks[i]] by {}
        assert forall|k: int| 0 <= k < values.len() && values[k] is Some implies exists|i: int| 0 <= i < ks.len() && #[trigger] ks[i] == k by {
            if k < values.len() - 1 {
                assert(init[k] == values[k]);
                let i = choose|i: int| 0 <= i < prev_ks.len() && #[trigger] prev_ks[i] == k;
                assert(ks[i] == k);
            } else {
                assert(ks[ks.len() - 1] == k);
            }
        }
    }
}

/// Decoding a day of history, 194 bytes of data, gives exactly the slots
/// whose count is not the no-data marker (`history_slot` is `Some`), each paired with the start of the
/// day plus thirty minutes per slot, so that the instants increase from one
/// record to the next, each amount in kWh under the meter's unit.
pub proof fn lemma_historical_decoding(edt: Seq<u8>, unit: Decimal, base: int)
    requires
        edt.len() == HISTORY_EDT_LEN,
        i64::MIN <= base,
        base + HALF_HOUR * HISTORY_SLOTS <= i64::MAX,
    ensures
        ({
            let values = Seq::new(HISTORY_SLOTS as nat, |k: int| history_slot(edt, k));
            let recs = history_records(values, unit, base);
            let ks = slots_with_data(values);
            &&& recs.len() == ks.len()
            &&& forall|k: int| 0 <= k < HISTORY_SLOTS && (#[trigger] history_slot(edt, k)) is Some
                ==> exists|i: int| 0 <= i < ks.len() && #[trigger] ks[i] == k
            &&& forall|i: int| 0 <= i < ks.len() ==> 0 <= #[trigger] ks[i] < HISTORY_SLOTS
                && be32_value(edt.subrange(2 + 4 * ks[i], 6 + 4 * ks[i])) != NO_DATA as int
            &&& forall|i: int| 0 <= i < ks.len() ==> #[trigger] recs[i] == KwhRecord {
                recorded_at: (base + HALF_HOUR * ks[i]) as i64,
                kwh: scaled(be32_value(edt.subrange(2 + 4 * ks[i], 6 + 4 * ks[i])) as u32, unit),
            }
            &&& forall|i: int| 0 <= i < ks.len() ==> (#[trigger] recs[i]).recorded_at as int == base + HALF_HOUR * ks[i]
            &&& forall|i: int, j: int| 0 <= i < j < ks.len() ==> #[trigger] recs[i].recorded_at < #[trigger] recs[j].recorded_at
                && recs[j].recorded_at - recs[i].recorded_at == HALF_HOUR * (ks[j] - ks[i])
        }),
{
    let values = Seq::new(HISTORY_SLOTS as nat, |k: int| history_slot(edt, k));
    let recs = history_records(values, unit, base);
    let ks = slots_with_data(values);
    lemma_history_records_slots(values, unit, base);
    assert forall|k: int| 0 <= k < HISTORY_SLOTS && (#[trigger] history_slot(edt, k)) is Some
        implies exists|i: int| 0 <= i < ks.len() && #[trigger] ks[i] == k by {
        assert(values[k] is Some);
    }
    assert forall|i: int| 0 <= i < ks.len() implies (#[trigger] recs[i]).recorded_at as int == base + HALF_HOUR * ks[i] by {
        assert(0 <= ks[i] < HISTORY_SLOTS);
        assert(0 <= HALF_HOUR * ks[i] <= HALF_HOUR * HISTORY_SLOTS) by (nonlinear_arith)
            requires
                0 <= ks[i] < HISTORY_SLOTS,
        ;
    }
    assert forall|i: int, j: int| 0 <= i < j < ks.len() implies #[trigger] recs[i].recorded_at < #[trigger] recs[j].recorded_at
        && recs[j].recorded_at - recs[i].recorded_at == HALF_HOUR * (ks[j] - ks[i]) by {
        assert(recs[i].recorded_at as int == base + HALF_HOUR * ks[i]);
        assert(recs[j].recorded_at as int == base + HALF_HOUR * ks[j]);
        assert(HALF_HOUR * ks[j] - HALF_HOUR * ks[i] == HALF_HOUR * (ks[j] - ks[i])) by (nonlinear_arith);
        assert(ks[i] < ks[j]);
        assert(0 <= ks[i] && ks[j] < HISTORY_SLOTS);
        assert(HALF_HOUR * ks[i] < HALF_HOUR * ks[j]) by (nonlinear_arith)
            requires
                ks[i] < ks[j],
        ;
        assert(HALF_HOUR * ks[j] <= HALF_HOUR * HISTORY_SLOTS) by (nonlinear_arith)
            requires
                ks[j] < HISTORY_SLOTS,
        ;
        assert(0 <= HALF_HOUR * ks[i]) by (nonlinear_arith)
            requires
                0 <= ks[i],
        ;
    }
}

/// The start of the day of a history received on the day that started at
/// `today_start`: that many whole days before it.
pub open spec fn history_base(edt: Seq<u8>, today_start: i64) -> int {
    today_start - DAY * (edt[0] as int * 256 + edt[1] as int)
}

/// A day of history received on the day that started at `today_start` is
/// stored as the records of its slots with data, the start of the day being
/// the start of today less the days ago that the meter gives; so every
/// record of it lies on the half-hour grid from that start.
pub proof fn lemma_history_measurement(e: EdataView, unit: Decimal, recorded_at: i64, today_start: i64)
    requires
        e.epc == 0xe2,
        e.edt.len() == HISTORY_EDT_LEN,
        i64::MIN <= history_base(e.edt, today_start),
        history_base(e.edt, today_start) + HALF_HOUR * HISTORY_SLOTS <= i64::MAX,
    ensures
        ({
            let base = history_base(e.edt, today_start);
            let values = Seq::new(HISTORY_SLOTS as nat, |k: int| history_slot(e.edt, k));
            let recs = history_records(values, unit, base);
            let ks = slots_with_data(values);
            &&& measurement_result(e, unit, recorded_at, today_start) == Ok::<MeasurementView, RecordError>(
                MeasurementView::HistoricalCumulative(recs),
            )
            &&& recs.len() == ks.len()
            &&& forall|i: int| 0 <= i < ks.len() ==> (#[trigger] recs[i]).recorded_at as int == base + HALF_HOUR * ks[i]
                && history_slot(e.edt, ks[i]) is Some && recs[i].kwh == scaled(values[ks[i]].unwrap(), unit)
        }),
{
    let base = history_base(e.edt, today_start);
    lemma_historical_decoding(e.edt, unit, base);
}

/// The records of a day of history whose first slot is at `day_start`.
pub fn historical_records(hist: &HistoricalCumlativeAmount, unit: &UnitForCumlativeAmountsPower, day_start: i64) -> (r: Vec<KwhRecord>)
    requires
        unit.wf(),
        i64::MIN <= day_start,
        day_start as int + HALF_HOUR * hist.historical@.len() <= i64::MAX,
    ensures
        r@ == history_records(hist.historical@, unit.0, day_start as int),
{
    let mut out: Vec<KwhRecord> = Vec::new();
    let mut k: usize = 0;
    while k < hist.historical.len()
        invariant
            k <= hist.historical@.len(),
            unit.wf(),
            day_start as int + HALF_HOUR * hist.historical@.len() <= i64::MAX,
            out@ == history_records(hist.historical@.subrange(0, k as int), unit.0, day_start as int),
        decreases hist.historical@.len() - k,
    {
        let ghost vs = hist.historical@.subrange(0, k as int + 1);
        assert(vs.drop_last() =~= hist.historical@.subrange(0, k as int));
        assert(vs.last() == hist.historical@[k as int]);
        match hist.historical[k] {
            Some(v) => {
                assert(HALF_HOUR * k <= HALF_HOUR * hist.historical@.len()) by (nonlinear_arith)
                    requires
                        k <= hist.historical@.len(),
                ;
                let at = (day_start as i128 + HALF_HOUR as i128 * k as i128) as i64;
                out.push(KwhRecord { recorded_at: at, kwh: unit.0.times_count(v) });
            },
            None => {},
        }
        k = k + 1;
    }
    assert(hist.historical@.subrange(0, k as int) =~= hist.historical@);
    out
}

/// The measurement that an entry of an answer gives, received at
/// `recorded_at`, on the day that started at `today_start`.
pub open spec fn measurement_result(e: EdataView, unit: Decimal, recorded_at: i64, today_start: i64) -> Result<MeasurementView, RecordError> {
    let b = e.edt;
    if !is_meter_epc(e.epc) {
        Err(RecordError::Property(PropertyError::UnknownProperty))
    } else if !meter_length_fits(e.epc, b.len() as int) {
        Err(RecordError::Property(PropertyError::BadFormat))
    } else if e.epc == 0xe7 {
        Ok(MeasurementView::InstantPower { recorded_at, watts: Decimal { mantissa: be32_signed(b) as i64, scale: 0 } })
    } else if e.epc == 0xe8 {
        Ok(
            MeasurementView::InstantCurrent {
                recorded_at,
                r: Decimal { mantissa: be16_signed(b[0], b[1]) as i64, scale: 1 },
                t: if be16_signed(b[2], b[3]) == SINGLE_PHASE_MARKER as int {
                    None
                } else {
                    Some(Decimal { mantissa: be16_signed(b[2], b[3]) as i64, scale: 1 })
                },
            },
        )
    } else if e.epc == 0xea {
        match tokyo_utc_of(
            (b[0] as int * 256 + b[1] as int) as i32,
            b[2] as u32,
            b[3] as u32,
            b[4] as u32,
            b[5] as u32,
            b[6] as u32,
        ) {
            Some(at) => Ok(
                MeasurementView::CumulativeAtFixedTime(
                    KwhRecord { recorded_at: at, kwh: scaled(be32_value(b.subrange(7, 11)) as u32, unit) },
                ),
            ),
            None => Err(RecordError::TimeArithmetic),
        }
    } else if e.epc == 0xe2 {
        let base = today_start - DAY * (b[0] as int * 256 + b[1] as int);
        if base < i64::MIN || base + HALF_HOUR * HISTORY_SLOTS > i64::MAX {
            Err(RecordError::TimeArithmetic)
        } else {
            Ok(
                MeasurementView::HistoricalCumulative(
                    history_records(Seq::new(HISTORY_SLOTS as nat, |k: int| history_slot(b, k)), unit, base),
                ),
            )
        }
    } else if e.epc == 0xe1 && !(b[0] <= 0x04 || (0x0a <= b[0] && b[0] <= 0x0d)) {
        Err(RecordError::Property(PropertyError::BadFormat))
    } else {
        Err(RecordError::NotStored)
    }
}

/// The measurement that an entry of an answer gives: instantaneous values
/// at `recorded_at`; a cumulative amount at the time the meter stamped on
/// it; a day of history from the start of the day that many days before the
/// day that started at `today_start` (the meter's zone keeps no daylight
/// saving time, so each day is 86400 seconds).
pub fn measurement_of(edata: &EchonetliteEdata, unit: &UnitForCumlativeAmountsPower, recorded_at: i64, today_start: i64) -> (r: Result<Measurement, RecordError>)
    requires
        unit.wf(),
    ensures
        match r {
            Ok(m) => measurement_result(edata@, unit.0, recorded_at, today_start) == Ok::<MeasurementView, RecordError>(m@),
            Err(e) => measurement_result(edata@, unit.0, recorded_at, today_start) == Err::<MeasurementView, RecordError>(e),
        },
{
    let b = edata.edt;
    let epc = edata.epc;
    if epc == InstantiousPower::EPC {
        match InstantiousPower::try_from(edata) {
            Ok(p) => Ok(Measurement::InstantPower { recorded_at, watts: p.0 }),
            Err(e) => Err(RecordError::Property(e)),
        }
    } else if epc == InstantiousCurrent::EPC {
        match InstantiousCurrent::try_from(edata) {
            Ok(c) => Ok(Measurement::InstantCurrent { recorded_at, r: c.r, t: c.t }),
            Err(e) => Err(RecordError::Property(e)),
        }
    } else if epc == CumlativeAmountsOfPowerAtFixedTime::EPC {
        match CumlativeAmountsOfPowerAtFixedTime::try_from(edata) {
            Ok(a) => {
                let t = a.time_point;
                match tokyo_utc(t.year as i32, t.month as u32, t.day as u32, t.hour as u32, t.minute as u32, t.second as u32) {
                    Some(at) => {
                        let kwh = unit.0.times_count(a.cumlative_amounts_power);
                        Ok(Measurement::CumulativeAtFixedTime(KwhRecord { recorded_at: at, kwh }))
                    },
                    None => Err(RecordError::TimeArithmetic),
                }
            },
            Err(e) => Err(RecordError::Property(e)),
        }
    } else if epc == HistoricalCumlativeAmount::EPC {
        match HistoricalCumlativeAmount::try_from(edata) {
            Ok(h) => {
                let back = DAY as i128 * h.n_days_ago as i128;
                let base = today_start as i128 - back;
                if base < i64::MIN as i128 || base + HALF_HOUR as i128 * HISTORY_SLOTS as i128 > i64::MAX as i128 {
                    return Err(RecordError::TimeArithmetic);
                }
                let recs = historical_records(&h, unit, base as i64);
                proof {
                    assert(h.historical@ =~= Seq::new(HISTORY_SLOTS as nat, |k: int| history_slot(b@, k)));
                }
                Ok(Measurement::HistoricalCumulative(recs))
            },
            Err(e) => Err(RecordError::Property(e)),
        }
    } else {
        match crate::smart_electric_energy_meter::Properties::try_from(edata) {
            Ok(_) => Err(RecordError::NotStored),
            Err(e) => Err(RecordError::Property(e)),
        }
    }
}

/// The measurements that the entries of an answer give, one per entry, in
/// the order of the entries.
pub fn measurements_of_frame(frame: &EchonetliteFrame, unit: &UnitForCumlativeAmountsPower, recorded_at: i64, today_start: i64) -> (r: Vec<Result<Measurement, RecordError>>)
    requires
        unit.wf(),
    ensures
        r@.len() == frame.edata@.len(),
        forall|i: int| 0 <= i < r@.len() ==> match #[trigger] r@[i] {
            Ok(m) => measurement_result(frame.edata@[i]@, unit.0, recorded_at, today_start) == Ok::<MeasurementView, RecordError>(m@),
            Err(e) => measurement_result(frame.edata@[i]@, unit.0, recorded_at, today_start) == Err::<MeasurementView, RecordError>(e),
        },
{
    let mut out: Vec<Result<Measurement, RecordError>> = Vec::new();
    let mut i: usize = 0;
    while i < frame.edata.len()
        invariant
            i <= frame.edata@.len(),
            unit.wf(),
            out@.len() == i,
            forall|j: int| 0 <= j < i ==> match #[trigger] out@[j] {
                Ok(m) => measurement_result(frame.edata@[j]@, unit.0, recorded_at, today_start) == Ok::<MeasurementView, RecordError>(m@),
                Err(e) => measurement_result(frame.edata@[j]@, unit.0, recorded_at, today_start) == Err::<MeasurementView, RecordError>(e),
            },
        decreases frame.edata@.len() - i,
    {
        let m = measurement_of(&frame.edata[i], unit, recorded_at, today_start);
        out.push(m);
        i = i + 1;
    }
    out
}

} // verus!
