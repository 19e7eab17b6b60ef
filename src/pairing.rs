//! The requests sent to the meter, and the decisions of pairing: which meter
//! to pair with, what its answers tell, and the profile that results.
use crate::authn::Credentials;
use crate::connection_settings::ConnectionSettings;
use crate::frame::{decode_frame, EchonetliteEdata, EchonetliteFrame, EdataView, ECHONET_LITE_EHD};
use crate::skrxd::Epandesc;
use crate::smart_electric_energy_meter::{unit_of_code, Coefficient, UnitForCumlativeAmountsPower};
use crate::smart_electric_energy_meter::NumberOfEffectiveDigits;
use crate::superclass::{GetPropertyMap, SmartElectricEnergyMeter};
use vstd::prelude::*;

verus! {

/// The ESV of a Get request.
pub const ESV_GET: u8 = 0x62;

/// The object identifier of a home controller, the source of requests.
pub const HOME_CONTROLLER_EOJ: [u8; 3] = [0x05, 0xff, 0x01];

/// A Get request to the meter for the properties `epcs`: transaction 1,
/// from the home controller, one entry without data per property.
pub open spec fn is_get_request(f: EchonetliteFrame, epcs: Seq<u8>) -> bool {
    &&& f.ehd == ECHONET_LITE_EHD
    &&& f.tid == 1
    &&& f.seoj@ == seq![0x05u8, 0xff, 0x01]
    &&& f.deoj@ == seq![0x02u8, 0x88, 0x01]
    &&& f.esv == ESV_GET
    &&& f.opc as int == epcs.len()
    &&& f.edata@.len() == epcs.len()
    &&& forall|i: int| 0 <= i < epcs.len() ==> (#[trigger] f.edata@[i])@ == EdataView {
        epc: epcs[i],
        pdc: 0,
        edt: Seq::empty(),
    }
}

fn empty_entry(epc: u8) -> (r: EchonetliteEdata<'static>)
    ensures
        r@ == (EdataView { epc, pdc: 0, edt: Seq::empty() }),
{
    let edt: &'static [u8] = &[];
    assert(edt@ =~= Seq::<u8>::empty());
    EchonetliteEdata { epc, pdc: 0, edt }
}

fn request_frame(edata: Vec<EchonetliteEdata<'static>>, opc: u8) -> (r: EchonetliteFrame<'static>)
    ensures
        r.ehd == ECHONET_LITE_EHD,
        r.tid == 1,
        r.seoj@ == seq![0x05u8, 0xff, 0x01],
        r.deoj@ == seq![0x02u8, 0x88, 0x01],
        r.esv == ESV_GET,
        r.opc == opc,
        r.edata@ == edata@,
{
    let seoj: [u8; 3] = HOME_CONTROLLER_EOJ;
    let deoj: [u8; 3] = SmartElectricEnergyMeter::EOJ;
    assert(seoj@ =~= seq![0x05u8, 0xff, 0x01]);
    assert(deoj@ =~= seq![0x02u8, 0x88, 0x01]);
    EchonetliteFrame { ehd: ECHONET_LITE_EHD, tid: 1, seoj, deoj, esv: ESV_GET, opc, edata }
}

/// A Get request for one property.
pub fn get_request(epc: u8) -> (r: EchonetliteFrame<'static>)
    ensures
        is_get_request(r, seq![epc]),
{
    let mut edata: Vec<EchonetliteEdata<'static>> = Vec::new();
    edata.push(empty_entry(epc));
    request_frame(edata, 1)
}

/// The request for the instantaneous power (0xE7) and current (0xE8).
pub fn instant_request() -> (r: EchonetliteFrame<'static>)
    ensures
        is_get_request(r, seq![0xe7u8, 0xe8]),
{
    let mut edata: Vec<EchonetliteEdata<'static>> = Vec::new();
    edata.push(empty_entry(0xe7));
    edata.push(empty_entry(0xe8));
    request_frame(edata, 2)
}

/// The request for today's cumulative history (0xE2).
pub fn today_history_request() -> (r: EchonetliteFrame<'static>)
    ensures
        is_get_request(r, seq![0xe2u8]),
{
    get_request(0xe2)
}

/// The properties that pairing asks for, one request each: the unit, the
/// property map, the coefficient and the effective digits.
pub open spec fn pairing_epcs() -> Seq<u8> {
    seq![0xe1u8, 0x9f, 0xd3, 0xd7]
}

/// The properties that pairing asks for, in the order of the requests.
pub fn pairing_properties() -> (r: Vec<u8>)
    ensures
        r@ == pairing_epcs(),
{
    let v = vec![
        UnitForCumlativeAmountsPower::EPC,
        GetPropertyMap::EPC,
        Coefficient::EPC,
        NumberOfEffectiveDigits::EPC,
    ];
    assert(v@ =~= pairing_epcs());
    v
}

/// What the meter's answers have told so far.
#[derive(Clone, Copy, PartialEq, Eq, Debug)]
pub struct PairingFacts {
    pub unit: Option<UnitForCumlativeAmountsPower>,
    pub coefficient: Option<Coefficient>,
}

/// The unit that an entry gives, if it is a well-formed unit entry.
pub open spec fn unit_entry(e: EdataView) -> Option<UnitForCumlativeAmountsPower> {
    if e.epc == 0xe1 && e.edt.len() == 1 && unit_of_code(e.edt[0]) is Some {
        Some(UnitForCumlativeAmountsPower(unit_of_code(e.edt[0]).unwrap()))
    } else {
        None
    }
}

/// The coefficient that an entry gives, if it is a well-formed coefficient
/// entry: its data byte, or 1 where it has none.
pub open spec fn coefficient_entry(e: EdataView) -> Option<Coefficient> {
    if e.epc == 0xd3 && e.edt.len() == 1 {
        Some(Coefficient(e.edt[0]))
    } else if e.epc == 0xd3 && e.edt.len() == 0 {
        Some(Coefficient(1))
    } else {
        None
    }
}

/// The facts after the entries `es` from index `i` on, the later entries
/// overriding the earlier.
pub open spec fn absorb_entries(facts: PairingFacts, es: Seq<EdataView>, i: int) -> PairingFacts
    decreases es.len() - i,
{
    if i < 0 || i >= es.len() {
        facts
    } else {
        let f1 = match unit_entry(es[i]) {
            Some(u) => PairingFacts { unit: Some(u), ..facts },
            None => facts,
        };
        let f2 = match coefficient_entry(es[i]) {
            Some(c) => PairingFacts { coefficient: Some(c), ..f1 },
            None => f1,
        };
        absorb_entries(f2, es, i + 1)
    }
}

impl PairingFacts {
    /// Nothing known yet.
    pub fn new() -> (r: PairingFacts)
        ensures
            r.unit is None && r.coefficient is None,
    {
        PairingFacts { unit: None, coefficient: None }
    }

    /// Takes in the data of an answer: the unit and the coefficient that its
    /// entries give. Data that holds no frame changes nothing.
    pub fn absorb(&mut self, data: &[u8])
        ensures
            match decode_frame(data@) {
                Ok((f, _)) => *final(self) == absorb_entries(*old(self), f.edata, 0),
                Err(_) => *final(self) == *old(self),
            },
    {
        match EchonetliteFrame::borrow_decode(data) {
            Err(_) => {},
            Ok((frame, _)) => {
                let ghost es = frame@.edata;
                let ghost start = *self;
                let mut i: usize = 0;
                while i < frame.edata.len()
                    invariant
                        i <= frame.edata@.len(),
                        es == frame@.edata,
                        es.len() == frame.edata@.len(),
                        absorb_entries(start, es, 0) == absorb_entries(*self, es, i as int),
                    decreases frame.edata@.len() - i,
                {
                    let e = &frame.edata[i];
                    assert(es[i as int] == e@);
                    if let Ok(u) = UnitForCumlativeAmountsPower::try_from(e) {
                        self.unit = Some(u);
                    }
                    if let Ok(c) = Coefficient::try_from(e) {
                        self.coefficient = Some(c);
                    }
                    i = i + 1;
                }
            },
        }
    }
}

/// The meter that pairing connects to: the first one found.
pub fn pairing_target(found: &Vec<Epandesc>) -> (r: Option<Epandesc>)
    ensures
        found@.len() == 0 ==> r is None,
        found@.len() > 0 ==> r == Some(found@[0]),
{
    if found.len() == 0 {
        None
    } else {
        Some(found[0])
    }
}

/// The profile of the meter `target`, with the credentials that paired with
/// it, where its answers gave both the unit and the coefficient; `None`
/// otherwise.
pub fn pairing_profile(credentials: Credentials, target: &Epandesc, facts: &PairingFacts) -> (r: Option<ConnectionSettings>)
    ensures
        match (facts.unit, facts.coefficient) {
            (Some(u), Some(c)) => r == Some(
                ConnectionSettings {
                    RouteBId: credentials.id,
                    RouteBPassword: credentials.password,
                    Channel: target.channel,
                    MacAddress: target.addr,
                    PanId: target.pan_id,
                    Unit: u,
                    Coefficient: c,
                },
            ),
            _ => r is None,
        },
{
    match (facts.unit, facts.coefficient) {
        (Some(u), Some(c)) => Some(
            ConnectionSettings {
                RouteBId: credentials.id,
                RouteBPassword: credentials.password,
                Channel: target.channel,
                MacAddress: target.addr,
                PanId: target.pan_id,
                Unit: u,
                Coefficient: c,
            },
        ),
        _ => None,
    }
}

} // verus!
