//! The connection profile that pairing produces and the daemon reads, and
//! the text of the nine units in it.
use crate::authn::{Id, Password};
use crate::decimal::Decimal;
use crate::smart_electric_energy_meter::{is_canonical_unit, Coefficient, UnitForCumlativeAmountsPower};
use vstd::prelude::*;

verus! {

/// The connection profile of a meter.
#[allow(non_snake_case)]
#[derive(Clone, PartialEq, Eq, Debug)]
pub struct ConnectionSettings {
    pub RouteBId: Id,
    pub RouteBPassword: Password,
    pub Channel: u8,
    pub MacAddress: u64,
    pub PanId: u16,
    pub Unit: UnitForCumlativeAmountsPower,
    pub Coefficient: Coefficient,
}

/// The text of a unit in a stored profile: the number and ` kwh`.
pub open spec fn unit_text_spec(d: Decimal) -> Seq<u8> {
    if d == (Decimal { mantissa: 1, scale: 0 }) {
        seq![0x31u8, 0x2e, 0x30, 0x20, 0x6b, 0x77, 0x68]
    } else if d == (Decimal { mantissa: 1, scale: 1 }) {
        seq![0x30u8, 0x2e, 0x31, 0x20, 0x6b, 0x77, 0x68]
    } else if d == (Decimal { mantissa: 1, scale: 2 }) {
        seq![0x30u8, 0x2e, 0x30, 0x31, 0x20, 0x6b, 0x77, 0x68]
    } else if d == (Decimal { mantissa: 1, scale: 3 }) {
        seq![0x30u8, 0x2e, 0x30, 0x30, 0x31, 0x20, 0x6b, 0x77, 0x68]
    } else if d == (Decimal { mantissa: 1, scale: 4 }) {
        seq![0x30u8, 0x2e, 0x30, 0x30, 0x30, 0x31, 0x20, 0x6b, 0x77, 0x68]
    } else if d == (Decimal { mantissa: 10, scale: 0 }) {
        seq![0x31u8, 0x30, 0x20, 0x6b, 0x77, 0x68]
    } else if d == (Decimal { mantissa: 100, scale: 0 }) {
        seq![0x31u8, 0x30, 0x30, 0x20, 0x6b, 0x77, 0x68]
    } else if d == (Decimal { mantissa: 1000, scale: 0 }) {
        seq![0x31u8, 0x30, 0x30, 0x30, 0x20, 0x6b, 0x77, 0x68]
    } else if d == (Decimal { mantissa: 10000, scale: 0 }) {
        seq![0x31u8, 0x30, 0x30, 0x30, 0x30, 0x20, 0x6b, 0x77, 0x68]
    } else {
        Seq::empty()
    }
}

impl UnitForCumlativeAmountsPower {
    /// The text of this unit in a stored profile, such as `0.1 kwh`.
    pub fn unit_text(&self) -> (r: Vec<u8>)
        requires
            self.wf(),
        ensures
            r@ == unit_text_spec(self.0),
    {
        let d = self.0;
        let v = if d.mantissa == 1 && d.scale == 0 {
            vec![0x31u8, 0x2e, 0x30, 0x20, 0x6b, 0x77, 0x68]
        } else if d.mantissa == 1 && d.scale == 1 {
            vec![0x30u8, 0x2e, 0x31, 0x20, 0x6b, 0x77, 0x68]
        } else if d.mantissa == 1 && d.scale == 2 {
            vec![0x30u8, 0x2e, 0x30, 0x31, 0x20, 0x6b, 0x77, 0x68]
        } else if d.mantissa == 1 && d.scale == 3 {
            vec![0x30u8, 0x2e, 0x30, 0x30, 0x31, 0x20, 0x6b, 0x77, 0x68]
        } else if d.mantissa == 1 && d.scale == 4 {
            vec![0x30u8, 0x2e, 0x30, 0x30, 0x30, 0x31, 0x20, 0x6b, 0x77, 0x68]
        } else if d.mantissa == 10 && d.scale == 0 {
            vec![0x31u8, 0x30, 0x20, 0x6b, 0x77, 0x68]
        } else if d.mantissa == 100 && d.scale == 0 {
            vec![0x31u8, 0x30, 0x30, 0x20, 0x6b, 0x77, 0x68]
        } else if d.mantissa == 1000 && d.scale == 0 {
            vec![0x31u8, 0x30, 0x30, 0x30, 0x20, 0x6b, 0x77, 0x68]
        } else if d.mantissa == 10000 && d.scale == 0 {
            vec![0x31u8, 0x30, 0x30, 0x30, 0x30, 0x20, 0x6b, 0x77, 0x68]
        } else {
            Vec::new()
        };
        assert(v@ =~= unit_text_spec(self.0));
        v
    }

    /// The unit that a stored text names: one of the nine texts, or `1 kwh`
    /// for the unit of one kWh.
    pub fn from_unit_text(t: &[u8]) -> (r: Option<UnitForCumlativeAmountsPower>)
        ensures
            match r {
                Some(u) => u.wf() && (t@ == unit_text_spec(u.0) || (t@ == text_one_kwh() && u.0 == Decimal { mantissa: 1, scale: 0 })),
                None => !(t@ == text_one_kwh()) && forall|d: Decimal| is_canonical_unit(d) ==> t@ != unit_text_spec(d),
            },
    {
        if same_text(t, &[0x31u8, 0x2e, 0x30, 0x20, 0x6b, 0x77, 0x68]) {
            return Some(UnitForCumlativeAmountsPower(Decimal::new(1, 0)));
        }
        if same_text(t, &[0x30u8, 0x2e, 0x31, 0x20, 0x6b, 0x77, 0x68]) {
            return Some(UnitForCumlativeAmountsPower(Decimal::new(1, 1)));
        }
        if same_text(t, &[0x30u8, 0x2e, 0x30, 0x31, 0x20, 0x6b, 0x77, 0x68]) {
            return Some(UnitForCumlativeAmountsPower(Decimal::new(1, 2)));
        }
        if same_text(t, &[0x30u8, 0x2e, 0x30, 0x30, 0x31, 0x20, 0x6b, 0x77, 0x68]) {
            return Some(UnitForCumlativeAmountsPower(Decimal::new(1, 3)));
        }
        if same_text(t, &[0x30u8, 0x2e, 0x30, 0x30, 0x30, 0x31, 0x20, 0x6b, 0x77, 0x68]) {
            return Some(UnitForCumlativeAmountsPower(Decimal::new(1, 4)));
        }
        if same_text(t, &[0x31u8, 0x30, 0x20, 0x6b, 0x77, 0x68]) {
            return Some(UnitForCumlativeAmountsPower(Decimal::new(10, 0)));
        }
        if same_text(t, &[0x31u8, 0x30, 0x30, 0x20, 0x6b, 0x77, 0x68]) {
            return Some(UnitForCumlativeAmountsPower(Decimal::new(100, 0)));
        }
        if same_text(t, &[0x31u8, 0x30, 0x30, 0x30, 0x20, 0x6b, 0x77, 0x68]) {
            return Some(UnitForCumlativeAmountsPower(Decimal::new(1000, 0)));
        }
        if same_text(t, &[0x31u8, 0x30, 0x30, 0x30, 0x30, 0x20, 0x6b, 0x77, 0x68]) {
            return Some(UnitForCumlativeAmountsPower(Decimal::new(10000, 0)));
        }
        if same_text(t, &[0x31u8, 0x20, 0x6b, 0x77, 0x68]) {
            return Some(UnitForCumlativeAmountsPower(Decimal::new(1, 0)));
        }
        None
    }
}

/// `1 kwh`, the unit of one kWh written without a decimal point.
pub open spec fn text_one_kwh() -> Seq<u8> {
    seq![0x31u8, 0x20, 0x6b, 0x77, 0x68]
}

/// Whether `t` holds exactly the bytes of `lit`.
fn same_text(t: &[u8], lit: &[u8]) -> (r: bool)
    ensures
        r == (t@ == lit@),
{
    if t.len() != lit.len() {
        return false;
    }
    let mut i: usize = 0;
    while i < t.len()
        invariant
            i <= t@.len(),
            t@.len() == lit@.len(),
            forall|j: int| 0 <= j < i ==> t@[j] == lit@[j],
        decreases t@.len() - i,
    {
        if t[i] != lit[i] {
            return false;
        }
        i = i + 1;
    }
    assert(t@ =~= lit@);
    true
}

} // verus!
