//! Properties that every ECHONET Lite device object has.
use crate::frame::EchonetliteEdata;
use crate::smart_electric_energy_meter::PropertyError;
use crate::text::{hex_text, push_hex};
use vstd::prelude::*;

verus! {

/// The device class whose properties this library reads: the low-voltage
/// smart electricity meter, object 02 88 01.
#[derive(Clone, Copy, PartialEq, Eq, Debug)]
pub enum SmartElectricEnergyMeter {
    Class,
}

impl SmartElectricEnergyMeter {
    /// The object identifier of the meter, as a destination of requests.
    pub const EOJ: [u8; 3] = [0x02, 0x88, 0x01];
}

/// Whether the bitmap of a property map marks the code `0x80 + k`: bit
/// `k / 16` of byte `k % 16`.
pub open spec fn bitmap_marks(bits: Seq<u8>, k: int) -> bool {
    (bits[k % 16] >> ((k / 16) as u8)) & 1u8 == 1u8
}

/// The codes among `0x80 .. 0x80 + k` that a bitmap marks, in ascending order.
pub open spec fn bitmap_codes(bits: Seq<u8>, k: nat) -> Seq<u8>
    decreases k,
{
    if k == 0 {
        Seq::empty()
    } else {
        let prev = bitmap_codes(bits, (k - 1) as nat);
        if bitmap_marks(bits, k - 1) {
            prev.push((0x80 + k - 1) as u8)
        } else {
            prev
        }
    }
}

proof fn lemma_bitmap_codes_bounded(bits: Seq<u8>, k: nat)
    requires
        k <= 128,
    ensures
        forall|i: int| 0 <= i < bitmap_codes(bits, k).len() ==> 0x80 <= #[trigger] bitmap_codes(bits, k)[i] < 0x80 + k,
        forall|i: int, j: int| 0 <= i < j < bitmap_codes(bits, k).len() ==> #[trigger] bitmap_codes(bits, k)[i] < #[trigger] bitmap_codes(bits, k)[j],
    decreases k,
{
    if k > 0 {
        lemma_bitmap_codes_bounded(bits, (k - 1) as nat);
        let prev = bitmap_codes(bits, (k - 1) as nat);
        let cur = bitmap_codes(bits, k);
        if bitmap_marks(bits, k - 1) {
            let v = (0x80 + k - 1) as u8;
            assert(v == 0x80 + k - 1);
            assert(cur == prev.push(v));
            assert forall|i: int| 0 <= i < cur.len() implies 0x80 <= #[trigger] cur[i] < 0x80 + k by {
                if i < prev.len() {
                    assert(cur[i] == prev[i]);
                }
            }
            assert forall|i: int, j: int| 0 <= i < j < cur.len() implies #[trigger] cur[i] < #[trigger] cur[j] by {
                assert(cur[i] == prev[i]);
                if j < prev.len() {
                    assert(cur[j] == prev[j]);
                }
            }
        }
    }
}

/// 0x9F: the codes of the properties that can be read.
#[derive(Clone, PartialEq, Eq, Debug)]
pub struct GetPropertyMap {
    pub properties: Vec<u8>,
}

/// The length of a property map's data: fewer than sixteen codes are listed
/// one by one after the count, sixteen or more as a sixteen-byte bitmap.
pub open spec fn property_map_length_fits(edt: Seq<u8>) -> bool {
    edt.len() >= 1 && if edt[0] < 16 {
        edt.len() == 1 + edt[0]
    } else {
        edt.len() == 17
    }
}

impl GetPropertyMap {
    pub const EPC: u8 = 0x9f;

    /// Decodes a property map; a bitmap gives its codes in ascending order.
    pub fn try_from(edata: &EchonetliteEdata) -> (r: Result<GetPropertyMap, PropertyError>)
        ensures
            edata.epc != Self::EPC ==> r == Err::<GetPropertyMap, PropertyError>(PropertyError::UnknownProperty),
            edata.epc == Self::EPC && !property_map_length_fits(edata.edt@) ==> r == Err::<GetPropertyMap, PropertyError>(PropertyError::BadFormat),
            edata.epc == Self::EPC && property_map_length_fits(edata.edt@) ==> (r matches Ok(m) && if edata.edt@[0] < 16 {
                m.properties@ == edata.edt@.subrange(1, edata.edt@.len() as int)
            } else {
                &&& m.properties@ == bitmap_codes(edata.edt@.subrange(1, 17), 128)
                &&& forall|i: int, j: int| 0 <= i < j < m.properties@.len() ==> #[trigger] m.properties@[i] < #[trigger] m.properties@[j]
            }),
    {
        if edata.epc != Self::EPC {
            return Err(PropertyError::UnknownProperty);
        }
        let edt = edata.edt;
        if edt.len() < 1 {
            return Err(PropertyError::BadFormat);
        }
        let count = edt[0];
        let mut properties: Vec<u8> = Vec::new();
        if count < 16 {
            if edt.len() != 1 + count as usize {
                return Err(PropertyError::BadFormat);
            }
            let mut i: usize = 1;
            while i < edt.len()
                invariant
                    1 <= i <= edt@.len(),
                    properties@ == edt@.subrange(1, i as int),
                decreases edt@.len() - i,
            {
                properties.push(edt[i]);
                i = i + 1;
                assert(properties@ =~= edt@.subrange(1, i as int));
            }
        } else {
            if edt.len() != 17 {
                return Err(PropertyError::BadFormat);
            }
            let ghost bits = edt@.subrange(1, 17);
            let mut k: u8 = 0;
            while k < 128
                invariant
                    k <= 128,
                    edt@.len() == 17,
                    bits == edt@.subrange(1, 17),
                    properties@ == bitmap_codes(bits, k as nat),
                decreases 128 - k,
            {
                let row = (k % 16) as usize;
                let col = k / 16;
                assert(bits[k as int % 16] == edt@[1 + row as int]);
                if (edt[1 + row] >> col) & 1 == 1 {
                    properties.push(0x80 + k);
                }
                k = k + 1;
            }
            proof {
                lemma_bitmap_codes_bounded(bits, 128);
            }
        }
        Ok(GetPropertyMap { properties })
    }
}

/// 0x8A: the manufacturer code, three bytes.
#[derive(Clone, Copy, PartialEq, Eq, Debug)]
pub struct Manufacturer(pub [u8; 3]);

impl Manufacturer {
    pub const EPC: u8 = 0x8a;

    /// Exactly three data bytes.
    pub fn try_from(edata: &EchonetliteEdata) -> (r: Result<Manufacturer, PropertyError>)
        ensures
            edata.epc != Self::EPC ==> r == Err::<Manufacturer, PropertyError>(PropertyError::UnknownProperty),
            edata.epc == Self::EPC && edata.edt@.len() != 3 ==> r == Err::<Manufacturer, PropertyError>(PropertyError::BadFormat),
            edata.epc == Self::EPC && edata.edt@.len() == 3 ==> (r matches Ok(m) && m.0@ == edata.edt@),
    {
        if edata.epc != Self::EPC {
            Err(PropertyError::UnknownProperty)
        } else if edata.edt.len() == 3 {
            let code: [u8; 3] = [edata.edt[0], edata.edt[1], edata.edt[2]];
            assert(code@ =~= edata.edt@);
            Ok(Manufacturer(code))
        } else {
            Err(PropertyError::BadFormat)
        }
    }

    /// The manufacturer code as an identifier: six upper-case hex digits,
    /// two for each byte.
    pub fn code(&self) -> (r: Vec<u8>)
        ensures
            r@ == hex_text(self.0@[0] as nat, 2) + hex_text(self.0@[1] as nat, 2) + hex_text(self.0@[2] as nat, 2),
    {
        let mut out: Vec<u8> = Vec::new();
        push_hex(&mut out, self.0[0] as u128, 2);
        push_hex(&mut out, self.0[1] as u128, 2);
        push_hex(&mut out, self.0[2] as u128, 2);
        out
    }
}

/// 0xD5: the instances that a node announces, three bytes each.
#[derive(Clone, PartialEq, Eq, Debug)]
pub struct NotifyInstances {
    pub count: u8,
    pub instances: Vec<[u8; 3]>,
}

impl NotifyInstances {
    pub const EPC: u8 = 0xd5;

    /// A count, then that many three-byte object identifiers.
    pub fn try_from(edata: &EchonetliteEdata) -> (r: Result<NotifyInstances, PropertyError>)
        ensures
            edata.epc != Self::EPC ==> r == Err::<NotifyInstances, PropertyError>(PropertyError::UnknownProperty),
            edata.epc == Self::EPC && !(edata.edt@.len() >= 1 && edata.edt@.len() == 1 + 3 * edata.edt@[0]) ==> r == Err::<NotifyInstances, PropertyError>(PropertyError::BadFormat),
            edata.epc == Self::EPC && edata.edt@.len() >= 1 && edata.edt@.len() == 1 + 3 * edata.edt@[0] ==> (r matches Ok(n) && {
                &&& n.count == edata.edt@[0]
                &&& n.instances@.len() == n.count
                &&& forall|i: int| 0 <= i < n.count ==> #[trigger] n.instances@[i]@ == edata.edt@.subrange(1 + 3 * i, 4 + 3 * i)
            }),
    {
        if edata.epc != Self::EPC {
            return Err(PropertyError::UnknownProperty);
        }
        let edt = edata.edt;
        if edt.len() < 1 || edt.len() != 1 + 3 * edt[0] as usize {
            return Err(PropertyError::BadFormat);
        }
        let count = edt[0];
        let mut instances: Vec<[u8; 3]> = Vec::new();
        let mut i: usize = 0;
        while i < count as usize
            invariant
                i <= count,
                count == edt@[0],
                edt@.len() == 1 + 3 * count,
                instances@.len() == i,
                forall|j: int| 0 <= j < i ==> #[trigger] instances@[j]@ == edt@.subrange(1 + 3 * j, 4 + 3 * j),
            decreases count - i,
        {
            let at = 1 + 3 * i;
            let eoj: [u8; 3] = [edt[at], edt[at + 1], edt[at + 2]];
            assert(eoj@ =~= edt@.subrange(1 + 3 * i as int, 4 + 3 * i as int));
            instances.push(eoj);
            i = i + 1;
        }
        Ok(NotifyInstances { count, instances })
    }
}

/// A property that every device object has.
#[derive(Clone, PartialEq, Eq, Debug)]
pub enum Properties {
    GetPropertyMap(GetPropertyMap),
    Manufacturer(Manufacturer),
    NotifyInstances(NotifyInstances),
}

impl Properties {
    /// Decodes an entry of the super class by its code.
    pub fn try_from(edata: &EchonetliteEdata) -> (r: Result<Properties, PropertyError>)
        ensures
            !(edata.epc == 0x9f || edata.epc == 0x8a || edata.epc == 0xd5) ==> r == Err::<Properties, PropertyError>(PropertyError::UnknownProperty),
            edata.epc == 0x9f ==> (r is Ok <==> property_map_length_fits(edata.edt@)),
            edata.epc == 0x8a ==> (r is Ok <==> edata.edt@.len() == 3),
            edata.epc == 0xd5 ==> (r is Ok <==> edata.edt@.len() >= 1 && edata.edt@.len() == 1 + 3 * edata.edt@[0]),
            r is Err ==> r == Err::<Properties, PropertyError>(PropertyError::BadFormat) || r == Err::<Properties, PropertyError>(PropertyError::UnknownProperty),
            (edata.epc == 0x9f || edata.epc == 0x8a || edata.epc == 0xd5) && r is Err ==> r == Err::<Properties, PropertyError>(PropertyError::BadFormat),
            r matches Ok(Properties::GetPropertyMap(m)) ==> edata.epc == 0x9f && (if edata.edt@[0] < 16 {
                m.properties@ == edata.edt@.subrange(1, edata.edt@.len() as int)
            } else {
                m.properties@ == bitmap_codes(edata.edt@.subrange(1, 17), 128)
            }),
            r matches Ok(Properties::Manufacturer(m)) ==> edata.epc == 0x8a && m.0@ == edata.edt@,
            r matches Ok(Properties::NotifyInstances(n)) ==> edata.epc == 0xd5 && n.count == edata.edt@[0]
                && n.instances@.len() == n.count && forall|i: int| 0 <= i < n.count ==> #[trigger] n.instances@[i]@
                == edata.edt@.subrange(1 + 3 * i, 4 + 3 * i),
    {
        if edata.epc == GetPropertyMap::EPC {
            match GetPropertyMap::try_from(edata) {
                Ok(a) => Ok(Properties::GetPropertyMap(a)),
                Err(e) => Err(e),
            }
        } else if edata.epc == Manufacturer::EPC {
            match Manufacturer::try_from(edata) {
                Ok(a) => Ok(Properties::Manufacturer(a)),
                Err(e) => Err(e),
            }
        } else if edata.epc == NotifyInstances::EPC {
            match NotifyInstances::try_from(edata) {
                Ok(a) => Ok(Properties::NotifyInstances(a)),
                Err(e) => Err(e),
            }
        } else {
            Err(PropertyError::UnknownProperty)
        }
    }
}

} // verus!
