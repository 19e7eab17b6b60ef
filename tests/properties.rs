use uchinoepower::decimal::Decimal;
use uchinoepower::frame::{EchonetliteEdata, EchonetliteFrame};
use uchinoepower::smart_electric_energy_meter::{
    Coefficient, CumlativeAmountsOfPowerAtFixedTime, CumlativeAmountsPower, HistoricalCumlativeAmount,
    InstantiousCurrent, InstantiousPower, NumberOfEffectiveDigits, Properties, PropertyError,
    UnitForCumlativeAmountsPower,
};
use uchinoepower::superclass::{self, GetPropertyMap, Manufacturer, NotifyInstances};

fn entry(epc: u8, edt: &[u8]) -> EchonetliteEdata<'_> {
    EchonetliteEdata { epc, pdc: edt.len() as u8, edt }
}

#[test]
fn instant_power_scenario() {
    let p = InstantiousPower::try_from(&entry(0xe7, &[0x00, 0x00, 0x01, 0xf4])).unwrap();
    assert_eq!(p.0, Decimal::new(500, 0));
    let p = InstantiousPower::try_from(&entry(0xe7, &[0xff, 0xff, 0xff, 0x9c])).unwrap();
    assert_eq!(p.0, Decimal::new(-100, 0));
}

#[test]
fn instant_current_single_phase_scenario() {
    let c = InstantiousCurrent::try_from(&entry(0xe8, &[0x00, 0x32, 0x7f, 0xfe])).unwrap();
    assert_eq!(c.r, Decimal::new(50, 1));
    assert_eq!(c.t, None);
}

#[test]
fn instant_current_three_wire() {
    let c = InstantiousCurrent::try_from(&entry(0xe8, &[0x00, 0x32, 0xff, 0xf6])).unwrap();
    assert_eq!(c.r, Decimal::new(50, 1));
    assert_eq!(c.t, Some(Decimal::new(-10, 1)));
}

#[test]
fn unit_codes() {
    let expected = [
        (0x00, 1, 0),
        (0x01, 1, 1),
        (0x02, 1, 2),
        (0x03, 1, 3),
        (0x04, 1, 4),
        (0x0a, 10, 0),
        (0x0b, 100, 0),
        (0x0c, 1000, 0),
        (0x0d, 10000, 0),
    ];
    for (code, m, s) in expected {
        assert_eq!(
            UnitForCumlativeAmountsPower::decode_unit(code),
            Ok(UnitForCumlativeAmountsPower(Decimal::new(m, s)))
        );
    }
    for code in [0x05u8, 0x09, 0x0e, 0xff] {
        assert_eq!(UnitForCumlativeAmountsPower::decode_unit(code), Err(PropertyError::BadFormat));
    }
    assert_eq!(
        UnitForCumlativeAmountsPower::try_from(&entry(0xe1, &[0x01, 0x00])),
        Err(PropertyError::BadFormat)
    );
}

#[test]
fn lengths_must_match_the_catalogue() {
    assert_eq!(Coefficient::try_from(&entry(0xd3, &[])), Ok(Coefficient(1)));
    assert_eq!(Coefficient::try_from(&entry(0xd3, &[7])), Ok(Coefficient(7)));
    assert_eq!(Coefficient::try_from(&entry(0xd3, &[7, 8])), Err(PropertyError::BadFormat));
    assert_eq!(NumberOfEffectiveDigits::try_from(&entry(0xd7, &[6])), Ok(NumberOfEffectiveDigits(6)));
    assert_eq!(NumberOfEffectiveDigits::try_from(&entry(0xd7, &[])), Err(PropertyError::BadFormat));
    assert_eq!(
        CumlativeAmountsPower::try_from(&entry(0xe0, &[0, 1, 0, 0])),
        Ok(CumlativeAmountsPower(65536))
    );
    assert_eq!(CumlativeAmountsPower::try_from(&entry(0xe0, &[0, 1, 0])), Err(PropertyError::BadFormat));
    assert_eq!(InstantiousPower::try_from(&entry(0xe7, &[0, 1, 0])), Err(PropertyError::BadFormat));
    assert_eq!(InstantiousCurrent::try_from(&entry(0xe8, &[0, 1, 0, 0, 0])), Err(PropertyError::BadFormat));
    assert_eq!(Manufacturer::try_from(&entry(0x8a, &[0, 0, 0x16])), Ok(Manufacturer([0, 0, 0x16])));
    assert_eq!(Manufacturer::try_from(&entry(0x8a, &[0, 0])), Err(PropertyError::BadFormat));
    assert_eq!(HistoricalCumlativeAmount::try_from(&entry(0xe2, &[0, 0, 1, 2, 3, 4])), Err(PropertyError::BadFormat));
    assert_eq!(
        CumlativeAmountsOfPowerAtFixedTime::try_from(&entry(0xea, &[0; 10])),
        Err(PropertyError::BadFormat)
    );
    assert_eq!(InstantiousPower::try_from(&entry(0xe8, &[0, 0, 0, 0])), Err(PropertyError::UnknownProperty));
}

#[test]
fn dispatch_by_code() {
    assert_eq!(
        Properties::try_from(&entry(0xe7, &[0, 0, 0, 1])),
        Ok(Properties::InstantiousPower(InstantiousPower(Decimal::new(1, 0))))
    );
    assert_eq!(Properties::try_from(&entry(0x80, &[0x30])), Err(PropertyError::UnknownProperty));
    assert_eq!(Properties::try_from(&entry(0xe1, &[0x07])), Err(PropertyError::BadFormat));
    assert_eq!(
        superclass::Properties::try_from(&entry(0x8a, &[1, 2, 3])),
        Ok(superclass::Properties::Manufacturer(Manufacturer([1, 2, 3])))
    );
    assert_eq!(superclass::Properties::try_from(&entry(0xe7, &[0, 0, 0, 1])), Err(PropertyError::UnknownProperty));
}

#[test]
fn fixed_time_amount() {
    let edt = [0x07, 0xe9, 0x03, 0x0f, 0x0c, 0x1e, 0x00, 0x00, 0x00, 0x30, 0x39];
    let a = CumlativeAmountsOfPowerAtFixedTime::try_from(&entry(0xea, &edt)).unwrap();
    assert_eq!(a.time_point.year, 2025);
    assert_eq!(a.time_point.month, 3);
    assert_eq!(a.time_point.day, 15);
    assert_eq!(a.time_point.hour, 12);
    assert_eq!(a.time_point.minute, 30);
    assert_eq!(a.time_point.second, 0);
    assert_eq!(a.cumlative_amounts_power, 12345);
}

#[test]
fn history_marks_missing_slots() {
    let mut edt = vec![0x00, 0x01];
    for k in 0..48u32 {
        let v = if k % 2 == 0 { 0xffff_fffe } else { k * 10 };
        edt.extend_from_slice(&v.to_be_bytes());
    }
    let h = HistoricalCumlativeAmount::try_from(&entry(0xe2, &edt)).unwrap();
    assert_eq!(h.n_days_ago, 1);
    assert_eq!(h.historical.len(), 48);
    assert_eq!(h.historical[0], None);
    assert_eq!(h.historical[1], Some(10));
    assert_eq!(h.historical[47], Some(470));
}

#[test]
fn property_map_listed_and_bitmap() {
    let m = GetPropertyMap::try_from(&entry(0x9f, &[3, 0x80, 0xd3, 0xe7])).unwrap();
    assert_eq!(m.properties, vec![0x80, 0xd3, 0xe7]);
    assert_eq!(GetPropertyMap::try_from(&entry(0x9f, &[3, 0x80])), Err(PropertyError::BadFormat));
    // row 0 bits 0 and 6: 0x80 and 0xE0; row 7 bit 6: 0xE7; row 3 bit 5: 0xD3
    let mut bits = [0u8; 16];
    bits[0] = 0b0100_0001;
    bits[7] = 0b0100_0000;
    bits[3] = 0b0010_0000;
    let mut edt = vec![16u8];
    edt.extend_from_slice(&bits);
    let m = GetPropertyMap::try_from(&entry(0x9f, &edt)).unwrap();
    assert_eq!(m.properties, vec![0x80, 0xd3, 0xe0, 0xe7]);
    assert_eq!(GetPropertyMap::try_from(&entry(0x9f, &edt[..16])), Err(PropertyError::BadFormat));
}

#[test]
fn instance_list() {
    let n = NotifyInstances::try_from(&entry(0xd5, &[2, 0x02, 0x88, 0x01, 0x05, 0xff, 0x01])).unwrap();
    assert_eq!(n.count, 2);
    assert_eq!(n.instances, vec![[0x02, 0x88, 0x01], [0x05, 0xff, 0x01]]);
    assert_eq!(NotifyInstances::try_from(&entry(0xd5, &[2, 0x02, 0x88, 0x01])), Err(PropertyError::BadFormat));
}

#[test]
fn cumulative_amount_in_kwh() {
    let unit = UnitForCumlativeAmountsPower(Decimal::new(1, 1));
    assert_eq!(CumlativeAmountsPower(12345).kwh(&unit), Decimal::new(12345, 1));
}

#[test]
fn unit_text_round_trip() {
    for code in [0x00u8, 0x01, 0x02, 0x03, 0x04, 0x0a, 0x0b, 0x0c, 0x0d] {
        let u = UnitForCumlativeAmountsPower::decode_unit(code).unwrap();
        let text = u.unit_text();
        assert_eq!(UnitForCumlativeAmountsPower::from_unit_text(&text), Some(u));
    }
    assert_eq!(UnitForCumlativeAmountsPower(Decimal::new(1, 1)).unit_text(), b"0.1 kwh".to_vec());
    assert_eq!(
        UnitForCumlativeAmountsPower::from_unit_text(b"1 kwh"),
        Some(UnitForCumlativeAmountsPower(Decimal::new(1, 0)))
    );
    assert_eq!(UnitForCumlativeAmountsPower::from_unit_text(b"0.5 kwh"), None);
}

#[test]
fn show_entries() {
    let e = entry(0xe7, &[0x00, 0x00, 0x01, 0xf4]);
    assert_eq!(e.show(None), "InstantPower=500 W");
    let e = entry(0xe7, &[0xff, 0xff, 0xff, 0x9c]);
    assert_eq!(e.show(None), "InstantPower=-100 W");
    let unit = UnitForCumlativeAmountsPower(Decimal::new(1, 2));
    let e = entry(0xe0, &[0x00, 0x00, 0x01, 0xf4]);
    assert_eq!(e.show(Some(&unit)), "CumulativeAmount=500 (5.00 kWh)");
    assert_eq!(e.show(None), "CumulativeAmount=500");
    let e = entry(0xe8, &[0x00, 0x32, 0x7f, 0xfe]);
    assert_eq!(e.show(None), "InstantCurrent R=5.0 A");
    let e = entry(0xe8, &[0x00, 0x32, 0xff, 0xf6]);
    assert_eq!(e.show(None), "InstantCurrent R=5.0 A, T=-1.0 A");
    let e = entry(0xea, &[0x07, 0xe9, 0x03, 0x0f, 0x0c, 0x1e, 0x00, 0x00, 0x00, 0x30, 0x39]);
    let tenth = UnitForCumlativeAmountsPower(Decimal::new(1, 1));
    assert_eq!(e.show(Some(&tenth)), "CumulativeAmountAtFixedTime=2025-03-15 12:30:00 12345 (1234.5 kWh)");
    assert_eq!(entry(0xe1, &[0x02]).show(None), "Unit=0.01 kwh");
    assert_eq!(entry(0xd3, &[]).show(None), "Coefficient=1");
    assert_eq!(entry(0xd7, &[6]).show(None), "EffectiveDigits=6");
    assert_eq!(entry(0x8a, &[0x00, 0x0b, 0xfe]).show(None), "Manufacturer=000BFE");
    assert_eq!(entry(0x9f, &[3, 0x80, 0xd3, 0xe7]).show(None), "GetPropertyMap=[0x80,0xD3,0xE7]");
    assert_eq!(
        entry(0xd5, &[2, 0x02, 0x88, 0x01, 0x05, 0xff, 0x01]).show(None),
        "InstanceList=2 [028801,05FF01]"
    );
    let mut edt = vec![0x00, 0x01];
    for k in 0..48u32 {
        let v = if k < 46 { 0xffff_fffe } else { k * 10 };
        edt.extend_from_slice(&v.to_be_bytes());
    }
    let e = entry(0xe2, &edt);
    let mut expected = String::from("HistoricalCumulativeAmount days_ago=1 [");
    expected.push_str(&vec!["NA"; 46].join(","));
    expected.push_str(",46.0,47.0]");
    assert_eq!(e.show(Some(&tenth)), expected);
    let e = entry(0x80, &[]);
    assert_eq!(e.show(None), "UNKNOWN EPC:0x80, EDT:[]");
    let e = entry(0xe7, &[0x01, 0xab]);
    assert_eq!(e.show(None), "InstantPower EPC:0xE7, EDT:[0x01,0xAB]");
}

#[test]
fn show_frames() {
    let answer = [0x10u8, 0x81, 0x00, 0x01, 0x02, 0x88, 0x01, 0x05, 0xff, 0x01, 0x72, 0x01, 0xe1, 0x01, 0x01];
    let (f, _) = EchonetliteFrame::borrow_decode(&answer).unwrap();
    assert_eq!(f.show(), "Get_res N=1");
    let request = [0x10u8, 0x81, 0x00, 0x01, 0x05, 0xff, 0x01, 0x02, 0x88, 0x01, 0x62, 0x01, 0xe7, 0x00];
    let (f, _) = EchonetliteFrame::borrow_decode(&request).unwrap();
    assert_eq!(f.show(), "ESV:0x62 N=1 frame=1081000105FF010288016201E700");
}

#[test]
fn manufacturer_code_is_hex() {
    let m = Manufacturer::try_from(&entry(0x8a, &[0x00, 0x0b, 0xfe])).unwrap();
    assert_eq!(m.code(), b"000BFE".to_vec());
}
