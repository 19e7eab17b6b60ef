use uchinoepower::active_scan::{active_scan, scan_commands};
use uchinoepower::civil_time::recording_clock;
use uchinoepower::authn::{connect, connect_commands, mask_password, CredentialError, Credentials, Error, Id, Password, Progress};
use uchinoepower::decimal::Decimal;
use uchinoepower::frame::EchonetliteFrame;
use uchinoepower::measurements::{historical_records, measurement_of, KwhRecord, Measurement, RecordError};
use uchinoepower::pairing::{get_request, instant_request, pairing_profile, pairing_properties, pairing_target, PairingFacts};
use uchinoepower::receiver::{receiver_step, rx_erxudp, DatagramOutcome, ReceiverError, ReceiverStep};
use uchinoepower::send_receive::{command_from_echonetliteframe, link_local_address, rejoin_period_seconds, session_lifetime_bytes};
use uchinoepower::skrxd::{Epandesc, Erxudp, Event, Reply, SkRxD};
use uchinoepower::smart_electric_energy_meter::{Coefficient, HistoricalCumlativeAmount, PropertyError, UnitForCumlativeAmountsPower};
use uchinoepower::frame::EchonetliteEdata;

const ID: &str = "0123456789ABCDEF0123456789ABCDEF";
const PASSWORD: &str = "ABCDEFGHIJKL";

fn credentials() -> Credentials {
    Credentials { id: Id::from_str(ID).unwrap(), password: Password::from_str(PASSWORD).unwrap() }
}

fn event(code: u8) -> Reply {
    Reply::Record(SkRxD::Event(Event { code, sender: 0xfe80 << 112, param: None }))
}

#[test]
fn credentials_have_fixed_lengths() {
    assert!(Id::from_str(ID).is_ok());
    assert_eq!(Id::from_str("0123").unwrap_err(), CredentialError::InvalidId);
    assert_eq!(Password::from_str("ABCDEFGHIJK").unwrap_err(), CredentialError::InvalidPassword);
    assert_eq!(Password::from_str("ABCDEFGHIJK\u{7}").unwrap_err(), CredentialError::InvalidPassword);
    assert_eq!(Id::from_str(ID).unwrap().as_bytes(), ID.as_bytes());
}

#[test]
fn session_lifecycle() {
    let mut replies: Vec<Reply> = Vec::new();
    for i in 0..7 {
        assert_eq!(connect(&replies), Progress::Send(i));
        replies.push(Reply::Record(SkRxD::Okay));
    }
    assert_eq!(connect(&replies), Progress::Receive);
    let mut joined = replies.clone();
    joined.push(event(0x25));
    assert_eq!(connect(&joined), Progress::Finished(Ok(())));
    let mut refused = replies.clone();
    refused.push(event(0x24));
    assert_eq!(connect(&refused), Progress::Finished(Err(Error::PanaSessionDisconnected)));
}

#[test]
fn connect_ignores_other_records_while_joining() {
    let mut replies = vec![Reply::Record(SkRxD::Okay); 7];
    replies.push(Reply::Timeout);
    replies.push(event(0x21));
    replies.push(Reply::Record(SkRxD::Void));
    assert_eq!(connect(&replies), Progress::Receive);
    replies.push(Reply::Record(SkRxD::Fail(0x05)));
    assert_eq!(connect(&replies), Progress::Finished(Err(Error::Fail(0x05))));
}

#[test]
fn connect_command_failures() {
    let replies = vec![Reply::Record(SkRxD::Okay), Reply::Record(SkRxD::Fail(0x10))];
    assert_eq!(connect(&replies), Progress::Finished(Err(Error::Fail(0x10))));
    let replies = vec![Reply::Record(SkRxD::Okay), Reply::Timeout];
    assert_eq!(connect(&replies), Progress::Finished(Err(Error::NoReply)));
}

#[test]
fn connect_command_texts() {
    let sender = link_local_address(0x001D_1290_1234_5678);
    let cmds = connect_commands(&credentials(), sender, 0x21, 0x8888);
    let texts: Vec<String> = cmds.iter().map(|c| String::from_utf8(c.clone()).unwrap()).collect();
    assert_eq!(
        texts,
        vec![
            "SKRESET\r\n".to_string(),
            "SKSREG SFE 0\r\n".to_string(),
            format!("SKSETPWD C {}\r\n", PASSWORD),
            format!("SKSETRBID {}\r\n", ID),
            "SKSREG S2 21\r\n".to_string(),
            "SKSREG S3 8888\r\n".to_string(),
            "SKJOIN FE80:0000:0000:0000:021D:1290:1234:5678\r\n".to_string(),
        ]
    );
}

#[test]
fn link_local_restores_mac() {
    let mac = 0x001D_1290_1234_5678u64;
    let a = link_local_address(mac);
    assert_eq!(a, 0xfe80_0000_0000_0000_021d_1290_1234_5678);
    assert_eq!((a as u64) ^ 0x0200_0000_0000_0000, mac);
    assert_eq!(link_local_address(0x0200_0000_0000_0001) as u64, 1);
}

#[test]
fn scan_collects_descriptors() {
    let d = Epandesc { channel: 0x21, channel_page: 9, pan_id: 0x8888, addr: 0x001D_1290_1234_5678, lqi: 0xe1, pair_id: 1 };
    let mut replies: Vec<Reply> = Vec::new();
    for i in 0..5 {
        assert_eq!(active_scan(&replies), (Progress::Send(i), vec![]));
        replies.push(Reply::Record(SkRxD::Okay));
    }
    replies.push(event(0x20));
    replies.push(Reply::Timeout);
    replies.push(Reply::Record(SkRxD::Epandesc(d)));
    assert_eq!(active_scan(&replies), (Progress::Receive, vec![d]));
    replies.push(event(0x22));
    assert_eq!(active_scan(&replies), (Progress::Finished(Ok(())), vec![d]));
}

#[test]
fn scan_without_meters_is_empty() {
    let mut replies = vec![Reply::Record(SkRxD::Okay); 5];
    replies.push(event(0x22));
    assert_eq!(active_scan(&replies), (Progress::Finished(Ok(())), vec![]));
    let replies = vec![Reply::Record(SkRxD::Fail(0x04))];
    assert_eq!(active_scan(&replies), (Progress::Finished(Err(Error::Fail(0x04))), vec![]));
}

#[test]
fn scan_command_texts() {
    let cmds = scan_commands(&credentials(), 6);
    let texts: Vec<String> = cmds.iter().map(|c| String::from_utf8(c.clone()).unwrap()).collect();
    assert_eq!(
        texts,
        vec![
            "SKRESET\r\n".to_string(),
            "SKSREG SFE 0\r\n".to_string(),
            format!("SKSETPWD C {}\r\n", PASSWORD),
            format!("SKSETRBID {}\r\n", ID),
            "SKSCAN 2 FFFFFFFF 6\r\n".to_string(),
        ]
    );
    assert_eq!(scan_commands(&credentials(), 14)[4], b"SKSCAN 2 FFFFFFFF E\r\n".to_vec());
}

#[test]
fn sendto_command() {
    let sender = link_local_address(0x001D_1290_1234_5678);
    let cmd = command_from_echonetliteframe(sender, &get_request(0xe7)).unwrap();
    let mut expected = b"SKSENDTO 1 FE80:0000:0000:0000:021D:1290:1234:5678 0E1A 1 000E ".to_vec();
    expected.extend_from_slice(&[0x10, 0x81, 0x00, 0x01, 0x05, 0xff, 0x01, 0x02, 0x88, 0x01, 0x62, 0x01, 0xe7, 0x00]);
    assert_eq!(cmd, expected);
    assert_eq!(instant_request().encode().len(), 16);
}

#[test]
fn session_lifetime() {
    assert_eq!(session_lifetime_bytes(900), b"SKSREG S16 00000384\r\n".to_vec());
    assert_eq!(rejoin_period_seconds(900), 630);
}

#[test]
fn password_is_masked() {
    let line = b"Tx-> SKSETPWD C ABCDEFGHIJKL\\r\\n\n";
    assert_eq!(mask_password(line), b"Tx-> SKSETPWD C ############\\r\\n\n".to_vec());
    let short = b"SKSETPWD C AB\n";
    assert_eq!(mask_password(short), b"SKSETPWD C ###".to_vec());
    assert_eq!(mask_password(b"SKSETPWD C ABCDEFGHIJKL"), b"SKSETPWD C ############".to_vec());
    assert_eq!(mask_password(b"no secret\n"), b"no secret\n".to_vec());
}

#[test]
fn receiver_event_table() {
    for code in [0x01u8, 0x02, 0x05, 0x1f, 0x20, 0x21, 0x22, 0x25, 0x26, 0x32, 0x33] {
        let r = SkRxD::Event(Event { code, sender: 0, param: None });
        assert_eq!(receiver_step(&r), ReceiverStep::Continue);
    }
    for code in [0x24u8, 0x27, 0x28, 0x29] {
        let r = SkRxD::Event(Event { code, sender: 0, param: None });
        assert_eq!(receiver_step(&r), ReceiverStep::Stop(ReceiverError::SessionDisconnected));
    }
    assert_eq!(receiver_step(&SkRxD::Fail(3)), ReceiverStep::Stop(ReceiverError::CommandFail(3)));
    assert_eq!(receiver_step(&SkRxD::Okay), ReceiverStep::Continue);
}

fn datagram(port: u16, data: Vec<u8>) -> Erxudp {
    Erxudp {
        sender: 0xfe80 << 112,
        destination: 0xfe80 << 112,
        sender_port: port,
        destination_port: port,
        senderlla: 0,
        secured: 1,
        datalen: data.len() as u16,
        data,
    }
}

#[test]
fn datagrams_by_port_and_service() {
    let unit = UnitForCumlativeAmountsPower(Decimal::new(1, 1));
    assert_eq!(rx_erxudp(&datagram(0x02cc, vec![1, 2]), &unit, 0, 0), DatagramOutcome::Pana);
    assert_eq!(rx_erxudp(&datagram(0x1234, vec![]), &unit, 0, 0), DatagramOutcome::UnknownPort(0x1234));
    let answer = vec![
        0x10, 0x81, 0x00, 0x01, 0x02, 0x88, 0x01, 0x05, 0xff, 0x01, 0x72, 0x02, 0xe7, 0x04, 0x00,
        0x00, 0x01, 0xf4, 0xe8, 0x04, 0x00, 0x32, 0x7f, 0xfe,
    ];
    let out = rx_erxudp(&datagram(0x0e1a, answer.clone()), &unit, 1_742_009_400, 0);
    assert_eq!(
        out,
        DatagramOutcome::Measurements(vec![
            Ok(Measurement::InstantPower { recorded_at: 1_742_009_400, watts: Decimal::new(500, 0) }),
            Ok(Measurement::InstantCurrent { recorded_at: 1_742_009_400, r: Decimal::new(50, 1), t: None }),
        ])
    );
    let mut other = answer.clone();
    other[10] = 0x52;
    assert_eq!(rx_erxudp(&datagram(0x0e1a, other), &unit, 0, 0), DatagramOutcome::OtherService(0x52));
    assert!(matches!(rx_erxudp(&datagram(0x0e1a, vec![0x10]), &unit, 0, 0), DatagramOutcome::Undecodable(_)));
}

#[test]
fn fixed_time_amount_is_stamped_in_utc() {
    let unit = UnitForCumlativeAmountsPower(Decimal::new(1, 1));
    let edt = [0x07, 0xe9, 0x03, 0x0f, 0x0c, 0x1e, 0x00, 0x00, 0x00, 0x30, 0x39];
    let e = EchonetliteEdata { epc: 0xea, pdc: 11, edt: &edt };
    assert_eq!(
        measurement_of(&e, &unit, 0, 0),
        Ok(Measurement::CumulativeAtFixedTime(KwhRecord { recorded_at: 1_742_009_400, kwh: Decimal::new(12345, 1) }))
    );
    let bad = [0x07, 0xe9, 0x02, 0x1e, 0x0c, 0x1e, 0x00, 0x00, 0x00, 0x30, 0x39];
    let e = EchonetliteEdata { epc: 0xea, pdc: 11, edt: &bad };
    assert_eq!(measurement_of(&e, &unit, 0, 0), Err(RecordError::TimeArithmetic));
    let e = EchonetliteEdata { epc: 0xd3, pdc: 1, edt: &[1] };
    assert_eq!(measurement_of(&e, &unit, 0, 0), Err(RecordError::NotStored));
}

#[test]
fn history_records_skip_missing_slots() {
    let unit = UnitForCumlativeAmountsPower(Decimal::new(1, 2));
    let mut historical = vec![None; 48];
    historical[0] = Some(100);
    historical[3] = Some(130);
    historical[47] = Some(900);
    let h = HistoricalCumlativeAmount { n_days_ago: 0, historical };
    let start = 1_741_964_400;
    let recs = historical_records(&h, &unit, start);
    assert_eq!(
        recs,
        vec![
            KwhRecord { recorded_at: start, kwh: Decimal::new(100, 2) },
            KwhRecord { recorded_at: start + 3 * 1800, kwh: Decimal::new(130, 2) },
            KwhRecord { recorded_at: start + 47 * 1800, kwh: Decimal::new(900, 2) },
        ]
    );
}

#[test]
fn history_answer_goes_back_whole_days() {
    let unit = UnitForCumlativeAmountsPower(Decimal::new(1, 0));
    let mut edt = vec![0x00, 0x02];
    for k in 0..48u32 {
        let v = if k == 1 { k } else { 0xffff_fffe };
        edt.extend_from_slice(&v.to_be_bytes());
    }
    let e = EchonetliteEdata { epc: 0xe2, pdc: 194, edt: &edt };
    let today = 1_741_964_400;
    assert_eq!(
        measurement_of(&e, &unit, 0, today),
        Ok(Measurement::HistoricalCumulative(vec![KwhRecord {
            recorded_at: today - 2 * 86400 + 1800,
            kwh: Decimal::new(1, 0),
        }]))
    );
}

#[test]
fn pairing_decisions() {
    assert_eq!(pairing_properties(), vec![0xe1, 0x9f, 0xd3, 0xd7]);
    assert_eq!(pairing_target(&vec![]), None);
    let d = Epandesc { channel: 0x21, channel_page: 9, pan_id: 0x8888, addr: 0x001D_1290_1234_5678, lqi: 0xe1, pair_id: 1 };
    assert_eq!(pairing_target(&vec![d, Epandesc { channel: 0x22, ..d }]), Some(d));

    let mut facts = PairingFacts::new();
    let unit_answer = [0x10, 0x81, 0x00, 0x01, 0x02, 0x88, 0x01, 0x05, 0xff, 0x01, 0x72, 0x01, 0xe1, 0x01, 0x01];
    facts.absorb(&unit_answer);
    assert_eq!(facts.unit, Some(UnitForCumlativeAmountsPower(Decimal::new(1, 1))));
    assert_eq!(pairing_profile(credentials(), &d, &facts), None);
    let coefficient_answer = [0x10, 0x81, 0x00, 0x01, 0x02, 0x88, 0x01, 0x05, 0xff, 0x01, 0x72, 0x01, 0xd3, 0x00];
    facts.absorb(&coefficient_answer);
    assert_eq!(facts.coefficient, Some(Coefficient(1)));
    facts.absorb(&[0x00, 0x01]);
    let profile = pairing_profile(credentials(), &d, &facts).unwrap();
    assert_eq!(profile.Channel, 0x21);
    assert_eq!(profile.PanId, 0x8888);
    assert_eq!(profile.MacAddress, 0x001D_1290_1234_5678);
    assert_eq!(profile.Unit, UnitForCumlativeAmountsPower(Decimal::new(1, 1)));
    assert_eq!(profile.Coefficient, Coefficient(1));
    assert_eq!(profile.RouteBId.as_bytes(), ID.as_bytes());
}

#[test]
fn request_frames() {
    let f: EchonetliteFrame = get_request(0xe1);
    assert_eq!(f.encode(), vec![0x10, 0x81, 0x00, 0x01, 0x05, 0xff, 0x01, 0x02, 0x88, 0x01, 0x62, 0x01, 0xe1, 0x00]);
}

#[test]
fn history_without_data_gives_no_records() {
    let unit = UnitForCumlativeAmountsPower(Decimal::new(1, 0));
    let h = HistoricalCumlativeAmount { n_days_ago: 0, historical: vec![None; 48] };
    assert_eq!(historical_records(&h, &unit, 0), vec![]);
}

#[test]
fn badly_formed_entries_give_no_measurement() {
    let unit = UnitForCumlativeAmountsPower(Decimal::new(1, 0));
    let e = EchonetliteEdata { epc: 0xe7, pdc: 2, edt: &[0, 1] };
    assert_eq!(measurement_of(&e, &unit, 0, 0), Err(RecordError::Property(PropertyError::BadFormat)));
    let e = EchonetliteEdata { epc: 0x80, pdc: 1, edt: &[0x30] };
    assert_eq!(measurement_of(&e, &unit, 0, 0), Err(RecordError::Property(PropertyError::UnknownProperty)));
}

#[test]
fn answer_without_entries_gives_no_measurements() {
    let unit = UnitForCumlativeAmountsPower(Decimal::new(1, 0));
    let answer = vec![0x10, 0x81, 0x00, 0x01, 0x02, 0x88, 0x01, 0x05, 0xff, 0x01, 0x73, 0x00];
    assert_eq!(rx_erxudp(&datagram(0x0e1a, answer), &unit, 0, 0), DatagramOutcome::Measurements(vec![]));
}

#[test]
fn readings_are_filed_by_tokyo_day_and_minute() {
    // 2025-03-15 12:30:45 in Tokyo
    let now = 1_742_009_445;
    assert_eq!(recording_clock(now), Some((1_741_964_400, 1_742_009_400)));
}
