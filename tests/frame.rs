use uchinoepower::frame::{EchonetliteEdata, EchonetliteFrame, FrameError};

#[test]
fn edata_test1() {
    let e7 = EchonetliteEdata {
        epc: 0xe7,
        pdc: 4,
        edt: &[1, 2, 3, 4],
    };
    let edata = e7.clone();

    let binary: Vec<u8> = vec![0xe7, 0x04, 0x01, 0x02, 0x03, 0x04];
    let mut encoded = Vec::new();
    edata.encode(&mut encoded);
    assert_eq!(encoded, binary);

    let (decoded, _len) = EchonetliteEdata::borrow_decode(&encoded[..]).unwrap();

    assert_eq!(e7, decoded);
}

#[test]
fn frame_test1() {
    let frame = EchonetliteFrame {
        ehd: 0x1081,
        tid: 0x1234,
        seoj: [0x05, 0xff, 0x01],
        deoj: [0x02, 0x88, 0x01],
        esv: 0x62,
        opc: 0x01,
        edata: vec![EchonetliteEdata {
            epc: 0xe7,
            pdc: 0,
            edt: &[],
        }],
    };

    let binary: Vec<u8> = vec![
        0x10, 0x81, //
        0x12, 0x34, //
        0x05, 0xff, 0x01, //
        0x02, 0x88, 0x01, //
        0x62, //
        0x01, //
        0xe7, 0x00, //
    ];

    let encoded = frame.encode();
    assert_eq!(encoded.len(), 14);
    assert_eq!(encoded, binary);

    let (decoded, _len) = EchonetliteFrame::borrow_decode(&encoded[..]).unwrap();
    assert_eq!(frame, decoded);
}

#[test]
fn frame_round_trip_of_bytes() {
    let bytes: Vec<u8> = vec![
        0x10, 0x81, 0x00, 0x01, 0x02, 0x88, 0x01, 0x05, 0xff, 0x01, 0x72, 0x02, 0xe7, 0x04, 0x00,
        0x00, 0x01, 0xf4, 0xe8, 0x04, 0x00, 0x32, 0x7f, 0xfe,
    ];
    let (frame, n) = EchonetliteFrame::borrow_decode(&bytes).unwrap();
    assert_eq!(n, bytes.len());
    assert_eq!(frame.opc, 2);
    assert_eq!(frame.edata[1].edt, &[0x00, 0x32, 0x7f, 0xfe]);
    assert_eq!(frame.encode(), bytes);
}

#[test]
fn frame_trailing_bytes_are_not_consumed() {
    let bytes: Vec<u8> = vec![
        0x10, 0x81, 0x12, 0x34, 0x05, 0xff, 0x01, 0x02, 0x88, 0x01, 0x62, 0x01, 0xe7, 0x00, 0xaa,
    ];
    let (_frame, n) = EchonetliteFrame::borrow_decode(&bytes).unwrap();
    assert_eq!(n, 14);
}

#[test]
fn frame_errors() {
    assert_eq!(EchonetliteFrame::borrow_decode(&[0x10]).unwrap_err(), FrameError::Truncated);
    assert_eq!(
        EchonetliteFrame::borrow_decode(&[0x10, 0x82, 0, 0, 0, 0, 0, 0, 0, 0, 0, 0]).unwrap_err(),
        FrameError::NotEchonetLite
    );
    assert_eq!(EchonetliteFrame::borrow_decode(&[0x10, 0x81, 0x12]).unwrap_err(), FrameError::Truncated);
    // one entry announced, its data cut short
    let short = [0x10, 0x81, 0, 1, 5, 0xff, 1, 2, 0x88, 1, 0x72, 1, 0xe7, 4, 0, 0];
    assert_eq!(EchonetliteFrame::borrow_decode(&short).unwrap_err(), FrameError::Truncated);
}
