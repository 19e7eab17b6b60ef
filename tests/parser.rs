use uchinoepower::parser::{parse_rxd, u64_hex_digit, ParseError, RxBuffer};
use uchinoepower::skrxd::{Epandesc, Erxudp, Event, SkRxD};

fn parse(input: &str) -> (&str, SkRxD) {
    let (n, r) = parse_rxd(input.as_bytes()).unwrap();
    (&input[n..], r)
}

#[test]
fn parser_test1() {
    assert_eq!(parse("\r\n"), ("", SkRxD::Void));

    assert_eq!(parse(" \r\n"), ("", SkRxD::Void));

    assert_eq!(parse("OK\r\n"), ("", SkRxD::Okay));

    assert_eq!(parse("FAIL ER10\r\n"), ("", SkRxD::Fail(16)));

    assert_eq!(u64_hex_digit("FF00".as_bytes()).unwrap(), (4, 0xff00));
}

const FE80: u128 = 0xfe80_0000_0000_0000_0000_0000_0000_0000;

#[test]
fn test2() {
    let sender = "FE80:0000:0000:0000:0000:0000:0000:0000";

    assert_eq!(
        parse(&format!("EVENT 02 {}\r\n", sender)),
        (
            "",
            SkRxD::Event(Event {
                code: 2,
                sender: FE80,
                param: None,
            })
        )
    );

    assert_eq!(
        parse(&format!("EVENT 21 {} 02\r\n", sender)),
        (
            "",
            SkRxD::Event(Event {
                code: 33,
                sender: FE80,
                param: Some(2),
            })
        )
    );

    assert_eq!(
        parse(&format!("EVENT 20 {}\r\n", sender)),
        (
            "",
            SkRxD::Event(Event {
                code: 0x20,
                sender: FE80,
                param: None,
            })
        )
    );
}

#[test]
fn test3() {
    let sender: u128 = 0xfe80_0001_0002_0003_0004_0005_0006_0007;
    let destination: u128 = 0xfe80_0008_0009_000a_000b_000c_000d_000e;
    let senderlla = 0x1234_5678_9abc_0000u64;
    let datalen = 16;
    let data = "000102030405060708090A0B0C0D0E0F";
    let groups = |a: u128| {
        (0..8)
            .map(|i| format!("{:04X}", (a >> (16 * (7 - i))) as u16))
            .collect::<Vec<String>>()
            .join(":")
    };
    let erxudp = format!(
        "ERXUDP {} {} 02CC 02CC {:X} 1 {:02X} {}\r\n",
        groups(sender),
        groups(destination),
        senderlla,
        datalen,
        data
    );

    assert_eq!(
        parse(&erxudp),
        (
            "",
            SkRxD::Erxudp(Erxudp {
                sender: sender,
                destination: destination,
                sender_port: 0x02CC,
                destination_port: 0x02CC,
                senderlla: senderlla,
                secured: 1,
                datalen: datalen,
                data: vec!(0, 1, 2, 3, 4, 5, 6, 7, 8, 9, 10, 11, 12, 13, 14, 15),
            })
        )
    );
}

#[test]
fn test4() {
    let epandesc = vec![
        "EPANDESC\r\n",
        "  Channel:3B\r\n",
        "  Channel Page:09\r\n",
        "  Pan ID:ABCD\r\n",
        "  Addr:12345678ABCDABCD\r\n",
        "  LQI:84\r\n",
        "  PairID:1234ABCD\r\n",
    ];

    let expected = SkRxD::Epandesc(Epandesc {
        channel: 59,
        channel_page: 9,
        pan_id: 0xABCD,
        addr: 0x1234_5678_ABCD_ABCD,
        lqi: 132,
        pair_id: 0x1234_ABCD,
    });
    assert_eq!(parse(&epandesc.concat()), ("", expected.clone()));

    let incomplete = ParseError::Incomplete;
    for k in 1..7 {
        let prefix = epandesc.split_at(k).0.concat();
        assert_eq!(parse_rxd(prefix.as_bytes()).unwrap_err(), incomplete);
    }
    let epandesc7 = &epandesc.split_at(7).0;
    assert_eq!(parse(&epandesc7.concat()), ("", expected));
}

#[test]
fn epandesc_every_byte_prefix_is_incomplete() {
    let text = "EPANDESC\r\n  Channel:21\r\n  Channel Page:09\r\n  Pan ID:8888\r\n  Addr:001D129012345678\r\n  LQI:E1\r\n  PairID:00ABCDEF\r\n";
    for k in 0..text.len() {
        assert_eq!(parse_rxd(&text.as_bytes()[..k]).unwrap_err(), ParseError::Incomplete);
    }
    assert!(parse_rxd(text.as_bytes()).is_ok());
}

#[test]
fn parse_ok_scenario_leaves_nothing() {
    let (rest, r) = parse("OK\r\n");
    assert_eq!(r, SkRxD::Okay);
    assert_eq!(rest, "");
}

#[test]
fn parse_fail_scenario() {
    assert_eq!(parse("FAIL ER10\r\n").1, SkRxD::Fail(0x10));
}

#[test]
fn parse_event_with_param_scenario() {
    let r = parse("EVENT 21 FE80:0000:0000:0000:0000:0000:0000:0000 02\r\n").1;
    assert_eq!(r, SkRxD::Event(Event { code: 0x21, sender: FE80, param: Some(2) }));
}

#[test]
fn single_line_prefixes_are_incomplete() {
    for text in ["OK\r\n", "FAIL ER10\r\n", "EVENT 25 FE80:0000:0000:0000:0000:0000:0000:0001\r\n"] {
        for k in 0..text.len() {
            assert_eq!(parse_rxd(&text.as_bytes()[..k]).unwrap_err(), ParseError::Incomplete);
        }
    }
}

#[test]
fn unknown_lines_are_invalid() {
    assert_eq!(parse_rxd(b"SKVER\r\n").unwrap_err(), ParseError::Invalid);
    assert_eq!(parse_rxd(b"FAIL ER1\r\n").unwrap_err(), ParseError::Invalid);
    assert_eq!(parse_rxd(b"EVENT 100 FE80:0000:0000:0000:0000:0000:0000:0000\r\n").unwrap_err(), ParseError::Invalid);
    assert_eq!(parse_rxd(b"EVENT 21 FE80::1\r\n").unwrap_err(), ParseError::Invalid);
    assert_eq!(parse_rxd(b"EPANDESC\r\n  Channel:XX\r\n").unwrap_err(), ParseError::Invalid);
}

#[test]
fn erxudp_length_must_match_data() {
    let line = "ERXUDP FE80:0000:0000:0000:0000:0000:0000:0001 FE80:0000:0000:0000:0000:0000:0000:0002 0E1A 0E1A 0011223344556677 1 0003 AABB\r\n";
    assert_eq!(parse_rxd(line.as_bytes()).unwrap_err(), ParseError::Invalid);
}

#[test]
fn only_the_first_record_is_consumed() {
    let (rest, r) = parse("OK\r\nFAIL ER04\r\n");
    assert_eq!(r, SkRxD::Okay);
    assert_eq!(rest, "FAIL ER04\r\n");
}

#[test]
fn rx_buffer_collects_lines() {
    let mut buf = RxBuffer::new();
    assert_eq!(buf.receive(b"EPANDESC\r\n"), None);
    assert_eq!(buf.receive(b"  Channel:21\r\n"), None);
    assert_eq!(buf.receive(b"  Channel Page:09\r\n"), None);
    assert_eq!(buf.receive(b"  Pan ID:8888\r\n"), None);
    assert_eq!(buf.receive(b"  Addr:001D129012345678\r\n"), None);
    assert_eq!(buf.receive(b"  LQI:E1\r\n"), None);
    let r = buf.receive(b"  PairID:00ABCDEF\r\n");
    assert_eq!(
        r,
        Some(SkRxD::Epandesc(Epandesc {
            channel: 0x21,
            channel_page: 9,
            pan_id: 0x8888,
            addr: 0x001D_1290_1234_5678,
            lqi: 0xe1,
            pair_id: 0x00AB_CDEF,
        }))
    );
    assert!(buf.pending.is_empty());
    assert_eq!(buf.receive(b"garbage\r\n"), None);
    assert!(buf.pending.is_empty());
    assert_eq!(buf.receive(b"OK\r\n"), Some(SkRxD::Okay));
}
