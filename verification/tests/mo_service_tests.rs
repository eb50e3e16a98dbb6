use rust_smpp_sim::smpp::mo_service::{
    char_is_whitespace, create_deliver_sm, dispatch_mo, feed_period_ms, parse_mo_line,
};
use rust_smpp_sim::smpp::pdu::{sanitized_address, sanitized_payload, DeliverSm, Pdu, SmppCommand};
use rust_smpp_sim::smpp::queue::MoMessage;
use rust_smpp_sim::smpp::session::{BindType, Session, SessionManager};

fn mo(source: &str, dest: &str, text: &str) -> MoMessage {
    MoMessage {
        source_addr: source.to_string(),
        dest_addr: dest.to_string(),
        short_message: text.to_string(),
    }
}

fn deliver_sm(command: &SmppCommand) -> &DeliverSm {
    match &command.pdu {
        Some(Pdu::DeliverSm(body)) => body,
        other => panic!("Expected DeliverSm, got {:?}", other),
    }
}

fn payload(text: &str) -> Vec<u8> {
    deliver_sm(&create_deliver_sm(&mo("src", "dst", text)).unwrap()).short_message.clone()
}

fn record(line: &str) -> Option<(String, String, String)> {
    parse_mo_line(line).map(|m| (m.source_addr, m.dest_addr, m.short_message))
}

fn fields(source: &str, dest: &str, text: &str) -> Option<(String, String, String)> {
    Some((source.to_string(), dest.to_string(), text.to_string()))
}

#[test]
fn test_create_deliver_sm_binary() {
    let msg = MoMessage {
        source_addr: "src".to_string(),
        dest_addr: "dst".to_string(),
        short_message: "0x000102".to_string(),
    };

    let cmd_opt = create_deliver_sm(&msg);
    assert!(cmd_opt.is_some());

    let cmd = cmd_opt.unwrap();
    if let Some(Pdu::DeliverSm(_)) = &cmd.pdu {
        // Success
    } else {
        panic!("Expected DeliverSm");
    }
}

#[test]
fn hexadecimal_text_is_a_binary_payload() {
    assert_eq!(payload("0x000102"), vec![0, 1, 2]);
    assert_eq!(payload("0xdeadBEEF"), vec![0xDE, 0xAD, 0xBE, 0xEF]);
    assert_eq!(payload("0x"), Vec::<u8>::new());
    assert_eq!(payload("0x7f80ff"), vec![0x7F, 0x80, 0xFF]);
}

#[test]
fn text_that_is_no_hexadecimal_goes_as_it_is() {
    assert_eq!(payload("hi"), b"hi".to_vec());
    assert_eq!(payload(""), Vec::<u8>::new());
    assert_eq!(payload("0x123"), b"0x123".to_vec());
    assert_eq!(payload("0xZZ"), b"0xZZ".to_vec());
    assert_eq!(payload("0X0102"), b"0X0102".to_vec());
    assert_eq!(payload("0x01 "), b"0x01 ".to_vec());
    assert_eq!(payload("x0x0102"), b"x0x0102".to_vec());
    assert_eq!(payload("0xé1"), "0xé1".as_bytes().to_vec());
    assert_eq!(payload("héllo"), "héllo".as_bytes().to_vec());
}

#[test]
fn payload_over_the_limit_is_dropped() {
    assert_eq!(payload(&"a".repeat(255)).len(), 255);
    assert!(payload(&"a".repeat(256)).is_empty());
    assert_eq!(payload(&format!("0x{}", "ab".repeat(255))), vec![0xAB; 255]);
    assert!(payload(&format!("0x{}", "ab".repeat(256))).is_empty());
    assert_eq!(sanitized_payload(&[7u8; 255]), vec![7u8; 255]);
    assert!(sanitized_payload(&[7u8; 256]).is_empty());
    assert!(sanitized_payload(&[]).is_empty());
}

#[test]
fn address_fields_take_twenty_ascii_characters() {
    assert_eq!(sanitized_address("+1555000"), "+1555000");
    assert_eq!(sanitized_address(""), "");
    assert_eq!(sanitized_address("12345678901234567890"), "12345678901234567890");
    assert_eq!(sanitized_address("123456789012345678901"), "");
    assert_eq!(sanitized_address("caf\u{e9}"), "");
    assert_eq!(sanitized_address("a\0b"), "");
    assert_eq!(sanitized_address("\u{7f}"), "\u{7f}");
}

#[test]
fn deliver_sm_of_a_mobile_originated_message() {
    let command = create_deliver_sm(&mo("+44777", "+1555000", "hi")).unwrap();
    assert_eq!(command.sequence_number, 0);
    assert_eq!(
        command.pdu,
        Some(Pdu::DeliverSm(DeliverSm {
            service_type: String::new(),
            source_addr_ton: 0,
            source_addr_npi: 0,
            source_addr: "+44777".to_string(),
            dest_addr_ton: 0,
            dest_addr_npi: 0,
            destination_addr: "+1555000".to_string(),
            esm_class: 0,
            protocol_id: 0,
            priority_flag: 0,
            schedule_delivery_time: String::new(),
            validity_period: String::new(),
            registered_delivery: 0,
            replace_if_present_flag: 0,
            data_coding: 0,
            sm_default_msg_id: 0,
            short_message: b"hi".to_vec(),
        }))
    );
    let long = create_deliver_sm(&mo("a source address of more than twenty", "+1", "hi")).unwrap();
    assert_eq!(deliver_sm(&long).source_addr, "");
    assert_eq!(deliver_sm(&long).destination_addr, "+1");
}

#[test]
fn dispatch_routes_by_address_range() {
    let mut sessions = SessionManager::new();
    let receiver = Session::new(
        "rx".to_string(),
        BindType::Receiver,
        "peer".to_string(),
        Some("^\\+1.*".to_string()),
    );
    let receiver_id = receiver.id.clone();
    sessions.add_session(receiver);
    sessions.add_session(Session::new(
        "tx".to_string(),
        BindType::Transmitter,
        "peer".to_string(),
        Some(".*".to_string()),
    ));

    let dispatch = dispatch_mo(&mo("+44777", "+1555000", "hi"), &sessions).unwrap();
    assert_eq!(dispatch.session_id, receiver_id);
    assert_eq!(deliver_sm(&dispatch.command).destination_addr, "+1555000");
    assert_eq!(deliver_sm(&dispatch.command).source_addr, "+44777");
    assert_eq!(deliver_sm(&dispatch.command).short_message, b"hi".to_vec());

    assert!(dispatch_mo(&mo("+44777", "+44999", "hi"), &sessions).is_none());
    assert!(dispatch_mo(&mo("+44777", "+1555000", "hi"), &SessionManager::new()).is_none());
}

#[test]
fn feed_period() {
    assert_eq!(feed_period_ms(0), 1000);
    assert_eq!(feed_period_ms(1), 60000);
    assert_eq!(feed_period_ms(60), 1000);
    assert_eq!(feed_period_ms(7), 8571);
    assert_eq!(feed_period_ms(60000), 1);
    assert_eq!(feed_period_ms(60001), 0);
    assert_eq!(feed_period_ms(u32::MAX), 0);
}

#[test]
fn line_with_three_fields() {
    assert_eq!(record("+44777,+1555000,hi"), fields("+44777", "+1555000", "hi"));
    assert_eq!(record(" +44777 ,\t+1555000 , hi "), fields("+44777", "+1555000", " hi "));
    assert_eq!(record("a,b,"), fields("a", "b", ""));
    assert_eq!(record(",,"), fields("", "", ""));
    assert_eq!(record(" , ,x"), fields("", "", "x"));
}

#[test]
fn text_of_a_line_keeps_its_commas() {
    assert_eq!(record("a,b,one, two,,three"), fields("a", "b", "one, two,,three"));
    assert_eq!(record("a,b,,"), fields("a", "b", ","));
    assert_eq!(record("a,b,0x0102"), fields("a", "b", "0x0102"));
}

#[test]
fn lines_without_a_record() {
    assert_eq!(record(""), None);
    assert_eq!(record("   "), None);
    assert_eq!(record("\t \u{a0}\u{3000}"), None);
    assert_eq!(record("# source,dest,text"), None);
    assert_eq!(record("#a,b,c"), None);
    assert_eq!(record("a"), None);
    assert_eq!(record("a,b"), None);
    assert_eq!(record("no commas here"), None);
}

#[test]
fn comment_mark_counts_at_the_start_only() {
    assert_eq!(record(" #a,b,c"), fields("#a", "b", "c"));
    assert_eq!(record("a#,b,c"), fields("a#", "b", "c"));
}

#[test]
fn fields_are_trimmed_of_unicode_white_space() {
    assert_eq!(record("\u{2003}a\u{a0},\u{3000}b\r,c"), fields("a", "b", "c"));
    assert_eq!(record("a b , c\td ,e"), fields("a b", "c\td", "e"));
    assert_eq!(record("\u{200b}a,b,c"), fields("\u{200b}a", "b", "c"));
}

#[test]
fn white_space_is_what_the_standard_library_says() {
    for code in 0u32..0x3100 {
        if let Some(c) = char::from_u32(code) {
            assert_eq!(char_is_whitespace(c), c.is_whitespace(), "U+{:04X}", code);
        }
    }
    assert!(!char_is_whitespace('\u{feff}'));
    assert!(!char_is_whitespace('\u{10ffff}'));
}
