use harmony_glitch::network::frames::{parse_control, parse_inbound_frame, parse_u16, InboundFrame};

fn control(text: &str) -> Vec<u8> {
    let mut v = vec![1u8];
    v.extend_from_slice(text.as_bytes());
    v
}

#[test]
fn data_frames_carry_a_big_endian_id() {
    match parse_inbound_frame(&[2, 0x01, 0x02, 9, 8]) {
        InboundFrame::Data { expr_id, payload } => {
            assert_eq!(expr_id, 0x0102);
            assert_eq!(payload, vec![9, 8]);
        }
        _ => panic!("expected data"),
    }
    assert!(matches!(parse_inbound_frame(&[2, 0x01]), InboundFrame::Ignored));
    assert!(matches!(parse_inbound_frame(&[2, 0, 7]), InboundFrame::Data { expr_id: 7, .. }));
}

#[test]
fn unknown_and_empty_frames_are_ignored() {
    assert!(matches!(parse_inbound_frame(&[]), InboundFrame::Ignored));
    assert!(matches!(parse_inbound_frame(&[3, 1, 2]), InboundFrame::Ignored));
    assert!(matches!(parse_inbound_frame(&[1, 0xff, 0xfe]), InboundFrame::Ignored));
    assert!(matches!(parse_inbound_frame(&control("HELLO")), InboundFrame::Ignored));
}

#[test]
fn control_words() {
    assert!(matches!(parse_inbound_frame(&control("KEEPALIVE")), InboundFrame::Keepalive));
    assert!(matches!(parse_inbound_frame(&control("CLOSE")), InboundFrame::Close));
    assert!(matches!(parse_inbound_frame(&control("CLOSEACK")), InboundFrame::CloseAck));
    assert!(matches!(parse_control("KEEPALIVE "), InboundFrame::Ignored));
}

#[test]
fn subscribe_and_declarations() {
    match parse_control("SUB:harmony:v2/street") {
        InboundFrame::Subscribe { key_expr } => assert_eq!(key_expr, "harmony:v2/street"),
        _ => panic!("expected subscribe"),
    }
    match parse_control("RESDECL:12:harmony:v2/x") {
        InboundFrame::ResourceDeclare { expr_id, key_expr } => {
            assert_eq!(expr_id, 12);
            assert_eq!(key_expr, "harmony:v2/x");
        }
        _ => panic!("expected declaration"),
    }
    assert!(matches!(parse_control("RESDECL:12"), InboundFrame::Ignored));
    assert!(matches!(parse_control("RESDECL:x:k"), InboundFrame::Ignored));
    assert!(matches!(parse_control("RESDECL:70000:k"), InboundFrame::Ignored));
    assert!(matches!(parse_control("RESUNDECL:65535"), InboundFrame::ResourceUndeclare { expr_id: 65535 }));
    assert!(matches!(parse_control("RESUNDECL:-1"), InboundFrame::Ignored));
}

#[test]
fn u16_reading() {
    assert_eq!(parse_u16("0"), Some(0));
    assert_eq!(parse_u16("+5"), Some(5));
    assert_eq!(parse_u16("65536"), None);
    assert_eq!(parse_u16("-0"), None);
    assert_eq!(parse_u16(""), None);
}
