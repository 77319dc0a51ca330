use procbridge::label::decimal_string;
use procbridge::label::decode_label;
use procbridge::msg::unsubscribe_notice;
use procbridge::msg::MsgKind;

#[test]
fn label_strips_the_terminator() {
    assert_eq!(decode_label(&b"alice\0".to_vec()), Some("alice".to_string()));
    // any final byte is the terminator, not part of the label
    assert_eq!(decode_label(&b"bob!".to_vec()), Some("bob".to_string()));
}

#[test]
fn label_of_empty_payload_is_malformed() {
    assert_eq!(decode_label(&Vec::new()), None);
}

#[test]
fn label_of_invalid_utf8_is_malformed() {
    assert_eq!(decode_label(&vec![0xff, 0xfe, 0x00]), None);
    // the terminator itself may be anything; only the prefix must decode
    assert_eq!(decode_label(&vec![0xc3, 0xa9, 0x00]), Some("\u{e9}".to_string()));
}

#[test]
fn label_may_be_empty() {
    assert_eq!(decode_label(&b"\0".to_vec()), Some(String::new()));
}

#[test]
fn decimal_rendering_is_exact() {
    assert_eq!(decimal_string(0), "0");
    assert_eq!(decimal_string(7), "7");
    assert_eq!(decimal_string(407), "407");
    assert_eq!(decimal_string(u16::MAX), "65535");
}

#[test]
fn unsubscribe_notice_shape() {
    let m = unsubscribe_notice(12);
    assert_eq!(m.kind, MsgKind::Unsubscribe);
    assert_eq!(m.client_id, 12);
    assert!(m.data.is_empty());
}
