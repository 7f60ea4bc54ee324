use chatroom::de_quotes;
use chatroom::decode::{decode_unit, parse_record, DecodeError, Decoder, Request};
use chatroom::text::{parse_dec, str_eq, usize_to_dec};

#[test]
fn de_quotes_strips_quotes() {
    assert_eq!(de_quotes("\"qwe\""), "qwe");
    assert_eq!(de_quotes("\"\""), "");
    assert_eq!(de_quotes("\"/auth\""), "/auth");
}

#[test]
fn str_eq_compares_contents() {
    assert!(str_eq("abc", "abc"));
    assert!(!str_eq("abc", "abd"));
    assert!(!str_eq("abc", "ab"));
    assert!(str_eq("", ""));
}

#[test]
fn decimal_rendering() {
    assert_eq!(usize_to_dec(0), "0");
    assert_eq!(usize_to_dec(7), "7");
    assert_eq!(usize_to_dec(1234), "1234");
}

#[test]
fn decimal_parsing() {
    assert_eq!(parse_dec("0"), Some(0));
    assert_eq!(parse_dec("0057"), Some(57));
    assert_eq!(parse_dec("1234"), Some(1234));
    assert_eq!(parse_dec(""), None);
    assert_eq!(parse_dec("12a"), None);
    assert_eq!(parse_dec("-1"), None);
    assert_eq!(parse_dec("999999999999999999999999999999"), None);
}

#[test]
fn feed_splits_concatenated_units() {
    let mut dec = Decoder::new();
    let got = dec.feed("{\"a\":\"b\"} {\"c\":\"d\"} ");
    assert_eq!(got, vec!["{\"a\":\"b\"}".to_string(), "{\"c\":\"d\"}".to_string()]);
}

#[test]
fn feed_keeps_incomplete_tail() {
    let mut dec = Decoder::new();
    let got = dec.feed("{\"a\":\"b\"} {\"c\"");
    assert_eq!(got, vec!["{\"a\":\"b\"}".to_string()]);
    let got = dec.feed(":\"d\"} ");
    assert_eq!(got, vec!["{\"c\":\"d\"}".to_string()]);
}

#[test]
fn feed_ignores_empty_units() {
    let mut dec = Decoder::new();
    let got = dec.feed("   {\"a\":\"b\"}   ");
    assert_eq!(got, vec!["{\"a\":\"b\"}".to_string()]);
}

#[test]
fn parse_record_reads_fields() {
    assert_eq!(parse_record("{}"), Some(vec![]));
    assert_eq!(
        parse_record("{\"path\":\"/auth\",\"name\":\"A\",\"room_id\":\"1\"}"),
        Some(vec![
            ("path".to_string(), "/auth".to_string()),
            ("name".to_string(), "A".to_string()),
            ("room_id".to_string(), "1".to_string()),
        ])
    );
    // responses carry one space after the comma; the reader tolerates it
    assert_eq!(
        parse_record("{\"message\":\"A: hello, \", \"last_msg_i\":\"1\"}"),
        Some(vec![
            ("message".to_string(), "A: hello, ".to_string()),
            ("last_msg_i".to_string(), "1".to_string()),
        ])
    );
}

#[test]
fn parse_record_rejects_malformed() {
    assert_eq!(parse_record(""), None);
    assert_eq!(parse_record("{"), None);
    assert_eq!(parse_record("{\"a\":\"b\""), None);
    assert_eq!(parse_record("\"a\":\"b\"}"), None);
    assert_eq!(parse_record("{\"a\"}"), None);
    assert_eq!(parse_record("{\"a\":\"b\",}"), None);
    assert_eq!(parse_record("{\"a\":\"b\"x}"), None);
}

#[test]
fn decode_unit_recognizes_operations() {
    match decode_unit("{\"path\":\"/auth\",\"name\":\"A\",\"room_id\":\"1\"}") {
        Ok(Request::Auth { name, room_id }) => {
            assert_eq!(name, "A");
            assert_eq!(room_id, "1");
        },
        other => panic!("expected auth request, got {:?}", other.is_ok()),
    }
    match decode_unit("{\"path\":\"/send\",\"jwt\":\"T\",\"message\":\"hi\"}") {
        Ok(Request::Send { jwt, message }) => {
            assert_eq!(jwt, "T");
            assert_eq!(message, "hi");
        },
        other => panic!("expected send request, got {:?}", other.is_ok()),
    }
    match decode_unit("{\"path\":\"/receive\",\"jwt\":\"T\",\"last_msg_i\":\"3\"}") {
        Ok(Request::Receive { jwt, last_msg_i }) => {
            assert_eq!(jwt, "T");
            assert_eq!(last_msg_i, 3);
        },
        other => panic!("expected receive request, got {:?}", other.is_ok()),
    }
}

#[test]
fn decode_unit_unknown_path() {
    let got = decode_unit("{\"path\":\"/nope\",\"x\":\"y\"}");
    assert!(matches!(got, Err(DecodeError::UnknownPath)));
}

#[test]
fn decode_unit_malformed() {
    assert!(matches!(decode_unit("garbage"), Err(DecodeError::Malformed)));
    assert!(matches!(decode_unit("{}"), Err(DecodeError::Malformed)));
    assert!(matches!(
        decode_unit("{\"path\":\"/auth\",\"name\":\"A\"}"),
        Err(DecodeError::Malformed)
    ));
    assert!(matches!(
        decode_unit("{\"path\":\"/receive\",\"jwt\":\"T\",\"last_msg_i\":\"x\"}"),
        Err(DecodeError::Malformed)
    ));
}
