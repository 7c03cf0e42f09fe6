use twinleaf::payload::{Payload, RpcError, RpcErrorCode, RpcReply};
use twinleaf::rpc::{
    classify_reply, decode_reply, dump_rpc_name, encode_arg, join_pages, list_entry,
    looked_up_type, parse_number, parse_rpc_spec, reply_type_choice, request_type_choice,
    rpc_type, trigger_rpc_name, type_from_info, ArgBytes, Pager, PagerError, ReplyMatch,
    ReplyValue, RpcDataKind, RpcType, RpcValue, RpcValueError, TypeChoice,
};

fn bytes(kind: &str, text: &str) -> Vec<u8> {
    match encode_arg(kind, text).unwrap() {
        ArgBytes::Bytes(b) => b,
        other => panic!("expected bytes, got {:?}", other),
    }
}

fn use_same(cases: &[(&str, &str)]) {
    for (kind, text) in cases {
        let n: u64 = text.parse().unwrap();
        let value = match *kind {
            "u8" => RpcValue::UInt8(n as u8),
            "u16" => RpcValue::UInt16(n as u16),
            "u32" => RpcValue::UInt32(n as u32),
            _ => RpcValue::UInt64(n),
        };
        assert_eq!(bytes(kind, text), value.to_bytes());
    }
}

fn shown(kind: &str, reply: &[u8]) -> String {
    match decode_reply(kind, &reply.to_vec()).unwrap() {
        ReplyValue::Text(t) => t,
        other => panic!("expected text, got {:?}", other),
    }
}

#[test]
fn type_names_are_recognized() {
    assert_eq!(rpc_type("u8"), Some(RpcType::UInt8));
    assert_eq!(rpc_type("u16"), Some(RpcType::UInt16));
    assert_eq!(rpc_type("u32"), Some(RpcType::UInt32));
    assert_eq!(rpc_type("u64"), Some(RpcType::UInt64));
    assert_eq!(rpc_type("i8"), Some(RpcType::Int8));
    assert_eq!(rpc_type("i16"), Some(RpcType::Int16));
    assert_eq!(rpc_type("i32"), Some(RpcType::Int32));
    assert_eq!(rpc_type("i64"), Some(RpcType::Int64));
    assert_eq!(rpc_type("f32"), Some(RpcType::Float32));
    assert_eq!(rpc_type("f64"), Some(RpcType::Float64));
    assert_eq!(rpc_type("string"), Some(RpcType::Text));
    assert_eq!(rpc_type(""), None);
    assert_eq!(rpc_type("U8"), None);
    assert_eq!(rpc_type("u128"), None);
    assert_eq!(rpc_type(" u8"), None);
}

#[test]
fn numbers_are_read_as_rust_reads_them() {
    for text in ["0", "7", "+7", "007", "255", "256", "-0", "-1", "", "+", "-", "1 ", " 1", "1a", "--1", "+-1", "١"] {
        let expected = text.parse::<u8>().ok().map(|v| v as i128);
        assert_eq!(parse_number(text, 0, 255), expected, "u8 from {:?}", text);
    }
    for text in ["0", "-0", "+0", "127", "128", "-128", "-129", "-", "+", "", "-+1", "- 1", "00127", "-0128"] {
        let expected = text.parse::<i8>().ok().map(|v| v as i128);
        assert_eq!(parse_number(text, -128, 127), expected, "i8 from {:?}", text);
    }
    for text in ["9223372036854775807", "9223372036854775808", "-9223372036854775808", "-9223372036854775809", "99999999999999999999999999"] {
        let expected = text.parse::<i64>().ok().map(|v| v as i128);
        assert_eq!(parse_number(text, i64::MIN, i64::MAX as u64), expected, "i64 from {:?}", text);
    }
    for text in ["18446744073709551615", "18446744073709551616", "-1"] {
        let expected = text.parse::<u64>().ok().map(|v| v as i128);
        assert_eq!(parse_number(text, 0, u64::MAX), expected, "u64 from {:?}", text);
    }
}

#[test]
fn whole_number_arguments_are_little_endian() {
    assert_eq!(bytes("u8", "200"), 200u8.to_le_bytes());
    assert_eq!(bytes("u16", "513"), 513u16.to_le_bytes());
    assert_eq!(bytes("u32", "4000000000"), 4000000000u32.to_le_bytes());
    assert_eq!(bytes("i8", "-3"), (-3i8).to_le_bytes());
    assert_eq!(bytes("i8", "-128"), (-128i8).to_le_bytes());
    assert_eq!(bytes("i16", "-12345"), (-12345i16).to_le_bytes());
    assert_eq!(bytes("i16", "32767"), 32767i16.to_le_bytes());
    assert_eq!(bytes("i32", "-2147483648"), i32::MIN.to_le_bytes());
    assert_eq!(bytes("i32", "+5"), 5i32.to_le_bytes());
    assert_eq!(bytes("u8", "0"), vec![0]);
}

#[test]
fn sixty_four_bit_arguments_are_sent_in_eight_bytes() {
    assert_eq!(bytes("u64", "1"), vec![1, 0, 0, 0, 0, 0, 0, 0]);
    assert_eq!(bytes("u64", "4294967296"), 4294967296u64.to_le_bytes());
    assert_eq!(bytes("u64", "18446744073709551615"), u64::MAX.to_le_bytes());
    assert_eq!(bytes("i64", "-1"), (-1i64).to_le_bytes());
    assert_eq!(bytes("i64", "2147483648"), 2147483648i64.to_le_bytes());
    assert_eq!(bytes("i64", "-9223372036854775808"), i64::MIN.to_le_bytes());
    assert_eq!(bytes("i64", "9223372036854775807"), i64::MAX.to_le_bytes());
    assert_eq!(encode_arg("u64", "18446744073709551616").unwrap_err(), RpcValueError::InvalidValue);
    assert_eq!(encode_arg("u64", "-1").unwrap_err(), RpcValueError::InvalidValue);
    assert_eq!(encode_arg("i64", "9223372036854775808").unwrap_err(), RpcValueError::InvalidValue);
    assert_eq!(encode_arg("i64", "-9223372036854775809").unwrap_err(), RpcValueError::InvalidValue);
}

#[test]
fn arguments_travel_as_typed_values_do() {
    use_same(&[("u8", "200"), ("u16", "513"), ("u32", "4000000000"), ("u64", "5000000000")]);
    assert_eq!(bytes("i8", "-3"), RpcValue::Int8(-3).to_bytes());
    assert_eq!(bytes("i16", "-300"), RpcValue::Int16(-300).to_bytes());
    assert_eq!(bytes("i32", "-70000"), RpcValue::Int32(-70000).to_bytes());
    assert_eq!(bytes("i64", "-5000000000"), RpcValue::Int64(-5000000000).to_bytes());
}

#[test]
fn string_arguments_are_their_bytes() {
    assert_eq!(bytes("string", "hello"), b"hello");
    assert_eq!(bytes("string", ""), b"");
    assert_eq!(bytes("string", "é"), "é".as_bytes());
}

#[test]
fn floating_point_arguments_are_left_to_the_caller() {
    assert_eq!(encode_arg("f32", "1.5").unwrap(), ArgBytes::Single);
    assert_eq!(encode_arg("f64", "not a number").unwrap(), ArgBytes::Double);
}

#[test]
fn bad_arguments_are_refused() {
    assert_eq!(encode_arg("u8", "256").unwrap_err(), RpcValueError::InvalidValue);
    assert_eq!(encode_arg("u8", "-1").unwrap_err(), RpcValueError::InvalidValue);
    assert_eq!(encode_arg("i16", "abc").unwrap_err(), RpcValueError::InvalidValue);
    assert_eq!(encode_arg("u32", "").unwrap_err(), RpcValueError::InvalidValue);
    assert_eq!(encode_arg("bool", "1").unwrap_err(), RpcValueError::InvalidType);
    assert_eq!(encode_arg("", "1").unwrap_err(), RpcValueError::InvalidType);
}

#[test]
fn whole_number_replies_are_shown_in_decimal() {
    assert_eq!(shown("u8", &[200]), "200");
    assert_eq!(shown("u16", &513u16.to_le_bytes()), "513");
    assert_eq!(shown("u32", &4000000000u32.to_le_bytes()), "4000000000");
    assert_eq!(shown("u64", &u64::MAX.to_le_bytes()), "18446744073709551615");
    assert_eq!(shown("i8", &(-3i8).to_le_bytes()), "-3");
    assert_eq!(shown("i8", &[0x80]), "-128");
    assert_eq!(shown("i8", &[0x7F]), "127");
    assert_eq!(shown("i16", &(-12345i16).to_le_bytes()), "-12345");
    assert_eq!(shown("i32", &i32::MIN.to_le_bytes()), "-2147483648");
    assert_eq!(shown("i64", &i64::MIN.to_le_bytes()), "-9223372036854775808");
    assert_eq!(shown("i64", &i64::MAX.to_le_bytes()), "9223372036854775807");
    assert_eq!(shown("i64", &(-1i64).to_le_bytes()), "-1");
    assert_eq!(shown("u8", &[0]), "0");
    // What follows the value is passed over.
    assert_eq!(shown("u8", &[5, 6, 7]), "5");
}

#[test]
fn replies_show_the_numbers_that_typed_values_hold() {
    assert_eq!(shown("u8", &RpcValue::UInt8(200).to_bytes()), "200");
    assert_eq!(shown("u16", &RpcValue::UInt16(65535).to_bytes()), "65535");
    assert_eq!(shown("u32", &RpcValue::UInt32(4294967295).to_bytes()), "4294967295");
    assert_eq!(shown("u64", &RpcValue::UInt64(5000000000).to_bytes()), "5000000000");
    assert_eq!(shown("i8", &RpcValue::Int8(-128).to_bytes()), "-128");
    assert_eq!(shown("i16", &RpcValue::Int16(-300).to_bytes()), "-300");
    assert_eq!(shown("i32", &RpcValue::Int32(i32::MIN).to_bytes()), "-2147483648");
    assert_eq!(shown("i64", &RpcValue::Int64(i64::MIN).to_bytes()), "-9223372036854775808");
    // What an argument is sent as reads back as the number that was written.
    assert_eq!(shown("i64", &bytes("i64", "-5000000000")), "-5000000000");
    assert_eq!(shown("u64", &bytes("u64", "18446744073709551615")), "18446744073709551615");
}

#[test]
fn string_replies_show_text_and_bytes() {
    assert_eq!(shown("string", b"ab"), "\"ab\" [97, 98]");
    assert_eq!(shown("string", &[0xFF, 0x00]), "\"\" [255, 0]");
    assert_eq!(shown("string", &[7]), "\"\u{7}\" [7]");
    assert_eq!(shown("string", &[]), "\"\" []");
    let reply = vec![104u8, 105];
    assert_eq!(
        shown("string", &reply),
        format!("\"{}\" {:?}", std::str::from_utf8(&reply).unwrap(), reply)
    );
}

#[test]
fn floating_point_replies_keep_their_bits() {
    assert_eq!(
        decode_reply("f32", &1.5f32.to_le_bytes().to_vec()).unwrap(),
        ReplyValue::Single(1.5f32.to_bits())
    );
    assert_eq!(
        decode_reply("f64", &(-2.5f64).to_le_bytes().to_vec()).unwrap(),
        ReplyValue::Double((-2.5f64).to_bits())
    );
}

#[test]
fn short_replies_are_refused() {
    assert_eq!(decode_reply("u8", &vec![]).unwrap_err(), RpcValueError::TooShort);
    assert_eq!(decode_reply("u16", &vec![1]).unwrap_err(), RpcValueError::TooShort);
    assert_eq!(decode_reply("i32", &vec![1, 2, 3]).unwrap_err(), RpcValueError::TooShort);
    assert_eq!(decode_reply("f64", &vec![0; 7]).unwrap_err(), RpcValueError::TooShort);
    assert_eq!(decode_reply("what", &vec![0; 7]).unwrap_err(), RpcValueError::InvalidType);
}

#[test]
fn types_are_chosen_as_given_or_looked_up() {
    assert_eq!(request_type_choice(Some("u8".to_string()), false), TypeChoice::Use("u8".to_string()));
    assert_eq!(request_type_choice(Some("u8".to_string()), true), TypeChoice::Use("u8".to_string()));
    assert_eq!(request_type_choice(None, true), TypeChoice::Lookup);
    assert_eq!(request_type_choice(None, false), TypeChoice::Nothing);
    assert_eq!(
        reply_type_choice(Some("i8".to_string()), Some("u8".to_string())),
        TypeChoice::Use("i8".to_string())
    );
    assert_eq!(reply_type_choice(None, Some("u8".to_string())), TypeChoice::Use("u8".to_string()));
    assert_eq!(reply_type_choice(None, None), TypeChoice::Lookup);
    assert_eq!(looked_up_type(String::new()), ("string".to_string(), true));
    assert_eq!(looked_up_type("f32".to_string()), ("f32".to_string(), false));
}

#[test]
fn meta_word_gives_kind_size_and_permissions() {
    let spec = parse_rpc_spec(0x0741, "dev.rate".to_string());
    assert_eq!(spec.full_name, "dev.rate");
    assert_eq!(spec.data_kind, RpcDataKind::UInt);
    assert_eq!(spec.data_size, 4);
    assert!(spec.readable && spec.writable && spec.persistent);
    assert_eq!(spec.type_str(), "u32");
    assert_eq!(spec.perm_str(), "RWP");
    assert_eq!(spec.describe(), "RWP dev.rate(u32)");
    let spec = parse_rpc_spec(0x0183, "x".to_string());
    assert_eq!(spec.data_kind, RpcDataKind::Float);
    assert_eq!(spec.type_str(), "f64");
    assert_eq!(spec.perm_str(), "R--");
    let spec = parse_rpc_spec(0x0204, "name".to_string());
    assert_eq!(spec.type_str(), "string");
    assert_eq!(spec.perm_str(), "-W-");
    let spec = parse_rpc_spec(0x0000, "act".to_string());
    assert_eq!(spec.data_kind, RpcDataKind::Unknown);
    assert_eq!(spec.type_str(), "");
    assert_eq!(spec.describe(), "--- act()");
    assert_eq!(parse_rpc_spec(0x0012, "a".to_string()).type_str(), "i8");
    assert_eq!(parse_rpc_spec(0x0022, "a".to_string()).type_str(), "i16");
    assert_eq!(parse_rpc_spec(0x0082, "a".to_string()).type_str(), "i64");
    assert_eq!(parse_rpc_spec(0x0043, "a".to_string()).type_str(), "f32");
    // A size that no type of the kind has names no type.
    assert_eq!(parse_rpc_spec(0x0031, "a".to_string()).type_str(), "");
    assert_eq!(parse_rpc_spec(0x0023, "a".to_string()).type_str(), "");
    assert_eq!(parse_rpc_spec(0x0405, "a".to_string()).perm_str(), "--P");
}

#[test]
fn type_from_info_is_empty_without_an_answer() {
    assert_eq!(type_from_info(Some(0x0011), "a"), "u8");
    assert_eq!(type_from_info(None, "a"), "");
}

#[test]
fn dump_names_follow_capture() {
    assert_eq!(dump_rpc_name("dev.capture", false), "dev.capture");
    assert_eq!(dump_rpc_name("dev.capture", true), "dev.capture.block");
    assert_eq!(trigger_rpc_name("dev.capture"), "dev.capture.trigger");
}

#[test]
fn pager_asks_for_pages_until_invalid_args() {
    let mut pager = Pager::new();
    assert_eq!(pager.request(), Some(vec![0, 0]));
    pager.on_reply(vec![1, 2]).unwrap();
    assert_eq!(pager.request(), Some(vec![1, 0]));
    pager.on_reply(vec![]).unwrap();
    assert_eq!(pager.request(), Some(vec![2, 0]));
    pager.on_reply(vec![3]).unwrap();
    pager.on_error(RpcErrorCode::InvalidArgs).unwrap();
    assert_eq!(pager.request(), None);
    assert_eq!(pager.on_reply(vec![9]).unwrap_err(), PagerError::Finished);
    let pages = pager.into_pages();
    assert_eq!(pages, vec![vec![1, 2], vec![], vec![3]]);
    assert_eq!(join_pages(&pages), vec![1, 2, 3]);
}

#[test]
fn pager_fails_on_other_errors() {
    let mut pager = Pager::new();
    for code in [
        RpcErrorCode::NotFound,
        RpcErrorCode::Unauthorized,
        RpcErrorCode::Busy,
        RpcErrorCode::Internal,
        RpcErrorCode::Timeout,
        RpcErrorCode::Other(99),
    ] {
        assert_eq!(pager.on_error(code).unwrap_err(), PagerError::Failed);
        assert_eq!(pager.request(), Some(vec![0, 0]));
    }
}

#[test]
fn pager_stops_after_the_last_page_number() {
    let mut pager = Pager::new();
    for i in 0..65536u32 {
        assert_eq!(pager.request(), Some((i as u16).to_le_bytes().to_vec()));
        pager.on_reply(vec![]).unwrap();
    }
    assert_eq!(pager.request(), None);
    assert_eq!(pager.on_reply(vec![]).unwrap_err(), PagerError::Finished);
    assert_eq!(pager.into_pages().len(), 65536);
}

#[test]
fn list_entries_hold_meta_word_and_name() {
    assert_eq!(list_entry(&vec![0x41, 0x07, b'a', b'.', b'b']), Some((0x0741, "a.b".to_string())));
    assert_eq!(list_entry(&vec![1, 0]), Some((1, String::new())));
    assert_eq!(list_entry(&vec![1]), None);
    assert_eq!(list_entry(&vec![1, 0, 0xFF]), None);
}

#[test]
fn replies_are_matched_by_id() {
    let reply = |id| Payload::RpcReply(RpcReply { id, reply: vec![1] });
    let error = |id| {
        Payload::RpcError(RpcError { id, error: RpcErrorCode::Busy, message: "later".to_string() })
    };
    assert!(matches!(classify_reply(5, &reply(5)), ReplyMatch::Reply(ref b) if b == &[1]));
    assert!(matches!(classify_reply(5, &reply(6)), ReplyMatch::Unrelated));
    assert!(matches!(
        classify_reply(5, &error(5)),
        ReplyMatch::Refused(RpcErrorCode::Busy, ref m) if m == "later"
    ));
    assert!(matches!(classify_reply(5, &error(4)), ReplyMatch::Unrelated));
    assert!(matches!(classify_reply(5, &Payload::Heartbeat(vec![])), ReplyMatch::Unrelated));
}

#[test]
fn typed_values_travel_little_endian_at_fixed_width() {
    assert_eq!(RpcValue::UInt8(200).to_bytes(), 200u8.to_le_bytes());
    assert_eq!(RpcValue::UInt16(513).to_bytes(), 513u16.to_le_bytes());
    assert_eq!(RpcValue::UInt32(0xDEADBEEF).to_bytes(), 0xDEADBEEFu32.to_le_bytes());
    assert_eq!(RpcValue::UInt64(u64::MAX - 5).to_bytes(), (u64::MAX - 5).to_le_bytes());
    assert_eq!(RpcValue::Int8(-3).to_bytes(), (-3i8).to_le_bytes());
    assert_eq!(RpcValue::Int16(i16::MIN).to_bytes(), i16::MIN.to_le_bytes());
    assert_eq!(RpcValue::Int32(-123456).to_bytes(), (-123456i32).to_le_bytes());
    assert_eq!(RpcValue::Int64(i64::MIN).to_bytes(), i64::MIN.to_le_bytes());
    assert_eq!(RpcValue::Int64(-1).to_bytes(), (-1i64).to_le_bytes());
    assert_eq!(RpcValue::Float32(1.5f32.to_bits()).to_bytes(), 1.5f32.to_le_bytes());
    assert_eq!(RpcValue::Float64(2.5f64.to_bits()).to_bytes(), 2.5f64.to_le_bytes());
    assert_eq!(RpcValue::Text("héllo".to_string()).to_bytes(), "héllo".as_bytes());
}

#[test]
fn typed_values_read_back() {
    let values = vec![
        RpcValue::UInt8(0),
        RpcValue::UInt8(255),
        RpcValue::UInt16(65535),
        RpcValue::UInt32(4000000000),
        RpcValue::UInt64(u64::MAX),
        RpcValue::Int8(i8::MIN),
        RpcValue::Int8(i8::MAX),
        RpcValue::Int16(-1),
        RpcValue::Int32(i32::MIN),
        RpcValue::Int32(i32::MAX),
        RpcValue::Int64(i64::MIN),
        RpcValue::Int64(i64::MAX),
        RpcValue::Float32(f32::NAN.to_bits()),
        RpcValue::Float64((-0.0f64).to_bits()),
        RpcValue::Text(String::new()),
        RpcValue::Text("dev.name".to_string()),
    ];
    for value in values {
        let bytes = value.to_bytes();
        assert_eq!(RpcValue::from_bytes(value.kind(), &bytes), Some(value));
    }
}

#[test]
fn typed_values_need_their_width() {
    assert_eq!(RpcValue::from_bytes(RpcType::UInt8, &vec![]), None);
    assert_eq!(RpcValue::from_bytes(RpcType::UInt8, &vec![1, 2]), None);
    assert_eq!(RpcValue::from_bytes(RpcType::Int16, &vec![1]), None);
    assert_eq!(RpcValue::from_bytes(RpcType::UInt32, &vec![1, 2, 3, 4, 5]), None);
    assert_eq!(RpcValue::from_bytes(RpcType::Float64, &vec![0; 4]), None);
    assert_eq!(RpcValue::from_bytes(RpcType::Text, &vec![0xFF]), None);
    assert_eq!(RpcValue::from_bytes(RpcType::Int8, &vec![0xFF]), Some(RpcValue::Int8(-1)));
    assert_eq!(
        RpcValue::from_bytes(RpcType::Int64, &vec![0xFE, 0xFF, 0xFF, 0xFF, 0xFF, 0xFF, 0xFF, 0xFF]),
        Some(RpcValue::Int64(-2))
    );
}
