use t2sdk::config::{set_config, ConfigAction};
use t2sdk::connection::Connection;
use t2sdk::f2_packer::Packer;
use t2sdk::f2_record::CodecError;
use t2sdk::json::{array_bytes, array_of_numbers, object_is_simple, pack_object, JsonValue};
use t2sdk::{
    get_pack_version, new_biz_message, new_packer, new_unpacker, new_unpacker_v1, SendError,
    T2Header, T2SDK,
};

fn header() -> T2Header {
    T2Header {
        function_no: 331100,
        system_no: Some(2),
        branch_no: None,
        sub_system_no: Some(5),
        company_id: None,
    }
}

fn connected() -> T2SDK {
    let mut sdk = T2SDK::new();
    assert_eq!(sdk.connect(Connection { sequence: 0 }, 0), Ok(0));
    sdk
}

fn entry(key: &str, value: JsonValue) -> (String, JsonValue) {
    (key.to_string(), value)
}

#[test]
fn simple_object_is_one_row() {
    let body = JsonValue::Object(vec![
        entry("count", JsonValue::Int(-3)),
        entry("flag", JsonValue::Bool(true)),
        entry("big", JsonValue::UInt(u64::MAX)),
        entry("name", JsonValue::Str("中文".to_string())),
        entry("price", JsonValue::Float(2.5f64.to_bits())),
        entry("bytes", JsonValue::Array(vec![
            JsonValue::Int(1),
            JsonValue::Int(-1),
            JsonValue::UInt(300),
            JsonValue::Float(1.0f64.to_bits()),
        ])),
        entry("mixed", JsonValue::Array(vec![JsonValue::Int(1), JsonValue::Null])),
        entry("nothing", JsonValue::Null),
    ]);
    let m = connected().send(header(), &body).unwrap();
    assert_eq!(m.get_function(), 331100);
    assert_eq!(m.get_packet_type(), 0);
    assert_eq!((m.get_system_no(), m.get_branch_no(), m.get_sub_system_no()), (2, 0, 5));
    assert_eq!(m.get_company_id(), 0);

    let content = m.get_content();
    assert_eq!(get_pack_version(&content), Ok(0x20));
    let mut u = new_unpacker(&content).unwrap();
    assert_eq!(u.get_dataset_count(), 1);
    assert_eq!(u.get_col_count(), 5);
    assert_eq!(u.get_row_count(), 1);
    assert_eq!(u.get_int("count"), Ok(-3));
    assert_eq!(u.get_int("big"), Ok(-1));
    assert_eq!(u.get_col_type_by_name("name"), Ok(b'R'));
    assert_eq!(u.get_col_width_by_name("name"), Ok(4));
    assert_eq!(u.get_raw("name"), Ok(vec![0xd6, 0xd0, 0xce, 0xc4]));
    assert_eq!(u.get_double("price").map(f64::from_bits), Ok(2.5));
    assert_eq!(u.get_col_width_by_name("bytes"), Ok(4));
    assert_eq!(u.get_raw("bytes"), Ok(vec![1, 44]));
    assert_eq!(u.get_col_scale(0), Ok(4));
    assert_eq!(u.find_col_index("mixed"), CodecError::ColumnNotFound.code());
}

#[test]
fn nested_objects_are_datasets_by_key() {
    let body = JsonValue::Object(vec![
        entry("skipped", JsonValue::Int(1)),
        entry("first", JsonValue::Object(vec![entry("a", JsonValue::Int(1))])),
        entry("second", JsonValue::Object(vec![
            entry("b", JsonValue::Int(2)),
            entry("deep", JsonValue::Object(vec![])),
        ])),
    ]);
    let m = connected().send(header(), &body).unwrap();
    let mut u = new_unpacker(&m.get_content()).unwrap();
    assert_eq!(u.get_dataset_count(), 2);
    assert_eq!(u.get_dataset_name(), "first");
    assert_eq!(u.get_int("a"), Ok(1));
    assert_eq!(u.set_current_dataset("second"), 0);
    assert_eq!(u.get_col_count(), 1);
    assert_eq!(u.get_int("b"), Ok(2));
}

#[test]
fn array_elements_are_anonymous_datasets() {
    let body = JsonValue::Array(vec![
        JsonValue::Object(vec![entry("a", JsonValue::Int(1))]),
        JsonValue::Int(9),
        JsonValue::Object(vec![entry("a", JsonValue::Int(2))]),
    ]);
    let m = connected().send(header(), &body).unwrap();
    let mut u = new_unpacker(&m.get_content()).unwrap();
    assert_eq!(u.get_dataset_count(), 2);
    assert_eq!(u.get_dataset_name(), "");
    assert_eq!(u.set_current_dataset_by_index(1), 0);
    assert_eq!(u.get_int("a"), Ok(2));
}

#[test]
fn requests_that_cannot_be_made() {
    let sdk = T2SDK::new();
    assert!(!sdk.is_connected());
    let body = JsonValue::Object(vec![]);
    assert!(matches!(sdk.send(header(), &body), Err(SendError::NotConnected)));
    let sdk = connected();
    assert!(matches!(
        sdk.send(header(), &JsonValue::Str("x".to_string())),
        Err(SendError::NotObjectOrArray)
    ));
    assert!(matches!(sdk.send(header(), &JsonValue::Null), Err(SendError::NotObjectOrArray)));
    // a character that GBK lacks
    let body = JsonValue::Object(vec![entry("e", JsonValue::Str("\u{1F600}".to_string()))]);
    assert!(matches!(
        sdk.send(header(), &body),
        Err(SendError::Codec(CodecError::InvalidText))
    ));
    let empty = sdk.send(header(), &JsonValue::Array(vec![])).unwrap();
    assert_eq!(empty.get_content(), vec![0x20, 0, 0, 0, 0]);
}

#[test]
fn connect_and_disconnect() {
    let mut sdk = T2SDK::new();
    assert_eq!(sdk.connect(Connection { sequence: 4 }, -105), Err(-105));
    assert!(!sdk.is_connected());
    assert_eq!(sdk.connect(Connection { sequence: 4 }, 0), Ok(0));
    assert!(sdk.is_connected());
    assert_eq!(sdk.disconnect(), Some(Connection { sequence: 4 }));
    assert_eq!(sdk.disconnect(), None);
}

#[test]
fn strings_in_utf8_when_asked() {
    let mut p = Packer::new(0x20).unwrap();
    let obj = vec![entry("s", JsonValue::Str("héllo".to_string()))];
    assert_eq!(pack_object(&obj, &mut p, 1), Ok(()));
    assert_eq!(pack_object(&obj, &mut p, 1), Err(CodecError::OrderViolation));
    p.end_pack();
    let mut u = p.unpack().unwrap();
    assert_eq!(u.get_col_type(0), Ok(b'S'));
    assert_eq!(u.get_col_width(0), Ok(6));
    assert_eq!(u.get_str("s"), Ok("héllo".to_string()));
}

#[test]
fn cut_inside_a_character_reads_back_lossily() {
    let mut p = Packer::new(0x20).unwrap();
    p.add_field("s", b'S', 2, 0);
    assert!(p.add_str("aé") > 0);
    p.end_pack();
    let mut u = p.unpack().unwrap();
    assert_eq!(u.get_str_bytes_by_index(0), Ok(vec![b'a', 0xc3]));
    assert_eq!(u.get_str("s"), Ok("a\u{fffd}".to_string()));
}

#[test]
fn json_helpers() {
    let numbers = vec![JsonValue::Int(255), JsonValue::Int(256), JsonValue::Float(0)];
    assert!(array_of_numbers(&numbers));
    assert_eq!(array_bytes(&numbers), vec![255, 0]);
    assert!(array_of_numbers(&vec![]));
    assert!(!array_of_numbers(&vec![JsonValue::Str(String::new())]));
    assert!(object_is_simple(&vec![entry("a", JsonValue::Array(vec![]))]));
    assert!(!object_is_simple(&vec![entry("a", JsonValue::Object(vec![]))]));
}

#[test]
fn constructors_by_layout() {
    assert!(new_packer(0x20).is_ok());
    assert!(matches!(new_packer(2), Err(CodecError::BadVersion)));
    let mut p = new_packer(1).unwrap();
    p.add_field("n", b'I', 4, 0);
    p.end_pack();
    let buf = p.get_pack_buf();
    assert_eq!(get_pack_version(&buf), Ok(1));
    assert!(new_unpacker_v1(&buf).is_ok());
    assert!(matches!(new_unpacker(&buf), Err(CodecError::BadVersion)));
    assert_eq!(get_pack_version(&[]), Err(CodecError::Truncated));
    assert_eq!(get_pack_version(&[3]), Err(CodecError::BadVersion));
    assert_eq!(new_biz_message().get_function(), 0);
    assert_eq!(CodecError::from_code(-7), Some(CodecError::TypeMismatch));
    assert_eq!(CodecError::from_code(0), None);
    assert_eq!(CodecError::from_code(CodecError::InvalidText.code()), Some(CodecError::InvalidText));
}

#[test]
fn configuration_becomes_calls_in_order() {
    let config = JsonValue::Object(vec![
        entry("t2sdk", JsonValue::Object(vec![
            entry("servers", JsonValue::Str("127.0.0.1:9000".to_string())),
            entry("send_queue_size", JsonValue::Int(100)),
            entry("too_big", JsonValue::Int(1 << 40)),
            entry("ignored", JsonValue::Bool(true)),
        ])),
        entry("loose", JsonValue::Int(1)),
        entry("safe", JsonValue::Object(vec![entry("safe_level", JsonValue::Str("none".to_string()))])),
    ]);
    let actions = set_config(&config);
    assert_eq!(actions.len(), 3);
    assert!(matches!(&actions[0], ConfigAction::SetString { section, entry, value }
        if section == "t2sdk" && entry == "servers" && value == "127.0.0.1:9000"));
    assert!(matches!(&actions[1], ConfigAction::SetInt { section, entry, number: 100 }
        if section == "t2sdk" && entry == "send_queue_size"));
    assert!(matches!(&actions[2], ConfigAction::SetString { section, entry, value }
        if section == "safe" && entry == "safe_level" && value == "none"));
    assert!(set_config(&JsonValue::Array(vec![])).is_empty());
}
