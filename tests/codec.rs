use chrono::TimeZone;
use dynomite::{decode, encode, AttributeError, AttributeValue, Attributes, NumKind, Value, ValueType};

fn s(x: &str) -> String {
    x.to_string()
}

fn m(pairs: Vec<(&str, AttributeValue)>) -> Attributes {
    let mut a = Attributes::new();
    for (k, v) in pairs {
        a.insert(k.to_string(), v);
    }
    a
}

fn round_trip(ty: &ValueType, v: Value) {
    let a = encode(ty, &v);
    assert_eq!(decode(ty, a), Ok(v));
}

#[test]
fn option_some_attr() {
    let ty = ValueType::Optional(Box::new(ValueType::Number(NumKind::I32)));
    round_trip(&ty, Value::Number(1));
}

#[test]
fn option_none_attr() {
    let ty = ValueType::Optional(Box::new(ValueType::Number(NumKind::U32)));
    assert_eq!(encode(&ty, &Value::Null), AttributeValue::Null);
    round_trip(&ty, Value::Null);
}

#[test]
fn option_invalid_attr() {
    let ty = ValueType::Optional(Box::new(ValueType::Number(NumKind::U32)));
    assert_eq!(Err(AttributeError::InvalidType), decode(&ty, AttributeValue::Bool(true)));
}

#[test]
fn bool_attr() {
    round_trip(&ValueType::Bool, Value::Bool(true));
}

#[test]
fn string_attr() {
    round_trip(&ValueType::Text, Value::Text(s("test")));
}

#[test]
fn byte_vec_attr_from_attr() {
    round_trip(&ValueType::Binary, Value::Binary(b"test".to_vec()));
}

#[test]
fn numeric_into_attr() {
    assert_eq!(encode(&ValueType::Number(NumKind::I32), &Value::Number(1)), AttributeValue::N(s("1")));
}

#[test]
fn numeric_from_attr() {
    assert_eq!(decode(&ValueType::Number(NumKind::I32), AttributeValue::N(s("1"))), Ok(Value::Number(1)));
}

#[test]
fn string_into_attr() {
    assert_eq!(encode(&ValueType::Text, &Value::Text(s("foo"))), AttributeValue::S(s("foo")));
}

#[test]
fn string_from_attr() {
    assert_eq!(decode(&ValueType::Text, AttributeValue::S(s("foo"))), Ok(Value::Text(s("foo"))));
}

#[test]
fn byte_vec_into_attr() {
    assert_eq!(encode(&ValueType::Binary, &Value::Binary(b"foo".to_vec())), AttributeValue::B(b"foo".to_vec()));
}

#[test]
fn byte_vec_from_attr() {
    assert_eq!(decode(&ValueType::Binary, AttributeValue::B(b"foo".to_vec())), Ok(Value::Binary(b"foo".to_vec())));
}

#[test]
fn numeric_set_into_attr() {
    assert_eq!(
        encode(&ValueType::NumberSet(NumKind::I32), &Value::NumberSet(vec![1, 2, 3])),
        AttributeValue::NS(vec![s("1"), s("2"), s("3")])
    );
}

#[test]
fn numeric_set_from_attr() {
    assert_eq!(
        decode(&ValueType::NumberSet(NumKind::I32), AttributeValue::NS(vec![s("1"), s("2"), s("3")])),
        Ok(Value::NumberSet(vec![1, 2, 3]))
    );
}

#[test]
fn numeric_vec_into_attr() {
    let ty = ValueType::List(Box::new(ValueType::Number(NumKind::I32)));
    let v = Value::List(vec![Value::Number(1), Value::Number(2), Value::Number(3), Value::Number(3)]);
    assert_eq!(
        encode(&ty, &v),
        AttributeValue::L(vec![
            AttributeValue::N(s("1")),
            AttributeValue::N(s("2")),
            AttributeValue::N(s("3")),
            AttributeValue::N(s("3")),
        ])
    );
}

#[test]
fn numeric_vec_from_attr() {
    let ty = ValueType::List(Box::new(ValueType::Number(NumKind::I32)));
    let a = AttributeValue::L(vec![
        AttributeValue::N(s("1")),
        AttributeValue::N(s("2")),
        AttributeValue::N(s("3")),
        AttributeValue::N(s("3")),
    ]);
    assert_eq!(
        decode(&ty, a),
        Ok(Value::List(vec![Value::Number(1), Value::Number(2), Value::Number(3), Value::Number(3)]))
    );
}

#[test]
fn string_set_into_attr() {
    assert_eq!(
        encode(&ValueType::TextSet, &Value::TextSet(vec![s("a"), s("b"), s("c")])),
        AttributeValue::SS(vec![s("a"), s("b"), s("c")])
    );
}

#[test]
fn string_set_from_attr() {
    assert_eq!(
        decode(&ValueType::TextSet, AttributeValue::SS(vec![s("a"), s("b"), s("c")])),
        Ok(Value::TextSet(vec![s("a"), s("b"), s("c")]))
    );
}

#[test]
fn string_vec_into_attr() {
    let ty = ValueType::List(Box::new(ValueType::Text));
    let v = Value::List(vec![Value::Text(s("a")), Value::Text(s("b")), Value::Text(s("c"))]);
    assert_eq!(
        encode(&ty, &v),
        AttributeValue::L(vec![AttributeValue::S(s("a")), AttributeValue::S(s("b")), AttributeValue::S(s("c"))])
    );
}

#[test]
fn string_vec_from_attr() {
    let ty = ValueType::List(Box::new(ValueType::Text));
    let a = AttributeValue::L(vec![AttributeValue::S(s("a")), AttributeValue::S(s("b")), AttributeValue::S(s("c"))]);
    assert_eq!(
        decode(&ty, a),
        Ok(Value::List(vec![Value::Text(s("a")), Value::Text(s("b")), Value::Text(s("c"))]))
    );
}

#[test]
fn hashmap_into_attr() {
    let ty = ValueType::MapOf(Box::new(ValueType::Number(NumKind::I32)));
    assert_eq!(
        encode(&ty, &Value::MapOf(vec![(s("foo"), Value::Number(1))])),
        AttributeValue::M(m(vec![("foo", AttributeValue::N(s("1")))]))
    );
}

#[test]
fn hashmap_from_attr() {
    let ty = ValueType::MapOf(Box::new(ValueType::Number(NumKind::I32)));
    assert_eq!(
        decode(&ty, AttributeValue::M(m(vec![("foo", AttributeValue::N(s("1")))]))),
        Ok(Value::MapOf(vec![(s("foo"), Value::Number(1))]))
    );
}

#[test]
fn btreemap_into_attr() {
    let ty = ValueType::MapOf(Box::new(ValueType::Number(NumKind::U64)));
    assert_eq!(
        encode(&ty, &Value::MapOf(vec![(s("foo"), Value::Number(1))])),
        AttributeValue::M(m(vec![("foo", AttributeValue::N(s("1")))]))
    );
}

#[test]
fn btreemap_from_attr() {
    let ty = ValueType::MapOf(Box::new(ValueType::Number(NumKind::U64)));
    assert_eq!(
        decode(&ty, AttributeValue::M(m(vec![("foo", AttributeValue::N(s("1")))]))),
        Ok(Value::MapOf(vec![(s("foo"), Value::Number(1))]))
    );
}

#[test]
fn cow_str_into_attr() {
    assert_eq!(encode(&ValueType::Text, &Value::Text(s("foo"))), AttributeValue::S(s("foo")));
}

#[test]
fn cow_str_from_attr() {
    assert_eq!(decode(&ValueType::Text, AttributeValue::S(s("foo"))), Ok(Value::Text(s("foo"))));
}

#[test]
fn round_trip_empty_collections() {
    round_trip(&ValueType::TextSet, Value::TextSet(vec![]));
    round_trip(&ValueType::NumberSet(NumKind::I64), Value::NumberSet(vec![]));
    round_trip(&ValueType::BinarySet, Value::BinarySet(vec![]));
    round_trip(&ValueType::List(Box::new(ValueType::Bool)), Value::List(vec![]));
    round_trip(&ValueType::MapOf(Box::new(ValueType::Text)), Value::MapOf(vec![]));
    round_trip(&ValueType::Text, Value::Text(s("")));
}

#[test]
fn round_trip_nested_collections() {
    let ty = ValueType::List(Box::new(ValueType::MapOf(Box::new(ValueType::Optional(Box::new(
        ValueType::NumberSet(NumKind::I16),
    ))))));
    let v = Value::List(vec![
        Value::MapOf(vec![(s("x"), Value::NumberSet(vec![-3, 7])), (s("y"), Value::Null)]),
        Value::MapOf(vec![]),
    ]);
    round_trip(&ty, v);
}

#[test]
fn round_trip_number_limits() {
    round_trip(&ValueType::Number(NumKind::I64), Value::Number(i64::MIN as i128));
    round_trip(&ValueType::Number(NumKind::U64), Value::Number(u64::MAX as i128));
    round_trip(&ValueType::Number(NumKind::I16), Value::Number(-32768));
    assert_eq!(encode(&ValueType::Number(NumKind::I64), &Value::Number(-42)), AttributeValue::N(s("-42")));
}

#[test]
fn type_mismatch_is_invalid_type() {
    assert_eq!(decode(&ValueType::Text, AttributeValue::Bool(true)), Err(AttributeError::InvalidType));
    assert_eq!(decode(&ValueType::Bool, AttributeValue::S(s("true"))), Err(AttributeError::InvalidType));
    assert_eq!(decode(&ValueType::Number(NumKind::I32), AttributeValue::S(s("1"))), Err(AttributeError::InvalidType));
    assert_eq!(
        decode(&ValueType::List(Box::new(ValueType::Text)), AttributeValue::SS(vec![])),
        Err(AttributeError::InvalidType)
    );
}

#[test]
fn malformed_number_is_invalid_format() {
    let ty = ValueType::Number(NumKind::I32);
    assert_eq!(decode(&ty, AttributeValue::N(s("abc"))), Err(AttributeError::InvalidFormat));
    assert_eq!(decode(&ty, AttributeValue::N(s(""))), Err(AttributeError::InvalidFormat));
    assert_eq!(decode(&ty, AttributeValue::N(s("-"))), Err(AttributeError::InvalidFormat));
    assert_eq!(decode(&ty, AttributeValue::N(s("1.5"))), Err(AttributeError::InvalidFormat));
    assert_eq!(decode(&ty, AttributeValue::N(s("+7"))), Ok(Value::Number(7)));
}

#[test]
fn number_out_of_range_is_invalid_format() {
    assert_eq!(decode(&ValueType::Number(NumKind::U16), AttributeValue::N(s("65536"))), Err(AttributeError::InvalidFormat));
    assert_eq!(decode(&ValueType::Number(NumKind::U16), AttributeValue::N(s("65535"))), Ok(Value::Number(65535)));
    assert_eq!(decode(&ValueType::Number(NumKind::U32), AttributeValue::N(s("-1"))), Err(AttributeError::InvalidFormat));
    assert_eq!(decode(&ValueType::Number(NumKind::U32), AttributeValue::N(s("-0"))), Err(AttributeError::InvalidFormat));
    assert_eq!(decode(&ValueType::Number(NumKind::I32), AttributeValue::N(s("-0"))), Ok(Value::Number(0)));
    assert_eq!(
        decode(&ValueType::Number(NumKind::I64), AttributeValue::N(s("99999999999999999999999999999999999999999"))),
        Err(AttributeError::InvalidFormat)
    );
}

#[test]
fn malformed_set_member_fails_whole_set() {
    assert_eq!(
        decode(&ValueType::NumberSet(NumKind::U32), AttributeValue::NS(vec![s("1"), s("x"), s("3")])),
        Err(AttributeError::InvalidFormat)
    );
}

#[test]
fn list_first_failure_wins() {
    let ty = ValueType::List(Box::new(ValueType::Number(NumKind::U32)));
    let a = AttributeValue::L(vec![AttributeValue::N(s("1")), AttributeValue::Bool(false), AttributeValue::N(s("x"))]);
    assert_eq!(decode(&ty, a), Err(AttributeError::InvalidType));
    let a = AttributeValue::L(vec![AttributeValue::N(s("x")), AttributeValue::Bool(false)]);
    assert_eq!(decode(&ty, a), Err(AttributeError::InvalidFormat));
}

#[test]
fn optional_null_is_absent_and_mismatch_still_fails() {
    let ty = ValueType::Optional(Box::new(ValueType::Text));
    assert_eq!(decode(&ty, AttributeValue::Null), Ok(Value::Null));
    assert_eq!(decode(&ty, AttributeValue::S(s("x"))), Ok(Value::Text(s("x"))));
    assert_eq!(decode(&ty, AttributeValue::N(s("1"))), Err(AttributeError::InvalidType));
}

#[test]
fn raw_values_pass_through() {
    let a = AttributeValue::L(vec![AttributeValue::Null, AttributeValue::BS(vec![vec![1, 2]])]);
    let v = decode(&ValueType::Raw, a).unwrap();
    assert_eq!(
        encode(&ValueType::Raw, &v),
        AttributeValue::L(vec![AttributeValue::Null, AttributeValue::BS(vec![vec![1, 2]])])
    );
}

#[test]
fn attributes_insert_replaces_in_place() {
    let mut a = m(vec![("a", AttributeValue::Null), ("b", AttributeValue::Bool(true))]);
    a.insert(s("a"), AttributeValue::N(s("2")));
    assert_eq!(a.len(), 2);
    assert_eq!(a.get("a"), Some(&AttributeValue::N(s("2"))));
    assert_eq!(a.entries[0].0, "a");
    assert_eq!(a.remove("b"), Some(AttributeValue::Bool(true)));
    assert!(!a.contains_key("b"));
    assert_eq!(a.remove("b"), None);
}

#[test]
fn uuid_attr() {
    let value = uuid::Uuid::new_v4().as_u128();
    round_trip(&ValueType::Uuid, Value::Uuid(value));
}

#[test]
fn uuid_invalid_attr() {
    assert_eq!(Err(AttributeError::InvalidType), decode(&ValueType::Uuid, AttributeValue::Bool(true)));
    assert_eq!(Err(AttributeError::InvalidFormat), decode(&ValueType::Uuid, AttributeValue::S(s("not-a-uuid"))));
}

#[test]
fn uuid_is_hyphenated_text() {
    let v = 0xaaaaaaaa_bbbb_cccc_dddd_eeeeeeeeeeee_u128;
    assert_eq!(
        encode(&ValueType::Uuid, &Value::Uuid(v)),
        AttributeValue::S(s("aaaaaaaa-bbbb-cccc-dddd-eeeeeeeeeeee"))
    );
    assert_eq!(
        decode(&ValueType::Uuid, AttributeValue::S(s("AAAAAAAA-BBBB-CCCC-DDDD-EEEEEEEEEEEE"))),
        Ok(Value::Uuid(v))
    );
}

fn parts(dt: chrono::DateTime<chrono::FixedOffset>) -> Value {
    Value::Timestamp(dt.timestamp(), dt.timestamp_subsec_nanos(), dt.offset().local_minus_utc())
}

#[test]
fn chrono_datetime_utc_attr() {
    let now = chrono::Utc::now();
    let value = Value::Timestamp(now.timestamp(), now.timestamp_subsec_nanos(), 0);
    round_trip(&ValueType::Timestamp, value);
}

#[test]
fn chrono_datetime_fixedoffset_attr() {
    let value = chrono::FixedOffset::east_opt(5 * 3600).unwrap().with_ymd_and_hms(2015, 2, 18, 23, 16, 9).unwrap();
    round_trip(&ValueType::Timestamp, parts(value));
    assert_eq!(
        encode(&ValueType::Timestamp, &parts(value)),
        AttributeValue::S(s("2015-02-18T23:16:09+05:00"))
    );
}

#[test]
fn chrono_datetime_invalid_fixedoffset_attr() {
    assert_eq!(Err(AttributeError::InvalidType), decode(&ValueType::Timestamp, AttributeValue::Bool(true)));
    assert_eq!(Err(AttributeError::InvalidFormat), decode(&ValueType::Timestamp, AttributeValue::S(s("yesterday"))));
}

#[test]
fn timestamp_outside_chrono_encodes_null() {
    assert_eq!(encode(&ValueType::Timestamp, &Value::Timestamp(0, 0, 100_000)), AttributeValue::Null);
}

#[test]
fn chrono_datetime_invalid_utc_attr() {
    assert_eq!(Err(AttributeError::InvalidType), decode(&ValueType::Timestamp, AttributeValue::Bool(true)));
}

#[test]
fn chrono_datetime_local_attr() {
    let now = chrono::Local::now();
    let value = Value::Timestamp(now.timestamp(), now.timestamp_subsec_nanos(), now.offset().local_minus_utc());
    round_trip(&ValueType::Timestamp, value);
}

#[test]
fn chrono_datetime_invalid_local_attr() {
    assert_eq!(Err(AttributeError::InvalidType), decode(&ValueType::Timestamp, AttributeValue::Bool(true)));
}

#[test]
fn system_time_attr() {
    let since = std::time::SystemTime::now().duration_since(std::time::UNIX_EPOCH).unwrap();
    let value = Value::Timestamp(since.as_secs() as i64, since.subsec_nanos(), 0);
    round_trip(&ValueType::Timestamp, value);
}

#[test]
fn system_time_invalid_attr() {
    assert_eq!(Err(AttributeError::InvalidType), decode(&ValueType::Timestamp, AttributeValue::Bool(true)));
}

#[test]
fn bytes_attr_from_attr() {
    let value = bytes::Bytes::from("test");
    round_trip(&ValueType::Binary, Value::Binary(value.to_vec()));
}

#[test]
fn bytes_into_attr() {
    let value = bytes::Bytes::from("foo");
    assert_eq!(encode(&ValueType::Binary, &Value::Binary(value.to_vec())), AttributeValue::B(b"foo".to_vec()));
}

#[test]
fn bytes_from_attr() {
    assert_eq!(
        decode(&ValueType::Binary, AttributeValue::B(b"foo".to_vec())),
        Ok(Value::Binary(bytes::Bytes::from("foo").to_vec()))
    );
}
