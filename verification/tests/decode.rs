use jprops::de::field::{decode_field, infer};
use jprops::de::{Deserializer, Error};
use jprops::from_str;
use jprops::model::{FieldShape, FieldValue, Hint, Record, Scalar, Shape, TopValue};

fn shape_field(name: &str, hint: Hint) -> FieldShape {
    FieldShape { name: name.to_string(), hint }
}

fn field(name: &str, value: Scalar) -> FieldValue {
    FieldValue { name: name.to_string(), value: Some(value) }
}

#[allow(non_camel_case_types)]
#[derive(Debug, Clone, Copy, PartialEq)]
enum Type {
    bool,
    i8,
    i16,
    i32,
    i64,
    i128,
    u8,
    u16,
    u32,
    u64,
    u128,
}

fn check(ty: Type, v: String) {
    let got = match infer(&v) {
        Scalar::Bool(_) => Type::bool,
        Scalar::I8(_) => Type::i8,
        Scalar::I16(_) => Type::i16,
        Scalar::I32(_) => Type::i32,
        Scalar::I64(_) => Type::i64,
        Scalar::I128(_) => Type::i128,
        Scalar::U8(_) => Type::u8,
        Scalar::U16(_) => Type::u16,
        Scalar::U32(_) => Type::u32,
        Scalar::U64(_) => Type::u64,
        Scalar::U128(_) => Type::u128,
        other => panic!("unexpected scalar {:?}", other),
    };
    assert_eq!(ty, got);
}

#[test]
fn test_deserialize_any() {
    // In bounds
    check(Type::u8, format!("{}", u8::MAX));
    check(Type::u16, format!("{}", u16::MAX));
    check(Type::u32, format!("{}", u32::MAX));
    check(Type::u64, format!("{}", u64::MAX));

    check(Type::i8, format!("{}", i8::MIN));
    check(Type::i16, format!("{}", i16::MIN));
    check(Type::i32, format!("{}", i32::MIN));
    check(Type::i64, format!("{}", i64::MIN));

    // Out of bounds
    check(Type::u16, format!("{}", u16::from(u8::MAX) + 1));
    check(Type::u32, format!("{}", u32::from(u16::MAX) + 1));
    check(Type::u64, format!("{}", u64::from(u32::MAX) + 1));
    check(Type::u128, format!("{}", u128::from(u64::MAX) + 1));

    check(Type::i16, format!("{}", i16::from(i8::MIN) - 1));
    check(Type::i32, format!("{}", i32::from(i16::MIN) - 1));
    check(Type::i64, format!("{}", i64::from(i32::MIN) - 1));
    check(Type::i128, format!("{}", i128::from(i64::MIN) - 1));
}

#[test]
fn test() {
    let data = "
recordcount=1000
operationcount=1000
workload=site.ycsb.workloads.CoreWorkload

readallfields=true

readproportion=0.5
updateproportion=0.5
scanproportion=0
insertproportion=0

requestdistribution=zipfian
";
    let shape = Shape::StructOf(vec![
        shape_field("recordcount", Hint::U64),
        shape_field("operationcount", Hint::U64),
        shape_field("workload", Hint::Text),
        shape_field("readallfields", Hint::Bool),
        shape_field("readproportion", Hint::F32),
        shape_field("updateproportion", Hint::F32),
        shape_field("scanproportion", Hint::F32),
        shape_field("insertproportion", Hint::F32),
        shape_field("requestdistribution", Hint::Text),
    ]);
    let workload_a = from_str(data, &shape).unwrap();
    assert_eq!(
        workload_a,
        TopValue::Rec(vec![
            field("recordcount", Scalar::U64(1000)),
            field("operationcount", Scalar::U64(1000)),
            field("workload", Scalar::Str("site.ycsb.workloads.CoreWorkload".to_string())),
            field("readallfields", Scalar::Bool(true)),
            field("readproportion", Scalar::F32("0.5".to_string())),
            field("updateproportion", Scalar::F32("0.5".to_string())),
            field("scanproportion", Scalar::F32("0".to_string())),
            field("insertproportion", Scalar::F32("0".to_string())),
            field("requestdistribution", Scalar::Str("zipfian".to_string())),
        ])
    );
    // The float fields carry text that parses back to the source numbers.
    if let TopValue::Rec(fields) = workload_a {
        match &fields[4].value {
            Some(Scalar::F32(t)) => assert_eq!(t.parse::<f32>().unwrap(), 0.5),
            other => panic!("unexpected field {:?}", other),
        }
        match &fields[6].value {
            Some(Scalar::F32(t)) => assert_eq!(t.parse::<f32>().unwrap(), 0.0),
            other => panic!("unexpected field {:?}", other),
        }
    }
}

#[test]
fn infer_non_numeric_steps() {
    assert_eq!(infer("true"), Scalar::Bool(true));
    assert_eq!(infer("false"), Scalar::Bool(false));
    assert_eq!(infer("0.5"), Scalar::F32("0.5".to_string()));
    assert_eq!(infer("1e3"), Scalar::F32("1e3".to_string()));
    assert_eq!(infer("-inf"), Scalar::F32("-inf".to_string()));
    assert_eq!(infer("NaN"), Scalar::F32("NaN".to_string()));
    assert_eq!(infer("zipfian"), Scalar::Str("zipfian".to_string()));
    assert_eq!(infer(""), Scalar::Str("".to_string()));
    assert_eq!(infer("1.2.3"), Scalar::Str("1.2.3".to_string()));
    assert_eq!(infer("+7"), Scalar::U8(7));
    assert_eq!(infer("-5"), Scalar::I8(-5));
    // A signed zero fails the unsigned attempt and lands at the narrowest
    // signed width that holds zero.
    assert_eq!(infer("-0"), Scalar::I8(0));
    assert_eq!(infer("-00"), Scalar::I8(0));
}

#[test]
fn hinted_decode_errors() {
    assert!(matches!(
        decode_field("abc", &Hint::U8),
        Err(Error::ParseIntError { .. })
    ));
    assert!(matches!(
        decode_field("300", &Hint::U8),
        Err(Error::ParseIntError { .. })
    ));
    assert!(matches!(
        decode_field("-1", &Hint::U64),
        Err(Error::ParseIntError { .. })
    ));
    assert!(matches!(
        decode_field("x1", &Hint::F32),
        Err(Error::ParseFloatError { .. })
    ));
    assert!(matches!(
        decode_field("yes", &Hint::Bool),
        Err(Error::ParseBoolError { .. })
    ));
    let switch = Hint::UnitEnum(vec!["On".to_string(), "Off".to_string()]);
    assert_eq!(
        decode_field("On", &switch),
        Ok(Some(Scalar::Variant("On".to_string())))
    );
    assert!(matches!(
        decode_field("on", &switch),
        Err(Error::Custom { .. })
    ));
}

#[test]
fn hinted_decode_values() {
    assert_eq!(decode_field("255", &Hint::U8), Ok(Some(Scalar::U8(255))));
    assert_eq!(decode_field("-128", &Hint::I8), Ok(Some(Scalar::I8(-128))));
    assert_eq!(
        decode_field("1000", &Hint::U64),
        Ok(Some(Scalar::U64(1000)))
    );
    assert_eq!(decode_field("true", &Hint::Bool), Ok(Some(Scalar::Bool(true))));
    assert_eq!(
        decode_field("", &Hint::Optional(Box::new(Hint::U8))),
        Ok(None)
    );
    assert_eq!(
        decode_field("9", &Hint::Optional(Box::new(Hint::U8))),
        Ok(Some(Scalar::U8(9)))
    );
    // The string hint takes the raw value verbatim.
    assert_eq!(
        decode_field("true", &Hint::Text),
        Ok(Some(Scalar::Str("true".to_string())))
    );
    assert_eq!(
        decode_field("123", &Hint::Text),
        Ok(Some(Scalar::Str("123".to_string())))
    );
    assert_eq!(
        decode_field("", &Hint::Text),
        Ok(Some(Scalar::Str("".to_string())))
    );
}

#[test]
fn missing_field_reported() {
    let shape = Shape::StructOf(vec![
        shape_field("a", Hint::U8),
        shape_field("b", Hint::U8),
    ]);
    let err = from_str("a=1\n", &shape).unwrap_err();
    assert_eq!(
        err,
        Error::Custom { msg: "missing field `b`".to_string() }
    );
}

#[test]
fn missing_optional_field_is_absent() {
    let shape = Shape::StructOf(vec![
        shape_field("a", Hint::U8),
        shape_field("b", Hint::Optional(Box::new(Hint::U8))),
    ]);
    let got = from_str("a=1\n", &shape).unwrap();
    assert_eq!(
        got,
        TopValue::Rec(vec![
            field("a", Scalar::U8(1)),
            FieldValue { name: "b".to_string(), value: None },
        ])
    );
}

#[test]
fn duplicate_keys_last_write_wins() {
    let shape = Shape::StructOf(vec![shape_field("a", Hint::U8)]);
    let got = from_str("a=1\na=2\n", &shape).unwrap();
    assert_eq!(got, TopValue::Rec(vec![field("a", Scalar::U8(2))]));

    let map_shape = Shape::MapOf(Hint::Any);
    let got = from_str("a=1\nb=5\na=2\n", &map_shape).unwrap();
    if let TopValue::Table(entries) = got {
        assert_eq!(entries.len(), 2);
        assert_eq!(entries[0].key, Scalar::Str("a".to_string()));
        assert_eq!(entries[0].value, Scalar::U8(2));
        assert_eq!(entries[1].key, Scalar::Str("b".to_string()));
        assert_eq!(entries[1].value, Scalar::U8(5));
    } else {
        panic!("expected a table, got {:?}", got);
    }
}

#[test]
fn comments_are_skipped_by_the_line_source() {
    let shape = Shape::MapOf(Hint::Text);
    let got = from_str("# a comment\na: b\n! another\nd=e\n", &shape).unwrap();
    if let TopValue::Table(entries) = got {
        assert_eq!(entries.len(), 2);
        assert_eq!(entries[0].key, Scalar::Str("a".to_string()));
        assert_eq!(entries[0].value, Scalar::Str("b".to_string()));
        assert_eq!(entries[1].key, Scalar::Str("d".to_string()));
        assert_eq!(entries[1].value, Scalar::Str("e".to_string()));
    } else {
        panic!("expected a table, got {:?}", got);
    }
}

#[test]
fn malformed_line_is_a_properties_error() {
    let shape = Shape::MapOf(Hint::Text);
    let err = from_str("a=\\uZZZZ\n", &shape).unwrap_err();
    assert!(matches!(err, Error::Properties { .. }));
}

#[test]
fn enum_decode_tags_and_errors() {
    let shape = Shape::EnumOf {
        tag: "type".to_string(),
        variants: vec![
            jprops::model::VariantShape {
                name: "Var1".to_string(),
                fields: vec![shape_field("key", Hint::U64)],
            },
            jprops::model::VariantShape {
                name: "Var2".to_string(),
                fields: vec![shape_field("msg", Hint::Text)],
            },
        ],
    };
    let got = from_str("type=Var2\nmsg=serde\n", &shape).unwrap();
    assert_eq!(
        got,
        TopValue::Tagged {
            tag: "type".to_string(),
            variant: "Var2".to_string(),
            fields: vec![field("msg", Scalar::Str("serde".to_string()))],
        }
    );
    let err = from_str("kind=Var1\nkey=1\n", &shape).unwrap_err();
    assert_eq!(err, Error::Custom { msg: "missing tag `type`".to_string() });
    let err = from_str("", &shape).unwrap_err();
    assert_eq!(err, Error::Custom { msg: "missing tag `type`".to_string() });
    let err = from_str("type=Var9\n", &shape).unwrap_err();
    assert_eq!(err, Error::Custom { msg: "unknown variant `Var9`".to_string() });
}

#[test]
fn optional_top_level_shape() {
    let inner = Shape::StructOf(vec![shape_field("a", Hint::U8)]);
    let shape = Shape::OptionOf(Box::new(inner));
    assert_eq!(from_str("", &shape).unwrap(), TopValue::Maybe(None));
    let got = from_str("a=3\n", &shape).unwrap();
    assert_eq!(
        got,
        TopValue::Maybe(Some(Box::new(TopValue::Rec(vec![field("a", Scalar::U8(3))]))))
    );
}

#[test]
fn value_step_before_key_step_fails_fast() {
    let mut de = Deserializer::from_records(vec![Record::new(
        "a".to_string(),
        "1".to_string(),
    )]);
    let err = de.next_value(&Hint::Text).unwrap_err();
    assert_eq!(
        err,
        Error::Custom { msg: "value requested before a key was read".to_string() }
    );
    // After a key step the value step succeeds.
    let k = de.next_key().unwrap();
    assert_eq!(k, "a".to_string());
    assert_eq!(de.next_value(&Hint::U8), Ok(Some(Scalar::U8(1))));
}

#[test]
fn latin1_and_utf8_slices() {
    let shape = Shape::MapOf(Hint::Text);
    // 0xE9 is a small e with acute in windows-1252.
    let got = jprops::from_slice(b"k=\xe9\n", &shape).unwrap();
    if let TopValue::Table(entries) = got {
        assert_eq!(entries[0].value, Scalar::Str("\u{e9}".to_string()));
    } else {
        panic!("expected a table, got {:?}", got);
    }
    let text = "k=\u{e9}\n".as_bytes();
    let got = jprops::from_slice_with_encoding(text, jprops::TextEncoding::Utf8, &shape).unwrap();
    if let TopValue::Table(entries) = got {
        assert_eq!(entries[0].value, Scalar::Str("\u{e9}".to_string()));
    } else {
        panic!("expected a table, got {:?}", got);
    }
}

#[test]
fn unknown_keys_are_ignored() {
    let shape = Shape::StructOf(vec![shape_field("a", Hint::U8)]);
    let got = from_str("x=9\na=1\ny=hello\n", &shape).unwrap();
    assert_eq!(got, TopValue::Rec(vec![field("a", Scalar::U8(1))]));
}

#[test]
fn absent_optional_map_values_add_no_entry() {
    let shape = Shape::MapOf(Hint::Optional(Box::new(Hint::U8)));
    let got = from_str("a=\nb=2\n", &shape).unwrap();
    if let TopValue::Table(entries) = got {
        assert_eq!(entries.len(), 1);
        assert_eq!(entries[0].key, Scalar::Str("b".to_string()));
        assert_eq!(entries[0].value, Scalar::U8(2));
    } else {
        panic!("expected a table, got {:?}", got);
    }
}
