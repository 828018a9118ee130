use jprops::model::{FieldShape, FieldValue, Hint, MapEntry, Scalar, Shape, TopValue};
use jprops::ser::{check_separator, encode, Error, LineEnd, Serializer};
use jprops::{from_str, to_string, to_vec, to_vec_with_encoding, TextEncoding};

fn field(name: &str, value: Scalar) -> FieldValue {
    FieldValue { name: name.to_string(), value: Some(value) }
}

fn shape_field(name: &str, hint: Hint) -> FieldShape {
    FieldShape { name: name.to_string(), hint }
}

#[test]
fn struct_to_string() {
    let data = TopValue::Rec(vec![
        field("field_a", Scalar::Str("value".to_string())),
        field("field_b", Scalar::U64(100)),
        field("field_c", Scalar::Bool(true)),
    ]);
    let string = to_string(&data).unwrap();
    assert_eq!(string, "field_a=value\nfield_b=100\nfield_c=true\n");
}

#[test]
fn tagged_enum_round_trips() {
    let test1 = TopValue::Tagged {
        tag: "type".to_string(),
        variant: "Var1".to_string(),
        fields: vec![field("key", Scalar::U64(1000))],
    };
    let test2 = TopValue::Tagged {
        tag: "type".to_string(),
        variant: "Var2".to_string(),
        fields: vec![field("msg", Scalar::Str("serde".to_string()))],
    };

    let text1 = to_string(&test1).unwrap();
    let text2 = to_string(&test2).unwrap();

    assert_eq!(text1, "type=Var1\nkey=1000\n");
    assert_eq!(text2, "type=Var2\nmsg=serde\n");

    let shape = Shape::EnumOf {
        tag: "type".to_string(),
        variants: vec![
            jprops::model::VariantShape {
                name: "Var1".to_string(),
                fields: vec![shape_field("key", Hint::U64)],
            },
            jprops::model::VariantShape {
                name: "Var2".to_string(),
                fields: vec![shape_field("msg", Hint::Text)],
            },
        ],
    };
    assert_eq!(from_str(&text1, &shape).unwrap(), test1);
    assert_eq!(from_str(&text2, &shape).unwrap(), test2);
}

#[test]
fn unit_variant_round_trips() {
    let shape = Shape::StructOf(vec![shape_field(
        "light",
        Hint::UnitEnum(vec!["On".to_string(), "Off".to_string()]),
    )]);
    let data = from_str("light: On", &shape).unwrap();
    assert_eq!(
        data,
        TopValue::Rec(vec![field("light", Scalar::Variant("On".to_string()))])
    );
    let out = to_string(&data).unwrap();
    assert_eq!(out, "light=On\n");
}

#[test]
fn absent_optional_not_emitted() {
    let data = TopValue::Rec(vec![
        FieldValue { name: "opt".to_string(), value: None },
        field("other", Scalar::Str("X".to_string())),
    ]);
    let text = to_string(&data).unwrap();
    assert_eq!(text, "other=X\n");
    assert!(!text.contains("opt"));

    let shape = Shape::StructOf(vec![
        shape_field("opt", Hint::Optional(Box::new(Hint::U8))),
        shape_field("other", Hint::Text),
    ]);
    assert_eq!(from_str(&text, &shape).unwrap(), data);
}

#[test]
fn present_optional_unwrapped() {
    let data = TopValue::Rec(vec![field("opt", Scalar::U8(9))]);
    assert_eq!(to_string(&data).unwrap(), "opt=9\n");
}

#[test]
fn top_level_scalar_rejected() {
    assert_eq!(to_string(&TopValue::Bare(Scalar::U8(1))), Err(Error::NotAMap));
    assert_eq!(
        to_string(&TopValue::Bare(Scalar::Str("x".to_string()))),
        Err(Error::NotAMap)
    );
    assert_eq!(to_vec(&TopValue::Bare(Scalar::I64(-3))), Err(Error::NotAMap));
}

#[test]
fn optional_top_level_value() {
    assert_eq!(to_string(&TopValue::Maybe(None)).unwrap(), "");
    let inner = TopValue::Rec(vec![field("a", Scalar::U8(1))]);
    let data = TopValue::Maybe(Some(Box::new(inner)));
    assert_eq!(to_string(&data).unwrap(), "a=1\n");
    // A bare scalar stays rejected under the optional wrapper.
    let bad = TopValue::Maybe(Some(Box::new(TopValue::Bare(Scalar::U8(1)))));
    assert_eq!(to_string(&bad), Err(Error::NotAMap));
}

#[test]
fn map_keys_through_field_encoder() {
    let data = TopValue::Table(vec![
        MapEntry { key: Scalar::U8(1), value: Scalar::Str("one".to_string()) },
        MapEntry { key: Scalar::Str("two".to_string()), value: Scalar::U8(2) },
        MapEntry { key: Scalar::Bool(true), value: Scalar::F64("2.5".to_string()) },
    ]);
    assert_eq!(to_string(&data).unwrap(), "1=one\ntwo=2\ntrue=2.5\n");
}

#[test]
fn integer_rendering_is_minimal_decimal() {
    let data = TopValue::Rec(vec![
        field("a", Scalar::I128(i128::MIN)),
        field("b", Scalar::U128(u128::MAX)),
        field("c", Scalar::I8(-1)),
        field("d", Scalar::U8(0)),
    ]);
    let expected = format!(
        "a={}\nb={}\nc=-1\nd=0\n",
        i128::MIN,
        u128::MAX
    );
    assert_eq!(to_string(&data).unwrap(), expected);
}

#[test]
fn separator_validation() {
    let mut ser = Serializer::new();
    assert!(ser.set_kv_separator("").is_err());
    assert!(ser.set_kv_separator("ab").is_err());
    assert!(ser.set_kv_separator("==").is_err());
    assert!(ser.set_kv_separator(" x ").is_err());
    assert!(ser.set_kv_separator(":").is_ok());
    assert!(ser.set_kv_separator(" = ").is_ok());
    assert!(ser.set_kv_separator("\t").is_ok());
    assert!(check_separator(" : "));
    assert!(!check_separator("::"));
    // An invalid separator fails before any line is written.
    let mut ser = Serializer::new();
    assert!(ser.set_kv_separator(":=").is_err());
    let data = TopValue::Rec(vec![field("a", Scalar::U8(1))]);
    ser.serialize(&data).unwrap();
    assert_eq!(ser.into_bytes(), b"a=1\n".to_vec());
}

#[test]
fn separator_and_line_ending_applied() {
    let mut ser = Serializer::new();
    ser.set_kv_separator(": ").unwrap();
    ser.set_line_ending(LineEnd::CrLf);
    let data = TopValue::Rec(vec![
        field("a", Scalar::U8(1)),
        field("b", Scalar::U8(2)),
    ]);
    ser.serialize(&data).unwrap();
    assert_eq!(ser.into_bytes(), b"a: 1\r\nb: 2\r\n".to_vec());
}

#[test]
fn latin1_and_utf8_output() {
    let data = TopValue::Rec(vec![field("k", Scalar::Str("\u{e9}".to_string()))]);
    assert_eq!(to_vec(&data).unwrap(), b"k=\xe9\n".to_vec());
    assert_eq!(
        to_vec_with_encoding(&data, TextEncoding::Utf8).unwrap(),
        "k=\u{e9}\n".as_bytes().to_vec()
    );
    // A character the 8-bit encoding cannot hold is escaped, not lost.
    let data = TopValue::Rec(vec![field("k", Scalar::Str("\u{4e16}".to_string()))]);
    assert_eq!(to_vec(&data).unwrap(), b"k=\\u4e16\n".to_vec());
}

#[test]
fn escaping_is_the_line_sinks() {
    let data = TopValue::Rec(vec![field("a key", Scalar::Str("a value".to_string()))]);
    assert_eq!(to_string(&data).unwrap(), "a\\ key=a\\ value\n");
}

#[test]
fn records_through_encode() {
    let data = TopValue::Rec(vec![
        field("x", Scalar::Bool(false)),
        field("y", Scalar::F32("1.5".to_string())),
    ]);
    let recs = encode(&data).unwrap();
    assert_eq!(recs.len(), 2);
    assert_eq!(recs[0].key, "x".to_string());
    assert_eq!(recs[0].value, "false".to_string());
    assert_eq!(recs[1].key, "y".to_string());
    assert_eq!(recs[1].value, "1.5".to_string());
}

#[test]
fn map_serializer_pending_key() {
    let ser = Serializer::new();
    let mut map = ser.serialize_map();
    map.serialize_key(&Scalar::U8(7));
    map.serialize_value(&Scalar::Str("seven".to_string())).unwrap();
    map.serialize_key(&Scalar::Str("b".to_string()));
    map.serialize_value(&Scalar::Bool(true)).unwrap();
    let ser = map.end();
    assert_eq!(ser.into_bytes(), b"7=seven\nb=true\n".to_vec());
}

#[test]
fn string_scalar_idempotent_through_codec() {
    for text in ["true", "123", "", "0.5", "  spaced  "] {
        let rendered = jprops::ser::string::render_scalar(&Scalar::Str(text.to_string()));
        assert_eq!(rendered, text);
        let back = jprops::de::field::decode_field(&rendered, &Hint::Text).unwrap();
        assert_eq!(back, Some(Scalar::Str(text.to_string())));
    }
}
