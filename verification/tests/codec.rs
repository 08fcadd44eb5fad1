use plist_codec::{
    decode, encode, to_xml, Dictionary, Error, Event, Integer, Real, Shape, Typed, Uid, Value,
    VariantArg, VariantShape,
};

fn assert_roundtrip(obj: Typed, shape: &Shape, comparison: Option<&[Event]>) {
    let events = encode(&obj);
    if let Some(comparison) = comparison {
        assert_eq!(&events[..], comparison);
    }
    let new_obj = decode(&events, shape).unwrap();
    assert_eq!(new_obj, obj);
}

fn animal_shape() -> Shape {
    Shape::Variant(vec![
        ("Cow".to_string(), VariantShape::Unit),
        (
            "Dog".to_string(),
            VariantShape::Value(Box::new(Shape::Record(vec![
                ("a".to_string(), Shape::Unit),
                ("b".to_string(), Shape::Integer),
                ("d".to_string(), Shape::Optional(Box::new(Shape::Uid))),
            ]))),
        ),
        (
            "Cat".to_string(),
            VariantShape::Value(Box::new(Shape::Record(vec![
                ("age".to_string(), Shape::Integer),
                ("name".to_string(), Shape::String),
                ("firmware".to_string(), Shape::Optional(Box::new(Shape::Integer))),
            ]))),
        ),
    ])
}

#[test]
fn cow() {
    let cow = Typed::Variant("Cow".to_string(), VariantArg::Unit);

    let comparison = &[Event::String("Cow".into())];

    assert_roundtrip(cow, &animal_shape(), Some(comparison));
}

#[test]
fn dog() {
    let dog = Typed::Variant(
        "Dog".to_string(),
        VariantArg::Value(Box::new(Typed::Record(vec![
            ("a".to_string(), Typed::Unit),
            ("b".to_string(), Typed::Integer(Integer::from(12u64))),
            (
                "d".to_string(),
                Typed::Present(Box::new(Typed::Uid(Uid::new(42)))),
            ),
        ]))),
    );

    let comparison = &[
        Event::StartDictionary(Some(1)),
        Event::String("Dog".into()),
        Event::StartDictionary(Some(3)),
        Event::String("a".into()),
        Event::String("".into()),
        Event::String("b".into()),
        Event::Integer(Integer::from(12u64)),
        Event::String("d".into()),
        Event::Uid(Uid::new(42)),
        Event::EndCollection,
        Event::EndCollection,
    ];

    assert_roundtrip(dog, &animal_shape(), Some(comparison));
}

#[test]
fn cat_with_firmware() {
    let cat = Typed::Variant(
        "Cat".to_string(),
        VariantArg::Value(Box::new(Typed::Record(vec![
            ("age".to_string(), Typed::Integer(Integer::from(12u64))),
            ("name".to_string(), Typed::String("Paws".to_owned())),
            (
                "firmware".to_string(),
                Typed::Present(Box::new(Typed::Integer(Integer::from(8u64)))),
            ),
        ]))),
    );

    let comparison = &[
        Event::StartDictionary(Some(1)),
        Event::String("Cat".into()),
        Event::StartDictionary(Some(3)),
        Event::String("age".into()),
        Event::Integer(Integer::from(12u64)),
        Event::String("name".into()),
        Event::String("Paws".into()),
        Event::String("firmware".into()),
        Event::Integer(Integer::from(8u64)),
        Event::EndCollection,
        Event::EndCollection,
    ];

    assert_roundtrip(cat, &animal_shape(), Some(comparison));
}

#[test]
fn cat_without_firmware() {
    let cat = Typed::Variant(
        "Cat".to_string(),
        VariantArg::Value(Box::new(Typed::Record(vec![
            ("age".to_string(), Typed::Integer(Integer::from(-12i64))),
            ("name".to_string(), Typed::String("Paws".to_owned())),
            ("firmware".to_string(), Typed::Absent),
        ]))),
    );

    let comparison = &[
        Event::StartDictionary(Some(1)),
        Event::String("Cat".into()),
        Event::StartDictionary(Some(2)),
        Event::String("age".into()),
        Event::Integer(Integer::from(-12i64)),
        Event::String("name".into()),
        Event::String("Paws".into()),
        Event::EndCollection,
        Event::EndCollection,
    ];

    assert_roundtrip(cat, &animal_shape(), Some(comparison));
}

fn type_with_options_shape(depth: u32) -> Shape {
    // the schema of a self-referential record, unrolled to the depth the
    // value at hand actually reaches
    let c_payload = if depth == 0 {
        Shape::Record(vec![])
    } else {
        type_with_options_shape(depth - 1)
    };
    Shape::Record(vec![
        ("a".to_string(), Shape::Optional(Box::new(Shape::String))),
        (
            "b".to_string(),
            Shape::Optional(Box::new(Shape::Optional(Box::new(Shape::Integer)))),
        ),
        ("c".to_string(), Shape::Optional(Box::new(c_payload))),
    ])
}

#[test]
fn type_with_options() {
    let inner = Typed::Record(vec![
        ("a".to_string(), Typed::Absent),
        (
            "b".to_string(),
            Typed::Present(Box::new(Typed::Present(Box::new(Typed::Integer(
                Integer::from(12u64),
            ))))),
        ),
        ("c".to_string(), Typed::Absent),
    ]);

    let obj = Typed::Record(vec![
        (
            "a".to_string(),
            Typed::Present(Box::new(Typed::String("hello".to_owned()))),
        ),
        ("b".to_string(), Typed::Present(Box::new(Typed::Absent))),
        ("c".to_string(), Typed::Present(Box::new(inner))),
    ]);

    let comparison = &[
        Event::StartDictionary(Some(3)),
        Event::String("a".into()),
        Event::String("hello".into()),
        Event::String("b".into()),
        Event::StartDictionary(Some(1)),
        Event::String("None".into()),
        Event::String("".into()),
        Event::EndCollection,
        Event::String("c".into()),
        Event::StartDictionary(Some(1)),
        Event::String("b".into()),
        Event::StartDictionary(Some(1)),
        Event::String("Some".into()),
        Event::Integer(Integer::from(12u64)),
        Event::EndCollection,
        Event::EndCollection,
        Event::EndCollection,
    ];

    assert_roundtrip(obj, &type_with_options_shape(1), Some(comparison));
}

#[test]
fn option_some() {
    let obj = Typed::Present(Box::new(Typed::Integer(Integer::from(12u64))));

    let comparison = &[Event::Integer(Integer::from(12u64))];

    assert_roundtrip(obj, &Shape::Optional(Box::new(Shape::Integer)), Some(comparison));
}

#[test]
fn option_none() {
    let obj = Typed::Absent;

    let comparison = &[];

    assert_roundtrip(obj, &Shape::Optional(Box::new(Shape::Integer)), Some(comparison));
}

#[test]
fn option_some_some() {
    let obj = Typed::Present(Box::new(Typed::Present(Box::new(Typed::Integer(
        Integer::from(12u64),
    )))));

    let comparison = &[
        Event::StartDictionary(Some(1)),
        Event::String("Some".into()),
        Event::Integer(Integer::from(12u64)),
        Event::EndCollection,
    ];

    assert_roundtrip(
        obj,
        &Shape::Optional(Box::new(Shape::Optional(Box::new(Shape::Integer)))),
        Some(comparison),
    );
}

#[test]
fn option_some_none() {
    let obj = Typed::Present(Box::new(Typed::Absent));

    let comparison = &[
        Event::StartDictionary(Some(1)),
        Event::String("None".into()),
        Event::String("".into()),
        Event::EndCollection,
    ];

    assert_roundtrip(
        obj,
        &Shape::Optional(Box::new(Shape::Optional(Box::new(Shape::Integer)))),
        Some(comparison),
    );
}

#[test]
fn option_dictionary_values() {
    let obj = Typed::Dict(vec![
        (Typed::String("a".to_string()), Typed::Absent),
        (
            Typed::String("b".to_string()),
            Typed::Present(Box::new(Typed::Absent)),
        ),
        (
            Typed::String("c".to_string()),
            Typed::Present(Box::new(Typed::Present(Box::new(Typed::Integer(
                Integer::from(144u64),
            ))))),
        ),
    ]);

    let comparison = &[
        Event::StartDictionary(Some(3)),
        Event::String("a".into()),
        Event::StartDictionary(Some(1)),
        Event::String("None".into()),
        Event::String("".into()),
        Event::EndCollection,
        Event::String("b".into()),
        Event::StartDictionary(Some(1)),
        Event::String("Some".into()),
        Event::StartDictionary(Some(1)),
        Event::String("None".into()),
        Event::String("".into()),
        Event::EndCollection,
        Event::EndCollection,
        Event::String("c".into()),
        Event::StartDictionary(Some(1)),
        Event::String("Some".into()),
        Event::StartDictionary(Some(1)),
        Event::String("Some".into()),
        Event::Integer(Integer::from(144u64)),
        Event::EndCollection,
        Event::EndCollection,
        Event::EndCollection,
    ];

    let shape = Shape::Dict(
        Box::new(Shape::String),
        Box::new(Shape::Optional(Box::new(Shape::Optional(Box::new(
            Shape::Integer,
        ))))),
    );
    assert_roundtrip(obj, &shape, Some(comparison));
}

#[test]
fn option_dictionary_keys() {
    let obj = Typed::Dict(vec![
        (Typed::Absent, Typed::Integer(Integer::from(1u64))),
        (
            Typed::Present(Box::new(Typed::Absent)),
            Typed::Integer(Integer::from(2u64)),
        ),
        (
            Typed::Present(Box::new(Typed::Present(Box::new(Typed::Integer(
                Integer::from(144u64),
            ))))),
            Typed::Integer(Integer::from(3u64)),
        ),
    ]);

    let comparison = &[
        Event::StartDictionary(Some(3)),
        Event::StartDictionary(Some(1)),
        Event::String("None".into()),
        Event::String("".into()),
        Event::EndCollection,
        Event::Integer(Integer::from(1u64)),
        Event::StartDictionary(Some(1)),
        Event::String("Some".into()),
        Event::StartDictionary(Some(1)),
        Event::String("None".into()),
        Event::String("".into()),
        Event::EndCollection,
        Event::EndCollection,
        Event::Integer(Integer::from(2u64)),
        Event::StartDictionary(Some(1)),
        Event::String("Some".into()),
        Event::StartDictionary(Some(1)),
        Event::String("Some".into()),
        Event::Integer(Integer::from(144u64)),
        Event::EndCollection,
        Event::EndCollection,
        Event::Integer(Integer::from(3u64)),
        Event::EndCollection,
    ];

    let shape = Shape::Dict(
        Box::new(Shape::Optional(Box::new(Shape::Optional(Box::new(
            Shape::Integer,
        ))))),
        Box::new(Shape::Integer),
    );
    assert_roundtrip(obj, &shape, Some(comparison));
}

fn foo_shape() -> Shape {
    Shape::Variant(vec![
        ("Unit".to_string(), VariantShape::Unit),
        (
            "Struct".to_string(),
            VariantShape::Value(Box::new(Shape::Record(vec![
                ("v".to_string(), Shape::Integer),
                ("s".to_string(), Shape::String),
            ]))),
        ),
    ])
}

#[test]
fn enum_variant_types() {
    let expected = &[Event::String("Unit".into())];
    assert_roundtrip(
        Typed::Variant("Unit".to_string(), VariantArg::Unit),
        &foo_shape(),
        Some(expected),
    );

    let expected = &[
        Event::StartDictionary(Some(1)),
        Event::String("Struct".into()),
        Event::StartDictionary(Some(2)),
        Event::String("v".into()),
        Event::Integer(Integer::from(42u64)),
        Event::String("s".into()),
        Event::String("bar".into()),
        Event::EndCollection,
        Event::EndCollection,
    ];
    assert_roundtrip(
        Typed::Variant(
            "Struct".to_string(),
            VariantArg::Value(Box::new(Typed::Record(vec![
                ("v".to_string(), Typed::Integer(Integer::from(42u64))),
                ("s".to_string(), Typed::String("bar".into())),
            ]))),
        ),
        &foo_shape(),
        Some(expected),
    );
}

#[test]
fn deserialise_old_enum_unit_variant_encoding() {
    let shape = Shape::Variant(vec![
        ("Bar".to_string(), VariantShape::Unit),
        ("Baz".to_string(), VariantShape::Unit),
    ]);

    // unit enum variants were once serialised as if they were newtype
    // variants containing an empty string
    let events = vec![
        Event::StartDictionary(Some(1)),
        Event::String("Baz".into()),
        Event::String("".into()),
        Event::EndCollection,
    ];

    let obj = decode(&events, &shape).unwrap();

    assert_eq!(obj, Typed::Variant("Baz".to_string(), VariantArg::Unit));
}

#[test]
fn legacy_unit_variant_with_unknown_hint() {
    let shape = Shape::Variant(vec![("Baz".to_string(), VariantShape::Unit)]);
    let events = vec![
        Event::StartDictionary(None),
        Event::String("Baz".into()),
        Event::String("".into()),
        Event::EndCollection,
    ];
    assert_eq!(
        decode(&events, &shape).unwrap(),
        Typed::Variant("Baz".to_string(), VariantArg::Unit)
    );
}

#[test]
fn dictionary_serialize_xml() {
    // Dictionary to be embedded in dict, below.
    let mut inner_dict = Dictionary::new();
    inner_dict.insert(
        "FirstKey".to_owned(),
        Value::String("FirstValue".to_owned()),
    );
    inner_dict.insert(
        "SecondKey".to_owned(),
        Value::Real(Real::from_text(1.234f64.to_string())),
    );

    // Top-level dictionary.
    let mut dict = Dictionary::new();
    dict.insert("ADictionary".to_owned(), Value::Dictionary(inner_dict));
    dict.insert("AnInteger".to_owned(), Value::Integer(Integer::from(123i64)));
    dict.insert("ATrueBoolean".to_owned(), Value::Boolean(true));
    dict.insert("AFalseBoolean".to_owned(), Value::Boolean(false));

    let xml = to_xml(&Value::Dictionary(dict));

    let comparison = "<?xml version=\"1.0\" encoding=\"UTF-8\"?>
<!DOCTYPE plist PUBLIC \"-//Apple//DTD PLIST 1.0//EN\" \"http://www.apple.com/DTDs/PropertyList-1.0.dtd\">
<plist version=\"1.0\">
<d>
\t<k>ADictionary</k>
\t<d>
\t\t<k>FirstKey</k>
\t\t<s>FirstValue</s>
\t\t<k>SecondKey</k>
\t\t<r>1.234</r>
\t</d>
\t<k>AnInteger</k>
\t<i>123</i>
\t<k>ATrueBoolean</k>
\t<t/>
\t<k>AFalseBoolean</k>
\t<f/>
</d>
</plist>";

    assert_eq!(xml, comparison);
}

#[test]
fn integer_range_extremes() {
    // the full unsigned range survives a round trip
    let big = Typed::Integer(Integer::from(18446744073709551615u64));
    let events = encode(&big);
    let back = decode(&events, &Shape::Integer).unwrap();
    match back {
        Typed::Integer(i) => {
            assert_eq!(i.as_unsigned(), Some(18446744073709551615u64));
            assert_eq!(i.as_signed(), None);
        },
        _ => panic!("expected an integer"),
    }

    // the full signed range survives a round trip
    let small = Typed::Integer(Integer::from(-9223372036854775808i64));
    let events = encode(&small);
    let back = decode(&events, &Shape::Integer).unwrap();
    match back {
        Typed::Integer(i) => {
            assert_eq!(i.as_signed(), Some(-9223372036854775808i64));
            assert_eq!(i.as_unsigned(), None);
        },
        _ => panic!("expected an integer"),
    }

    // cross-signedness accessors fail rather than wrap
    assert_eq!(Integer::from(-1i64).as_unsigned(), None);
    assert_eq!(Integer::from(u64::MAX).as_signed(), None);
    assert_eq!(Integer::from(42u64).as_signed(), Some(42));
    assert_eq!(Integer::from(42u64).as_unsigned(), Some(42));
}

#[test]
fn dictionary_order_preserved() {
    // keys inserted out of lexical order come back in insertion order
    let obj = Typed::Dict(vec![
        (Typed::String("K2".to_string()), Typed::Integer(Integer::from(2u64))),
        (Typed::String("K3".to_string()), Typed::Integer(Integer::from(3u64))),
        (Typed::String("K1".to_string()), Typed::Integer(Integer::from(1u64))),
    ]);
    let shape = Shape::Dict(Box::new(Shape::String), Box::new(Shape::Integer));
    let events = encode(&obj);
    let back = decode(&events, &shape).unwrap();
    assert_eq!(back, obj);

    // and the standalone dictionary keeps insertion order under overwrites
    let mut d = Dictionary::new();
    d.insert("K2".to_string(), Value::Integer(Integer::from(2u64)));
    d.insert("K3".to_string(), Value::Integer(Integer::from(3u64)));
    d.insert("K1".to_string(), Value::Integer(Integer::from(1u64)));
    d.insert("K2".to_string(), Value::Integer(Integer::from(20u64)));
    assert_eq!(d.len(), 3);
    let keys: Vec<&str> = d.entries().iter().map(|e| e.0.as_str()).collect();
    assert_eq!(keys, vec!["K2", "K3", "K1"]);
    assert_eq!(
        d.get("K2"),
        Some(&Value::Integer(Integer::from(20u64)))
    );
    assert_eq!(d.get("K4"), None);
}

#[test]
fn field_omission_emits_no_key() {
    let obj = Typed::Record(vec![
        ("x".to_string(), Typed::Integer(Integer::from(7u64))),
        ("y".to_string(), Typed::Absent),
        ("z".to_string(), Typed::Boolean(true)),
    ]);
    let shape = Shape::Record(vec![
        ("x".to_string(), Shape::Integer),
        ("y".to_string(), Shape::Optional(Box::new(Shape::String))),
        ("z".to_string(), Shape::Boolean),
    ]);
    let comparison = &[
        Event::StartDictionary(Some(2)),
        Event::String("x".into()),
        Event::Integer(Integer::from(7u64)),
        Event::String("z".into()),
        Event::Boolean(true),
        Event::EndCollection,
    ];
    assert_roundtrip(obj, &shape, Some(comparison));
}

#[test]
fn uid_and_integer_never_interchange() {
    let uid_events = encode(&Typed::Uid(Uid::new(7)));
    assert_eq!(decode(&uid_events, &Shape::Integer), Err(Error::ShapeMismatch));

    let int_events = encode(&Typed::Integer(Integer::from(7u64)));
    assert_eq!(decode(&int_events, &Shape::Uid), Err(Error::ShapeMismatch));

    let back = decode(&uid_events, &Shape::Uid).unwrap();
    assert_eq!(back, Typed::Uid(Uid::new(7)));
    match back {
        Typed::Uid(u) => assert_eq!(u.get(), 7),
        _ => panic!("expected a uid"),
    }
}

#[test]
fn decode_errors() {
    // unknown variant tag
    let shape = Shape::Variant(vec![("Bar".to_string(), VariantShape::Unit)]);
    let events = vec![Event::String("Zebra".into())];
    assert_eq!(decode(&events, &shape), Err(Error::UnknownVariant("Zebra".to_string())));

    // missing required field
    let shape = Shape::Record(vec![("x".to_string(), Shape::Integer)]);
    let events = vec![Event::StartDictionary(None), Event::EndCollection];
    assert_eq!(decode(&events, &shape), Err(Error::MissingField("x".to_string())));

    // truncated stream
    let events = vec![Event::StartDictionary(None)];
    assert_eq!(decode(&events, &shape), Err(Error::UnexpectedEnd));

    // events past the end of the document
    let events = vec![
        Event::Integer(Integer::from(1u64)),
        Event::Integer(Integer::from(2u64)),
    ];
    assert_eq!(decode(&events, &Shape::Integer), Err(Error::TrailingContent));

    // structural kind mismatch
    let events = vec![Event::Boolean(true)];
    assert_eq!(decode(&events, &Shape::Integer), Err(Error::ShapeMismatch));
}

#[test]
fn writer_collects_pushed_events() {
    let mut w = plist_codec::VecWriter::new();
    w.write_start_dictionary(Some(1));
    w.write_string("k".to_string());
    w.write_boolean(true);
    w.write_end_collection();
    let events = w.into_inner();
    assert_eq!(
        events,
        vec![
            Event::StartDictionary(Some(1)),
            Event::String("k".into()),
            Event::Boolean(true),
            Event::EndCollection,
        ]
    );
}

#[test]
fn xml_scalars_and_arrays() {
    let v = Value::Array(vec![
        Value::Integer(Integer::from(-5i64)),
        Value::String("hi".to_string()),
        Value::Boolean(false),
    ]);
    let xml = to_xml(&v);
    let comparison = "<?xml version=\"1.0\" encoding=\"UTF-8\"?>
<!DOCTYPE plist PUBLIC \"-//Apple//DTD PLIST 1.0//EN\" \"http://www.apple.com/DTDs/PropertyList-1.0.dtd\">
<plist version=\"1.0\">
<a>
\t<i>-5</i>
\t<s>hi</s>
\t<f/>
</a>
</plist>";
    assert_eq!(xml, comparison);
}

#[test]
fn value_accessors() {
    assert_eq!(Value::Boolean(true).as_boolean(), Some(true));
    assert_eq!(Value::Integer(Integer::from(3u64)).as_boolean(), None);
    assert_eq!(Value::String("w".to_string()).as_string(), Some("w"));
    assert_eq!(
        Value::Integer(Integer::from(1564u64)).as_unsigned_integer(),
        Some(1564)
    );
    assert_eq!(
        Value::Integer(Integer::from(-9223372036854775808i64)).as_signed_integer(),
        Some(-9223372036854775808)
    );
    let r = Value::Real(Real::from_text(1.6f64.to_string()));
    assert_eq!(r.as_real().map(|x| x.as_text()), Some("1.6"));
}

#[test]
fn untyped_round_trip_keeps_dictionary_order() {
    let obj = Typed::Dict(vec![
        (Typed::String("K2".to_string()), Typed::Boolean(true)),
        (Typed::String("K1".to_string()), Typed::Integer(Integer::from(7u64))),
    ]);
    let events = encode(&obj);
    let v = plist_codec::decode_untyped(&events).unwrap();
    let d = v.as_dictionary().unwrap();
    let keys: Vec<&str> = d.entries().iter().map(|e| e.0.as_str()).collect();
    assert_eq!(keys, vec!["K2", "K1"]);
    assert_eq!(d.get("K1"), Some(&Value::Integer(Integer::from(7u64))));
}

#[test]
fn untyped_duplicate_key_overwrites_in_place() {
    let events = vec![
        Event::StartDictionary(None),
        Event::String("x".into()),
        Event::Integer(Integer::from(1u64)),
        Event::String("y".into()),
        Event::Integer(Integer::from(5u64)),
        Event::String("x".into()),
        Event::Integer(Integer::from(2u64)),
        Event::EndCollection,
    ];
    let v = plist_codec::decode_untyped(&events).unwrap();
    let d = v.as_dictionary().unwrap();
    let keys: Vec<&str> = d.entries().iter().map(|e| e.0.as_str()).collect();
    assert_eq!(keys, vec!["x", "y"]);
    assert_eq!(d.get("x"), Some(&Value::Integer(Integer::from(2u64))));
}

#[test]
fn untyped_rejects_truncated_stream() {
    let events = vec![Event::StartDictionary(None), Event::String("x".into())];
    assert_eq!(plist_codec::decode_untyped(&events), Err(Error::UnexpectedEnd));
    let events = vec![Event::EndCollection];
    assert_eq!(plist_codec::decode_untyped(&events), Err(Error::ShapeMismatch));
}

#[test]
fn record_keys_in_any_order() {
    let shape = Shape::Record(vec![
        ("x".to_string(), Shape::Integer),
        ("y".to_string(), Shape::Optional(Box::new(Shape::String))),
        ("z".to_string(), Shape::Boolean),
    ]);

    // keys out of declaration order decode into the declared order
    let events = vec![
        Event::StartDictionary(Some(2)),
        Event::String("z".into()),
        Event::Boolean(true),
        Event::String("x".into()),
        Event::Integer(Integer::from(7u64)),
        Event::EndCollection,
    ];
    let obj = decode(&events, &shape).unwrap();
    assert_eq!(
        obj,
        Typed::Record(vec![
            ("x".to_string(), Typed::Integer(Integer::from(7u64))),
            ("y".to_string(), Typed::Absent),
            ("z".to_string(), Typed::Boolean(true)),
        ])
    );

    // a repeated key is rejected
    let events = vec![
        Event::StartDictionary(None),
        Event::String("x".into()),
        Event::Integer(Integer::from(1u64)),
        Event::String("x".into()),
        Event::Integer(Integer::from(2u64)),
        Event::EndCollection,
    ];
    assert_eq!(decode(&events, &shape), Err(Error::ShapeMismatch));

    // a key outside the schema is rejected
    let events = vec![
        Event::StartDictionary(None),
        Event::String("w".into()),
        Event::Integer(Integer::from(1u64)),
        Event::EndCollection,
    ];
    assert_eq!(decode(&events, &shape), Err(Error::ShapeMismatch));
}
