use divatree::atom::{Atom, ParseAtomError, ScalarAtom};
use divatree::decode::{decode_str, from_str, Field, Payload, Shape, Value, Variant};
use divatree::error::{DeserializerError, Span};
use divatree::text::split_lines;
use divatree::window::LexerChildren;

fn int_atom(x: i64) -> Value {
    Value::Atom(Atom::Scalar(ScalarAtom::Int(x)))
}

fn text(s: &str) -> Value {
    Value::Atom(Atom::Scalar(ScalarAtom::Str(s.to_string())))
}

fn entry(k: &str, v: Value) -> (String, Value) {
    (k.to_string(), v)
}

#[test]
fn it_works() {
    assert_eq!(2 + 2, 4);
}

#[test]
fn read_map() {
    let input = "foo = 1
bar = 2
baz = 3
quux = 4
";
    let expected = Value::Mapping(vec![
        entry("foo", int_atom(1)),
        entry("bar", int_atom(2)),
        entry("baz", int_atom(3)),
        entry("quux", int_atom(4)),
    ]);
    assert_eq!(from_str(input), Ok(expected));
}

#[test]
fn read_nested_map() {
    let input = "foo.bar = 1
foo.baz = 2
bar.baz = 3
bar.quux = 4";
    let expected = Value::Mapping(vec![
        entry(
            "foo",
            Value::Mapping(vec![entry("bar", int_atom(1)), entry("baz", int_atom(2))]),
        ),
        entry(
            "bar",
            Value::Mapping(vec![entry("baz", int_atom(3)), entry("quux", int_atom(4))]),
        ),
    ]);
    assert_eq!(from_str(input), Ok(expected));
}

#[test]
fn read_struct() {
    let shape = Shape::Struct {
        fields: vec![
            Field {
                name: "foo".to_string(),
                shape: Shape::Int,
                required: true,
            },
            Field {
                name: "bar".to_string(),
                shape: Shape::Float,
                required: true,
            },
            Field {
                name: "baz".to_string(),
                shape: Shape::Bool,
                required: true,
            },
            Field {
                name: "inner".to_string(),
                shape: Shape::Struct {
                    fields: vec![
                        Field {
                            name: "name".to_string(),
                            shape: Shape::Str,
                            required: true,
                        },
                        Field {
                            name: "id".to_string(),
                            shape: Shape::Int,
                            required: true,
                        },
                    ],
                    capture_unknown: false,
                },
                required: true,
            },
        ],
        capture_unknown: true,
    };
    let input = "foo=32
bar=1.234
baz=true
inner.name=John Smith
inner.id=69
extra=stuff";
    let data = decode_str(input, &shape).unwrap();
    let expected = Value::Mapping(vec![
        entry("foo", int_atom(32)),
        entry("bar", Value::Atom(Atom::Scalar(ScalarAtom::Float("1.234".to_string())))),
        entry("baz", Value::Atom(Atom::Scalar(ScalarAtom::Bool(true)))),
        entry(
            "inner",
            Value::Mapping(vec![entry("name", text("John Smith")), entry("id", int_atom(69))]),
        ),
        entry("extra", text("stuff")),
    ]);
    assert_eq!(data, expected);
    assert_eq!("1.234".parse::<f32>(), Ok(1.234f32));
}

#[test]
fn read_seq() {
    let input = "0=0
1=1
10=10
11=11
2=2
3=3
4=4
5=5
6=6
7=7
8=8
9=9";
    // Elements come in source line order, never re-ordered by the numeric
    // value of the index segment.
    let expected = Value::Sequence(
        vec![0, 1, 10, 11, 2, 3, 4, 5, 6, 7, 8, 9]
            .into_iter()
            .map(int_atom)
            .collect(),
    );
    assert_eq!(from_str(input), Ok(expected));
}

#[test]
fn tuple_in_a_field() {
    let shape = Shape::Mapping(Box::new(Shape::Tuple(vec![
        Shape::Int,
        Shape::Float,
        Shape::Str,
    ])));
    let data = decode_str("test=(123, 1.234, hello)", &shape).unwrap();
    let expected = Value::Mapping(vec![entry(
        "test",
        Value::Sequence(vec![
            int_atom(123),
            Value::Atom(Atom::Scalar(ScalarAtom::Float("1.234".to_string()))),
            text("hello"),
        ]),
    )]);
    assert_eq!(data, expected);
    assert_eq!("1.234".parse::<f32>(), Ok(1.234f32));
}

#[test]
fn bool_mismatch_span_covers_token() {
    let shape = Shape::Mapping(Box::new(Shape::Bool));
    let err = decode_str("baz=notabool", &shape).unwrap_err();
    assert_eq!(
        err,
        DeserializerError::ParseAtomError(ParseAtomError::ExpectedBool(Span {
            start: 0,
            end: 8
        }))
    );
    // The span covers exactly the offending token.
    assert_eq!("notabool".len(), 8);
}

#[test]
fn sequence_needs_digit_indexes() {
    let shape = Shape::Sequence(Box::new(Shape::Int));
    let err = decode_str("a=1", &shape).unwrap_err();
    assert!(matches!(
        err,
        DeserializerError::ExpectedSequenece { unexpected: _ }
    ));
}

#[test]
fn empty_input_is_no_pair() {
    assert_eq!(from_str(""), Err(DeserializerError::ExpectedKeyValuePair));
    assert_eq!(
        decode_str("", &Shape::Bool),
        Err(DeserializerError::ExpectedValueNode)
    );
}

#[test]
fn comments_and_blanks_are_dropped() {
    let input = "# a comment
   # an indented comment

foo = 1";
    assert_eq!(
        from_str(input),
        Ok(Value::Mapping(vec![entry("foo", int_atom(1))]))
    );
}

#[test]
fn union_unit_variant() {
    let shape = Shape::Mapping(Box::new(Shape::Union(vec![
        Variant {
            name: "red".to_string(),
            payload: Payload::Unit,
        },
        Variant {
            name: "green".to_string(),
            payload: Payload::Unit,
        },
    ])));
    let data = decode_str("color = red", &shape).unwrap();
    assert_eq!(data, Value::Mapping(vec![entry("color", text("red"))]));
}

#[test]
fn union_newtype_variant() {
    let shape = Shape::Mapping(Box::new(Shape::Union(vec![Variant {
        name: "circle".to_string(),
        payload: Payload::Newtype(Box::new(Shape::Int)),
    }])));
    let data = decode_str("shape.circle = 5", &shape).unwrap();
    assert_eq!(
        data,
        Value::Mapping(vec![entry(
            "shape",
            Value::Mapping(vec![entry("circle", int_atom(5))])
        )])
    );
}

#[test]
fn union_struct_variant() {
    let shape = Shape::Mapping(Box::new(Shape::Union(vec![Variant {
        name: "card".to_string(),
        payload: Payload::Struct(
            vec![
                Field {
                    name: "number".to_string(),
                    shape: Shape::Int,
                    required: true,
                },
                Field {
                    name: "limit".to_string(),
                    shape: Shape::Int,
                    required: true,
                },
            ],
            false,
        ),
    }])));
    let data = decode_str("pay.card.number=4\npay.card.limit=10", &shape).unwrap();
    assert_eq!(
        data,
        Value::Mapping(vec![entry(
            "pay",
            Value::Mapping(vec![entry(
                "card",
                Value::Mapping(vec![entry("number", int_atom(4)), entry("limit", int_atom(10))])
            )])
        )])
    );
}

#[test]
fn union_unknown_variant() {
    let shape = Shape::Mapping(Box::new(Shape::Union(vec![Variant {
        name: "red".to_string(),
        payload: Payload::Unit,
    }])));
    let err = decode_str("color = blue", &shape).unwrap_err();
    assert!(matches!(err, DeserializerError::Custom(_)));
}

#[test]
fn struct_missing_required_field() {
    let shape = Shape::Struct {
        fields: vec![Field {
            name: "must".to_string(),
            shape: Shape::Int,
            required: true,
        }],
        capture_unknown: false,
    };
    let err = decode_str("other = 1", &shape).unwrap_err();
    assert!(matches!(err, DeserializerError::Custom(_)));
}

#[test]
fn struct_optional_field_absent() {
    let shape = Shape::Struct {
        fields: vec![
            Field {
                name: "must".to_string(),
                shape: Shape::Int,
                required: true,
            },
            Field {
                name: "maybe".to_string(),
                shape: Shape::Int,
                required: false,
            },
        ],
        capture_unknown: false,
    };
    let data = decode_str("must = 3", &shape).unwrap();
    assert_eq!(data, Value::Mapping(vec![entry("must", int_atom(3))]));
}

#[test]
fn untyped_scalar_leaf() {
    assert_eq!(from_str("=5"), Ok(int_atom(5)));
    assert_eq!(from_str("= true"), Ok(Value::Atom(Atom::Scalar(ScalarAtom::Bool(true)))));
}

#[test]
fn malformed_line_is_rejected() {
    let shape = Shape::Mapping(Box::new(Shape::Int));
    assert_eq!(
        decode_str("no delimiter here", &shape),
        Err(DeserializerError::ExpectedValueNode)
    );
}

#[test]
fn deep_nesting_round() {
    let input = "a.b.c.d = 9\na.b.c.e = 8\na.x = 7";
    let expected = Value::Mapping(vec![entry(
        "a",
        Value::Mapping(vec![
            entry(
                "b",
                Value::Mapping(vec![entry(
                    "c",
                    Value::Mapping(vec![entry("d", int_atom(9)), entry("e", int_atom(8))]),
                )]),
            ),
            entry("x", int_atom(7)),
        ]),
    )]);
    assert_eq!(from_str(input), Ok(expected));
}

#[test]
fn depth_restored_on_error() {
    // A failing nested decode still leaves the window at the enclosing
    // group's depth, with the entry's line stepped past.
    let mut w = LexerChildren::new(split_lines("a = notanint"));
    let r = divatree::decode::decode_map_items(&mut w, &Shape::Int, 100);
    assert!(r.is_err());
    assert_eq!(w.prefix_level(), 0);

    let mut w = LexerChildren::new(split_lines("0 = notanint"));
    let r = divatree::decode::decode_seq_items(&mut w, &Shape::Int, 100);
    assert!(r.is_err());
    assert_eq!(w.prefix_level(), 0);
}
