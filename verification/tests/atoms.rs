use divatree::atom::{
    from_str, parse_bool, parse_float, parse_i64, parse_tuple_elems, parse_u64, Atom,
    ParseAtomError, ScalarAtom,
};
use divatree::error::Span;

#[test]
fn read_bool() {
    assert_eq!(parse_bool("TrUe"), Ok(true));
    assert_eq!(parse_bool("false"), Ok(false));
    assert_eq!(
        parse_bool("foo"),
        Err(ParseAtomError::ExpectedBool(Span { start: 0, end: 3 }))
    );
}

#[test]
fn read_int() {
    assert_eq!(parse_u64("0"), Ok(0u64));
    assert_eq!(parse_i64("-128"), Ok(-128i64));
    assert_eq!(parse_u64("255"), Ok(255u64));
    assert_eq!(parse_u64("+256"), Ok(256u64));
    match parse_u64("foo") {
        Err(ParseAtomError::ExpectedInteger(_)) => {}
        _ => unreachable!(),
    }
}

#[test]
fn read_float() {
    assert_eq!(parse_float("0.").unwrap().parse::<f32>(), Ok(0f32));
    assert_eq!(parse_float(".123").unwrap().parse::<f32>(), Ok(0.123f32));
    assert_eq!(parse_float("+0.0").unwrap().parse::<f32>(), Ok(0f32));
    assert_eq!(parse_float("1.234").unwrap().parse::<f32>(), Ok(1.234f32));
    assert_eq!(parse_float("-1.234").unwrap().parse::<f32>(), Ok(-1.234f32));
    assert_eq!(parse_float("6.02e23").unwrap().parse::<f64>(), Ok(6.02e23f64));
    match parse_float("foo") {
        Err(ParseAtomError::ExpectedFloat(_)) => {}
        _ => unreachable!(),
    }
}

#[test]
fn read_tuple() {
    assert_eq!(
        parse_tuple_elems("( 123, 3.1415 , Hello World!, )"),
        Ok(vec![
            "123".to_string(),
            "3.1415".to_string(),
            "Hello World!".to_string()
        ])
    );
    assert_eq!(parse_u64("123"), Ok(123u64));
    assert_eq!("3.1415".parse::<f32>(), Ok(3.1415f32));
    assert_eq!(parse_tuple_elems("( 123, )"), Ok(vec!["123".to_string()]));
    assert_eq!(parse_tuple_elems("()"), Ok(Vec::<String>::new()));
    match parse_tuple_elems("123)") {
        Err(ParseAtomError::ExpectedTupleStart(_)) => {}
        _ => unreachable!(),
    }
    match parse_tuple_elems("(123") {
        Err(ParseAtomError::ExpectedTupleEnd { .. }) => {}
        e => unreachable!("{:?}", e),
    }
}

#[test]
fn int_bounds() {
    assert_eq!(parse_i64("9223372036854775807"), Ok(i64::MAX));
    assert_eq!(parse_i64("-9223372036854775808"), Ok(i64::MIN));
    assert!(parse_i64("9223372036854775808").is_err());
    assert!(parse_i64("-9223372036854775809").is_err());
    assert_eq!(parse_u64("18446744073709551615"), Ok(u64::MAX));
    assert!(parse_u64("18446744073709551616").is_err());
    assert!(parse_u64("-1").is_err());
    assert!(parse_i64("+").is_err());
    assert!(parse_i64("").is_err());
    assert!(parse_i64("1 2").is_err());
}

#[test]
fn float_literal_form() {
    // The grammar asks for a dot in the mantissa; a bare exponent is no
    // float literal.
    assert!(parse_float("1e5").is_err());
    assert!(parse_float(".").is_err());
    assert!(parse_float("1.2e").is_err());
    assert!(parse_float("1.2e+5").is_ok());
    assert!(parse_float("+.5").is_ok());
    assert_eq!(
        parse_float("nope"),
        Err(ParseAtomError::ExpectedFloat(Span { start: 0, end: 4 }))
    );
}

#[test]
fn classify_in_fixed_order() {
    // tuple, then boolean, then integer, then float, else string
    assert_eq!(
        from_str("(1, true)"),
        Atom::Tuple(vec![ScalarAtom::Int(1), ScalarAtom::Bool(true)])
    );
    assert_eq!(from_str("FALSE"), Atom::Scalar(ScalarAtom::Bool(false)));
    assert_eq!(from_str("-42"), Atom::Scalar(ScalarAtom::Int(-42)));
    assert_eq!(
        from_str("3.5"),
        Atom::Scalar(ScalarAtom::Float("3.5".to_string()))
    );
    assert_eq!(
        from_str("hello"),
        Atom::Scalar(ScalarAtom::Str("hello".to_string()))
    );
    // An integer too wide for the machine word falls through to a string.
    assert_eq!(
        from_str("99999999999999999999999"),
        Atom::Scalar(ScalarAtom::Str("99999999999999999999999".to_string()))
    );
}
