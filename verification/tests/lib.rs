use debil_dynamodb::{
    into_item, into_item_unchecked, Attribute, AttributeError, AttributeValue, BSVec, Blob,
    DynamoType, MVec, NSVec, SSVec,
};

fn s(text: &str) -> String {
    text.to_string()
}

fn field(name: &str, attr: AttributeValue) -> (String, DynamoType) {
    (s(name), DynamoType::from_attr(attr))
}

#[test]
fn foo_serialize() {
    let fields = vec![
        field("id", s("12345").into_attr()),
        field("amount", 10i32.into_attr()),
        field("tags", vec![s("abc"), s("def")].into_attr()),
    ];

    assert_eq!(
        into_item(fields),
        vec![
            (s("id"), AttributeValue::S(s("12345"))),
            (s("amount"), AttributeValue::N(s("10"))),
            (
                s("tags"),
                AttributeValue::L(vec![
                    AttributeValue::S(s("abc")),
                    AttributeValue::S(s("def")),
                ])
            ),
        ]
    );
}

#[test]
fn foo_serialize_empty_string_check() {
    let fields = vec![
        field("id", s("").into_attr()),
        field("amount", 0i32.into_attr()),
        field("tags", Vec::<String>::new().into_attr()),
    ];

    let item = into_item(fields);
    assert_eq!(item[0], (s("id"), AttributeValue::Null(true)));
}

#[test]
fn normalizer_rewrites_empty_string_only() {
    let fields = vec![
        field("id", s("").into_attr()),
        field("amount", 10i32.into_attr()),
        field("tags", vec![s("abc"), s("def")].into_attr()),
    ];

    assert_eq!(
        into_item(fields),
        vec![
            (s("id"), AttributeValue::Null(true)),
            (s("amount"), AttributeValue::N(s("10"))),
            (
                s("tags"),
                AttributeValue::L(vec![
                    AttributeValue::S(s("abc")),
                    AttributeValue::S(s("def")),
                ])
            ),
        ]
    );
}

#[test]
fn normalizer_leaves_non_empty_fields_alone() {
    let fields = vec![
        field("id", s("12345").into_attr()),
        field("amount", 10i32.into_attr()),
        field("tags", Vec::<String>::new().into_attr()),
    ];

    assert_eq!(
        into_item(fields),
        vec![
            (s("id"), AttributeValue::S(s("12345"))),
            (s("amount"), AttributeValue::N(s("10"))),
            (s("tags"), AttributeValue::L(vec![])),
        ]
    );
}

#[test]
fn normalizer_is_shallow() {
    let fields = vec![field("tags", vec![s(""), s("x")].into_attr())];

    assert_eq!(
        into_item(fields),
        vec![(
            s("tags"),
            AttributeValue::L(vec![AttributeValue::S(s("")), AttributeValue::S(s("x"))])
        )]
    );
}

#[test]
fn unchecked_item_keeps_empty_strings() {
    let fields = vec![field("id", s("").into_attr())];
    assert_eq!(
        into_item_unchecked(fields),
        vec![(s("id"), AttributeValue::S(s("")))]
    );
}

#[test]
fn string_round_trip() {
    let attr = s("hello").into_attr();
    assert_eq!(attr, AttributeValue::S(s("hello")));
    assert_eq!(String::from_attr(attr), Ok(s("hello")));
}

#[test]
fn empty_string_round_trips_at_codec_level() {
    let attr = s("").into_attr();
    assert_eq!(attr, AttributeValue::S(s("")));
    assert_eq!(String::from_attr(attr), Ok(s("")));
}

#[test]
fn bool_round_trip() {
    assert_eq!(true.into_attr(), AttributeValue::Bool(true));
    assert_eq!(bool::from_attr(false.into_attr()), Ok(false));
}

#[test]
fn blob_round_trip() {
    let attr = Blob(vec![1, 2, 255]).into_attr();
    assert_eq!(attr, AttributeValue::B(vec![1, 2, 255]));
    assert_eq!(Blob::from_attr(attr), Ok(Blob(vec![1, 2, 255])));
}

#[test]
fn numeric_encodings_are_decimal_text() {
    assert_eq!(0u32.into_attr(), AttributeValue::N(s("0")));
    assert_eq!(10i32.into_attr(), AttributeValue::N(s("10")));
    assert_eq!((-5i32).into_attr(), AttributeValue::N(s("-5")));
    assert_eq!(i32::MIN.into_attr(), AttributeValue::N(s("-2147483648")));
    assert_eq!(i32::MAX.into_attr(), AttributeValue::N(s("2147483647")));
    assert_eq!(
        u64::MAX.into_attr(),
        AttributeValue::N(s("18446744073709551615"))
    );
    assert_eq!(
        i64::MIN.into_attr(),
        AttributeValue::N(s("-9223372036854775808"))
    );
}

#[test]
fn numeric_round_trip() {
    for n in [0i32, 1, -1, 42, i32::MIN, i32::MAX] {
        assert_eq!(i32::from_attr(n.into_attr()), Ok(n));
    }
    for n in [0u32, 7, u32::MAX] {
        assert_eq!(u32::from_attr(n.into_attr()), Ok(n));
    }
    for n in [0i64, -37, i64::MIN, i64::MAX] {
        assert_eq!(i64::from_attr(n.into_attr()), Ok(n));
    }
    for n in [0u64, 1000000007, u64::MAX] {
        assert_eq!(u64::from_attr(n.into_attr()), Ok(n));
    }
}

#[test]
fn numeric_parse_accepts_signs_and_leading_zeros() {
    assert_eq!(i32::from_attr(AttributeValue::N(s("+10"))), Ok(10));
    assert_eq!(u32::from_attr(AttributeValue::N(s("+10"))), Ok(10));
    assert_eq!(i32::from_attr(AttributeValue::N(s("007"))), Ok(7));
    assert_eq!(i32::from_attr(AttributeValue::N(s("-0"))), Ok(0));
}

#[test]
fn malformed_number_is_invalid_format() {
    assert_eq!(
        i32::from_attr(AttributeValue::N(s("3.5"))),
        Err(AttributeError::InvalidFormat(s("3.5")))
    );
    assert_eq!(
        i64::from_attr(AttributeValue::N(s("abc"))),
        Err(AttributeError::InvalidFormat(s("abc")))
    );
    assert_eq!(
        u32::from_attr(AttributeValue::N(s("-1"))),
        Err(AttributeError::InvalidFormat(s("-1")))
    );
    assert_eq!(
        u32::from_attr(AttributeValue::N(s(""))),
        Err(AttributeError::InvalidFormat(s("")))
    );
    assert_eq!(
        u32::from_attr(AttributeValue::N(s("4294967296"))),
        Err(AttributeError::InvalidFormat(s("4294967296")))
    );
    assert_eq!(
        i32::from_attr(AttributeValue::N(s("2147483648"))),
        Err(AttributeError::InvalidFormat(s("2147483648")))
    );
    assert_eq!(
        i64::from_attr(AttributeValue::N(s("-9223372036854775809"))),
        Err(AttributeError::InvalidFormat(s("-9223372036854775809")))
    );
}

#[test]
fn missing_variant_failures() {
    assert_eq!(
        bool::from_attr(AttributeValue::S(s("true"))),
        Err(AttributeError::MissingField(s("BOOL")))
    );
    assert_eq!(
        i32::from_attr(AttributeValue::Bool(true)),
        Err(AttributeError::MissingField(s("N")))
    );
    assert_eq!(
        String::from_attr(AttributeValue::N(s("1"))),
        Err(AttributeError::MissingField(s("S")))
    );
    assert_eq!(
        Blob::from_attr(AttributeValue::S(s("x"))),
        Err(AttributeError::MissingField(s("B")))
    );
    assert_eq!(
        Vec::<String>::from_attr(AttributeValue::S(s("x"))),
        Err(AttributeError::MissingField(s("L")))
    );
    assert_eq!(
        MVec::<bool>::from_attr(AttributeValue::Bool(true)),
        Err(AttributeError::MissingField(s("M")))
    );
    assert_eq!(
        SSVec::from_attr(AttributeValue::Bool(true)),
        Err(AttributeError::MissingField(s("SS")))
    );
    assert_eq!(
        NSVec::<i32>::from_attr(AttributeValue::Bool(true)),
        Err(AttributeError::MissingField(s("NS")))
    );
    assert_eq!(
        BSVec::from_attr(AttributeValue::Bool(true)),
        Err(AttributeError::MissingField(s("BS")))
    );
}

#[test]
fn option_round_trip() {
    let none: Option<i32> = None;
    assert_eq!(none.into_attr(), AttributeValue::Null(true));
    assert_eq!(Option::<i32>::from_attr(AttributeValue::Null(true)), Ok(None));

    let some: Option<i32> = Some(42);
    assert_eq!(some.into_attr(), AttributeValue::N(s("42")));
    assert_eq!(Option::<i32>::from_attr(some.into_attr()), Ok(Some(42)));
}

#[test]
fn option_decode_treats_any_null_as_absent() {
    assert_eq!(Option::<i32>::from_attr(AttributeValue::Null(false)), Ok(None));
}

#[test]
fn nested_option_none_collapses_to_outer_none() {
    // The inner and the outer absent value share the null variant, so a
    // present-but-absent nested optional cannot round-trip.
    let v: Option<Option<i32>> = Some(None);
    assert_eq!(v.into_attr(), AttributeValue::Null(true));
    assert_eq!(Option::<Option<i32>>::from_attr(v.into_attr()), Ok(None));
}

#[test]
fn list_round_trip() {
    let v = vec![s("a"), s("")];
    let attr = v.clone().into_attr();
    assert_eq!(
        attr,
        AttributeValue::L(vec![AttributeValue::S(s("a")), AttributeValue::S(s(""))])
    );
    assert_eq!(Vec::<String>::from_attr(attr), Ok(v));
}

#[test]
fn list_decode_fails_on_first_bad_element() {
    let attr = AttributeValue::L(vec![
        AttributeValue::N(s("1")),
        AttributeValue::N(s("x")),
        AttributeValue::Bool(true),
    ]);
    assert_eq!(
        Vec::<i32>::from_attr(attr),
        Err(AttributeError::InvalidFormat(s("x")))
    );
}

#[test]
fn nested_containers_round_trip() {
    let v: Vec<Vec<Option<u64>>> = vec![vec![Some(1), None], vec![], vec![Some(u64::MAX)]];
    let attr = v.clone().into_attr();
    assert_eq!(Vec::<Vec<Option<u64>>>::from_attr(attr), Ok(v));
}

#[test]
fn map_round_trip() {
    let m = MVec(vec![(s("a"), 1i64), (s("b"), -2i64)]);
    let attr = m.clone().into_attr();
    assert_eq!(
        attr,
        AttributeValue::M(vec![
            (s("a"), AttributeValue::N(s("1"))),
            (s("b"), AttributeValue::N(s("-2"))),
        ])
    );
    assert_eq!(MVec::<i64>::from_attr(attr), Ok(m));
}

#[test]
fn map_decode_fails_on_first_bad_entry() {
    let attr = AttributeValue::M(vec![
        (s("good"), AttributeValue::Bool(true)),
        (s("bad"), AttributeValue::S(s("nope"))),
    ]);
    assert_eq!(
        MVec::<bool>::from_attr(attr),
        Err(AttributeError::MissingField(s("BOOL")))
    );
}

#[test]
fn string_set_round_trip() {
    let ss = SSVec(vec![s("x"), s("y"), s("x")]);
    let attr = ss.clone().into_attr();
    assert_eq!(attr, AttributeValue::Ss(vec![s("x"), s("y"), s("x")]));
    assert_eq!(SSVec::from_attr(attr), Ok(ss));
}

#[test]
fn binary_set_round_trip() {
    let bs = BSVec(vec![vec![0, 1], vec![]]);
    let attr = bs.clone().into_attr();
    assert_eq!(attr, AttributeValue::Bs(vec![vec![0, 1], vec![]]));
    assert_eq!(BSVec::from_attr(attr), Ok(bs));
}

#[test]
fn number_set_uses_scalar_text_form() {
    let ns = NSVec(vec![3i32, -4i32]);
    let attr = ns.clone().into_attr();
    assert_eq!(attr, AttributeValue::Ns(vec![s("3"), s("-4")]));
    assert_eq!(NSVec::<i32>::from_attr(attr), Ok(ns));
}

#[test]
fn number_set_surfaces_first_parse_failure() {
    let attr = AttributeValue::Ns(vec![s("1"), s("two"), s("3")]);
    assert_eq!(
        NSVec::<u64>::from_attr(attr),
        Err(AttributeError::InvalidFormat(s("two")))
    );
}

#[test]
fn dynamo_type_wraps_and_unwraps() {
    let w = DynamoType::from_attr(AttributeValue::Bool(true));
    assert_eq!(w.into_attr(), AttributeValue::Bool(true));
}
