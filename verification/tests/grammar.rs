use rowbinary::error::Error;
use rowbinary::error::ErrorKind;
use rowbinary::error::IntFault;
use rowbinary::metadata::data_type::AggFunc;
use rowbinary::metadata::data_type::DataType;
use rowbinary::metadata::data_type::Tz;
use rowbinary::metadata::type_util::is_balanced_brackets;
use rowbinary::metadata::type_util::find_name_end;
use rowbinary::metadata::type_util::parse_enum;
use rowbinary::metadata::type_util::parse_tuple;
use rowbinary::metadata::type_util::parse_tuple_field;
use rowbinary::metadata::type_util::split_to_fields;
use rowbinary::metadata::type_util::FindSkip;
use rowbinary::metadata::ColumnSpec;

fn chars(s: &str) -> Vec<char> {
    s.chars().collect()
}

fn fields_of(s: &str) -> Vec<String> {
    let text = chars(s);
    split_to_fields(&text).iter().map(|field| field.iter().collect::<String>()).collect()
}

#[test]
fn column_test() {
    println!("{}", matches!(&DataType::FixedString(2), DataType::FixedString(..)))
}

#[test]
fn test_parse() {
    assert_eq!("FixedString(16)".parse::<DataType>().unwrap(), DataType::FixedString(16));
    assert_eq!("Decimal(9, 3)".parse::<DataType>().unwrap(), DataType::Decimal(9, 3));
    assert_eq!("Decimal32(3)".parse::<DataType>().unwrap(), DataType::Decimal32(3));
    assert_eq!("Decimal64(3)".parse::<DataType>().unwrap(), DataType::Decimal64(3));
    assert_eq!("Decimal128(3)".parse::<DataType>().unwrap(), DataType::Decimal128(3));
    assert_eq!("Decimal256(3)".parse::<DataType>().unwrap(), DataType::Decimal256(3));
    assert_eq!("DateTime".parse::<DataType>().unwrap(), DataType::DateTime(None));
    assert_eq!("DateTime()".parse::<DataType>().unwrap(), DataType::DateTime(None));
    assert_eq!(
        "DateTime('Asia/Istanbul')".parse::<DataType>().unwrap(),
        DataType::DateTime(Some("Asia/Istanbul".parse().unwrap()))
    );
    assert_eq!("DateTime64(3)".parse::<DataType>().unwrap(), DataType::DateTime64(3, None));
    assert_eq!(
        "DateTime64(3, 'Asia/Istanbul')".parse::<DataType>().unwrap(),
        DataType::DateTime64(3, Some("Asia/Istanbul".parse().unwrap()))
    );
    assert_eq!(
        "Nullable(DateTime64(3, 'Asia/Istanbul'))".parse::<DataType>().unwrap(),
        DataType::Nullable(DataType::DateTime64(3, Some("Asia/Istanbul".parse().unwrap())).into())
    );
    assert_eq!(
        "Array(Nullable(Int8))".parse::<DataType>().unwrap(),
        DataType::Array(Box::new(DataType::Nullable(DataType::Int8.into())))
    );
    assert_eq!(
        "LowCardinality(String)".parse::<DataType>().unwrap(),
        DataType::LowCardinality(DataType::String.into())
    );
    assert_eq!(
        "Map(String, Int32)".parse::<DataType>().unwrap(),
        DataType::Mapping(DataType::String.into(), DataType::Int32.into())
    );
    assert_eq!(
        "Map(LowCardinality(String), Int32)".parse::<DataType>().unwrap(),
        DataType::Mapping(DataType::LowCardinality(DataType::String.into()).into(), DataType::Int32.into())
    );
    assert_eq!(
        "Map(String, Array(Decimal64(18)))".parse::<DataType>().unwrap(),
        DataType::Mapping(DataType::String.into(), DataType::Array(DataType::Decimal64(18).into()).into())
    );
    assert_eq!(
        "Tuple(Array(String), s Map(String, Int64) , s2 Map(String, UInt64))".parse::<DataType>().unwrap(),
        DataType::Tuple(vec![
            ("".to_owned(), DataType::Array(DataType::String.into())),
            ("s".to_owned(), DataType::Mapping(DataType::String.into(), DataType::Int64.into())),
            ("s2".to_owned(), DataType::Mapping(DataType::String.into(), DataType::UInt64.into())),
        ])
    );
    assert_eq!(
        "Enum8('hello' = 1, 'world' = 2)".parse::<DataType>().unwrap(),
        DataType::Enum8(vec![("hello".to_owned(), 1), ("world".to_owned(), 2)])
    );
    assert_eq!(
        "Enum16('hello' = 1, 'world' = 2)".parse::<DataType>().unwrap(),
        DataType::Enum16(vec![("hello".to_owned(), 1), ("world".to_owned(), 2)])
    );
    assert_eq!(
        "AggregateFunction(groupBitmap, UInt64)".parse::<DataType>().unwrap(),
        DataType::AggregateFunction(AggFunc::FuncName("groupBitmap".to_owned()), vec![DataType::UInt64])
    );
    assert_eq!(
        "SimpleAggregateFunction(sum, Float64)".parse::<DataType>().unwrap(),
        DataType::SimpleAggregateFunction(AggFunc::Sum, vec![DataType::Float64])
    );
}

#[test]
fn type_util_test_find_skip() {
    let s = "ab,cde,dsd";
    println!("{:?}", s.find_skip(',', 1));

    let mut a = s.splitn(2, '3');
    println!("{:?}", a.next());
    println!("{:?}", a.next());
}

#[test]
fn util_test_find_skip() {
    let s = "abcdedsd";
    println!("{:?}", s.find_skip('c', 2));
}

#[test]
fn find_skip_counts_from_zero() {
    assert_eq!("ab,cde,dsd".find_skip(',', 0), Some(2));
    assert_eq!("ab,cde,dsd".find_skip(',', 1), Some(6));
    assert_eq!("ab,cde,dsd".find_skip(',', 2), None);
    assert_eq!("abcdedsd".find_skip('c', 2), None);
    assert_eq!("abcdedsd".find_skip('d', 2), Some(7));
    assert_eq!("".find_skip(',', 0), None);
    let text = chars("a,b");
    assert_eq!(text.as_slice().find_skip(',', 0), Some(1));
}

#[test]
fn scalar_keywords() {
    let cases = vec![
        ("Bool", DataType::Bool),
        ("Int8", DataType::Int8),
        ("Int16", DataType::Int16),
        ("Int32", DataType::Int32),
        ("Int64", DataType::Int64),
        ("Int128", DataType::Int128),
        ("Int256", DataType::Int256),
        ("UInt8", DataType::UInt8),
        ("UInt16", DataType::UInt16),
        ("UInt32", DataType::UInt32),
        ("UInt64", DataType::UInt64),
        ("UInt128", DataType::UInt128),
        ("UInt256", DataType::UInt256),
        ("Float32", DataType::Float32),
        ("Float64", DataType::Float64),
        ("String", DataType::String),
        ("IPv4", DataType::Ipv4),
        ("IPv6", DataType::Ipv6),
        ("UUID", DataType::Uuid),
        ("Date", DataType::Date),
        ("Date32", DataType::Date32),
        ("DateTime", DataType::DateTime(None)),
        ("Json", DataType::Json),
    ];
    for (text, expected) in cases {
        assert_eq!(DataType::parse(text).unwrap(), expected);
        assert_eq!(DataType::parse(&format!("  {}\t", text)).unwrap(), expected);
    }
}

#[test]
fn keywords_are_case_sensitive() {
    assert!(matches!(DataType::parse("bool"), Err(Error::ParseTypeError(_))));
    assert!(matches!(DataType::parse("STRING"), Err(Error::ParseTypeError(_))));
    assert!(matches!(DataType::parse("array(Int8)"), Err(Error::ParseTypeError(_))));
}

#[test]
fn unsupported_type_names_the_fragment() {
    assert_eq!(
        DataType::parse(" Foo "),
        Err(Error::ParseTypeError("unsupported type: Foo".to_owned()))
    );
    assert_eq!(DataType::parse(""), Err(Error::ParseTypeError("unsupported type: ".to_owned())));
    assert_eq!(
        DataType::parse("Array(Foo)"),
        Err(Error::ParseTypeError("unsupported type: Foo".to_owned()))
    );
    assert_eq!(
        DataType::parse("Int8(3)"),
        Err(Error::ParseTypeError("unsupported type: Int8(3)".to_owned()))
    );
}

#[test]
fn malformed_descriptions_fail_without_panic() {
    for text in [
        "FixedString",
        "FixedString(",
        "FixedString)",
        "Nullable",
        "Array(",
        "Array(Int8",
        "Array(Int8))",
        "Map",
        "Decimal",
        "Decimal(",
        "DateTime64",
        "Enum8",
        "(",
        ")",
        "()",
        "Tuple(,)",
        "Tuple(a(b Int8)",
        "Nullable(\u{e9})",
        "\u{e9}(Int8)",
    ] {
        let parsed = DataType::parse(text);
        assert!(matches!(parsed, Err(Error::ParseTypeError(_))), "{}", text);
        assert_eq!(parsed.unwrap_err().kind(), ErrorKind::Grammar);
    }
}

#[test]
fn nested_grammar() {
    let parsed = DataType::parse("Map(String, Array(Decimal64(18)))").unwrap();
    assert_eq!(
        parsed,
        DataType::Mapping(
            Box::new(DataType::String),
            Box::new(DataType::Array(Box::new(DataType::Decimal64(18))))
        )
    );
}

#[test]
fn map_arity() {
    assert_eq!(
        DataType::parse("Map(String)"),
        Err(Error::ParseTypeError("Can't parse map type: Map(String)".to_owned()))
    );
    assert_eq!(
        DataType::parse("Map(String, Int8, Int8)"),
        Err(Error::ParseTypeError("Can't parse map type: Map(String, Int8, Int8)".to_owned()))
    );
    assert_eq!(
        DataType::parse("Map()"),
        Err(Error::ParseTypeError("Can't parse map type: Map()".to_owned()))
    );
    assert_eq!(DataType::parse("Map(String)").unwrap_err().kind(), ErrorKind::Grammar);
}

#[test]
fn tuple_fields_anonymous_and_named() {
    let parsed = DataType::parse("Tuple(Array(String), s Map(String, Int64))").unwrap();
    match parsed {
        DataType::Tuple(fields) => {
            assert_eq!(fields.len(), 2);
            assert_eq!(fields[0].0, "");
            assert_eq!(fields[0].1, DataType::Array(Box::new(DataType::String)));
            assert_eq!(fields[1].0, "s");
            assert_eq!(
                fields[1].1,
                DataType::Mapping(Box::new(DataType::String), Box::new(DataType::Int64))
            );
        }
        other => panic!("not a tuple: {:?}", other),
    }
    assert_eq!(DataType::parse("Tuple()").unwrap(), DataType::Tuple(vec![]));
    let map = || DataType::Mapping(Box::new(DataType::String), Box::new(DataType::Int64));
    assert_eq!(
        parse_tuple(&chars("Map(String, Int64), Int32")),
        Ok(vec![("".to_owned(), map()), ("".to_owned(), DataType::Int32)])
    );
    assert_eq!(
        DataType::parse("Tuple(Map(String, Int64), Int32)"),
        Ok(DataType::Tuple(vec![("".to_owned(), map()), ("".to_owned(), DataType::Int32)]))
    );
    assert_eq!(
        DataType::parse("Tuple(Map(String,Int64), Int32)"),
        DataType::parse("Tuple(Map(String, Int64), Int32)")
    );
    assert_eq!(
        DataType::parse("Tuple( Decimal(9, 3) , m Map(String, Int64), Enum8('a b' = 1) )"),
        Ok(DataType::Tuple(vec![
            ("".to_owned(), DataType::Decimal(9, 3)),
            ("m".to_owned(), map()),
            ("".to_owned(), DataType::Enum8(vec![("a b".to_owned(), 1)])),
        ]))
    );
    assert_eq!(
        DataType::parse("Tuple(a\tInt8,  b   String )").unwrap(),
        DataType::Tuple(vec![("a".to_owned(), DataType::Int8), ("b".to_owned(), DataType::String)])
    );
}

#[test]
fn tuple_field_names_end_outside_brackets() {
    assert_eq!(find_name_end(&chars("s Map(String, Int64)")), Some(1));
    assert_eq!(find_name_end(&chars("Map(String, Int64)")), None);
    assert_eq!(find_name_end(&chars("a(b c) Int8")), Some(6));
    assert_eq!(find_name_end(&chars("a(b Int8")), None);
    assert_eq!(find_name_end(&chars("a) Int8")), None);
    assert_eq!(find_name_end(&chars("Int8")), None);
    assert_eq!(find_name_end(&chars("")), None);
    assert_eq!(find_name_end(&chars("a\tInt8")), Some(1));
    assert_eq!(
        parse_tuple_field(&chars(" Map(String, Int64) ")),
        Ok(("".to_owned(), DataType::Mapping(Box::new(DataType::String), Box::new(DataType::Int64))))
    );
    assert_eq!(
        parse_tuple_field(&chars("a(b c)  Array(Int8)")),
        Ok(("a(b c)".to_owned(), DataType::Array(Box::new(DataType::Int8))))
    );
    assert!(matches!(parse_tuple_field(&chars("a(b Int8")), Err(Error::ParseTypeError(_))));
    assert!(matches!(parse_tuple_field(&chars("Array (Int8)")), Err(Error::ParseTypeError(_))));
}

#[test]
fn enum_names_keep_their_case() {
    assert_eq!(
        DataType::parse("Enum8('Hello' = 1, 'World' = 2)").unwrap(),
        DataType::Enum8(vec![("Hello".to_owned(), 1), ("World".to_owned(), 2)])
    );
    assert_eq!(
        DataType::parse("Enum16('a b' = -32768, C=32767,, )").unwrap(),
        DataType::Enum16(vec![("a b".to_owned(), -32768), ("C".to_owned(), 32767)])
    );
    assert_eq!(DataType::parse("Enum8()").unwrap(), DataType::Enum8(vec![]));
}

#[test]
fn white_space_between_quotes_belongs_to_the_name() {
    assert_eq!(
        DataType::parse("Enum8(' a' = 1,  'b '  = 2, ' ' = 3, '' = 4, c = 5)").unwrap(),
        DataType::Enum8(vec![
            (" a".to_owned(), 1),
            ("b ".to_owned(), 2),
            (" ".to_owned(), 3),
            ("".to_owned(), 4),
            ("c".to_owned(), 5),
        ])
    );
    assert_eq!(
        DataType::parse("Enum8('a'b' = 1, 'c = 2, d' = 3, ''e'' = 4)").unwrap(),
        DataType::Enum8(vec![
            ("a'b".to_owned(), 1),
            ("'c".to_owned(), 2),
            ("d'".to_owned(), 3),
            ("'e'".to_owned(), 4),
        ])
    );
}

#[test]
fn enum_failures() {
    assert_eq!(
        DataType::parse("Enum8('a' 1)"),
        Err(Error::ParseTypeError("invalid tuple element: 'a' 1".to_owned()))
    );
    assert_eq!(DataType::parse("Enum8('a' = 128)"), Err(Error::ParseIntError(IntFault::PosOverflow)));
    assert_eq!(DataType::parse("Enum8('a' = -129)"), Err(Error::ParseIntError(IntFault::NegOverflow)));
    assert_eq!(DataType::parse("Enum8('a' = )"), Err(Error::ParseIntError(IntFault::Empty)));
    assert_eq!(DataType::parse("Enum8('a' = x)"), Err(Error::ParseIntError(IntFault::InvalidDigit)));
    assert_eq!(DataType::parse("Enum16('a' = 32768)"), Err(Error::ParseIntError(IntFault::PosOverflow)));
    assert_eq!(DataType::parse("Enum8('a' = 128)").unwrap_err().kind(), ErrorKind::Numeric);
}

#[test]
fn parse_enum_reads_pairs() {
    let text = chars("'hello' = 1, 'World'=2");
    let parsed: Vec<(String, i8)> = parse_enum::<i8>(&text).unwrap();
    assert_eq!(parsed, vec![("hello".to_owned(), 1), ("World".to_owned(), 2)]);
    let wide = chars("x = 300");
    assert_eq!(parse_enum::<i16>(&wide).unwrap(), vec![("x".to_owned(), 300)]);
    assert_eq!(parse_enum::<i8>(&wide), Err(Error::ParseIntError(IntFault::PosOverflow)));
}

#[test]
fn numeric_arguments() {
    assert_eq!(DataType::parse("FixedString( 16 )").unwrap(), DataType::FixedString(16));
    assert_eq!(DataType::parse("FixedString(+7)").unwrap(), DataType::FixedString(7));
    assert_eq!(DataType::parse("FixedString(007)").unwrap(), DataType::FixedString(7));
    assert_eq!(DataType::parse("FixedString()"), Err(Error::ParseIntError(IntFault::Empty)));
    assert_eq!(DataType::parse("FixedString(-1)"), Err(Error::ParseIntError(IntFault::InvalidDigit)));
    assert_eq!(DataType::parse("FixedString(1x)"), Err(Error::ParseIntError(IntFault::InvalidDigit)));
    assert_eq!(
        DataType::parse("FixedString(99999999999999999999999999)"),
        Err(Error::ParseIntError(IntFault::PosOverflow))
    );
    assert_eq!(DataType::parse("Decimal32(255)").unwrap(), DataType::Decimal32(255));
    assert_eq!(DataType::parse("Decimal32(256)"), Err(Error::ParseIntError(IntFault::PosOverflow)));
    assert_eq!(DataType::parse("Decimal(38,10)").unwrap(), DataType::Decimal(38, 10));
    assert_eq!(
        DataType::parse("Decimal(9)"),
        Err(Error::ParseTypeError("can't parse decimal type: Decimal(9)".to_owned()))
    );
    assert_eq!(DataType::parse("Decimal(9, a)"), Err(Error::ParseIntError(IntFault::InvalidDigit)));
}

#[test]
fn time_zones() {
    let tz: Tz = "Asia/Istanbul".parse().unwrap();
    assert_eq!(tz.name(), "Asia/Istanbul");
    assert_eq!(Tz::parse("  UTC ").unwrap().name(), "UTC");
    assert_eq!(
        Tz::parse("Mars/Olympus"),
        Err(Error::ParseTypeError("'Mars/Olympus' is not a valid timezone".to_owned()))
    );
    assert_eq!(
        DataType::parse("DateTime('asia/istanbul')"),
        Err(Error::ParseTypeError("'asia/istanbul' is not a valid timezone".to_owned()))
    );
    assert_eq!(DataType::parse("DateTime(  )").unwrap(), DataType::DateTime(None));
    assert_eq!(
        DataType::parse("DateTime(Asia'/Istanbul)"),
        Err(Error::ParseTypeError("'Asia'/Istanbul' is not a valid timezone".to_owned()))
    );
    assert_eq!(
        DataType::parse("DateTime('Asia/Istanbul)"),
        Err(Error::ParseTypeError("''Asia/Istanbul' is not a valid timezone".to_owned()))
    );
    assert_eq!(
        DataType::parse("DateTime(Asia/Istanbul)").unwrap(),
        DataType::DateTime(Some(Tz::parse("Asia/Istanbul").unwrap()))
    );
    assert_eq!(
        DataType::parse("DateTime( ' UTC ' )").unwrap(),
        DataType::DateTime(Some(Tz::parse("UTC").unwrap()))
    );
    assert_eq!(
        DataType::parse("DateTime64(3, U'T'C)"),
        Err(Error::ParseTypeError("'U'T'C' is not a valid timezone".to_owned()))
    );
    assert_eq!(
        DataType::parse("DateTime64(9,'Europe/Berlin')").unwrap(),
        DataType::DateTime64(9, Some(Tz::parse("Europe/Berlin").unwrap()))
    );
    assert_eq!(DataType::parse("DateTime64(a)"), Err(Error::ParseIntError(IntFault::InvalidDigit)));
    assert_eq!(DataType::parse("DateTime64(0)").unwrap(), DataType::DateTime64(0, None));
    assert_eq!(DataType::parse("DateTime64(9)").unwrap(), DataType::DateTime64(9, None));
    assert_eq!(DataType::parse("DateTime64(10)"), Err(Error::ParseIntError(IntFault::PosOverflow)));
    assert_eq!(
        DataType::parse("DateTime64(10, 'UTC')"),
        Err(Error::ParseIntError(IntFault::PosOverflow))
    );
    assert_eq!(DataType::parse("DateTime64(-1)"), Err(Error::ParseIntError(IntFault::InvalidDigit)));
}

#[test]
fn aggregate_functions() {
    assert_eq!(AggFunc::parse("any"), AggFunc::Any);
    assert_eq!(AggFunc::parse("anyLast"), AggFunc::AnyLast);
    assert_eq!(AggFunc::parse("min"), AggFunc::Min);
    assert_eq!(AggFunc::parse("max"), AggFunc::Max);
    assert_eq!(AggFunc::parse(" sum "), AggFunc::Sum);
    assert_eq!(AggFunc::parse("sumWithOverflow"), AggFunc::SumWithOverflow);
    assert_eq!(AggFunc::parse("groupBitAnd"), AggFunc::GroupBitAnd);
    assert_eq!(AggFunc::parse("groupBitOr"), AggFunc::GroupBitOr);
    assert_eq!(AggFunc::parse("groupBitXor"), AggFunc::GroupBitXor);
    assert_eq!(AggFunc::parse("groupArrayArray"), AggFunc::GroupArrayArray);
    assert_eq!(AggFunc::parse("groupUniqArrayArray"), AggFunc::GroupUniqArrayArray);
    assert_eq!(AggFunc::parse("sumMap"), AggFunc::SumMap);
    assert_eq!(AggFunc::parse("minMap"), AggFunc::MinMap);
    assert_eq!(AggFunc::parse("maxMap"), AggFunc::MaxMap);
    assert_eq!(AggFunc::parse("Sum"), AggFunc::FuncName("Sum".to_owned()));
    assert_eq!("".parse::<AggFunc>().unwrap(), AggFunc::FuncName("".to_owned()));
    assert_eq!(
        DataType::parse("AggregateFunction(quantiles, Decimal(9, 3), Map(String, Int8))").unwrap(),
        DataType::AggregateFunction(
            AggFunc::FuncName("quantiles".to_owned()),
            vec![
                DataType::Decimal(9, 3),
                DataType::Mapping(Box::new(DataType::String), Box::new(DataType::Int8))
            ]
        )
    );
    assert_eq!(
        DataType::parse("AggregateFunction()"),
        Err(Error::ParseTypeError("No aggregate function name found, type: ".to_owned()))
    );
    assert_eq!(
        DataType::parse("SimpleAggregateFunction(max)").unwrap(),
        DataType::SimpleAggregateFunction(AggFunc::Max, vec![])
    );
}

#[test]
fn field_splitter() {
    assert_eq!(fields_of("Array(String), Int32"), vec!["Array(String)", "Int32"]);
    assert_eq!(fields_of(""), Vec::<String>::new());
    assert_eq!(fields_of("a"), vec!["a"]);
    assert_eq!(fields_of("a,"), vec!["a"]);
    assert_eq!(fields_of(",a"), vec!["", "a"]);
    assert_eq!(fields_of("a, "), vec!["a", ""]);
    assert_eq!(fields_of("Map(a, b), Tuple(c, Map(d, e)) ,f"), vec![
        "Map(a, b)",
        "Tuple(c, Map(d, e))",
        "f"
    ]);
    assert_eq!(fields_of("f(a, b"), vec!["f(a, b"]);
}

#[test]
fn unmatched_close_is_never_a_field_boundary() {
    assert_eq!(fields_of("a), b, c"), vec!["a), b, c"]);
    assert_eq!(fields_of("x, a), b, c"), vec!["x", "a), b, c"]);
    assert_eq!(fields_of(")(,a"), vec![")(,a"]);
}

#[test]
fn balanced_brackets() {
    assert!(is_balanced_brackets(&chars("")));
    assert!(is_balanced_brackets(&chars("((()))")));
    assert!(is_balanced_brackets(&chars("a(b)c(d(e))")));
    assert!(!is_balanced_brackets(&chars("(")));
    assert!(!is_balanced_brackets(&chars(")")));
    assert!(!is_balanced_brackets(&chars(")(")));
    assert!(!is_balanced_brackets(&chars("(()")));
    assert!(!is_balanced_brackets(&chars("())(")));
}

#[test]
fn column_spec() {
    let col = ColumnSpec::try_new("n".to_owned(), "Nullable(Int8)".to_owned()).unwrap();
    assert!(col.is_nullable());
    assert_eq!(col.name(), "n");
    assert_eq!(col.original_type(), "Nullable(Int8)");
    assert_eq!(col.data_type(), &DataType::Nullable(Box::new(DataType::Int8)));
    let plain = ColumnSpec::try_new("m".to_owned(), "Int8".to_owned()).unwrap();
    assert!(!plain.is_nullable());
    assert!(ColumnSpec::try_new("x".to_owned(), "Nope".to_owned()).is_err());
}

#[test]
fn format_writes_the_compact_description() {
    let cases = vec![
        ("  UInt8 ", "UInt8"),
        ("FixedString( 016 )", "FixedString(16)"),
        ("DateTime()", "DateTime"),
        ("DateTime( 'Asia/Istanbul' )", "DateTime('Asia/Istanbul')"),
        ("DateTime64(3, 'Asia/Istanbul')", "DateTime64(3,'Asia/Istanbul')"),
        ("DateTime64( 3 )", "DateTime64(3)"),
        ("Decimal(9, 3)", "Decimal(9,3)"),
        ("Decimal64(18)", "Decimal64(18)"),
        ("Map(String, Array(Decimal64(18)))", "Map(String,Array(Decimal64(18)))"),
        ("Tuple(Array(String), s Map(String, Int64) , s2 Map(String, UInt64))", "Tuple(Array(String),s Map(String,Int64),s2 Map(String,UInt64))"),
        ("Tuple()", "Tuple()"),
        ("Enum8('Hello' = 1, 'a b'=-2,, )", "Enum8('Hello'=1,'a b'=-2)"),
        ("Enum16()", "Enum16()"),
        ("AggregateFunction(groupBitmap, UInt64)", "AggregateFunction(groupBitmap,UInt64)"),
        ("SimpleAggregateFunction( sum , Float64, Nullable(Int8))", "SimpleAggregateFunction(sum,Float64,Nullable(Int8))"),
        ("AggregateFunction( )", "AggregateFunction(,)"),
        ("AggregateFunction(,)", "AggregateFunction(,)"),
        ("Tuple(AggregateFunction(,))", "Tuple(AggregateFunction(,))"),
        ("Map(DateTime(),AggregateFunction(,))", "Map(DateTime,AggregateFunction(,))"),
        ("Map(DateTime( ),AggregateFunction( ,Int8,))", "Map(DateTime,AggregateFunction(,Int8))"),
        ("Tuple(a Enum8(')(' = 1), b Int8)", "Tuple(a Enum8(')('=1),b Int8)"),
        ("AggregateFunction(, Int8)", "AggregateFunction(,Int8)"),
        ("LowCardinality(Nullable(String))", "LowCardinality(Nullable(String))"),
        ("Enum8('a(' = 1)", "Enum8('a('=1)"),
        ("Tuple(a(b) Int8)", "Tuple(a(b) Int8)"),
        ("Tuple(Map(String, Int64), Int32)", "Tuple(Map(String,Int64),Int32)"),
        ("Tuple(Tuple(a Int8, b Int8), c Tuple(d Int8))", "Tuple(Tuple(a Int8,b Int8),c Tuple(d Int8))"),
        ("Enum8(' a' = 1, b = 2)", "Enum8(' a'=1,'b'=2)"),
    ];
    for (text, expected) in cases {
        let parsed = DataType::parse(text).unwrap();
        let written = parsed.format();
        assert_eq!(written, expected);
        let again = DataType::parse(&written).unwrap();
        assert_eq!(again, parsed, "{}", text);
        assert_eq!(again.format(), written);
    }
}

#[test]
fn decimal_precision_comes_from_the_width() {
    assert_eq!(DataType::Decimal32(3).decimal_precision_scale(), Some((9, 3)));
    assert_eq!(DataType::Decimal64(18).decimal_precision_scale(), Some((18, 18)));
    assert_eq!(DataType::Decimal128(0).decimal_precision_scale(), Some((38, 0)));
    assert_eq!(DataType::Decimal256(7).decimal_precision_scale(), Some((76, 7)));
    assert_eq!(DataType::Decimal(12, 4).decimal_precision_scale(), Some((12, 4)));
    assert_eq!(DataType::Int8.decimal_precision_scale(), None);
    let nested = DataType::parse("Map(String, Array(Decimal64(18)))").unwrap();
    match nested {
        DataType::Mapping(_, value) => match *value {
            DataType::Array(inner) => assert_eq!(inner.decimal_precision_scale(), Some((18, 18))),
            other => panic!("{:?}", other),
        },
        other => panic!("{:?}", other),
    }
}

#[test]
fn error_messages() {
    assert_eq!(
        DataType::parse("Foo").unwrap_err().message(),
        "Parse type error: unsupported type: Foo"
    );
    assert_eq!(
        Error::ParseIntError(IntFault::Empty).message(),
        "Parse number error: cannot parse integer from empty string"
    );
    assert_eq!(
        Error::ParseIntError(IntFault::InvalidDigit).message(),
        "Parse number error: invalid digit found in string"
    );
    assert_eq!(
        Error::ParseIntError(IntFault::PosOverflow).message(),
        "Parse number error: number too large to fit in target type"
    );
    assert_eq!(
        Error::ParseIntError(IntFault::NegOverflow).message(),
        "Parse number error: number too small to fit in target type"
    );
    assert_eq!(Error::NotEnoughData.message(), "Not enough data");
    assert_eq!(Error::NotSupported("Array".to_owned()).message(), "Not supported: Array");
    assert_eq!(
        Error::TryFromIntError.message(),
        "Try from number error: out of range integral type conversion attempted"
    );
    assert_eq!(
        Error::ParseDecimalError(rowbinary::error::DecimalFault::ScaleExceedsMaximumPrecision(40)).message(),
        "Parse number to decimal error: Scale exceeds the maximum precision allowed: 40"
    );
    assert_eq!(Error::SerdeAnyNotSupported.message(), "Deserialize from any not supported");
    assert_eq!(Error::SerdeError("x".to_owned()).kind(), ErrorKind::Encoding);
    assert_eq!(Error::SerdeJsonError("x".to_owned()).message(), "Serde json error: x");
}

#[test]
fn clone_is_equal() {
    for text in [
        "Int8",
        "DateTime64(3, 'Asia/Istanbul')",
        "Tuple(Array(String), s Map(String, Int64))",
        "Enum8('a' = 1, 'b' = -2)",
        "Enum16('a' = 300)",
        "AggregateFunction(quantiles, Nullable(LowCardinality(String)))",
        "SimpleAggregateFunction(sum, Decimal(9, 3))",
    ] {
        let parsed = DataType::parse(text).unwrap();
        assert_eq!(parsed.clone(), parsed);
    }
    assert_eq!(AggFunc::FuncName("x".to_owned()).clone(), AggFunc::FuncName("x".to_owned()));
    let tz = Tz::parse("UTC").unwrap();
    assert_eq!(tz.clone(), tz);
}

fn next(state: &mut u64) -> u64 {
    *state = state.wrapping_mul(6364136223846793005).wrapping_add(1442695040888963407);
    *state >> 33
}

#[test]
fn reading_is_stable_under_writing() {
    let pieces = [
        "Map", "Tuple", "Array", "Nullable", "LowCardinality", "Enum8", "Enum16", "Decimal",
        "Decimal32", "DateTime", "DateTime64", "FixedString", "AggregateFunction",
        "SimpleAggregateFunction", "Int8", "String", "UTC", "sum", "x", "a b", "(", "(", ")", ")",
        ")", ",", ",", " ", " ", "'", "=", "1", "-2", "3", "\t",
    ];
    let mut state = 7u64;
    let mut accepted = 0;
    for _ in 0..20000 {
        let count = 1 + next(&mut state) % 9;
        let mut text = String::new();
        for _ in 0..count {
            text.push_str(pieces[(next(&mut state) % pieces.len() as u64) as usize]);
        }
        if let Ok(parsed) = DataType::parse(&text) {
            accepted += 1;
            let written = parsed.format();
            assert_eq!(DataType::parse(&written).as_ref(), Ok(&parsed), "{:?} -> {:?}", text, written);
        }
    }
    assert!(accepted > 100, "{}", accepted);
}

#[test]
fn nested_descriptions_round_trip() {
    for text in [
        "Map(Tuple(a Int8, b Map(String, Array(Nullable(Int8)))), Tuple(Enum8('x y' = 1), c Int8))",
        "Tuple( a  Tuple(b Tuple(c Int8 ) ) , Map(Int8,Int8) )",
        "AggregateFunction( quantiles(0.5, 0.9) , Tuple(a Int8, b Int8), Map(Int8, Int8))",
        "Array(Tuple(Enum16('(' = 1, ')' = 2)))",
        "Map(Enum8('(a)' = 1), Enum8(')(' = 2))",
        "Tuple(DateTime64(9, 'Etc/GMT+1'), DateTime('Asia/Istanbul'), DateTime( ))",
        "Tuple(Tuple(Tuple(a Map(Int8, Int8), Map(Int8, Int8)), b Int8), Decimal(9, 3))",
        "Tuple(Enum8(' a ' = 1, ''b'' = 2), x Enum16('c d' = 3))",
        "SimpleAggregateFunction(, Int8,)",
    ] {
        let parsed = DataType::parse(text).unwrap();
        let written = parsed.format();
        assert_eq!(DataType::parse(&written), Ok(parsed), "{} -> {}", text, written);
    }
}

#[test]
fn keywords_of_types() {
    assert_eq!(DataType::Bool.keyword(), "Bool");
    assert_eq!(DataType::Ipv4.keyword(), "IPv4");
    assert_eq!(DataType::Uuid.keyword(), "UUID");
    assert_eq!(DataType::parse("Map(Int8, Int8)").unwrap().keyword(), "Map");
    assert_eq!(DataType::parse("DateTime64(3)").unwrap().keyword(), "DateTime64");
    assert_eq!(DataType::parse("SimpleAggregateFunction(sum, Int8)").unwrap().keyword(), "SimpleAggregateFunction");
}
