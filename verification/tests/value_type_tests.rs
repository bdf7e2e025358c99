use std::rc::Rc;
use firedbg_rust_debugger::value_type::ValueType;

#[test]
fn test_parse_return_type() {
    assert_eq!("()".parse::<ValueType>().unwrap(), ValueType::Unit);
    assert_eq!("i32".parse::<ValueType>().unwrap(), ValueType::i32);
    assert_eq!("usize".parse::<ValueType>().unwrap(), ValueType::usize);
    assert_eq!(
        "&str".parse::<ValueType>().unwrap(),
        ValueType::Reference(ValueType::str.into())
    );
    assert_eq!(
        "&dyn Car".parse::<ValueType>().unwrap(),
        ValueType::DynRef(ValueType::Other("Car".to_owned()).into())
    );
    assert_eq!("()".parse::<ValueType>().unwrap(), ValueType::Unit);
    assert_eq!(
        "core::result::Result<i32, i64>"
            .parse::<ValueType>()
            .unwrap(),
        ValueType::Result(ValueType::i32.into(), ValueType::i64.into()).into(),
    );
    assert_eq!(
        "core::result::Result<core::result::Result<u8, i8>, i64>"
            .parse::<ValueType>()
            .unwrap(),
        ValueType::Result(
            ValueType::Result(ValueType::u8.into(), ValueType::i8.into()).into(),
            ValueType::i64.into(),
        )
    );
    assert_eq!(
        "core::result::Result<core::result::Result<u8, core::result::Result<(), i8>>, i64>"
            .parse::<ValueType>()
            .unwrap(),
        ValueType::Result(
            ValueType::Result(
                ValueType::u8.into(),
                ValueType::Result(ValueType::Unit.into(), ValueType::i8.into()).into()
            )
            .into(),
            ValueType::i64.into(),
        )
    );
    assert_eq!(
        "core::result::Result<core::result::Result<u8, core::result::Result<(), i8>>, core::result::Result<f32, f64>>"
            .parse::<ValueType>()
            .unwrap(),
        ValueType::Result(
            ValueType::Result(
                ValueType::u8.into(),
                ValueType::Result(ValueType::Unit.into(), ValueType::i8.into()).into()
            )
            .into(),
            ValueType::Result(ValueType::float32.into(), ValueType::float64.into()).into(),
        )
    );
}

#[test]
fn cloned_type_is_equal() {
    let t = ValueType::Result(
        Rc::new(ValueType::Option(Rc::new(ValueType::u8))),
        Rc::new(ValueType::Other("a::B".to_owned())),
    );
    assert_eq!(t.clone(), t);
}

#[test]
fn written_names_parse_back() {
    let types = vec![
        ValueType::Result(
            Rc::new(ValueType::Array(Rc::new(ValueType::u8), 12)),
            Rc::new(ValueType::Option(Rc::new(ValueType::Result(
                Rc::new(ValueType::char),
                Rc::new(ValueType::Unit),
            )))),
        ),
        ValueType::Reference(Rc::new(ValueType::Array(
            Rc::new(ValueType::Slice(Rc::new(ValueType::i64))),
            3,
        ))),
        ValueType::Array(Rc::new(ValueType::Array(Rc::new(ValueType::bool), 0)), 105),
    ];
    for t in types {
        let name = t.to_string();
        assert_eq!(name.parse::<ValueType>().unwrap(), t);
    }
    assert_eq!(
        ValueType::Result(Rc::new(ValueType::u8), Rc::new(ValueType::str)).to_string(),
        "core::result::Result<u8, str>"
    );
}
