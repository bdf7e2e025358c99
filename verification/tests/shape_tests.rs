use std::rc::Rc;
use firedbg_rust_debugger::shape::{alignment_of, boildown, condense, peeloff, TypeInfo};
use firedbg_rust_debugger::typename::{enumerate_value, pointer_typename};
use firedbg_rust_debugger::value_type::ValueType;

fn leaf(name: &str, size: u64) -> TypeInfo {
    TypeInfo {
        name: name.to_string(),
        is_struct: false,
        is_union: false,
        byte_size: size,
        fields: vec![],
    }
}

fn record(name: &str, size: u64, fields: Vec<TypeInfo>) -> TypeInfo {
    TypeInfo {
        name: name.to_string(),
        is_struct: true,
        is_union: false,
        byte_size: size,
        fields,
    }
}

fn other(name: &str) -> ValueType {
    ValueType::Other(name.to_string())
}

#[test]
fn boildown_wrappers() {
    let t = record("app::Meters", 4, vec![leaf("i32", 4)]);
    assert_eq!(boildown(other("app::Meters"), &t).unwrap(), ValueType::i32);

    let nested = record(
        "app::A",
        8,
        vec![record("app::B", 8, vec![record("app::C", 8, vec![leaf("u64", 8)])])],
    );
    assert_eq!(boildown(other("app::A"), &nested).unwrap(), ValueType::u64);

    let phantom = record(
        "app::Tagged",
        2,
        vec![leaf("u16", 2), record("core::marker::PhantomData<u8>", 0, vec![])],
    );
    assert_eq!(boildown(other("app::Tagged"), &phantom).unwrap(), ValueType::u16);

    let pair = record("app::Pair", 8, vec![leaf("u32", 4), leaf("u32", 4)]);
    assert_eq!(boildown(other("app::Pair"), &pair).unwrap(), other("app::Pair"));

    let empty = record("app::Empty", 0, vec![]);
    assert_eq!(boildown(other("app::Empty"), &empty).unwrap(), ValueType::Unit);

    let not_struct = leaf("app::Raw", 4);
    assert_eq!(boildown(other("app::Raw"), &not_struct).unwrap(), other("app::Raw"));

    assert_eq!(boildown(ValueType::u8, &leaf("u8", 1)).unwrap(), ValueType::u8);

    let broken = record("app::Broken", 8, vec![leaf("core::option::Option<i32", 8)]);
    assert!(boildown(other("app::Broken"), &broken).is_err());
}

#[test]
fn condense_layouts() {
    assert_eq!(condense(&leaf("i32", 4)).unwrap(), vec![ValueType::i32]);

    let point = record("app::Point", 16, vec![leaf("i32", 4), leaf("i64", 8)]);
    assert_eq!(condense(&point).unwrap(), vec![ValueType::i32, ValueType::i64]);

    let nested = record(
        "app::Outer",
        24,
        vec![point, record("app::Tag", 8, vec![]), leaf("u8", 1)],
    );
    assert_eq!(
        condense(&nested).unwrap(),
        vec![ValueType::i32, ValueType::i64, ValueType::u64, ValueType::u8]
    );

    assert_eq!(condense(&record("app::Zst", 0, vec![])).unwrap(), vec![]);
    assert_eq!(condense(&record("app::Two", 2, vec![])).unwrap(), vec![ValueType::u16]);
    assert_eq!(condense(&record("app::Wide", 16, vec![])).unwrap(), vec![ValueType::u128]);
    assert!(condense(&record("app::Odd", 3, vec![])).is_err());

    let mut union = record("app::Shape", 16, vec![leaf("u64", 8)]);
    union.is_union = true;
    assert!(condense(&union).is_err());

    assert!(condense(&leaf("core::option::Option<i32", 8)).is_err());
    let refs = record("app::Refs", 16, vec![leaf("&u8", 8), leaf("&str", 16)]);
    assert_eq!(
        condense(&refs).unwrap(),
        vec![
            ValueType::Reference(Rc::new(ValueType::u8)),
            ValueType::Reference(Rc::new(ValueType::str)),
        ]
    );
}

#[test]
fn peeloff_single_fields() {
    let c = record("app::C", 8, vec![leaf("i32", 4), leaf("i32", 4)]);
    let t = record("app::A", 8, vec![record("app::B", 8, vec![c])]);
    assert_eq!(peeloff(&t).name, "app::C");

    let s = record("app::S", 16, vec![record("&str", 16, vec![])]);
    assert_eq!(peeloff(&s).name, "app::S");

    let prim = record("app::W", 4, vec![leaf("i32", 4)]);
    assert_eq!(peeloff(&prim).name, "app::W");
}

#[test]
fn pointer_kinds() {
    assert_eq!(pointer_typename("&u8"), "ref");
    assert_eq!(pointer_typename("&mut u8"), "ref");
    assert_eq!(pointer_typename("alloc::boxed::Box<u8>"), "Box");
    assert_eq!(pointer_typename("alloc::rc::Rc<u8>"), "Rc");
    assert_eq!(pointer_typename("alloc::sync::Arc<u8>"), "Arc");
    assert_eq!(pointer_typename("*const u8"), "ptr");
}

#[test]
fn enum_variant_text() {
    assert_eq!(
        enumerate_value("app::Color", "app::Color::Red").unwrap(),
        ("app::Color", "Red")
    );
    assert!(enumerate_value("app::Color", "(invalid enum value) 3").is_err());
    assert!(enumerate_value("app::Color", "app::Color::").is_err());
    assert!(enumerate_value("app::Color", "app::Colo").is_err());
    assert_eq!(enumerate_value("app::Color", "app::Color::X").unwrap().1, "X");
}

fn floats() -> (usize, usize) {
    (std::mem::align_of::<f32>(), std::mem::align_of::<f64>())
}

#[test]
fn alignment_of_layouts() {
    let f = floats();
    assert_eq!(alignment_of(&leaf("u8", 1), f), Ok(1));
    assert_eq!(alignment_of(&leaf("u64", 8), f), Ok(std::mem::align_of::<u64>()));
    assert_eq!(alignment_of(&leaf("f32", 4), f), Ok(std::mem::align_of::<f32>()));
    assert_eq!(alignment_of(&leaf("&str", 16), f), Ok(std::mem::align_of::<&str>()));
    assert_eq!(alignment_of(&leaf("&u8", 8), f), Ok(std::mem::align_of::<&u8>()));
    assert_eq!(alignment_of(&leaf("&dyn app::T", 16), f), Ok(std::mem::align_of::<&dyn std::fmt::Debug>()));
    let point = record("app::Point", 16, vec![leaf("u8", 1), leaf("u32", 4), leaf("u16", 2)]);
    assert_eq!(alignment_of(&point, f), Ok(std::mem::align_of::<u32>()));
    assert_eq!(alignment_of(&record("app::Zst", 0, vec![]), f), Ok(0));
    assert_eq!(alignment_of(&record("app::Tag", 4, vec![]), f), Ok(4));
    let mut union = record("app::Shape", 16, vec![leaf("u64", 8)]);
    union.is_union = true;
    assert!(alignment_of(&union, f).is_err());
    assert!(alignment_of(&leaf("core::option::Option<i32", 8), f).is_err());
    let nested = record("app::Outer", 24, vec![leaf("u8", 1), union]);
    assert!(alignment_of(&nested, f).is_err());
}
