use firedbg_rust_debugger::shape::TypeInfo;
use firedbg_rust_debugger::return_value::{
    pair_from_registers, pair_return_value, result_from_rax_rdx, result_return_value,
    option_prim_from_registers, option_wide_from_registers, prim_from_rax_rdx, prim_from_rdx, prim_return_value,
    result_from_rax,
};
use firedbg_rust_debugger::value_type::ValueType;
use firedbg_rust_debugger::writer::{Val, ValueWriter};

#[test]
fn primitive_return_values_from_registers() {
    let w = ValueWriter::new();
    let xmm0: Vec<u8> = 1.5f64.to_ne_bytes().iter().copied().chain([0u8; 8]).collect();

    let r = prim_from_rax_rdx(&w, &ValueType::u32, 0x1122_3344_5566_7788, 0, &xmm0).unwrap();
    let expect = w.prim_v("u32", &0x5566_7788u32.to_ne_bytes());
    assert_eq!(r.as_bytes(), expect.as_bytes());

    let r = prim_from_rax_rdx(&w, &ValueType::bool, 5, 0, &xmm0).unwrap();
    assert_eq!(r.as_bytes(), w.prim_v("bool", &[1]).as_bytes());

    let r = prim_from_rax_rdx(&w, &ValueType::Unit, 5, 0, &xmm0).unwrap();
    assert_eq!(r.as_bytes(), w.unit_v().as_bytes());

    let r = prim_from_rax_rdx(&w, &ValueType::u128, 1, 2, &xmm0).unwrap();
    let v: u128 = (2u128 << 64) | 1;
    assert_eq!(r.as_bytes(), w.prim_v("u128", &v.to_ne_bytes()).as_bytes());

    let r = prim_from_rax_rdx(&w, &ValueType::float64, 0, 0, &xmm0).unwrap();
    assert_eq!(r.as_bytes(), w.prim_v("f64", &1.5f64.to_ne_bytes()).as_bytes());

    let r = prim_from_rax_rdx(&w, &ValueType::isize, u64::MAX, 0, &xmm0).unwrap();
    assert_eq!(r.as_bytes(), w.prim_v("isize", &(-1i64).to_ne_bytes()).as_bytes());

    assert!(prim_from_rax_rdx(&w, &ValueType::float32, 0, 0, &[1, 2]).is_err());
}

#[test]
fn payload_in_rdx() {
    let w = ValueWriter::new();
    let r = prim_from_rdx(&w, &ValueType::i16, 0xFFFE, &[]).unwrap();
    assert_eq!(r.as_bytes(), w.prim_v("i16", &(-2i16).to_ne_bytes()).as_bytes());
}

#[test]
fn option_of_bool_in_rax() {
    let w = ValueWriter::new();
    let some_true = option_prim_from_registers(&w, &ValueType::bool, 0x101, 0, &[]).unwrap();
    assert_eq!(some_true.unwrap().as_bytes(), w.prim_v("bool", &[1]).as_bytes());
    let some_false = option_prim_from_registers(&w, &ValueType::bool, 0, 0, &[]).unwrap();
    assert_eq!(some_false.unwrap().as_bytes(), w.prim_v("bool", &[0]).as_bytes());
    assert!(option_prim_from_registers(&w, &ValueType::bool, 2, 0, &[]).unwrap().is_none());
    assert!(option_prim_from_registers(&w, &ValueType::bool, 3, 0, &[]).is_err());
}

#[test]
fn option_of_char_in_rax() {
    let w = ValueWriter::new();
    let c = option_prim_from_registers(&w, &ValueType::char, 'x' as u64, 0, &[]).unwrap();
    assert_eq!(c.unwrap().as_bytes(), w.prim_v("char", &('x' as u32).to_ne_bytes()).as_bytes());
    assert!(option_prim_from_registers(&w, &ValueType::char, 0x110000, 0, &[]).unwrap().is_none());
}

#[test]
fn option_of_integer_in_rax_rdx() {
    let w = ValueWriter::new();
    let some = option_prim_from_registers(&w, &ValueType::u64, 0x7F01, 42, &[]).unwrap();
    assert_eq!(some.unwrap().as_bytes(), w.prim_v("u64", &42u64.to_ne_bytes()).as_bytes());
    assert!(option_prim_from_registers(&w, &ValueType::u64, 0x7F00, 42, &[]).unwrap().is_none());
    assert!(option_prim_from_registers(&w, &ValueType::float32, 1, 0, &[1]).is_err());
}

#[test]
fn result_in_rax_alone() {
    let w = ValueWriter::new();
    let (ok, v) = result_from_rax(&w, &ValueType::Unit, &ValueType::Unit, 0).unwrap();
    assert!(ok);
    assert_eq!(v.as_bytes(), w.unit_v().as_bytes());
    let (ok, _) = result_from_rax(&w, &ValueType::Unit, &ValueType::Unit, 1).unwrap();
    assert!(!ok);

    let (ok, v) = result_from_rax(&w, &ValueType::bool, &ValueType::Unit, 1).unwrap();
    assert!(ok);
    assert_eq!(v.as_bytes(), w.prim_v("bool", &[1]).as_bytes());
    let (ok, v) = result_from_rax(&w, &ValueType::bool, &ValueType::Unit, 2).unwrap();
    assert!(!ok);
    assert_eq!(v.as_bytes(), w.unit_v().as_bytes());
    let (ok, v) = result_from_rax(&w, &ValueType::Unit, &ValueType::bool, 0).unwrap();
    assert!(!ok);
    assert_eq!(v.as_bytes(), w.prim_v("bool", &[0]).as_bytes());
    assert!(result_from_rax(&w, &ValueType::bool, &ValueType::Unit, 3).is_err());

    let (ok, v) = result_from_rax(&w, &ValueType::char, &ValueType::Unit, 'a' as u64).unwrap();
    assert!(ok);
    assert_eq!(v.as_bytes(), w.prim_v("char", &('a' as u32).to_ne_bytes()).as_bytes());
    let (ok, v) = result_from_rax(&w, &ValueType::Unit, &ValueType::char, 0x110000).unwrap();
    assert!(ok);
    assert_eq!(v.as_bytes(), w.unit_v().as_bytes());
}

#[test]
fn return_value_by_type_name() {
    let w = ValueWriter::new();
    let r = prim_return_value(&w, "u16", 0xABCD_1234, 0, &[]).unwrap().unwrap();
    assert_eq!(r.as_bytes(), w.prim_v("u16", &0x1234u16.to_ne_bytes()).as_bytes());
    assert!(prim_return_value(&w, "core::option::Option<u8>", 1, 2, &[]).unwrap().is_none());
    assert!(prim_return_value(&w, "&dyn", 0, 0, &[]).is_err());
    assert!(prim_return_value(&w, "[u8; x]", 0, 0, &[]).is_err());
    assert!(prim_return_value(&w, "f32", 0, 0, &[]).is_err());
}

#[test]
fn option_of_wide_integer() {
    let w = ValueWriter::new();
    let v: u128 = (7u128 << 64) | 9;
    let some = option_wide_from_registers(&w, &ValueType::u128, 0, 1, 9, 5, 7).unwrap();
    assert_eq!(some.as_bytes(), w.prim_v("u128", &v.to_ne_bytes()).as_bytes());
    assert!(option_wide_from_registers(&w, &ValueType::u128, 0, 0, 9, 5, 7).is_none());
    let some = option_wide_from_registers(&w, &ValueType::i128, 0x11, 4, 9, 5, 7).unwrap();
    let v: u128 = (7u128 << 64) | 5;
    assert_eq!(some.as_bytes(), w.prim_v("i128", &v.to_ne_bytes()).as_bytes());
    assert!(option_wide_from_registers(&w, &ValueType::i128, 0x10, 4, 9, 5, 7).is_none());
}

fn leaf(name: &str, size: u64) -> TypeInfo {
    TypeInfo { name: name.to_string(), is_struct: false, is_union: false, byte_size: size, fields: vec![] }
}

fn record(name: &str, size: u64, fields: Vec<TypeInfo>) -> TypeInfo {
    TypeInfo { name: name.to_string(), is_struct: true, is_union: false, byte_size: size, fields }
}

#[test]
fn result_with_discriminant_in_rax_and_payload_in_rdx() {
    let w = ValueWriter::new();
    let rdx = (-5i32) as u32 as u64;
    let (ok, v) = result_from_rax_rdx(&w, &ValueType::i32, &ValueType::i32, 1, rdx, &[]).unwrap().unwrap();
    assert!(!ok);
    assert_eq!(v.as_bytes(), w.prim_v("i32", &(-5i32).to_ne_bytes()).as_bytes());
    let (ok, v) = result_from_rax_rdx(&w, &ValueType::i32, &ValueType::i32, 0, 9, &[]).unwrap().unwrap();
    assert!(ok);
    assert_eq!(v.as_bytes(), w.prim_v("i32", &9i32.to_ne_bytes()).as_bytes());
    // the discriminant is the low bit of rax
    let (ok, _) = result_from_rax_rdx(&w, &ValueType::u16, &ValueType::u16, 0x100, 9, &[]).unwrap().unwrap();
    assert!(ok);
    let xmm0: Vec<u8> = 2.5f64.to_ne_bytes().to_vec();
    let (ok, v) =
        result_from_rax_rdx(&w, &ValueType::float64, &ValueType::float64, 0, 0, &xmm0).unwrap().unwrap();
    assert!(ok);
    assert_eq!(v.as_bytes(), w.prim_v("f64", &2.5f64.to_ne_bytes()).as_bytes());
    assert!(result_from_rax_rdx(&w, &ValueType::float32, &ValueType::float32, 1, 0, &[1]).is_err());
    let (ok, v) = result_from_rax_rdx(&w, &ValueType::u64, &ValueType::Unit, 1, 3, &[]).unwrap().unwrap();
    assert!(!ok);
    assert_eq!(v.as_bytes(), w.unit_v().as_bytes());
}

#[test]
fn small_integer_results_squashed_into_rax() {
    let w = ValueWriter::new();
    let rax: u64 = 0x2A00;
    let (ok, v) = result_from_rax_rdx(&w, &ValueType::i8, &ValueType::u8, rax, 0, &[]).unwrap().unwrap();
    assert!(ok);
    assert_eq!(v.as_bytes(), w.prim_v("i8", &rax.to_ne_bytes()[1..2]).as_bytes());
    let rax: u64 = 0x0000_0007_0000_0001;
    let (ok, v) = result_from_rax_rdx(&w, &ValueType::u16, &ValueType::i32, rax, 0, &[]).unwrap().unwrap();
    assert!(!ok);
    assert_eq!(v.as_bytes(), w.prim_v("i32", &rax.to_ne_bytes()[4..8]).as_bytes());
    // rax 0 or 1: the value is in rdx
    let (ok, v) = result_from_rax_rdx(&w, &ValueType::i8, &ValueType::u8, 1, 7, &[]).unwrap().unwrap();
    assert!(!ok);
    assert_eq!(v.as_bytes(), w.prim_v("u8", &7u64.to_ne_bytes()[..1]).as_bytes());
}

#[test]
fn other_results_in_rax_rdx_or_on_the_stack() {
    let w = ValueWriter::new();
    let (ok, v) = result_from_rax_rdx(&w, &ValueType::u64, &ValueType::u32, 0, 77, &[]).unwrap().unwrap();
    assert!(ok);
    assert_eq!(v.as_bytes(), w.prim_v("u64", &77u64.to_ne_bytes()).as_bytes());
    assert!(result_from_rax_rdx(&w, &ValueType::u64, &ValueType::u32, 0x7fff_0000, 77, &[]).unwrap().is_none());
    let (ok, v) = result_from_rax_rdx(&w, &ValueType::Unit, &ValueType::Unit, 0, 0, &[]).unwrap().unwrap();
    assert!(ok);
    assert_eq!(v.as_bytes(), w.unit_v().as_bytes());
}

#[test]
fn wide_integer_results() {
    let w = ValueWriter::new();
    let (ok, v) = result_return_value(&w, &ValueType::u128, &ValueType::Unit, 0, 0, 1, 5, 6, 7, &[])
        .unwrap()
        .unwrap();
    assert!(!ok);
    assert_eq!(v.as_bytes(), w.unit_v().as_bytes());
    let (ok, v) = result_return_value(&w, &ValueType::i128, &ValueType::i128, 0, 0, 0, 5, 6, 7, &[])
        .unwrap()
        .unwrap();
    assert!(ok);
    let x: u128 = (7u128 << 64) | 5;
    assert_eq!(v.as_bytes(), w.prim_v("i128", &x.to_ne_bytes()).as_bytes());
    let (ok, v) = result_return_value(&w, &ValueType::u128, &ValueType::u128, 0, 3, 0, 5, 6, 7, &[])
        .unwrap()
        .unwrap();
    assert!(!ok);
    let x: u128 = (7u128 << 64) | 6;
    assert_eq!(v.as_bytes(), w.prim_v("u128", &x.to_ne_bytes()).as_bytes());
    // not a 128-bit case: the same as result_from_rax_rdx
    let (ok, _) = result_return_value(&w, &ValueType::i32, &ValueType::i32, 0, 0, 0, 0, 0, 0, &[])
        .unwrap()
        .unwrap();
    assert!(ok);
}

#[test]
fn pairs_in_rax_rdx() {
    let w = ValueWriter::new();
    let b = pair_from_registers(&w, "S", "a", &ValueType::i64, "b", &ValueType::u8, 1, 2, &[], &[]).unwrap();
    let expect = w.struct_v(
        "S",
        vec![
            ("a".to_owned(), w.prim_v("i64", &1i64.to_ne_bytes())),
            ("b".to_owned(), w.prim_v("u8", &[2])),
        ],
    );
    assert_eq!(b.as_bytes(), expect.as_bytes());

    // two floating point numbers of different types: the larger in xmm0
    let xmm0 = 1.5f64.to_ne_bytes().to_vec();
    let xmm1 = 2.5f32.to_ne_bytes().to_vec();
    let b = pair_from_registers(&w, "F", "x", &ValueType::float32, "y", &ValueType::float64, 0, 0, &xmm0, &xmm1)
        .unwrap();
    let expect = w.struct_v(
        "F",
        vec![
            ("x".to_owned(), w.prim_v("f32", &2.5f32.to_ne_bytes())),
            ("y".to_owned(), w.prim_v("f64", &1.5f64.to_ne_bytes())),
        ],
    );
    assert_eq!(b.as_bytes(), expect.as_bytes());
    assert!(pair_from_registers(&w, "F", "x", &ValueType::float32, "y", &ValueType::float64, 0, 0, &[], &[]).is_err());
}

#[test]
fn pair_struct_by_layout() {
    let w = ValueWriter::new();
    let t = record("my::Pair", 16, vec![leaf("i64", 8), leaf("i64", 8)]);
    let b = pair_return_value(&w, &t, "0", "1", 3, 4, &[], &[]).unwrap().unwrap();
    let expect = w.struct_v(
        "my::Pair",
        vec![
            ("0".to_owned(), w.prim_v("i64", &3i64.to_ne_bytes())),
            ("1".to_owned(), w.prim_v("i64", &4i64.to_ne_bytes())),
        ],
    );
    assert_eq!(b.as_bytes(), expect.as_bytes());
    // a wrapper around the pair is peeled off; the name stays the outer one
    let wrapped = record("my::Wrap", 16, vec![t]);
    let b = pair_return_value(&w, &wrapped, "0", "1", 3, 4, &[], &[]).unwrap().unwrap();
    let expect = w.struct_v(
        "my::Wrap",
        vec![
            ("0".to_owned(), w.prim_v("i64", &3i64.to_ne_bytes())),
            ("1".to_owned(), w.prim_v("i64", &4i64.to_ne_bytes())),
        ],
    );
    assert_eq!(b.as_bytes(), expect.as_bytes());
    let with_ref = record("my::R", 16, vec![leaf("&u8", 8), leaf("u8", 1)]);
    assert!(pair_return_value(&w, &with_ref, "a", "b", 0, 0, &[], &[]).unwrap().is_none());
    let big = record("my::B", 24, vec![leaf("u128", 16), leaf("u8", 1)]);
    assert!(pair_return_value(&w, &big, "a", "b", 0, 0, &[], &[]).unwrap().is_none());
    let three = record("my::T", 3, vec![leaf("u8", 1), leaf("u8", 1), leaf("u8", 1)]);
    assert!(pair_return_value(&w, &three, "a", "b", 0, 0, &[], &[]).unwrap().is_none());
    let bad = record("my::E", 16, vec![leaf("[u8; x]", 8), leaf("u8", 1)]);
    assert!(pair_return_value(&w, &bad, "a", "b", 0, 0, &[], &[]).is_err());
}
