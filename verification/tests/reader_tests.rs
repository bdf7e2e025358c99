use firedbg_rust_debugger::reader::{Reader, SourceReader, ReaderContext, string_from_utf8, parse_ref_type};
use firedbg_rust_debugger::rvalue::RValueLift;
use firedbg_rust_debugger::value::{Addr, ArrayType, PValue, RValue, RefAddr, RefType, StringType, UnionType};
use firedbg_rust_debugger::Bytes;

fn reader_of(bytes: Bytes) -> Reader {
    let mut r = Reader::new();
    r.set_source(bytes, 0);
    r
}

#[test]
fn reads_integers_and_strings() {
    let mut b = Bytes::new();
    b.integer(12u64);
    b.identifier("hello");
    b.integer(7u32);
    b.space();
    let mut r = reader_of(b);
    assert_eq!(r.read_int(), Some(12));
    assert_eq!(r.read_string(), Some("hello".to_owned()));
    assert_eq!(r.read_int(), Some(7));
}

#[test]
fn reads_primitives() {
    let mut b = Bytes::new();
    for (ty, bytes, name) in [
        ("i8", (-3i8).to_ne_bytes().to_vec(), "a"),
        ("u16", 500u16.to_ne_bytes().to_vec(), "b"),
        ("i64", (-9i64).to_ne_bytes().to_vec(), "c"),
        ("bool", vec![1u8], "d"),
        ("char", ('é' as u32).to_ne_bytes().to_vec(), "e"),
        ("u128", u128::MAX.to_ne_bytes().to_vec(), "f"),
        ("f64", 1.5f64.to_ne_bytes().to_vec(), "g"),
    ] {
        b.identifier(ty);
        b.blob_slice(&bytes);
        b.push_str(" prim ");
        b.identifier(name);
        b.push_str("name ");
    }
    let values = reader_of(b).read_values();
    assert_eq!(
        values,
        vec![
            ("a".to_owned(), RValue::Prim(PValue::i8(-3))),
            ("b".to_owned(), RValue::Prim(PValue::u16(500))),
            ("c".to_owned(), RValue::Prim(PValue::i64(-9))),
            ("d".to_owned(), RValue::Prim(PValue::bool(true))),
            ("e".to_owned(), RValue::Prim(PValue::char('é'))),
            ("f".to_owned(), RValue::Prim(PValue::u128(u128::MAX))),
            ("g".to_owned(), RValue::Prim(PValue::float64(1.5f64.to_bits()))),
        ]
    );
}

#[test]
fn reads_structs_tuples_and_strings() {
    let mut b = Bytes::new();
    // (i32, i32) written as a struct with fields named by index
    for (i, v) in [(0, 1i32), (1, 2i32)] {
        b.identifier(&i.to_string());
        b.identifier("i32");
        b.blob_slice(&v.to_ne_bytes());
        b.push_str(" prim ");
    }
    b.integer(2u64);
    b.identifier("(i32, i32)");
    b.push_str("struct ");
    b.identifier("t");
    b.push_str("name ");
    // a String: a struct with one field `vec` of bytes
    b.identifier("vec");
    b.identifier("alloc::vec::Vec<u8>");
    b.blob_slice(b"hi");
    b.push_str("bytes ");
    b.integer(1u64);
    b.identifier("alloc::string::String");
    b.push_str("struct ");
    b.identifier("s");
    b.push_str("name ");
    let values = reader_of(b).read_values();
    assert_eq!(
        values,
        vec![
            (
                "t".to_owned(),
                RValue::Tuple {
                    typename: "(i32, i32)".to_owned(),
                    items: vec![RValue::Prim(PValue::i32(1)), RValue::Prim(PValue::i32(2))],
                }
            ),
            (
                "s".to_owned(),
                RValue::String { typename: StringType::String, value: "hi".to_owned() }
            ),
        ]
    );
}

#[test]
fn reads_references_through_the_environment() {
    let addr = Addr::from_u64(0x1000);
    let mut b = Bytes::new();
    // the environment: the value at the address, then the address, then setenv
    b.identifier("u8");
    b.blob_slice(&[9u8]);
    b.push_str(" prim ");
    b.blob(Bytes::from_vec(addr.to_bytes()));
    b.push_str("setenv ");
    b.identifier("Box");
    b.blob(Bytes::from_vec(addr.to_bytes()));
    b.push_str("ref ");
    b.identifier("p");
    b.push_str("name ");
    b.identifier("ref");
    b.blob(Bytes::from_vec(Addr::from_u64(0x2000).to_bytes()));
    b.push_str("ref ");
    b.identifier("q");
    b.push_str("name ");
    let values = reader_of(b).read_values();
    assert_eq!(
        values,
        vec![
            (
                "p".to_owned(),
                RValue::Ref {
                    typename: RefType::Box,
                    addr: RefAddr::Addr(addr),
                    value: Box::new(RValue::Prim(PValue::u8(9))),
                }
            ),
            ("q".to_owned(), RValue::UnresolvedRef { addr: RefAddr::Addr(Addr::from_u64(0x2000)) }),
        ]
    );
}

#[test]
fn reads_options_arrays_and_enums() {
    let mut b = Bytes::new();
    // Some(5u8) as a Rust enum with variants None and Some
    b.identifier("0");
    b.identifier("u8");
    b.blob_slice(&[5u8]);
    b.push_str(" prim ");
    b.integer(1u64); // one field
    b.integer(1u64); // variant index
    b.identifier("core::option::Option<u8>");
    b.identifier("None");
    b.identifier("Some");
    b.integer(2u64);
    b.push_str("union_decl ");
    b.identifier("o");
    b.push_str("name ");
    b.push_str("unit unit ");
    b.integer(2u64);
    b.push_str("vec ");
    b.identifier("v");
    b.push_str("name ");
    b.identifier("Color");
    b.identifier("Red");
    b.push_str("enum ");
    b.identifier("c");
    b.push_str("name ");
    b.blob_slice(b"lit");
    b.push_str("strlit opaque ");
    b.identifier("x");
    b.push_str("name ");
    b.identifier("y");
    b.push_str("name ");
    let values = reader_of(b).read_values();
    assert_eq!(
        values,
        vec![
            (
                "o".to_owned(),
                RValue::Option {
                    typename: "core::option::Option<u8>".to_owned(),
                    variant: "Some".to_owned(),
                    value: Some(Box::new(RValue::Prim(PValue::u8(5)))),
                }
            ),
            (
                "v".to_owned(),
                RValue::Array { typename: ArrayType::Vec, data: vec![RValue::Unit, RValue::Unit] }
            ),
            ("c".to_owned(), RValue::Enum { typename: "Color".to_owned(), variant: "Red".to_owned() }),
            ("x".to_owned(), RValue::String { typename: StringType::StrLit, value: "lit".to_owned() }),
            ("y".to_owned(), RValue::Opaque),
        ]
    );
}

#[test]
fn source_reader_reads_from_an_offset() {
    let mut b = Bytes::new();
    b.push_str("XYZ");
    b.push_str("unit ");
    b.identifier("u");
    b.push_str("name ");
    let mut s = SourceReader::new();
    s.set_source(b, 3);
    let mut ctx = ReaderContext::new();
    assert_eq!(s.read_values(&mut ctx), vec![("u".to_owned(), RValue::Unit)]);
}

#[test]
fn truncated_strings_are_repaired() {
    let s = "aé".as_bytes().to_vec();
    assert_eq!(string_from_utf8(s[..2].to_vec()), Some("a".to_owned()));
    assert_eq!(string_from_utf8(s), Some("aé".to_owned()));
    assert_eq!(string_from_utf8(vec![0xff, 0xff, 0xff, 0xff, 0xff]), None);
}

#[test]
fn ref_type_names() {
    assert_eq!(parse_ref_type("Box"), Some(RefType::Box));
    assert_eq!(parse_ref_type("Rc"), Some(RefType::Rc));
    assert_eq!(parse_ref_type("Arc"), Some(RefType::Arc));
    assert_eq!(parse_ref_type("ref"), Some(RefType::Ref));
    assert_eq!(parse_ref_type("ptr"), Some(RefType::Ptr));
    assert_eq!(parse_ref_type("box"), None);
}

#[test]
fn lift_in_place() {
    let mut v = RValue::Struct {
        typename: "(u8,)".to_owned(),
        fields: vec![("1".to_owned(), RValue::Prim(PValue::u8(1)))],
    };
    assert_eq!(v.lift(), None);
    assert_eq!(v, RValue::Struct { typename: "(u8,)".to_owned(), fields: vec![] });
    let mut w = RValue::Union {
        typeinfo: UnionType {
            name: "core::result::Result<u8, u8>".to_owned(),
            variants: vec!["Ok".to_owned(), "Err".to_owned()],
        },
        variant: "Err".to_owned(),
        fields: vec![("0".to_owned(), RValue::Prim(PValue::u8(2)))],
    };
    assert_eq!(w.lift(), Some(()));
    assert_eq!(
        w,
        RValue::Result {
            typename: "core::result::Result<u8, u8>".to_owned(),
            variant: "Err".to_owned(),
            value: Box::new(RValue::Prim(PValue::u8(2))),
        }
    );
}

#[test]
fn two_integers_read_back() {
    let mut b = Bytes::new();
    b.integer(0u64);
    b.integer(u64::MAX);
    let mut r = reader_of(b);
    assert_eq!(r.read_int(), Some(0));
    assert_eq!(r.read_int(), Some(u64::MAX));
    assert_eq!(r.read_int(), None);
}

#[test]
fn cloned_bytes_are_equal() {
    let mut b = Bytes::new();
    b.integer(42u64);
    let c = b.clone();
    assert_eq!(c.as_bytes(), b.as_bytes());
}
