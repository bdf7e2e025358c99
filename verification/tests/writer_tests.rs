use firedbg_rust_debugger::reader::Reader;
use firedbg_rust_debugger::value::{
    Addr, ArrayType, PValue, RValue, RefAddr, RefCountedType, RefType, StringType, UnionType,
};
use firedbg_rust_debugger::writer::{RVal, Val, ValueWriter};
use firedbg_rust_debugger::Bytes;

/// A stream of named values: each encoding, a space, its name and `name`.
fn stream(entries: Vec<(&str, Bytes)>) -> Bytes {
    let mut b = Bytes::new();
    for (name, enc) in entries {
        b.push_bytes(enc);
        b.space();
        b.identifier(name);
        b.push_str("name ");
    }
    b
}

fn read_back(b: Bytes) -> Vec<(String, RValue)> {
    let mut r = Reader::new();
    r.set_source(b, 0);
    r.read_values()
}

#[test]
fn written_values_read_back() {
    let mut w = ValueWriter::new();
    let x = w.prim_v("u32", &7u32.to_ne_bytes());
    let items = vec![w.unit_v(), w.opaque_v()];
    let arr = w.arr_v(items);
    let pair = w.struct_v(
        "(u8, bool)",
        vec![("0".to_owned(), w.prim_v("u8", &[1])), ("1".to_owned(), w.prim_v("bool", &[0]))],
    );
    let e = w.enumerate_v("Color", "Blue");
    let s = w.strlit_v(b"text");
    let v = w.vector_v(vec![w.prim_v("i16", &(-2i16).to_ne_bytes())]);
    let t = UnionType {
        name: "core::option::Option<u8>".to_owned(),
        variants: vec!["None".to_owned(), "Some".to_owned()],
    };
    let some = w.union_v(&t, 1, vec![("0".to_owned(), w.prim_v("u8", &[4]))]);
    let p = w.struct_v(
        "Point<alloc::vec::Vec<u8, alloc::alloc::Global>>",
        vec![("x".to_owned(), w.prim_v("u8", &[3]))],
    );
    let values = read_back(stream(vec![
        ("x", x),
        ("a", arr),
        ("t", pair),
        ("e", e),
        ("s", s),
        ("v", v),
        ("o", some),
        ("p", p),
    ]));
    assert_eq!(
        values,
        vec![
            ("x".to_owned(), RValue::Prim(PValue::u32(7))),
            ("a".to_owned(), RValue::Array { typename: ArrayType::Arr, data: vec![RValue::Unit, RValue::Opaque] }),
            (
                "t".to_owned(),
                RValue::Tuple {
                    typename: "(u8, bool)".to_owned(),
                    items: vec![RValue::Prim(PValue::u8(1)), RValue::Prim(PValue::bool(false))],
                }
            ),
            ("e".to_owned(), RValue::Enum { typename: "Color".to_owned(), variant: "Blue".to_owned() }),
            ("s".to_owned(), RValue::String { typename: StringType::StrLit, value: "text".to_owned() }),
            (
                "v".to_owned(),
                RValue::Array { typename: ArrayType::Vec, data: vec![RValue::Prim(PValue::i16(-2))] }
            ),
            (
                "o".to_owned(),
                RValue::Option {
                    typename: "core::option::Option<u8>".to_owned(),
                    variant: "Some".to_owned(),
                    value: Some(Box::new(RValue::Prim(PValue::u8(4)))),
                }
            ),
            (
                "p".to_owned(),
                RValue::Struct {
                    typename: "Point<alloc::vec::Vec<u8>>".to_owned(),
                    fields: vec![("x".to_owned(), RValue::Prim(PValue::u8(3)))],
                }
            ),
        ]
    );
}

#[test]
fn written_environment_resolves_references() {
    let mut w = ValueWriter::new();
    let a = Addr::from_u64(0x40);
    assert!(w.alloc_env(a));
    assert!(!w.alloc_env(a));
    let pointee = w.prim_v("u64", &99u64.to_ne_bytes());
    w.set_env(a, pointee);
    let r = w.ref_v("ref", a);
    let mut b = w.emit_env();
    b.push_bytes(stream(vec![("r", r)]));
    assert_eq!(
        read_back(b),
        vec![(
            "r".to_owned(),
            RValue::Ref {
                typename: RefType::Ref,
                addr: RefAddr::Addr(a),
                value: Box::new(RValue::Prim(PValue::u64(99))),
            }
        )]
    );
    // the values were taken out: a second emission holds nothing
    assert_eq!(w.emit_env().len(), 0);
}

fn count(w: &ValueWriter, ty: &str, field: &str, n: usize) -> Bytes {
    let inner = w.struct_v(
        "core::cell::UnsafeCell<usize>",
        vec![("value".to_owned(), w.prim_v("usize", &(n as u64).to_ne_bytes()))],
    );
    w.struct_v(ty, vec![(field.to_owned(), inner)])
}

#[test]
fn written_rc_reads_back_counted() {
    let mut w = ValueWriter::new();
    let a = Addr::from_u64(0x80);
    assert!(w.alloc_env(a));
    let strong = count(&w, "core::cell::Cell<usize>", "value", 2);
    let weak = count(&w, "core::cell::Cell<usize>", "value", 1);
    let value = w.prim_v("i32", &5i32.to_ne_bytes());
    let block = w.ref_counted_block("rc", "i32", strong, weak, value);
    let ptr = w.ref_counted_to("rc", a, "i32", block);
    let mut b = w.emit_env();
    b.push_bytes(stream(vec![("r", ptr)]));
    assert_eq!(
        read_back(b),
        vec![(
            "r".to_owned(),
            RValue::RefCounted {
                typename: RefCountedType::Rc,
                addr: RefAddr::Addr(a),
                strong: 2,
                weak: 1,
                value: Box::new(RValue::Prim(PValue::i32(5))),
            }
        )]
    );
}

#[test]
fn written_arc_reads_back_counted() {
    let mut w = ValueWriter::new();
    let a = Addr::from_u64(0x1000);
    assert!(w.alloc_env(a));
    let strong = count(&w, "core::sync::atomic::AtomicUsize", "v", 3);
    let weak = count(&w, "core::sync::atomic::AtomicUsize", "v", 1);
    let value = w.prim_v("u8", &[9]);
    let block = w.ref_counted_block("arc", "u8", strong, weak, value);
    let ptr = w.ref_counted_to("arc", a, "u8", block);
    let mut b = w.emit_env();
    b.push_bytes(stream(vec![("p", ptr)]));
    assert_eq!(
        read_back(b),
        vec![(
            "p".to_owned(),
            RValue::RefCounted {
                typename: RefCountedType::Arc,
                addr: RefAddr::Addr(a),
                strong: 3,
                weak: 1,
                value: Box::new(RValue::Prim(PValue::u8(9))),
            }
        )]
    );
}

#[test]
fn spaced_names_read_back() {
    let w = ValueWriter::new();
    let mut b = Bytes::new();
    for (name, enc) in [("x", w.prim_v("u8", &[7])), ("u", w.unit_v())] {
        b.push_bytes(enc);
        b.space();
        b.identifier(name);
        b.push_str(" name ");
    }
    assert_eq!(
        read_back(b),
        vec![("x".to_owned(), RValue::Prim(PValue::u8(7))), ("u".to_owned(), RValue::Unit)]
    );
}

#[test]
fn environment_emits_latest_allocation_first() {
    let mut w = ValueWriter::new();
    let a = Addr::from_u64(0x10);
    let b = Addr::from_u64(0x20);
    assert!(w.alloc_env(a));
    assert!(w.alloc_env(b));
    // allocating `a` again moves it last, so it is emitted first
    assert!(!w.alloc_env(a));
    let va = w.prim_v("u8", &[1]);
    let vb = w.prim_v("u8", &[2]);
    w.set_env(a, w.prim_v("u8", &[1]));
    w.set_env(b, w.prim_v("u8", &[2]));
    let mut expect = Bytes::new();
    for (addr, v) in [(0x10u64, va), (0x20u64, vb)] {
        let mut key = Bytes::new();
        key.push_slice(&addr.to_ne_bytes());
        expect.blob(key);
        expect.push_bytes(v);
        expect.space();
        expect.push_str("setenv");
        expect.space();
    }
    assert_eq!(w.emit_env().as_bytes(), expect.as_bytes());
}
