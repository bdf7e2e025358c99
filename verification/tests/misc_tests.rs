use std::rc::Rc;
use firedbg_rust_debugger::native::is_little_endian;
use firedbg_rust_debugger::basic_type::{basic_type, BasicType};
use firedbg_rust_debugger::config::{ConfigValue, DebuggerConfig};
use firedbg_rust_debugger::decimal::{decimal_bytes, parse_u64_bytes, parse_uint_str};
use firedbg_rust_debugger::pages::{mk_block, multi_return, Block, PageRange};
use firedbg_rust_debugger::util::parse_package_cfg;
use firedbg_rust_debugger::value_type::{
    format_value_type_as_tuple, parse_pair, parse_value_type, SizeOfType, ValueType,
};
use firedbg_rust_debugger::writer::trim_type_name;
use firedbg_rust_debugger::Bytes;

#[test]
fn multi_return_branches() {
    assert_eq!(multi_return(1), 11);
    assert_eq!(multi_return(2), 22);
    assert_eq!(multi_return(3), 33);
    assert_eq!(multi_return(4), 0);
    assert_eq!(multi_return(-1), 0);
}

#[test]
fn blocks_of_pages() {
    let block = mk_block(0, 1);
    assert_eq!(block.start(), 0);
    assert_eq!(block.end(), 1);
    assert_eq!(block.pages(), &PageRange::new(0, 1));
    let b = Block::new(10, 5);
    assert_eq!((b.start(), b.end()), (10, 15));
}

#[test]
fn config_pairs() {
    let c = DebuggerConfig::from_value(Some("MAX_ARRAY_SIZE=100;DONT_TRACE_ALLOCATION"));
    assert_eq!(c.len(), 2);
    assert_eq!(c.max_array_size(), 100);
    assert_eq!(c.recursive_deref_limit(), 12);
    assert!(c.dont_trace_allocation());
    assert!(!c.keep_hash_order());
    let c = DebuggerConfig::from_value(Some("A=x;A=true;B=false;C=1=2"));
    assert_eq!(c.len(), 3);
    assert!(c.config_bool("A"));
    assert!(!c.config_bool("B"));
    assert_eq!(c.config_usize("C"), Some(1));
    assert!(matches!(c.get("A"), Some(ConfigValue::bool(true))));
    let c = DebuggerConfig::from_value(Some("K=hello"));
    assert!(matches!(c.get("K"), Some(ConfigValue::String(s)) if s == "hello"));
    assert_eq!(c.config_usize("K"), None);
    let c = DebuggerConfig::from_value(None);
    assert_eq!(c.len(), 0);
    assert_eq!(c.max_array_size(), 1024);
}

#[test]
fn decimal_notation() {
    assert_eq!(decimal_bytes(0), b"0".to_vec());
    assert_eq!(decimal_bytes(120), b"120".to_vec());
    assert_eq!(parse_u64_bytes(b"+42"), Some(42));
    assert_eq!(parse_u64_bytes(b"18446744073709551616"), None);
    assert_eq!(parse_u64_bytes(b""), None);
    assert_eq!(parse_uint_str("255", 255), Some(255));
    assert_eq!(parse_uint_str("256", 255), None);
    assert_eq!(parse_uint_str("-1", 255), None);
}

#[test]
fn tokens() {
    let mut b = Bytes::new();
    b.identifier("ab");
    b.integer(10usize);
    b.blob_slice(&[1, 2]);
    let mut expect = b"\" ab\"10 # ".to_vec();
    expect.extend_from_slice(&2u32.to_ne_bytes());
    expect.extend_from_slice(&[1, 2]);
    assert_eq!(b.as_bytes(), &expect[..]);
    assert_eq!(b.len(), expect.len());
}

#[test]
fn value_type_sizes_and_names() {
    let ptr = std::mem::size_of::<usize>();
    let t: ValueType = "[u16; 3]".parse().unwrap();
    assert_eq!(t, ValueType::Array(Rc::new(ValueType::u16), 3));
    assert!(matches!(t.size_of(), SizeOfType::Sized(6)));
    assert!(matches!(ValueType::str.size_of(), SizeOfType::Unknown));
    let r: ValueType = "&str".parse().unwrap();
    assert!(matches!(r.size_of(), SizeOfType::Sized(n) if n == 2 * ptr));
    assert!(r.is_str() && r.is_fat_ptr() && !r.is_thin_ptr());
    let b: ValueType = "alloc::boxed::Box<u8, alloc::alloc::Global>".parse().unwrap();
    assert_eq!(b, ValueType::Reference(Rc::new(ValueType::u8)));
    assert!(b.is_thin_ptr());
    let d: ValueType = "alloc::sync::Arc<dyn Tr>".parse().unwrap();
    assert_eq!(d, ValueType::DynRef(Rc::new(ValueType::Other("dyn Tr".to_owned()))));
    assert_eq!("&[i8]".parse::<ValueType>().unwrap(), ValueType::Slice(Rc::new(ValueType::i8)));
    assert_eq!("core::option::Option<u8".parse::<ValueType>(), Err("missing closing >"));
    assert_eq!("[u8; x]".parse::<ValueType>(), Err("Fail to parse array length"));
    assert_eq!(parse_value_type("&dyn"), None);
    assert_eq!(t.to_string(), "[u16; 3]");
    assert_eq!(
        "core::result::Result<u8, &str>".parse::<ValueType>().unwrap().to_string(),
        "core::result::Result<u8, &str>"
    );
    assert_eq!(ValueType::float32.primitive_name(), "f32");
    assert!(ValueType::i8.is_signed_integer() && ValueType::u8.is_integer());
    assert!(ValueType::float64.is_float() && ValueType::Unit.is_primitive());
    assert!(!ValueType::str.is_primitive());
    assert_eq!(
        format_value_type_as_tuple(&[ValueType::i32, ValueType::u8]),
        "(i32, u8, )"
    );
    assert_eq!(parse_pair("a<b, c>, d>"), Ok(7));
    assert_eq!(parse_pair("ab>"), Err("cannot find ,"));
    assert_eq!(parse_pair("a<b>"), Err("unmatched < >"));
    assert_eq!(parse_pair("a<b, c>"), Err("unmatched < >"));
}

#[test]
fn basic_types_of_primitives() {
    assert_eq!(basic_type(&ValueType::bool), BasicType::Bool);
    assert_eq!(basic_type(&ValueType::usize), BasicType::UnsignedLongLong);
    assert_eq!(basic_type(&ValueType::float64), BasicType::Double);
    assert_eq!(basic_type(&ValueType::i128), BasicType::Int128);
}

#[test]
fn package_cfg() {
    let c = parse_package_cfg("sea-query/full");
    assert_eq!((c.package.as_str(), c.trace.as_str()), ("sea-query", "full"));
    let c = parse_package_cfg("a/b/c");
    assert_eq!((c.package.as_str(), c.trace.as_str()), ("a", "b/c"));
}

#[test]
fn type_names_lose_the_global_allocator() {
    assert_eq!(
        trim_type_name("alloc::vec::Vec<u8, alloc::alloc::Global>"),
        "alloc::vec::Vec<u8>"
    );
    assert_eq!(trim_type_name("u8"), "u8");
}

#[test]
fn bytes_from_a_vector() {
    let b: Bytes = vec![1u8, 2, 3].into();
    assert_eq!(b.as_bytes(), &[1, 2, 3]);
    assert_eq!(Bytes::from(Vec::new()).len(), 0);
}

#[test]
fn machine_byte_order() {
    assert_eq!(is_little_endian(), 1u16.to_ne_bytes()[0] == 1);
    assert_eq!(Bytes::from_uint(0x0102, 2).as_bytes(), &0x0102u16.to_ne_bytes());
}
