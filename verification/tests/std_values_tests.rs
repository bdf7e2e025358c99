use firedbg_rust_debugger::std_values::{
    bucket_addr, bytes_less_eq, full_buckets, io_error_repr, sort_entries, value_offset,
    IoErrorRepr,
};
use firedbg_rust_debugger::Bytes;

fn b(v: &[u8]) -> Bytes {
    let mut x = Bytes::new();
    x.push_slice(v);
    x
}

#[test]
fn entries_sorted_by_bytes() {
    let mut v = vec![b(b"b"), b(b"ab"), b(b""), b(b"a"), b(b"ab"), b(&[0xff])];
    sort_entries(&mut v);
    let got: Vec<Vec<u8>> = v.iter().map(|x| x.as_bytes().to_vec()).collect();
    let mut want: Vec<Vec<u8>> = vec![
        b"b".to_vec(),
        b"ab".to_vec(),
        vec![],
        b"a".to_vec(),
        b"ab".to_vec(),
        vec![0xff],
    ];
    want.sort();
    assert_eq!(got, want);
    let mut empty: Vec<Bytes> = Vec::new();
    sort_entries(&mut empty);
    assert!(empty.is_empty());
}

#[test]
fn byte_order() {
    assert!(bytes_less_eq(&b(b"a"), &b(b"a")));
    assert!(bytes_less_eq(&b(b"a"), &b(b"ab")));
    assert!(!bytes_less_eq(&b(b"ab"), &b(b"a")));
    assert!(bytes_less_eq(&b(&[1, 255]), &b(&[2])));
}

#[test]
fn full_buckets_of_a_table() {
    let control = [0x80u8, 0x12, 0xff, 0x00, 0x7f, 0x80];
    assert_eq!(full_buckets(&control, 10), vec![1, 3, 4]);
    assert_eq!(full_buckets(&control, 2), vec![1, 3]);
    assert_eq!(full_buckets(&[0xffu8, 0x80], 0), Vec::<usize>::new());
    assert_eq!(full_buckets(&[], 3), Vec::<usize>::new());
}

#[test]
fn bucket_layout() {
    assert_eq!(bucket_addr(0x1000, 0, 16), 0x1000 - 16);
    assert_eq!(bucket_addr(0x1000, 3, 16), 0x1000 - 64);
    assert_eq!(value_offset(5, 8), 8);
    assert_eq!(value_offset(8, 8), 8);
    assert_eq!(value_offset(0, 4), 0);
    assert_eq!(value_offset(13, 4), 16);
}

#[test]
fn io_error_words() {
    assert_eq!(io_error_repr((2u64 << 32) | 0b10), IoErrorRepr::Os { code: 2 });
    assert_eq!(
        io_error_repr((0xffff_ffffu64 << 32) | 0b10),
        IoErrorRepr::Os { code: -1 }
    );
    assert_eq!(io_error_repr(0x7f00_1000), IoErrorRepr::SimpleMessage { addr: 0x7f00_1000 });
    assert_eq!(io_error_repr((13u64 << 32) | 0b11), IoErrorRepr::Kind { kind: 13 });
    assert_eq!(io_error_repr((7u64 << 32) | 0b01), IoErrorRepr::Kind { kind: 7 });
}
