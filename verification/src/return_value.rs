//! Return values passed in registers: a primitive in `rax` (with `rdx` for
//! the high half of a 128-bit integer, and in the vector register `xmm0`
//! for a floating point number); an `Option` of a primitive, whose
//! discriminant is in `rax` and whose payload is in `rdx` (a 128-bit
//! integer takes other registers); a `Result` of primitives, whose
//! discriminant is in `rax` and whose payload is in `rdx` or squashed into
//! `rax`; and a struct of two small fields, in `rax` and `rdx` (or `xmm0`
//! and `xmm1`).
use vstd::prelude::*;
use crate::bytes::Bytes;
use crate::native::{encode_uint, ne_bytes, ne_value};
use crate::value_type::{
    parse_type, parse_value_type, prim_name, size_fits, size_spec, SType, SizeOfType, ValueType,
};
use crate::writer::{op, prim_enc, struct_enc, Val, ValueWriter, WriteErr};
use crate::shape::{boil, boildown, peel, peeloff, TypeInfo};
use crate::text::to_owned_string;

verus! {

/// The first `n` bytes of a register of 8 bytes, in the machine's order.
pub open spec fn reg_bytes(reg: u64, n: nat) -> Seq<u8> {
    ne_bytes(reg as nat, 8).subrange(0, n as int)
}

/// The first `n` bytes of the register `reg`.
fn register_bytes(reg: u64, n: usize) -> (r: Vec<u8>)
    requires
        n <= 8,
    ensures
        r@ == reg_bytes(reg, n as nat),
{
    let all = encode_uint(reg as u128, 8);
    proof {
        crate::native::lemma_ne_roundtrip(reg as nat, 8);
    }
    let mut out: Vec<u8> = Vec::new();
    let mut i: usize = 0;
    while i < n
        invariant
            i <= n,
            n <= 8,
            all@ == ne_bytes(reg as nat, 8),
            all@.len() == 8,
            out@ == all@.subrange(0, i as int),
        decreases n - i,
    {
        out.push(all[i]);
        assert(all@.subrange(0, i + 1) =~= all@.subrange(0, i as int).push(all@[i as int]));
        i = i + 1;
    }
    out
}

/// How many bytes of the register a primitive of type `t` takes: all
/// eight for the pointer-sized integers.
pub open spec fn reg_width(t: SType) -> nat {
    match t {
        SType::u8 | SType::i8 => 1,
        SType::u16 | SType::i16 => 2,
        SType::char | SType::u32 | SType::i32 => 4,
        _ => 8,
    }
}

/// What a primitive value of type `t` is written as, read from `reg` (with
/// `high` for the high half of a 128-bit integer, and from the bytes of the
/// vector register `vec` for a floating point number); `None` where the
/// vector register has too few bytes.
pub open spec fn prim_from(t: SType, reg: u64, high: u64, vec: Seq<u8>) -> Option<Seq<u8>> {
    match t {
        SType::Unit => Some(op("unit")),
        SType::bool => Some(prim_enc("bool"@, seq![if reg != 0 { 1u8 } else { 0u8 }])),
        SType::u128 => Some(prim_enc("u128"@, reg_bytes(reg, 8) + reg_bytes(high, 8))),
        SType::i128 => Some(prim_enc("i128"@, reg_bytes(reg, 8) + reg_bytes(high, 8))),
        SType::float32 => if vec.len() >= 4 {
            Some(prim_enc("f32"@, vec.subrange(0, 4)))
        } else {
            None
        },
        SType::float64 => if vec.len() >= 8 {
            Some(prim_enc("f64"@, vec.subrange(0, 8)))
        } else {
            None
        },
        _ => Some(prim_enc(prim_name(t)->0, reg_bytes(reg, reg_width(t)))),
    }
}

/// Writes a primitive of type `ty` read from `reg`, with `high` for the
/// high half of a 128-bit integer and the bytes of the vector register
/// `vec` for a floating point number; an error where `vec` has too few
/// bytes.
fn prim_from_registers(
    w: &ValueWriter,
    ty: &ValueType,
    reg: u64,
    high: u64,
    vec: &[u8],
) -> (r: Result<Bytes, WriteErr>)
    requires
        prim_name(ty@) is Some,
    ensures
        match r {
            Ok(b) => prim_from(ty@, reg, high, vec@) == Some(b@),
            Err(_) => prim_from(ty@, reg, high, vec@) is None,
        },
{
    proof {
        reveal_strlit("()");
        reveal_strlit("bool");
        reveal_strlit("u128");
        reveal_strlit("i128");
        reveal_strlit("f32");
        reveal_strlit("f64");
        reveal_strlit("char");
        reveal_strlit("u8");
        reveal_strlit("i8");
        reveal_strlit("u16");
        reveal_strlit("i16");
        reveal_strlit("u32");
        reveal_strlit("i32");
        reveal_strlit("u64");
        reveal_strlit("i64");
        reveal_strlit("usize");
        reveal_strlit("isize");
    }
    match ty {
        ValueType::Unit => Ok(w.unit_v()),
        ValueType::bool => {
            let b: u8 = if reg != 0 {
                1
            } else {
                0
            };
            let v = [b];
            assert(v@ =~= seq![b]);
            Ok(w.prim_v("bool", &v))
        },
        ValueType::u128 | ValueType::i128 => {
            let v = wide_bytes(reg, high);
            if matches!(ty, ValueType::u128) {
                Ok(w.prim_v("u128", v.as_slice()))
            } else {
                Ok(w.prim_v("i128", v.as_slice()))
            }
        },
        ValueType::float32 => {
            if vec.len() < 4 {
                return Err(WriteErr);
            }
            let v = vstd::slice::slice_subrange(vec, 0, 4);
            Ok(w.prim_v("f32", v))
        },
        ValueType::float64 => {
            if vec.len() < 8 {
                return Err(WriteErr);
            }
            let v = vstd::slice::slice_subrange(vec, 0, 8);
            Ok(w.prim_v("f64", v))
        },
        ValueType::char => Ok(w.prim_v("char", register_bytes(reg, 4).as_slice())),
        ValueType::u8 => Ok(w.prim_v("u8", register_bytes(reg, 1).as_slice())),
        ValueType::i8 => Ok(w.prim_v("i8", register_bytes(reg, 1).as_slice())),
        ValueType::u16 => Ok(w.prim_v("u16", register_bytes(reg, 2).as_slice())),
        ValueType::i16 => Ok(w.prim_v("i16", register_bytes(reg, 2).as_slice())),
        ValueType::u32 => Ok(w.prim_v("u32", register_bytes(reg, 4).as_slice())),
        ValueType::i32 => Ok(w.prim_v("i32", register_bytes(reg, 4).as_slice())),
        ValueType::u64 => Ok(w.prim_v("u64", register_bytes(reg, 8).as_slice())),
        ValueType::i64 => Ok(w.prim_v("i64", register_bytes(reg, 8).as_slice())),
        ValueType::usize => Ok(w.prim_v("usize", register_bytes(reg, 8).as_slice())),
        _ => Ok(w.prim_v("isize", register_bytes(reg, 8).as_slice())),
    }
}

/// A primitive return value of type `ty`: from `rax`, with `rdx` for the
/// high half of a 128-bit integer and the bytes of `xmm0` for a floating
/// point number. An error where `xmm0` has too few bytes.
pub fn prim_from_rax_rdx(
    w: &ValueWriter,
    ty: &ValueType,
    rax: u64,
    rdx: u64,
    xmm0: &[u8],
) -> (r: Result<Bytes, WriteErr>)
    requires
        prim_name(ty@) is Some,
    ensures
        match r {
            Ok(b) => prim_from(ty@, rax, rdx, xmm0@) == Some(b@),
            Err(_) => prim_from(ty@, rax, rdx, xmm0@) is None,
        },
{
    prim_from_registers(w, ty, rax, rdx, xmm0)
}

/// A primitive of type `ty` that came back in `rdx` (a floating point
/// number in `xmm0`), as the payload of an `Option`. A 128-bit integer
/// does not fit there.
pub fn prim_from_rdx(w: &ValueWriter, ty: &ValueType, rdx: u64, xmm0: &[u8]) -> (r: Result<
    Bytes,
    WriteErr,
>)
    requires
        prim_name(ty@) is Some,
        !(ty@ is u128),
        !(ty@ is i128),
    ensures
        match r {
            Ok(b) => prim_from(ty@, rdx, 0, xmm0@) == Some(b@),
            Err(_) => prim_from(ty@, rdx, 0, xmm0@) is None,
        },
{
    prim_from_registers(w, ty, rdx, 0, xmm0)
}

/// The largest code point of a `char`.
pub open spec fn char_max() -> u64 {
    0x10FFFF
}

/// What an `Option` of the primitive `t` (not a 128-bit integer) that came
/// back in registers is: `Ok(None)` for `None`, `Ok(Some(..))` with the
/// payload as written, and `Err` where the registers hold no such value.
///
/// `Option<bool>` is the byte 0, 1 or 2 (for `None`) in `rax`;
/// `Option<char>` is the code point in `rax`, where a value above the
/// largest code point is `None`; any other `Option` has its discriminant in
/// the low byte of `rax` and its payload in `rdx` (in `xmm0` for a floating
/// point number).
pub open spec fn option_prim_from(t: SType, rax: u64, rdx: u64, xmm0: Seq<u8>) -> Result<
    Option<Seq<u8>>,
    (),
> {
    let lsb = rax % 256;
    match t {
        SType::bool => if lsb == 0 {
            Ok(Some(prim_enc("bool"@, seq![0u8])))
        } else if lsb == 1 {
            Ok(Some(prim_enc("bool"@, seq![1u8])))
        } else if lsb == 2 {
            Ok(None)
        } else {
            Err(())
        },
        SType::char => if rax <= char_max() {
            Ok(Some(prim_enc("char"@, reg_bytes(rax, 4))))
        } else {
            Ok(None)
        },
        _ => if lsb != 0 {
            match prim_from(t, rdx, 0, xmm0) {
                Some(b) => Ok(Some(b)),
                None => Err(()),
            }
        } else {
            Ok(None)
        },
    }
}

/// An `Option` of the primitive `left` (not a 128-bit integer) that came
/// back in registers: `None` for `None`, the payload as written for `Some`.
pub fn option_prim_from_registers(
    w: &ValueWriter,
    left: &ValueType,
    rax: u64,
    rdx: u64,
    xmm0: &[u8],
) -> (r: Result<Option<Bytes>, WriteErr>)
    requires
        prim_name(left@) is Some,
        !(left@ is u128),
        !(left@ is i128),
    ensures
        match r {
            Ok(Some(b)) => option_prim_from(left@, rax, rdx, xmm0@) == Ok::<
                Option<Seq<u8>>,
                (),
            >(Some(b@)),
            Ok(None) => option_prim_from(left@, rax, rdx, xmm0@) == Ok::<Option<Seq<u8>>, ()>(
                None,
            ),
            Err(_) => option_prim_from(left@, rax, rdx, xmm0@) is Err,
        },
{
    proof {
        reveal_strlit("bool");
        reveal_strlit("char");
    }
    let lsb: u64 = rax % 256;
    match left {
        ValueType::bool => {
            if lsb == 0 {
                let v = [0u8];
                assert(v@ =~= seq![0u8]);
                Ok(Some(w.prim_v("bool", &v)))
            } else if lsb == 1 {
                let v = [1u8];
                assert(v@ =~= seq![1u8]);
                Ok(Some(w.prim_v("bool", &v)))
            } else if lsb == 2 {
                Ok(None)
            } else {
                Err(WriteErr)
            }
        },
        ValueType::char => {
            if rax <= 0x10FFFF {
                Ok(Some(w.prim_v("char", register_bytes(rax, 4).as_slice())))
            } else {
                Ok(None)
            }
        },
        _ => {
            if lsb != 0 {
                match prim_from_registers(w, left, rdx, 0, xmm0) {
                    Ok(b) => Ok(Some(b)),
                    Err(e) => Err(e),
                }
            } else {
                Ok(None)
            }
        },
    }
}

/// What an `Option` of a 128-bit integer `t` that came back in registers
/// on x86-64 is: `None`, or the payload as written. Where `rdx` is 0 and
/// `rcx` is 0 or 1, `rcx` is the discriminant and the payload is in `rsi`
/// and `r8`; otherwise the low four bits of `rdx` are the discriminant and
/// the payload is in `rdi` and `r8`.
pub open spec fn option_wide_from(t: SType, rdx: u64, rcx: u64, rsi: u64, rdi: u64, r8: u64) -> Option<
    Seq<u8>,
> {
    let in_rcx = rdx == 0 && (rcx == 1 || rcx == 0);
    if in_rcx && rcx % 16 != 0 {
        Some(prim_enc(prim_name(t)->0, reg_bytes(rsi, 8) + reg_bytes(r8, 8)))
    } else if !in_rcx && rdx % 16 != 0 {
        Some(prim_enc(prim_name(t)->0, reg_bytes(rdi, 8) + reg_bytes(r8, 8)))
    } else {
        None
    }
}

/// The 128-bit integer made of the first eight bytes of `low` and `high`.
fn wide_bytes(low: u64, high: u64) -> (r: Vec<u8>)
    ensures
        r@ == reg_bytes(low, 8) + reg_bytes(high, 8),
{
    let mut v = register_bytes(low, 8);
    let mut h = register_bytes(high, 8);
    v.append(&mut h);
    v
}

/// An `Option` of the 128-bit integer `left` that came back in registers
/// on x86-64: `None` for `None`, the payload as written for `Some`.
pub fn option_wide_from_registers(
    w: &ValueWriter,
    left: &ValueType,
    rdx: u64,
    rcx: u64,
    rsi: u64,
    rdi: u64,
    r8: u64,
) -> (r: Option<Bytes>)
    requires
        left@ is u128 || left@ is i128,
    ensures
        match r {
            Some(b) => option_wide_from(left@, rdx, rcx, rsi, rdi, r8) == Some(b@),
            None => option_wide_from(left@, rdx, rcx, rsi, rdi, r8) is None,
        },
{
    proof {
        reveal_strlit("u128");
        reveal_strlit("i128");
    }
    let in_rcx = rdx == 0 && (rcx == 1 || rcx == 0);
    let name = left.primitive_name();
    if in_rcx && rcx % 16 != 0 {
        Some(w.prim_v(name, wide_bytes(rsi, r8).as_slice()))
    } else if !in_rcx && rdx % 16 != 0 {
        Some(w.prim_v(name, wide_bytes(rdi, r8).as_slice()))
    } else {
        None
    }
}

/// A `Result` that comes back in `rax` alone: both sides of size zero, or
/// one side `bool` or `char` and the other of size zero.
pub open spec fn rax_only_result(l: SType, r: SType) -> bool {
    let lz = size_spec(l) == Some(0nat);
    let rz = size_spec(r) == Some(0nat);
    ||| lz && rz
    ||| (l is bool && rz) || (r is bool && lz)
    ||| (l is char && rz) || (r is char && lz)
}

/// What a `Result<l, r>` that came back in `rax` alone is: whether it is
/// `Ok`, and the value on that side as written; `None` where `rax` holds no
/// such value.
///
/// With both sides of size zero, `rax` is 0 for `Ok`. With a `bool` on one
/// side, the low two bits of `rax` are the `bool` or 2 for the other side.
/// With a `char` on one side, a value above the largest code point is the
/// other side.
pub open spec fn result_from(l: SType, r: SType, rax: u64) -> Option<(bool, Seq<u8>)> {
    let lz = size_spec(l) == Some(0nat);
    let rz = size_spec(r) == Some(0nat);
    if lz && rz {
        Some((rax == 0, op("unit")))
    } else if (l is bool && rz) || (r is bool && lz) {
        let res = rax % 4;
        if res == 3 {
            None
        } else if res == 2 {
            Some((lz, op("unit")))
        } else {
            Some((!lz, prim_enc("bool"@, seq![res as u8])))
        }
    } else {
        let is_char = rax <= char_max();
        if is_char {
            Some((rz, prim_enc("char"@, reg_bytes(rax, 4))))
        } else {
            Some((!rz, op("unit")))
        }
    }
}

/// Whether the size of `t` is known to be zero.
fn zero_sized(t: &ValueType) -> (r: bool)
    requires
        size_fits(t@),
    ensures
        r == (size_spec(t@) == Some(0nat)),
{
    match t.size_of() {
        SizeOfType::Sized(n) => n == 0,
        SizeOfType::Unknown => false,
    }
}

/// A `Result<left, right>` that came back in `rax` alone: whether it is
/// `Ok`, and the value on that side as written.
pub fn result_from_rax(w: &ValueWriter, left: &ValueType, right: &ValueType, rax: u64) -> (r:
    Result<(bool, Bytes), WriteErr>)
    requires
        size_fits(left@),
        size_fits(right@),
        rax_only_result(left@, right@),
    ensures
        match r {
            Ok((ok, b)) => result_from(left@, right@, rax) == Some((ok, b@)),
            Err(_) => result_from(left@, right@, rax) is None,
        },
{
    proof {
        reveal_strlit("bool");
        reveal_strlit("char");
    }
    let lz = zero_sized(left);
    let rz = zero_sized(right);
    if lz && rz {
        Ok((rax == 0, w.unit_v()))
    } else if (matches!(left, ValueType::bool) && rz) || (matches!(right, ValueType::bool) && lz) {
        let res: u64 = rax % 4;
        if res == 3 {
            Err(WriteErr)
        } else if res == 2 {
            Ok((lz, w.unit_v()))
        } else {
            let v = [res as u8];
            assert(v@ =~= seq![res as u8]);
            Ok((!lz, w.prim_v("bool", &v)))
        }
    } else if rax <= 0x10FFFF {
        Ok((rz, w.prim_v("char", register_bytes(rax, 4).as_slice())))
    } else {
        Ok((!rz, w.unit_v()))
    }
}

/// The name of a primitive holds no `"`.
proof fn lemma_prim_name_unquoted(t: SType)
    requires
        prim_name(t) is Some,
    ensures
        !prim_name(t)->0.contains('"'),
{
    reveal_strlit("()");
    reveal_strlit("bool");
    reveal_strlit("char");
    reveal_strlit("u8");
    reveal_strlit("i8");
    reveal_strlit("u16");
    reveal_strlit("i16");
    reveal_strlit("u32");
    reveal_strlit("i32");
    reveal_strlit("u64");
    reveal_strlit("i64");
    reveal_strlit("u128");
    reveal_strlit("i128");
    reveal_strlit("f32");
    reveal_strlit("f64");
    reveal_strlit("usize");
    reveal_strlit("isize");
    let x = prim_name(t)->0;
    assert forall|k: int| 0 <= k < x.len() implies x[k] != '"' by {}
}

/// An integer type.
pub open spec fn is_int(t: SType) -> bool {
    t is u8 || t is i8 || t is u16 || t is i16 || t is u32 || t is i32 || t is u64 || t is i64
        || t is u128 || t is i128 || t is usize || t is isize
}

/// A signed integer type.
pub open spec fn is_signed(t: SType) -> bool {
    t is i8 || t is i16 || t is i32 || t is i64 || t is i128 || t is isize
}

/// A 128-bit integer type.
pub open spec fn is_wide(t: SType) -> bool {
    t is u128 || t is i128
}

/// The size in bytes of a primitive.
pub open spec fn prim_size(t: SType) -> nat {
    size_spec(t)->0
}

/// A number for each primitive, distinct for distinct primitives.
pub open spec fn prim_code(t: SType) -> int {
    match t {
        SType::Unit => 0,
        SType::bool => 1,
        SType::char => 2,
        SType::u8 => 3,
        SType::i8 => 4,
        SType::u16 => 5,
        SType::i16 => 6,
        SType::u32 => 7,
        SType::i32 => 8,
        SType::u64 => 9,
        SType::i64 => 10,
        SType::u128 => 11,
        SType::i128 => 12,
        SType::float32 => 13,
        SType::float64 => 14,
        SType::usize => 15,
        SType::isize => 16,
        _ => 17,
    }
}

fn prim_code_of(t: &ValueType) -> (r: u8)
    ensures
        r == prim_code(t@),
{
    match t {
        ValueType::Unit => 0,
        ValueType::bool => 1,
        ValueType::char => 2,
        ValueType::u8 => 3,
        ValueType::i8 => 4,
        ValueType::u16 => 5,
        ValueType::i16 => 6,
        ValueType::u32 => 7,
        ValueType::i32 => 8,
        ValueType::u64 => 9,
        ValueType::i64 => 10,
        ValueType::u128 => 11,
        ValueType::i128 => 12,
        ValueType::float32 => 13,
        ValueType::float64 => 14,
        ValueType::usize => 15,
        ValueType::isize => 16,
        _ => 17,
    }
}

/// Whether two primitives are the same type.
fn same_prim(a: &ValueType, b: &ValueType) -> (r: bool)
    requires
        prim_name(a@) is Some,
        prim_name(b@) is Some,
    ensures
        r == (a@ == b@),
{
    prim_code_of(a) == prim_code_of(b)
}

/// The size in bytes of a primitive.
fn prim_size_of(t: &ValueType) -> (r: usize)
    requires
        prim_name(t@) is Some,
    ensures
        r == prim_size(t@),
        r <= 16,
{
    proof {
        assert(crate::value_type::ptr_size() <= 8) by {
            assert(usize::BITS == 32 || usize::BITS == 64);
        }
    }
    match t.size_of() {
        SizeOfType::Sized(n) => n,
        SizeOfType::Unknown => 0,
    }
}

/// A `Result` of two primitives that comes back in `rcx` or `rdx`, with the
/// payload in other registers: a 128-bit integer on both sides, or on one
/// side with the other of size zero.
pub open spec fn wide_result(l: SType, r: SType) -> bool {
    ||| is_wide(l) && l == r
    ||| is_wide(l) && prim_size(r) == 0
    ||| prim_size(l) == 0 && is_wide(r)
}

/// A `Result` of two primitives whose sides fit a register each and that
/// comes back in `rax` and `rdx`: the same type on both sides, two integers
/// of at most four bytes, or `()` on a side.
pub open spec fn register_result(l: SType, r: SType) -> bool {
    &&& prim_size(l) <= 8
    &&& prim_size(r) <= 8
    &&& (l == r || (is_int(l) && is_int(r) && prim_size(l) <= 4 && prim_size(r) <= 4) || l is Unit
        || r is Unit)
}

/// Two small integers of different sizes or signedness, squashed with the
/// discriminant into `rax`.
pub open spec fn squashed_result(l: SType, r: SType) -> bool {
    &&& is_int(l)
    &&& is_int(r)
    &&& prim_size(l) <= 4
    &&& prim_size(r) <= 4
    &&& (prim_size(l) != prim_size(r) || is_signed(l) != is_signed(r))
}

/// Where reading a `Result` of two primitives panics: it is passed in `rax`
/// and `rdx` as the last resort, and the side that `rax` selects is a
/// 128-bit integer, which does not fit in `rdx`.
pub open spec fn result_panics(l: SType, r: SType, rax: u64) -> bool {
    &&& !rax_only_result(l, r)
    &&& !wide_result(l, r)
    &&& !register_result(l, r)
    &&& ((rax == 0 && is_wide(l)) || (rax == 1 && is_wide(r)))
}

/// What a `Result<l, r>` of two primitives (not a `wide_result`) that came
/// back in `rax` and `rdx` is: whether it is `Ok` and the value on that
/// side as written; `Ok(None)` where the value was passed on the stack;
/// `Err` where the registers hold no such value.
///
/// After the cases of [`result_from`], the sides that fit a register each
/// have the discriminant in the low bit of `rax`: two small integers of
/// different sizes or signedness have their value in `rdx` where `rax` is
/// 0 or 1, else in `rax` right above the discriminant; any other such pair
/// has the value in `rdx` (in `xmm0` for a floating point number). Any
/// other `Result` has `rax` 0 (`Ok`) or 1 (`Err`) and the value in `rdx`,
/// or was passed on the stack.
pub open spec fn result_regs(l: SType, r: SType, rax: u64, rdx: u64, xmm0: Seq<u8>) -> Result<
    Option<(bool, Seq<u8>)>,
    (),
> {
    let res = rax % 2;
    let side = if res == 0 {
        l
    } else {
        r
    };
    let n = prim_size(side);
    if rax_only_result(l, r) {
        match result_from(l, r, rax) {
            Some(p) => Ok(Some(p)),
            None => Err(()),
        }
    } else if register_result(l, r) {
        if squashed_result(l, r) {
            let b = if rax == 0 || rax == 1 {
                reg_bytes(rdx, n)
            } else {
                ne_bytes(rax as nat, 8).subrange(n as int, 2 * n as int)
            };
            Ok(Some((res == 0, prim_enc(prim_name(side)->0, b))))
        } else {
            match prim_from(side, rdx, 0, xmm0) {
                Some(v) => Ok(Some((res == 0, v))),
                None => Err(()),
            }
        }
    } else if rax == 0 || rax == 1 {
        Ok(Some((rax == 0, prim_enc(prim_name(side)->0, reg_bytes(rdx, n)))))
    } else {
        Ok(None)
    }
}

/// A `Result<left, right>` of two primitives that came back in `rax` and
/// `rdx`: whether it is `Ok` and the value on that side as written; `None`
/// where the value was passed on the stack.
pub fn result_from_rax_rdx(
    w: &ValueWriter,
    left: &ValueType,
    right: &ValueType,
    rax: u64,
    rdx: u64,
    xmm0: &[u8],
) -> (r: Result<Option<(bool, Bytes)>, WriteErr>)
    requires
        prim_name(left@) is Some,
        prim_name(right@) is Some,
        !wide_result(left@, right@),
        !result_panics(left@, right@, rax),
    ensures
        match r {
            Ok(Some((ok, b))) => result_regs(left@, right@, rax, rdx, xmm0@) == Ok::<
                Option<(bool, Seq<u8>)>,
                (),
            >(Some((ok, b@))),
            Ok(None) => result_regs(left@, right@, rax, rdx, xmm0@) == Ok::<
                Option<(bool, Seq<u8>)>,
                (),
            >(None),
            Err(_) => result_regs(left@, right@, rax, rdx, xmm0@) is Err,
        },
{
    let ls = prim_size_of(left);
    let rs = prim_size_of(right);
    let lz = ls == 0;
    let rz = rs == 0;
    let rax_only = (lz && rz) || (matches!(left, ValueType::bool) && rz) || (matches!(
        right,
        ValueType::bool,
    ) && lz) || (matches!(left, ValueType::char) && rz) || (matches!(right, ValueType::char)
        && lz);
    if rax_only {
        return match result_from_rax(w, left, right, rax) {
            Ok(p) => Ok(Some(p)),
            Err(e) => Err(e),
        };
    }
    let res: u64 = rax % 2;
    let side = if res == 0 {
        left
    } else {
        right
    };
    let n = if res == 0 {
        ls
    } else {
        rs
    };
    proof {
        lemma_prim_name_unquoted(left@);
        lemma_prim_name_unquoted(right@);
    }
    let both_small_ints = left.is_integer() && right.is_integer() && ls <= 4 && rs <= 4;
    let register = ls <= 8 && rs <= 8 && (same_prim(left, right) || both_small_ints || matches!(
        left,
        ValueType::Unit,
    ) || matches!(right, ValueType::Unit));
    if register {
        if both_small_ints && (ls != rs || left.is_signed_integer() != right.is_signed_integer()) {
            let name = side.primitive_name();
            if rax == 0 || rax == 1 {
                let b = register_bytes(rdx, n);
                Ok(Some((res == 0, w.prim_v(name, b.as_slice()))))
            } else {
                let all = encode_uint(rax as u128, 8);
                proof {
                    crate::native::lemma_ne_roundtrip(rax as nat, 8);
                }
                let b = vstd::slice::slice_subrange(all.as_slice(), n, 2 * n);
                Ok(Some((res == 0, w.prim_v(name, b))))
            }
        } else {
            match prim_from_registers(w, side, rdx, 0, xmm0) {
                Ok(v) => Ok(Some((res == 0, v))),
                Err(e) => Err(e),
            }
        }
    } else if rax == 0 || rax == 1 {
        let name = side.primitive_name();
        let b = register_bytes(rdx, n);
        Ok(Some((rax == 0, w.prim_v(name, b.as_slice()))))
    } else {
        Ok(None)
    }
}

/// What a `Result<l, r>` of a 128-bit integer (a `wide_result`) that came
/// back in registers on x86-64 is: where `rdx` is 0 and `rcx` is 0 or 1,
/// `rcx` is the discriminant and the payload is in `rsi` and `r8`;
/// otherwise `rdx` is the discriminant and the payload is in `rdi` and `r8`.
/// A discriminant 0 is `Ok`; the side of size zero is `()`.
pub open spec fn result_wide(l: SType, r: SType, rdx: u64, rcx: u64, rsi: u64, rdi: u64, r8: u64) -> (
    bool,
    Seq<u8>,
) {
    let in_rcx = rdx == 0 && (rcx == 1 || rcx == 0);
    let res = if in_rcx {
        rcx
    } else {
        rdx
    };
    let v = if in_rcx {
        reg_bytes(rsi, 8) + reg_bytes(r8, 8)
    } else {
        reg_bytes(rdi, 8) + reg_bytes(r8, 8)
    };
    if (prim_size(l) == 0 && res == 0) || (prim_size(r) == 0 && res == 1) {
        (res == 0, op("unit"))
    } else if is_int(l) {
        (res == 0, prim_enc(prim_name(l)->0, v))
    } else {
        (res == 0, prim_enc(prim_name(r)->0, v))
    }
}

/// A `Result<left, right>` of a 128-bit integer that came back in registers
/// on x86-64: whether it is `Ok`, and the value on that side as written.
pub fn result_wide_from_registers(
    w: &ValueWriter,
    left: &ValueType,
    right: &ValueType,
    rdx: u64,
    rcx: u64,
    rsi: u64,
    rdi: u64,
    r8: u64,
) -> (r: (bool, Bytes))
    requires
        prim_name(left@) is Some,
        prim_name(right@) is Some,
        wide_result(left@, right@),
    ensures
        result_wide(left@, right@, rdx, rcx, rsi, rdi, r8) == (r.0, r.1@),
{
    let in_rcx = rdx == 0 && (rcx == 1 || rcx == 0);
    let res = if in_rcx {
        rcx
    } else {
        rdx
    };
    let v = if in_rcx {
        wide_bytes(rsi, r8)
    } else {
        wide_bytes(rdi, r8)
    };
    let ls = prim_size_of(left);
    let rs = prim_size_of(right);
    proof {
        lemma_prim_name_unquoted(left@);
        lemma_prim_name_unquoted(right@);
    }
    if (ls == 0 && res == 0) || (rs == 0 && res == 1) {
        (res == 0, w.unit_v())
    } else if left.is_integer() {
        (res == 0, w.prim_v(left.primitive_name(), v.as_slice()))
    } else {
        (res == 0, w.prim_v(right.primitive_name(), v.as_slice()))
    }
}

/// What a `Result<l, r>` of two primitives that came back in registers on
/// x86-64 is: [`result_wide`] for a 128-bit integer, else [`result_regs`].
pub open spec fn result_return(
    l: SType,
    r: SType,
    rax: u64,
    rdx: u64,
    rcx: u64,
    rsi: u64,
    rdi: u64,
    r8: u64,
    xmm0: Seq<u8>,
) -> Result<Option<(bool, Seq<u8>)>, ()> {
    if wide_result(l, r) {
        Ok(Some(result_wide(l, r, rdx, rcx, rsi, rdi, r8)))
    } else {
        result_regs(l, r, rax, rdx, xmm0)
    }
}

/// A `Result<left, right>` of two primitives that came back in registers on
/// x86-64: whether it is `Ok`, and the value on that side as written;
/// `None` where the value was passed on the stack.
pub fn result_return_value(
    w: &ValueWriter,
    left: &ValueType,
    right: &ValueType,
    rax: u64,
    rdx: u64,
    rcx: u64,
    rsi: u64,
    rdi: u64,
    r8: u64,
    xmm0: &[u8],
) -> (r: Result<Option<(bool, Bytes)>, WriteErr>)
    requires
        prim_name(left@) is Some,
        prim_name(right@) is Some,
        !result_panics(left@, right@, rax),
    ensures
        match r {
            Ok(Some((ok, b))) => result_return(left@, right@, rax, rdx, rcx, rsi, rdi, r8, xmm0@)
                == Ok::<Option<(bool, Seq<u8>)>, ()>(Some((ok, b@))),
            Ok(None) => result_return(left@, right@, rax, rdx, rcx, rsi, rdi, r8, xmm0@) == Ok::<
                Option<(bool, Seq<u8>)>,
                (),
            >(None),
            Err(_) => result_return(left@, right@, rax, rdx, rcx, rsi, rdi, r8, xmm0@) is Err,
        },
{
    let ls = prim_size_of(left);
    let rs = prim_size_of(right);
    let lw = matches!(left, ValueType::u128 | ValueType::i128);
    let rw = matches!(right, ValueType::u128 | ValueType::i128);
    if (lw && same_prim(left, right)) || (lw && rs == 0) || (ls == 0 && rw) {
        Ok(Some(result_wide_from_registers(w, left, right, rdx, rcx, rsi, rdi, r8)))
    } else {
        result_from_rax_rdx(w, left, right, rax, rdx, xmm0)
    }
}

/// A floating point type.
pub open spec fn is_float_type(t: SType) -> bool {
    t is float32 || t is float64
}

/// Both values, where both are there.
pub open spec fn both(a: Option<Seq<u8>>, b: Option<Seq<u8>>) -> Option<(Seq<u8>, Seq<u8>)> {
    match (a, b) {
        (Some(x), Some(y)) => Some((x, y)),
        _ => None,
    }
}

/// The two fields, of types `l` and `r` of at most eight bytes each and
/// neither a reference, of a struct that came back in registers, as
/// written; `None` where a vector register has too few bytes.
///
/// Two floating point numbers of different types come back in `xmm0` (the
/// larger) and `xmm1`. Otherwise the first field is read as a primitive
/// from `rax` (`xmm0` for a floating point number) and the second from
/// `rdx` (`xmm1` after a floating point number, else `xmm0`, for a floating
/// point number); a field that is not a primitive is written as opaque.
pub open spec fn pair_values(
    l: SType,
    r: SType,
    rax: u64,
    rdx: u64,
    xmm0: Seq<u8>,
    xmm1: Seq<u8>,
) -> Option<(Seq<u8>, Seq<u8>)> {
    if is_float_type(l) && is_float_type(r) && l != r {
        if prim_size(l) >= prim_size(r) {
            both(prim_from(l, 0, 0, xmm0), prim_from(r, 0, 0, xmm1))
        } else {
            both(prim_from(l, 0, 0, xmm1), prim_from(r, 0, 0, xmm0))
        }
    } else {
        let lv = if prim_name(l) is Some {
            prim_from(l, rax, rdx, xmm0)
        } else {
            Some(op("opaque"))
        };
        let rv = if prim_name(r) is Some {
            if is_float_type(r) {
                if is_float_type(l) {
                    prim_from(r, 0, 0, xmm1)
                } else {
                    prim_from(r, 0, 0, xmm0)
                }
            } else {
                prim_from(r, rdx, 0, xmm0)
            }
        } else {
            Some(op("opaque"))
        };
        both(lv, rv)
    }
}

/// One field of a returned struct: a primitive read from registers, or
/// opaque.
fn field_from_registers(
    w: &ValueWriter,
    t: &ValueType,
    reg: u64,
    high: u64,
    vec: &[u8],
) -> (r: Result<Bytes, WriteErr>)
    ensures
        match r {
            Ok(b) => (if prim_name(t@) is Some {
                prim_from(t@, reg, high, vec@)
            } else {
                Some(op("opaque"))
            }) == Some(b@),
            Err(_) => prim_name(t@) is Some && prim_from(t@, reg, high, vec@) is None,
        },
{
    if t.is_primitive() {
        prim_from_registers(w, t, reg, high, vec)
    } else {
        Ok(w.opaque_v())
    }
}

/// A struct of two fields, named `left_name` and `right_name`, of types
/// `left` and `right` of at most eight bytes each and neither a reference,
/// that came back in registers: the struct as written under the name
/// `ret_type`.
pub fn pair_from_registers(
    w: &ValueWriter,
    ret_type: &str,
    left_name: &str,
    left: &ValueType,
    right_name: &str,
    right: &ValueType,
    rax: u64,
    rdx: u64,
    xmm0: &[u8],
    xmm1: &[u8],
) -> (r: Result<Bytes, WriteErr>)
    requires
        !ret_type@.contains('"'),
        !left_name@.contains('"'),
        !right_name@.contains('"'),
        !(left@ is Reference),
        !(right@ is Reference),
    ensures
        match r {
            Ok(b) => pair_values(left@, right@, rax, rdx, xmm0@, xmm1@) matches Some((lv, rv))
                && b@ == struct_enc(ret_type@, seq![(left_name@, lv), (right_name@, rv)]),
            Err(_) => pair_values(left@, right@, rax, rdx, xmm0@, xmm1@) is None,
        },
{
    let lf = left.is_float();
    let rf = right.is_float();
    let values = if lf && rf && !same_prim(left, right) {
        let ls = prim_size_of(left);
        let rs = prim_size_of(right);
        if ls >= rs {
            match (prim_from_registers(w, left, 0, 0, xmm0), prim_from_registers(w, right, 0, 0, xmm1)) {
                (Ok(a), Ok(b)) => Ok((a, b)),
                _ => Err(WriteErr),
            }
        } else {
            match (prim_from_registers(w, left, 0, 0, xmm1), prim_from_registers(w, right, 0, 0, xmm0)) {
                (Ok(a), Ok(b)) => Ok((a, b)),
                _ => Err(WriteErr),
            }
        }
    } else {
        let lv = field_from_registers(w, left, rax, rdx, xmm0);
        let rv = if rf {
            if lf {
                field_from_registers(w, right, 0, 0, xmm1)
            } else {
                field_from_registers(w, right, 0, 0, xmm0)
            }
        } else {
            field_from_registers(w, right, rdx, 0, xmm0)
        };
        match (lv, rv) {
            (Ok(a), Ok(b)) => Ok((a, b)),
            _ => Err(WriteErr),
        }
    };
    match values {
        Ok((a, b)) => {
            let mut fields: Vec<(String, Bytes)> = Vec::new();
            fields.push((to_owned_string(left_name), a));
            fields.push((to_owned_string(right_name), b));
            proof {
                assert(crate::writer::named_view(fields@) =~= seq![(left_name@, a@), (right_name@, b@)]);
            }
            Ok(w.struct_v(ret_type, fields))
        },
        Err(e) => Err(e),
    }
}

/// What boiling a field's type down gives: `None` where it panics.
pub open spec fn boiled_field(f: TypeInfo) -> Option<Result<SType, ()>> {
    match parse_type(f.name@) {
        None => None,
        Some(Err(_)) => Some(Err(())),
        Some(Ok(p)) => boil(p, f),
    }
}

/// A field whose type boils down without a panic, to a type whose size can
/// be computed.
pub open spec fn field_boils(f: TypeInfo) -> bool {
    match boiled_field(f) {
        None => false,
        Some(Ok(v)) => size_fits(v),
        Some(Err(_)) => true,
    }
}

/// Both sizes are known and at most eight bytes.
pub open spec fn small_sizes(l: SType, r: SType) -> bool {
    &&& size_spec(l) is Some
    &&& size_spec(l)->0 <= 8
    &&& size_spec(r) is Some
    &&& size_spec(r)->0 <= 8
}

/// What a returned struct `t` of two fields (after its wrappers are peeled
/// off) that came back in registers is, with `ln` and `rn` the names of its
/// fields: the struct as written; `Ok(None)` where it was not passed in
/// registers (another number of fields, a field larger than eight bytes or
/// a reference, whose value is read from memory); `Err` where a field's
/// type name does not parse or a vector register has too few bytes.
pub open spec fn pair_return(
    t: TypeInfo,
    ln: Seq<char>,
    rn: Seq<char>,
    rax: u64,
    rdx: u64,
    xmm0: Seq<u8>,
    xmm1: Seq<u8>,
) -> Result<Option<Seq<u8>>, ()> {
    let p = peel(t);
    if p.fields@.len() != 2 {
        Ok(None)
    } else {
        match boiled_field(p.fields@[0]) {
            Some(Ok(l)) => match boiled_field(p.fields@[1]) {
                Some(Ok(r)) => if small_sizes(l, r) {
                    if l is Reference || r is Reference {
                        Ok(None)
                    } else {
                        match pair_values(l, r, rax, rdx, xmm0, xmm1) {
                            Some((lv, rv)) => Ok(Some(struct_enc(t.name@, seq![(ln, lv), (rn, rv)]))),
                            None => Err(()),
                        }
                    }
                } else {
                    Ok(None)
                },
                _ => Err(()),
            },
            _ => Err(()),
        }
    }
}

/// Boils a field's type down.
fn boil_field(f: &TypeInfo) -> (r: Result<ValueType, WriteErr>)
    requires
        boiled_field(*f) is Some,
    ensures
        match r {
            Ok(v) => boiled_field(*f) == Some(Ok::<SType, ()>(v@)),
            Err(_) => boiled_field(*f) == Some(Err::<SType, ()>(())),
        },
{
    match parse_value_type(f.name.as_str()) {
        Some(Ok(p)) => boildown(p, f),
        _ => Err(WriteErr),
    }
}

/// A returned struct `t` of two fields (after its wrappers are peeled off),
/// named `left_name` and `right_name`, where it came back in registers: the
/// struct as written; `None` where its value is read from memory.
pub fn pair_return_value(
    w: &ValueWriter,
    t: &TypeInfo,
    left_name: &str,
    right_name: &str,
    rax: u64,
    rdx: u64,
    xmm0: &[u8],
    xmm1: &[u8],
) -> (r: Result<Option<Bytes>, WriteErr>)
    requires
        !t.name@.contains('"'),
        !left_name@.contains('"'),
        !right_name@.contains('"'),
        peel(*t).fields@.len() == 2 ==> field_boils(peel(*t).fields@[0]) && field_boils(
            peel(*t).fields@[1],
        ),
    ensures
        match r {
            Ok(Some(b)) => pair_return(*t, left_name@, right_name@, rax, rdx, xmm0@, xmm1@) == Ok::<
                Option<Seq<u8>>,
                (),
            >(Some(b@)),
            Ok(None) => pair_return(*t, left_name@, right_name@, rax, rdx, xmm0@, xmm1@) == Ok::<
                Option<Seq<u8>>,
                (),
            >(None),
            Err(_) => pair_return(*t, left_name@, right_name@, rax, rdx, xmm0@, xmm1@) is Err,
        },
{
    let p = peeloff(t);
    if p.fields.len() != 2 {
        return Ok(None);
    }
    let left = match boil_field(&p.fields[0]) {
        Ok(v) => v,
        Err(e) => return Err(e),
    };
    let right = match boil_field(&p.fields[1]) {
        Ok(v) => v,
        Err(e) => return Err(e),
    };
    let small = match (left.size_of(), right.size_of()) {
        (SizeOfType::Sized(a), SizeOfType::Sized(b)) => a <= 8 && b <= 8,
        _ => false,
    };
    if !small {
        return Ok(None);
    }
    if matches!(left, ValueType::Reference(_)) || matches!(right, ValueType::Reference(_)) {
        return Ok(None);
    }
    match pair_from_registers(w, t.name.as_str(), left_name, &left, right_name, &right, rax, rdx, xmm0, xmm1) {
        Ok(b) => Ok(Some(b)),
        Err(e) => Err(e),
    }
}

/// The return value of a function whose return type is named `ret_type`,
/// where that type is primitive and so comes back in registers: `Ok(None)`
/// for any other type, whose value is read from the program's memory; an
/// error where the name does not parse, or where `xmm0` has too few bytes.
pub fn prim_return_value(
    w: &ValueWriter,
    ret_type: &str,
    rax: u64,
    rdx: u64,
    xmm0: &[u8],
) -> (r: Result<Option<Bytes>, WriteErr>)
    ensures
        match parse_type(ret_type@) {
            Some(Ok(t)) => if prim_name(t) is Some {
                match r {
                    Ok(Some(b)) => prim_from(t, rax, rdx, xmm0@) == Some(b@),
                    Ok(None) => false,
                    Err(_) => prim_from(t, rax, rdx, xmm0@) is None,
                }
            } else {
                r matches Ok(None)
            },
            _ => r is Err,
        },
{
    match parse_value_type(ret_type) {
        Some(Ok(t)) => {
            if t.is_primitive() {
                match prim_from_registers(w, &t, rax, rdx, xmm0) {
                    Ok(b) => Ok(Some(b)),
                    Err(e) => Err(e),
                }
            } else {
                Ok(None)
            }
        },
        _ => Err(WriteErr),
    }
}

/// An `Option` of an integer of at most 64 bits comes back with its
/// discriminant in the low byte of `rax` (`Some` not 0, `None` 0) and the
/// integer in `rdx`.
pub proof fn law_option_in_rax_rdx(t: SType, rax: u64, rdx: u64, xmm0: Seq<u8>)
    requires
        is_int(t),
        !is_wide(t),
    ensures
        option_prim_from(t, rax, rdx, xmm0) == if rax % 256 != 0 {
            Ok::<Option<Seq<u8>>, ()>(Some(prim_enc(prim_name(t)->0, reg_bytes(rdx, reg_width(t)))))
        } else {
            Ok::<Option<Seq<u8>>, ()>(None)
        },
{
}

/// A `Result` of the same integer type, of at most 64 bits, on both sides
/// comes back with its discriminant in the low bit of `rax` (`Ok` 0, `Err`
/// 1) and the integer in `rdx`.
pub proof fn law_result_in_rax_rdx(t: SType, rax: u64, rdx: u64, xmm0: Seq<u8>)
    requires
        is_int(t),
        !is_wide(t),
    ensures
        result_regs(t, t, rax, rdx, xmm0) == Ok::<Option<(bool, Seq<u8>)>, ()>(
            Some((rax % 2 == 0, prim_enc(prim_name(t)->0, reg_bytes(rdx, reg_width(t))))),
        ),
{
    assert(crate::value_type::ptr_size() <= 8) by {
        assert(usize::BITS == 32 || usize::BITS == 64);
    }
}

/// Two integers of at most 64 bits each come back as a pair in `rax` and
/// `rdx`.
pub proof fn law_pair_in_rax_rdx(l: SType, r: SType, rax: u64, rdx: u64, xmm0: Seq<u8>, xmm1: Seq<u8>)
    requires
        is_int(l),
        is_int(r),
        !is_wide(l),
        !is_wide(r),
    ensures
        pair_values(l, r, rax, rdx, xmm0, xmm1) == Some(
            (
                prim_enc(prim_name(l)->0, reg_bytes(rax, reg_width(l))),
                prim_enc(prim_name(r)->0, reg_bytes(rdx, reg_width(r))),
            ),
        ),
{
}

/// The number that bytes denote with the least significant first, over a
/// concatenation.
proof fn lemma_le_value_concat(a: Seq<u8>, b: Seq<u8>)
    ensures
        crate::native::le_value(a + b) == crate::native::le_value(a) + crate::native::pow256(a.len())
            * crate::native::le_value(b),
    decreases a.len(),
{
    if a.len() > 0 {
        lemma_le_value_concat(a.drop_first(), b);
        assert((a + b).drop_first() =~= a.drop_first() + b);
        let p = crate::native::pow256((a.len() - 1) as nat);
        let lb = crate::native::le_value(b);
        let la = crate::native::le_value(a.drop_first());
        assert((a + b)[0] == a[0]);
        assert(crate::native::pow256(a.len()) == 256 * p);
        assert(crate::native::le_value(a + b) == a[0] as nat + 256 * (la + p * lb));
        assert(crate::native::le_value(a) == a[0] as nat + 256 * la);
        assert(256 * (la + p * lb) == 256 * la + (256 * p) * lb) by (nonlinear_arith);
    } else {
        assert(a + b =~= b);
        assert(crate::native::le_value(a) == 0);
        assert(crate::native::pow256(a.len()) == 1);
    }
}

/// A 128-bit integer returned in `rax` (low half) and `rdx` (high half) is
/// written, for `i128` as for `u128`, under its own type's name as sixteen
/// bytes that, on a machine that stores the least significant byte first,
/// denote `rax + 2^64 * rdx`.
pub proof fn law_wide_prim_from_rax_rdx(t: SType, rax: u64, rdx: u64, xmm0: Seq<u8>)
    requires
        is_wide(t),
    ensures
        exists|b: Seq<u8>|
            #![trigger prim_enc(prim_name(t)->0, b)]
            prim_from(t, rax, rdx, xmm0) == Some(prim_enc(prim_name(t)->0, b)) && b.len() == 16 && (
            crate::native::native_little() ==> ne_value(b) == rax + rdx * 0x1_0000_0000_0000_0000),
{
    let lo = reg_bytes(rax, 8);
    let hi = reg_bytes(rdx, 8);
    crate::native::lemma_ne_roundtrip(rax as nat, 8);
    crate::native::lemma_ne_roundtrip(rdx as nat, 8);
    crate::native::lemma_pow256_values();
    assert(lo =~= ne_bytes(rax as nat, 8));
    assert(hi =~= ne_bytes(rdx as nat, 8));
    let b = lo + hi;
    if crate::native::native_little() {
        lemma_le_value_concat(lo, hi);
        assert(ne_value(lo) == rax as nat % 0x1_0000_0000_0000_0000);
        assert(ne_value(hi) == rdx as nat % 0x1_0000_0000_0000_0000);
    }
    assert(prim_from(t, rax, rdx, xmm0) == Some(prim_enc(prim_name(t)->0, b)));
}

/// The first `n` bytes of the `m` least significant bytes are the `n` least
/// significant bytes.
proof fn lemma_le_bytes_prefix(v: nat, m: nat, n: nat)
    requires
        n <= m,
    ensures
        crate::native::le_bytes(v, m).subrange(0, n as int) == crate::native::le_bytes(v, n),
    decreases n,
{
    crate::native::lemma_le_bytes_len(v, m);
    crate::native::lemma_le_bytes_len(v, n);
    if n > 0 {
        lemma_le_bytes_prefix(v / 256, (m - 1) as nat, (n - 1) as nat);
        crate::native::lemma_le_bytes_len(v / 256, (m - 1) as nat);
        let a = crate::native::le_bytes(v, m);
        let a1 = crate::native::le_bytes(v / 256, (m - 1) as nat);
        assert(a == seq![(v % 256) as u8] + a1);
        assert(a.subrange(0, n as int) =~= seq![(v % 256) as u8] + a1.subrange(0, n - 1));
    } else {
        assert(crate::native::le_bytes(v, m).subrange(0, 0) =~= Seq::<u8>::empty());
    }
}

/// An integer of at most 64 bits, or a `char`, returned in a register is
/// written under its own type's name as the bytes of its width that, on a
/// machine that stores the least significant byte first, denote the
/// register's value reduced to that width.
pub proof fn law_int_prim_from_register(t: SType, reg: u64, high: u64, xmm0: Seq<u8>)
    requires
        is_int(t) || t is char,
        !is_wide(t),
    ensures
        exists|b: Seq<u8>|
            #![trigger prim_enc(prim_name(t)->0, b)]
            prim_from(t, reg, high, xmm0) == Some(prim_enc(prim_name(t)->0, b)) && b.len()
                == reg_width(t) && (crate::native::native_little() ==> ne_value(b) == (reg as nat)
                % crate::native::pow256(reg_width(t))),
{
    let n = reg_width(t);
    let b = reg_bytes(reg, n);
    crate::native::lemma_ne_roundtrip(reg as nat, 8);
    if crate::native::native_little() {
        lemma_le_bytes_prefix(reg as nat, 8, n);
        crate::native::lemma_le_roundtrip(reg as nat, n);
        crate::native::lemma_le_bytes_len(reg as nat, n);
    }
    assert(prim_from(t, reg, high, xmm0) == Some(prim_enc(prim_name(t)->0, b)));
}

/// The bytes from the `k`-th on of the `m` least significant bytes of `v`
/// are the least significant bytes of `v` shifted down by `k` bytes.
proof fn lemma_le_bytes_suffix(v: nat, m: nat, k: nat)
    requires
        k <= m,
    ensures
        crate::native::le_bytes(v, m).subrange(k as int, m as int) == crate::native::le_bytes(
            v / crate::native::pow256(k),
            (m - k) as nat,
        ),
    decreases k,
{
    crate::native::lemma_le_bytes_len(v, m);
    if k == 0 {
        assert(crate::native::pow256(0) == 1);
        assert(v / 1 == v);
        assert(crate::native::le_bytes(v, m).subrange(0, m as int) =~= crate::native::le_bytes(v, m));
    } else {
        lemma_le_bytes_suffix(v / 256, (m - 1) as nat, (k - 1) as nat);
        crate::native::lemma_le_bytes_len(v / 256, (m - 1) as nat);
        let a1 = crate::native::le_bytes(v / 256, (m - 1) as nat);
        assert(crate::native::le_bytes(v, m) == seq![(v % 256) as u8] + a1);
        assert(crate::native::le_bytes(v, m).subrange(k as int, m as int) =~= a1.subrange(
            k - 1,
            m - 1,
        ));
        let p = crate::native::pow256((k - 1) as nat);
        crate::native::lemma_pow256_pos((k - 1) as nat);
        vstd::arithmetic::div_mod::lemma_div_denominator(v as int, 256, p as int);
        assert(crate::native::pow256(k) == 256 * p);
    }
}

/// The side of a `Result<l, r>` that the low bit of `rax` selects.
pub open spec fn chosen_side(l: SType, r: SType, rax: u64) -> SType {
    if rax % 2 == 0 {
        l
    } else {
        r
    }
}

/// A `Result` of two small integers of different sizes or signedness comes
/// back with the discriminant in the low bit of `rax` (`Ok` 0, `Err` 1) and,
/// where `rax` is neither 0 nor 1, the value in `rax` right above the
/// discriminant: on a machine that stores the least significant byte first,
/// the bytes written denote `rax` shifted down by the width of the side's
/// type, reduced to that width. Where `rax` is 0 or 1 the value is in `rdx`.
pub proof fn law_squashed_result(l: SType, r: SType, rax: u64, rdx: u64, xmm0: Seq<u8>)
    requires
        squashed_result(l, r),
    ensures
        exists|b: Seq<u8>|
            #![trigger prim_enc(prim_name(chosen_side(l, r, rax))->0, b)]
            result_regs(l, r, rax, rdx, xmm0) == Ok::<Option<(bool, Seq<u8>)>, ()>(
                Some((rax % 2 == 0, prim_enc(prim_name(chosen_side(l, r, rax))->0, b))),
            ) && b.len() == prim_size(chosen_side(l, r, rax)) && (crate::native::native_little()
                ==> ne_value(b) == if rax == 0 || rax == 1 {
                (rdx as nat) % crate::native::pow256(prim_size(chosen_side(l, r, rax)))
            } else {
                ((rax as nat) / crate::native::pow256(prim_size(chosen_side(l, r, rax))))
                    % crate::native::pow256(prim_size(chosen_side(l, r, rax)))
            }),
{
    assert(crate::value_type::ptr_size() <= 8) by {
        assert(usize::BITS == 32 || usize::BITS == 64);
    }
    let side = chosen_side(l, r, rax);
    let n = prim_size(side);
    let m = crate::native::pow256(n);
    assert(1 <= n <= 4);
    crate::native::lemma_ne_roundtrip(rax as nat, 8);
    crate::native::lemma_ne_roundtrip(rdx as nat, 8);
    let b = if rax == 0 || rax == 1 {
        reg_bytes(rdx, n)
    } else {
        ne_bytes(rax as nat, 8).subrange(n as int, 2 * n as int)
    };
    assert(result_regs(l, r, rax, rdx, xmm0) == Ok::<Option<(bool, Seq<u8>)>, ()>(
        Some((rax % 2 == 0, prim_enc(prim_name(side)->0, b))),
    ));
    if crate::native::native_little() {
        if rax == 0 || rax == 1 {
            lemma_le_bytes_prefix(rdx as nat, 8, n);
            crate::native::lemma_le_roundtrip(rdx as nat, n);
            crate::native::lemma_le_bytes_len(rdx as nat, n);
        } else {
            let w = (rax as nat) / m;
            lemma_le_bytes_suffix(rax as nat, 8, n);
            lemma_le_bytes_prefix(w, (8 - n) as nat, n);
            assert(ne_bytes(rax as nat, 8).subrange(n as int, 2 * n as int) =~= ne_bytes(
                rax as nat,
                8,
            ).subrange(n as int, 8).subrange(0, n as int));
            crate::native::lemma_le_roundtrip(w, n);
            crate::native::lemma_le_bytes_len(w, n);
            assert(b == crate::native::le_bytes(w, n));
        }
        assert(ne_value(b) == if rax == 0 || rax == 1 {
            (rdx as nat) % m
        } else {
            ((rax as nat) / m) % m
        });
    }
    assert(b.len() == n);
    assert(exists|bb: Seq<u8>|
        #![trigger prim_enc(prim_name(side)->0, bb)]
        result_regs(l, r, rax, rdx, xmm0) == Ok::<Option<(bool, Seq<u8>)>, ()>(
            Some((rax % 2 == 0, prim_enc(prim_name(side)->0, bb))),
        ) && bb.len() == n && (crate::native::native_little() ==> ne_value(bb) == if rax == 0
            || rax == 1 {
            (rdx as nat) % m
        } else {
            ((rax as nat) / m) % m
        })) by {
        assert(prim_enc(prim_name(side)->0, b) == prim_enc(prim_name(side)->0, b));
    }
}

/// Sixteen bytes made of two registers, the low half first, denote on a
/// machine that stores the least significant byte first the 128-bit number
/// whose halves they are.
proof fn lemma_wide_value(lo: u64, hi: u64)
    ensures
        (reg_bytes(lo, 8) + reg_bytes(hi, 8)).len() == 16,
        crate::native::native_little() ==> ne_value(reg_bytes(lo, 8) + reg_bytes(hi, 8)) == lo
            + hi * 0x1_0000_0000_0000_0000,
{
    let a = reg_bytes(lo, 8);
    let b = reg_bytes(hi, 8);
    crate::native::lemma_ne_roundtrip(lo as nat, 8);
    crate::native::lemma_ne_roundtrip(hi as nat, 8);
    crate::native::lemma_pow256_values();
    assert(a =~= ne_bytes(lo as nat, 8));
    assert(b =~= ne_bytes(hi as nat, 8));
    if crate::native::native_little() {
        lemma_le_value_concat(a, b);
    }
}

/// An `Option` of a 128-bit integer on x86-64 is `Some` of the number whose
/// low half is in `rsi` (where `rcx` holds the discriminant) or `rdi`, and
/// whose high half is in `r8`, written under the integer type's name.
pub proof fn law_option_wide(t: SType, rdx: u64, rcx: u64, rsi: u64, rdi: u64, r8: u64)
    requires
        is_wide(t),
    ensures
        option_wide_from(t, rdx, rcx, rsi, rdi, r8) matches Some(e) ==> exists|b: Seq<u8>|
            #![trigger prim_enc(prim_name(t)->0, b)]
            e == prim_enc(prim_name(t)->0, b) && b.len() == 16 && (crate::native::native_little()
                ==> ne_value(b) == (if rdx == 0 && (rcx == 0 || rcx == 1) {
                rsi
            } else {
                rdi
            }) + r8 * 0x1_0000_0000_0000_0000),
{
    lemma_wide_value(rsi, r8);
    lemma_wide_value(rdi, r8);
    let b = if rdx == 0 && (rcx == 0 || rcx == 1) {
        reg_bytes(rsi, 8) + reg_bytes(r8, 8)
    } else {
        reg_bytes(rdi, 8) + reg_bytes(r8, 8)
    };
    if option_wide_from(t, rdx, rcx, rsi, rdi, r8) is Some {
        assert(option_wide_from(t, rdx, rcx, rsi, rdi, r8) == Some(prim_enc(prim_name(t)->0, b)));
    }
}

/// A `Result` of a 128-bit integer on x86-64 has its discriminant in `rcx`
/// (where `rdx` is 0 and `rcx` is 0 or 1) or `rdx`, `Ok` for 0; a side of
/// size zero is `()`, and the integer is the number whose low half is in
/// `rsi` (where `rcx` holds the discriminant) or `rdi`, and whose high half
/// is in `r8`.
pub proof fn law_result_wide(l: SType, r: SType, rdx: u64, rcx: u64, rsi: u64, rdi: u64, r8: u64)
    requires
        wide_result(l, r),
    ensures
        ({
            let in_rcx = rdx == 0 && (rcx == 0 || rcx == 1);
            let res = if in_rcx {
                rcx
            } else {
                rdx
            };
            let out = result_wide(l, r, rdx, rcx, rsi, rdi, r8);
            &&& out.0 == (res == 0)
            &&& (out.1 != op("unit") ==> exists|b: Seq<u8>|
                #![trigger prim_enc(prim_name(l)->0, b)]
                #![trigger prim_enc(prim_name(r)->0, b)]
                (out.1 == prim_enc(prim_name(l)->0, b) || out.1 == prim_enc(prim_name(r)->0, b))
                    && b.len() == 16 && (crate::native::native_little() ==> ne_value(b) == (
                if in_rcx {
                    rsi
                } else {
                    rdi
                }) + r8 * 0x1_0000_0000_0000_0000))
        }),
{
    lemma_wide_value(rsi, r8);
    lemma_wide_value(rdi, r8);
    let in_rcx = rdx == 0 && (rcx == 0 || rcx == 1);
    let b = if in_rcx {
        reg_bytes(rsi, 8) + reg_bytes(r8, 8)
    } else {
        reg_bytes(rdi, 8) + reg_bytes(r8, 8)
    };
    let out = result_wide(l, r, rdx, rcx, rsi, rdi, r8);
    if out.1 != op("unit") {
        assert(out.1 == prim_enc(prim_name(l)->0, b) || out.1 == prim_enc(prim_name(r)->0, b));
    }
}

/// Any other `Result` of two primitives comes back with `rax` 0 (`Ok`) or 1
/// (`Err`) and the value of that side in `rdx`, whose bytes of the side's
/// width are written (on a machine that stores the least significant byte
/// first they denote `rdx` reduced to that width); with any other `rax` it
/// was passed on the stack.
pub proof fn law_result_fallback(l: SType, r: SType, rax: u64, rdx: u64, xmm0: Seq<u8>)
    requires
        prim_name(l) is Some,
        prim_name(r) is Some,
        !rax_only_result(l, r),
        !wide_result(l, r),
        !register_result(l, r),
        !result_panics(l, r, rax),
    ensures
        !(rax == 0 || rax == 1) ==> result_regs(l, r, rax, rdx, xmm0) == Ok::<
            Option<(bool, Seq<u8>)>,
            (),
        >(None),
        (rax == 0 || rax == 1) ==> exists|b: Seq<u8>|
            #![trigger prim_enc(prim_name(chosen_side(l, r, rax))->0, b)]
            result_regs(l, r, rax, rdx, xmm0) == Ok::<Option<(bool, Seq<u8>)>, ()>(
                Some((rax == 0, prim_enc(prim_name(chosen_side(l, r, rax))->0, b))),
            ) && b.len() == prim_size(chosen_side(l, r, rax)) && (crate::native::native_little()
                ==> ne_value(b) == (rdx as nat) % crate::native::pow256(
                prim_size(chosen_side(l, r, rax)),
            )),
{
    assert(crate::value_type::ptr_size() <= 8) by {
        assert(usize::BITS == 32 || usize::BITS == 64);
    }
    if rax == 0 || rax == 1 {
        let side = chosen_side(l, r, rax);
        let n = prim_size(side);
        assert(n <= 8);
        crate::native::lemma_ne_roundtrip(rdx as nat, 8);
        let b = reg_bytes(rdx, n);
        assert(result_regs(l, r, rax, rdx, xmm0) == Ok::<Option<(bool, Seq<u8>)>, ()>(
            Some((rax == 0, prim_enc(prim_name(side)->0, b))),
        ));
        if crate::native::native_little() {
            lemma_le_bytes_prefix(rdx as nat, 8, n);
            crate::native::lemma_le_roundtrip(rdx as nat, n);
        }
        crate::native::lemma_le_bytes_len(rdx as nat, n);
        assert(b.len() == n);
    }
}

/// A floating point number comes back in the low bytes of `xmm0` (as many
/// as its type has), whatever `rax` and `rdx` hold, and is written under its
/// type's name; a `bool` is true exactly where `rax` is not zero; `()` is
/// written as `unit`.
pub proof fn law_other_prims_from_registers(t: SType, rax: u64, rdx: u64, xmm0: Seq<u8>)
    ensures
        t is float32 ==> prim_from(t, rax, rdx, xmm0) == if xmm0.len() >= 4 {
            Some(prim_enc("f32"@, xmm0.take(4)))
        } else {
            None
        },
        t is float64 ==> prim_from(t, rax, rdx, xmm0) == if xmm0.len() >= 8 {
            Some(prim_enc("f64"@, xmm0.take(8)))
        } else {
            None
        },
        is_float_type(t) ==> forall|a: u64, d: u64| #[trigger] prim_from(t, a, d, xmm0) == prim_from(
            t,
            rax,
            rdx,
            xmm0,
        ),
        t is bool ==> prim_from(t, rax, rdx, xmm0) == Some(
            prim_enc("bool"@, seq![if rax == 0 { 0u8 } else { 1u8 }]),
        ),
        t is Unit ==> prim_from(t, rax, rdx, xmm0) == Some(op("unit")),
{
    assert(xmm0.take(4) =~= xmm0.subrange(0, 4));
    assert(xmm0.take(8) =~= xmm0.subrange(0, 8));
}

} // verus!
