//! The layout of a type as the debug information describes it, and what
//! the debugger reads from it: the innermost single-field struct, the type
//! that a wrapper boils down to, and the primitives that a type condenses to.
use vstd::prelude::*;
use vstd::layout::align_of;
use crate::text::{starts_with, str_eq, str_starts_with};
use crate::value_type::{parse_type, parse_value_type, prim_name, size_fits, size_spec, SType, SizeOfType, ValueType};
use crate::writer::WriteErr;

verus! {

/// A type as the debug information describes it: its name, whether it is a
/// struct, whether it is a Rust enum with fields, its size in bytes, and the
/// types of its fields, in order.
#[derive(Debug)]
pub struct TypeInfo {
    pub name: String,
    pub is_struct: bool,
    pub is_union: bool,
    pub byte_size: u64,
    pub fields: Vec<TypeInfo>,
}

/// The innermost type of a chain of structs of one struct field each
/// (a field of type `&str` ends the chain).
pub open spec fn peel(t: TypeInfo) -> TypeInfo
    decreases t,
{
    if t.fields@.len() == 1 {
        let inner = t.fields@[0];
        if inner.name@ != "&str"@ && inner.is_struct {
            peel(inner)
        } else {
            t
        }
    } else {
        t
    }
}

/// Removes the wrappers around a type: `A(B { i: C })` gives `C`, where `C`
/// is `{ x: i32 }`.
pub fn peeloff(t: &TypeInfo) -> (r: &TypeInfo)
    ensures
        *r == peel(*t),
    decreases t,
{
    if t.fields.len() == 1 {
        let inner = &t.fields[0];
        if !str_eq(inner.name.as_str(), "&str") && inner.is_struct {
            peeloff(inner)
        } else {
            t
        }
    } else {
        t
    }
}

/// What boiling `ty`, described by `t`, down to its primitive gives; `None`
/// where it panics (on `str`, and on a field type named `&dyn` alone).
pub open spec fn boil(ty: SType, t: TypeInfo) -> Option<Result<SType, ()>>
    decreases t,
{
    match ty {
        SType::str => None,
        SType::Other(_) => if t.is_struct {
            let num = t.fields@.len();
            if num == 0 {
                Some(Ok(SType::Unit))
            } else if num <= 2 {
                if num == 2 && !starts_with(t.fields@[1].name@, "core::marker::PhantomData<"@) {
                    Some(Ok(ty))
                } else {
                    let inner = t.fields@[0];
                    match parse_type(inner.name@) {
                        None => None,
                        Some(Err(_)) => Some(Err(())),
                        Some(Ok(p)) => boil(p, inner),
                    }
                }
            } else {
                Some(Ok(ty))
            }
        } else {
            Some(Ok(ty))
        },
        _ => Some(Ok(ty)),
    }
}

/// Boils a type down to its primitive: `A(B { i: C(i32) })` gives `i32`. A
/// struct of no field is `()`; one of one field, or of two whose second is
/// a `PhantomData`, is what its first field boils down to; any other type
/// stays as it is. An error where a field's type name does not parse.
pub fn boildown(ty: ValueType, t: &TypeInfo) -> (r: Result<ValueType, WriteErr>)
    requires
        boil(ty@, *t) is Some,
    ensures
        r matches Ok(v) ==> boil(ty@, *t) == Some(Ok::<SType, ()>(v@)),
        r is Err ==> boil(ty@, *t) == Some(Err::<SType, ()>(())),
    decreases t,
{
    match ty {
        ValueType::Other(_) => {
            if !t.is_struct {
                return Ok(ty);
            }
            let num = t.fields.len();
            if num == 0 {
                return Ok(ValueType::Unit);
            }
            if num > 2 {
                return Ok(ty);
            }
            if num == 2 && !str_starts_with(
                t.fields[1].name.as_str(),
                "core::marker::PhantomData<",
            ) {
                return Ok(ty);
            }
            let inner = &t.fields[0];
            match parse_value_type(inner.name.as_str()) {
                Some(Ok(p)) => boildown(p, inner),
                _ => Err(WriteErr),
            }
        },
        _ => Ok(ty),
    }
}

/// The contents of a sequence of types.
pub open spec fn types_view(v: Seq<ValueType>) -> Seq<SType> {
    Seq::new(v.len(), |i: int| v[i]@)
}

/// The unsigned integer of a size of no more than 16 bytes that is a power
/// of two, as the type of a struct without fields of that size.
pub open spec fn blob_types(size: u64) -> Option<Seq<SType>> {
    if size == 0 {
        Some(Seq::empty())
    } else if size == 1 {
        Some(seq![SType::u8])
    } else if size == 2 {
        Some(seq![SType::u16])
    } else if size == 4 {
        Some(seq![SType::u32])
    } else if size == 8 {
        Some(seq![SType::u64])
    } else if size == 16 {
        Some(seq![SType::u128])
    } else {
        None
    }
}

/// What condensing `t` into a sequence of sized types gives: `None` where
/// it panics (a type name `&dyn` alone, or an array whose size overflows).
pub open spec fn condensed(t: TypeInfo) -> Option<Result<Seq<SType>, ()>>
    decreases t, 1int,
{
    match parse_type(t.name@) {
        None => None,
        Some(Err(_)) => Some(Err(())),
        Some(Ok(v)) => if !size_fits(v) {
            None
        } else if size_spec(v) is Some {
            Some(Ok(seq![v]))
        } else if t.is_union {
            Some(Err(()))
        } else if t.fields@.len() == 0 {
            match blob_types(t.byte_size) {
                Some(c) => Some(Ok(c)),
                None => Some(Err(())),
            }
        } else {
            condensed_fields(t.fields@)
        },
    }
}

/// Condensing fields one after the other and joining what they give; the
/// first field that fails stops it.
pub open spec fn condensed_fields(s: Seq<TypeInfo>) -> Option<Result<Seq<SType>, ()>>
    decreases s, 0int,
{
    if s.len() == 0 {
        Some(Ok(Seq::empty()))
    } else {
        match condensed_fields(s.drop_last()) {
            Some(Ok(c)) => match condensed(s.last()) {
                Some(Ok(d)) => Some(Ok(c + d)),
                other => other,
            },
            other => other,
        }
    }
}

proof fn lemma_condensed_take(s: Seq<TypeInfo>, k: int)
    requires
        0 <= k <= s.len(),
    ensures
        condensed_fields(s.take(k)) is None || condensed_fields(s.take(k))->0 is Err
            ==> condensed_fields(s) == condensed_fields(s.take(k)),
    decreases s.len() - k,
{
    if k < s.len() {
        lemma_condensed_take(s, k + 1);
        assert(s.take(k + 1).drop_last() =~= s.take(k));
        let p = condensed_fields(s.take(k));
        if p is None || p->0 is Err {
            assert(condensed_fields(s.take(k + 1)) == p);
        }
    } else {
        assert(s.take(k) =~= s);
    }
}

/// Condenses a type into the sized types it is laid out as:
/// `{ x: i32, y: i64 }` gives `(i32, i64)`. A type of known size is itself;
/// a Rust enum with fields is an error; a struct of no field is an
/// unsigned integer of its size (an error for a size that no such integer
/// has); any other struct is what its fields condense to, one after the
/// other. An error where a type name does not parse.
pub fn condense(t: &TypeInfo) -> (r: Result<Vec<ValueType>, ()>)
    requires
        condensed(*t) is Some,
    ensures
        r matches Ok(v) ==> condensed(*t) == Some(Ok::<Seq<SType>, ()>(types_view(v@))),
        r is Err ==> condensed(*t) == Some(Err::<Seq<SType>, ()>(())),
    decreases t,
{
    match parse_value_type(t.name.as_str()) {
        Some(Ok(vtype)) => {
            match vtype.size_of() {
                SizeOfType::Sized(_) => {
                    let mut v: Vec<ValueType> = Vec::new();
                    v.push(vtype);
                    assert(types_view(v@) =~= seq![v@[0]@]);
                    return Ok(v);
                },
                SizeOfType::Unknown => {},
            }
            if t.is_union {
                return Err(());
            }
            if t.fields.len() == 0 {
                let mut v: Vec<ValueType> = Vec::new();
                if t.byte_size == 0 {
                } else if t.byte_size == 1 {
                    v.push(ValueType::u8);
                } else if t.byte_size == 2 {
                    v.push(ValueType::u16);
                } else if t.byte_size == 4 {
                    v.push(ValueType::u32);
                } else if t.byte_size == 8 {
                    v.push(ValueType::u64);
                } else if t.byte_size == 16 {
                    v.push(ValueType::u128);
                } else {
                    return Err(());
                }
                assert(types_view(v@) =~= blob_types(t.byte_size)->0);
                return Ok(v);
            }
            let mut chain: Vec<ValueType> = Vec::new();
            let mut i: usize = 0;
            assert(t.fields@.take(0) =~= Seq::<TypeInfo>::empty());
            assert(types_view(chain@) =~= Seq::<SType>::empty());
            while i < t.fields.len()
                invariant
                    i <= t.fields@.len(),
                    condensed(*t) == condensed_fields(t.fields@),
                    condensed_fields(t.fields@) is Some,
                    condensed_fields(t.fields@.take(i as int)) == Some(
                        Ok::<Seq<SType>, ()>(types_view(chain@)),
                    ),
                decreases t.fields@.len() - i,
            {
                proof {
                    assert(t.fields@.take(i + 1).drop_last() =~= t.fields@.take(i as int));
                    assert(t.fields@.take(i + 1).last() == t.fields@[i as int]);
                    lemma_condensed_take(t.fields@, i + 1);
                }
                match condense(&t.fields[i]) {
                    Ok(mut d) => {
                        let ghost before = chain@;
                        let ghost dv = d@;
                        chain.append(&mut d);
                        assert(types_view(chain@) =~= types_view(before) + types_view(dv));
                    },
                    Err(()) => {
                        return Err(());
                    },
                }
                i = i + 1;
            }
            assert(t.fields@.take(i as int) =~= t.fields@);
            Ok(chain)
        },
        _ => Err(()),
    }
}

/// The alignment of a primitive type; those of the two floating point
/// types are `floats`.
pub open spec fn prim_align(v: SType, floats: (usize, usize)) -> nat {
    match v {
        SType::Unit => align_of::<()>(),
        SType::bool => align_of::<bool>(),
        SType::char => align_of::<char>(),
        SType::u8 => align_of::<u8>(),
        SType::i8 => align_of::<i8>(),
        SType::u16 => align_of::<u16>(),
        SType::i16 => align_of::<i16>(),
        SType::u32 => align_of::<u32>(),
        SType::i32 => align_of::<i32>(),
        SType::u64 => align_of::<u64>(),
        SType::i64 => align_of::<i64>(),
        SType::u128 => align_of::<u128>(),
        SType::i128 => align_of::<i128>(),
        SType::float32 => floats.0 as nat,
        SType::float64 => floats.1 as nat,
        SType::usize => align_of::<usize>(),
        _ => align_of::<isize>(),
    }
}

/// The alignment of `t`, with `floats` the alignments of `f32` and `f64`:
/// `None` where computing it panics (a type name `&dyn` alone), an error
/// where a type name does not parse or a Rust enum with fields occurs.
pub open spec fn aligned(t: TypeInfo, floats: (usize, usize)) -> Option<Result<nat, ()>>
    decreases t, 1int,
{
    match parse_type(t.name@) {
        None => None,
        Some(Err(_)) => Some(Err(())),
        Some(Ok(v)) => if prim_name(v) is Some {
            Some(Ok(prim_align(v, floats)))
        } else if (v matches SType::Reference(a) && *a matches SType::str) {
            Some(Ok(align_of::<&'static str>()))
        } else if (v matches SType::Reference(_)) {
            Some(Ok(align_of::<&'static u8>()))
        } else if (v is DynRef) {
            Some(Ok(align_of::<&'static dyn core::fmt::Debug>()))
        } else if t.is_union {
            Some(Err(()))
        } else if t.fields@.len() == 0 {
            Some(Ok((t.byte_size as usize) as nat))
        } else {
            aligned_fields(t.fields@, floats)
        },
    }
}

/// The greatest alignment of the fields, and at least one; the first field
/// that fails stops it.
pub open spec fn aligned_fields(s: Seq<TypeInfo>, floats: (usize, usize)) -> Option<Result<nat, ()>>
    decreases s, 0int,
{
    if s.len() == 0 {
        Some(Ok(1))
    } else {
        match aligned_fields(s.drop_last(), floats) {
            Some(Ok(m)) => match aligned(s.last(), floats) {
                Some(Ok(a)) => Some(Ok(if m >= a { m } else { a })),
                other => other,
            },
            other => other,
        }
    }
}

proof fn lemma_aligned_take(s: Seq<TypeInfo>, floats: (usize, usize), k: int)
    requires
        0 <= k <= s.len(),
    ensures
        aligned_fields(s.take(k), floats) is None || aligned_fields(s.take(k), floats)->0 is Err
            ==> aligned_fields(s, floats) == aligned_fields(s.take(k), floats),
    decreases s.len() - k,
{
    if k < s.len() {
        lemma_aligned_take(s, floats, k + 1);
        assert(s.take(k + 1).drop_last() =~= s.take(k));
        let p = aligned_fields(s.take(k), floats);
        if p is None || p->0 is Err {
            assert(aligned_fields(s.take(k + 1), floats) == p);
        }
    } else {
        assert(s.take(k) =~= s);
    }
}

/// The alignment of a type, from its name where that names a primitive or
/// a pointer, else the greatest alignment of its fields (at least one); a
/// struct without fields is aligned to its size. `floats` holds the
/// alignments of `f32` and `f64`. An error for a Rust enum with fields, or
/// where a type name does not parse.
pub fn alignment_of(t: &TypeInfo, floats: (usize, usize)) -> (r: Result<usize, ()>)
    requires
        aligned(*t, floats) is Some,
    ensures
        match r {
            Ok(n) => aligned(*t, floats) == Some(Ok::<nat, ()>(n as nat)),
            Err(_) => aligned(*t, floats) == Some(Err::<nat, ()>(())),
        },
    decreases t,
{
    match parse_value_type(t.name.as_str()) {
        Some(Ok(vtype)) => {
            if vtype.is_primitive() {
                return Ok(
                    match vtype {
                        ValueType::Unit => core::mem::align_of::<()>(),
                        ValueType::bool => core::mem::align_of::<bool>(),
                        ValueType::char => core::mem::align_of::<char>(),
                        ValueType::u8 => core::mem::align_of::<u8>(),
                        ValueType::i8 => core::mem::align_of::<i8>(),
                        ValueType::u16 => core::mem::align_of::<u16>(),
                        ValueType::i16 => core::mem::align_of::<i16>(),
                        ValueType::u32 => core::mem::align_of::<u32>(),
                        ValueType::i32 => core::mem::align_of::<i32>(),
                        ValueType::u64 => core::mem::align_of::<u64>(),
                        ValueType::i64 => core::mem::align_of::<i64>(),
                        ValueType::u128 => core::mem::align_of::<u128>(),
                        ValueType::i128 => core::mem::align_of::<i128>(),
                        ValueType::float32 => floats.0,
                        ValueType::float64 => floats.1,
                        ValueType::usize => core::mem::align_of::<usize>(),
                        _ => core::mem::align_of::<isize>(),
                    },
                );
            }
            if vtype.is_str() {
                return Ok(core::mem::align_of::<&'static str>());
            }
            if vtype.is_thin_ptr() {
                return Ok(core::mem::align_of::<&'static u8>());
            }
            if vtype.is_fat_ptr() {
                return Ok(core::mem::align_of::<&'static dyn core::fmt::Debug>());
            }
            if t.is_union {
                return Err(());
            }
            if t.fields.len() == 0 {
                return Ok(t.byte_size as usize);
            }
            let mut max: usize = 1;
            let mut i: usize = 0;
            assert(t.fields@.take(0) =~= Seq::<TypeInfo>::empty());
            while i < t.fields.len()
                invariant
                    i <= t.fields@.len(),
                    aligned(*t, floats) == aligned_fields(t.fields@, floats),
                    aligned_fields(t.fields@, floats) is Some,
                    aligned_fields(t.fields@.take(i as int), floats) == Some(Ok::<nat, ()>(max as nat)),
                decreases t.fields@.len() - i,
            {
                proof {
                    assert(t.fields@.take(i + 1).drop_last() =~= t.fields@.take(i as int));
                    assert(t.fields@.take(i + 1).last() == t.fields@[i as int]);
                    lemma_aligned_take(t.fields@, floats, i + 1);
                }
                match alignment_of(&t.fields[i], floats) {
                    Ok(a) => {
                        if a > max {
                            max = a;
                        }
                    },
                    Err(()) => {
                        return Err(());
                    },
                }
                i = i + 1;
            }
            assert(t.fields@.take(i as int) =~= t.fields@);
            Ok(max)
        },
        _ => Err(()),
    }
}

} // verus!
