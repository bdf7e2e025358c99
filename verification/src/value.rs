//! The values that the debugger reports: primitives, references, structs,
//! enums and containers, as read back from the event stream.
use vstd::prelude::*;
use crate::native::{decode_uint, encode_uint, ne_bytes, ne_value};

verus! {

/// A memory address of the debuggee, kept as the number that its eight
/// bytes denote in the machine's byte order.
#[derive(Debug, Copy, Clone, PartialEq, Eq, Structural, PartialOrd, Ord, Hash)]
pub struct Addr {
    pub value: u64,
}

impl Addr {
    /// The address whose eight bytes (in the machine's byte order) are `bytes`.
    pub fn new(bytes: &[u8]) -> (r: Addr)
        requires
            bytes@.len() == 8,
        ensures
            r.value == ne_value(bytes@),
    {
        proof {
            crate::native::lemma_ne_value_bound(bytes@);
            crate::native::lemma_pow256_values();
        }
        Addr { value: decode_uint(bytes) as u64 }
    }

    /// The address with this numeric value.
    pub fn from_u64(value: u64) -> (r: Addr)
        ensures
            r.value == value,
    {
        Addr { value }
    }

    /// The eight bytes of the address, in the machine's byte order.
    pub fn to_bytes(&self) -> (r: Vec<u8>)
        ensures
            r@ == ne_bytes(self.value as nat, 8),
    {
        encode_uint(self.value as u128, 8)
    }
}

/// Where a reference points.
#[derive(Debug, Copy, Clone, PartialEq, Eq, Structural)]
pub enum RefAddr {
    Addr(Addr),
    Redacted,
}

/// The kind of a thin pointer.
#[derive(Debug, Copy, Clone, PartialEq, Eq, Structural)]
pub enum RefType {
    Box,
    Rc,
    Arc,
    Ref,
    Ptr,
}

/// The kind of a reference counted pointer.
#[derive(Debug, Copy, Clone, PartialEq, Eq, Structural)]
pub enum RefCountedType {
    Rc,
    Arc,
}

/// The kind of a sequence of values.
#[derive(Debug, Copy, Clone, PartialEq, Eq, Structural)]
pub enum ArrayType {
    Arr,
    Vec,
    Slice,
}

/// The kind of a string.
#[derive(Debug, Copy, Clone, PartialEq, Eq, Structural)]
pub enum StringType {
    StrLit,
    String,
}

/// A primitive value. Floating point numbers are kept as their bit patterns.
#[allow(non_camel_case_types)]
#[derive(Debug, Copy, Clone, PartialEq, Eq, Structural)]
pub enum PValue {
    bool(bool),
    char(char),
    u8(u8),
    i8(i8),
    u16(u16),
    i16(i16),
    u32(u32),
    i32(i32),
    u64(u64),
    i64(i64),
    usize(u64),
    isize(i64),
    u128(u128),
    i128(i128),
    float32(u32),
    float64(u64),
}

/// A Rust enum with fields: its type name and its variant names, in order.
#[derive(Debug, PartialEq)]
pub struct UnionType {
    pub name: String,
    pub variants: Vec<String>,
}

/// The mathematical content of a [`UnionType`].
pub struct SUnionType {
    pub name: Seq<char>,
    pub variants: Seq<Seq<char>>,
}

impl View for UnionType {
    type V = SUnionType;

    open spec fn view(&self) -> SUnionType {
        SUnionType { name: self.name@, variants: strings_view(self.variants@) }
    }
}

/// The contents of a sequence of strings.
pub open spec fn strings_view(s: Seq<String>) -> Seq<Seq<char>> {
    Seq::new(s.len(), |i: int| s[i]@)
}

/// A value as read from the event stream.
#[derive(Debug, PartialEq)]
pub enum RValue {
    Unit,
    Prim(PValue),
    Bytes { typename: String, value: Vec<u8> },
    Ref { typename: RefType, addr: RefAddr, value: Box<RValue> },
    UnresolvedRef { addr: RefAddr },
    DynRef { typename: String, addr: RefAddr, vtable: RefAddr, value: Box<RValue> },
    RefCounted {
        typename: RefCountedType,
        addr: RefAddr,
        strong: u64,
        weak: u64,
        value: Box<RValue>,
    },
    DynRefCounted {
        typename: String,
        addr: RefAddr,
        strong: u64,
        weak: u64,
        vtable: RefAddr,
        value: Box<RValue>,
    },
    Struct { typename: String, fields: Vec<(String, RValue)> },
    Tuple { typename: String, items: Vec<RValue> },
    Enum { typename: String, variant: String },
    String { typename: StringType, value: String },
    Union { typeinfo: UnionType, variant: String, fields: Vec<(String, RValue)> },
    Option { typename: String, variant: String, value: Option<Box<RValue>> },
    Result { typename: String, variant: String, value: Box<RValue> },
    Array { typename: ArrayType, data: Vec<RValue> },
    Opaque,
}

/// The mathematical content of an [`RValue`]: strings as character
/// sequences, vectors as sequences.
pub enum SValue {
    Unit,
    Prim(PValue),
    Bytes { typename: Seq<char>, value: Seq<u8> },
    Ref { typename: RefType, addr: RefAddr, value: Box<SValue> },
    UnresolvedRef { addr: RefAddr },
    DynRef { typename: Seq<char>, addr: RefAddr, vtable: RefAddr, value: Box<SValue> },
    RefCounted {
        typename: RefCountedType,
        addr: RefAddr,
        strong: u64,
        weak: u64,
        value: Box<SValue>,
    },
    DynRefCounted {
        typename: Seq<char>,
        addr: RefAddr,
        strong: u64,
        weak: u64,
        vtable: RefAddr,
        value: Box<SValue>,
    },
    Struct { typename: Seq<char>, fields: Seq<(Seq<char>, SValue)> },
    Tuple { typename: Seq<char>, items: Seq<SValue> },
    Enum { typename: Seq<char>, variant: Seq<char> },
    String { typename: StringType, value: Seq<char> },
    Union { typeinfo: SUnionType, variant: Seq<char>, fields: Seq<(Seq<char>, SValue)> },
    Option { typename: Seq<char>, variant: Seq<char>, value: Option<Box<SValue>> },
    Result { typename: Seq<char>, variant: Seq<char>, value: Box<SValue> },
    Array { typename: ArrayType, data: Seq<SValue> },
    Opaque,
}

/// The content of a value.
pub open spec fn rv(v: RValue) -> SValue
    decreases v,
{
    match v {
        RValue::Unit => SValue::Unit,
        RValue::Prim(p) => SValue::Prim(p),
        RValue::Bytes { typename, value } => SValue::Bytes { typename: typename@, value: value@ },
        RValue::Ref { typename, addr, value } => SValue::Ref {
            typename,
            addr,
            value: Box::new(rv(*value)),
        },
        RValue::UnresolvedRef { addr } => SValue::UnresolvedRef { addr },
        RValue::DynRef { typename, addr, vtable, value } => SValue::DynRef {
            typename: typename@,
            addr,
            vtable,
            value: Box::new(rv(*value)),
        },
        RValue::RefCounted { typename, addr, strong, weak, value } => SValue::RefCounted {
            typename,
            addr,
            strong,
            weak,
            value: Box::new(rv(*value)),
        },
        RValue::DynRefCounted { typename, addr, strong, weak, vtable, value } =>
            SValue::DynRefCounted {
            typename: typename@,
            addr,
            strong,
            weak,
            vtable,
            value: Box::new(rv(*value)),
        },
        RValue::Struct { typename, fields } => SValue::Struct {
            typename: typename@,
            fields: rv_fields(fields@),
        },
        RValue::Tuple { typename, items } => SValue::Tuple {
            typename: typename@,
            items: rv_items(items@),
        },
        RValue::Enum { typename, variant } => SValue::Enum {
            typename: typename@,
            variant: variant@,
        },
        RValue::String { typename, value } => SValue::String { typename, value: value@ },
        RValue::Union { typeinfo, variant, fields } => SValue::Union {
            typeinfo: typeinfo@,
            variant: variant@,
            fields: rv_fields(fields@),
        },
        RValue::Option { typename, variant, value } => SValue::Option {
            typename: typename@,
            variant: variant@,
            value: match value {
                Some(b) => Some(Box::new(rv(*b))),
                None => None,
            },
        },
        RValue::Result { typename, variant, value } => SValue::Result {
            typename: typename@,
            variant: variant@,
            value: Box::new(rv(*value)),
        },
        RValue::Array { typename, data } => SValue::Array { typename, data: rv_items(data@) },
        RValue::Opaque => SValue::Opaque,
    }
}

/// The content of a sequence of named values.
pub open spec fn rv_fields(s: Seq<(String, RValue)>) -> Seq<(Seq<char>, SValue)>
    decreases s,
{
    if s.len() == 0 {
        Seq::empty()
    } else {
        rv_fields(s.drop_last()).push((s.last().0@, rv(s.last().1)))
    }
}

/// The content of a sequence of values.
pub open spec fn rv_items(s: Seq<RValue>) -> Seq<SValue>
    decreases s,
{
    if s.len() == 0 {
        Seq::empty()
    } else {
        rv_items(s.drop_last()).push(rv(s.last()))
    }
}

impl View for RValue {
    type V = SValue;

    open spec fn view(&self) -> SValue {
        rv(*self)
    }
}

/// The index of the first field named `k`.
pub open spec fn name_index(s: Seq<(Seq<char>, SValue)>, k: Seq<char>) -> Option<int>
    decreases s.len(),
{
    if s.len() == 0 {
        None
    } else {
        match name_index(s.drop_last(), k) {
            Some(i) => Some(i),
            None => if s.last().0 == k {
                Some((s.len() - 1) as int)
            } else {
                None
            },
        }
    }
}

/// Inserting into an insertion-ordered map: a new name goes last, a name
/// that is present keeps its place and takes the new value.
pub open spec fn field_insert(s: Seq<(Seq<char>, SValue)>, k: Seq<char>, v: SValue) -> Seq<
    (Seq<char>, SValue),
> {
    match name_index(s, k) {
        Some(i) => s.update(i, (k, v)),
        None => s.push((k, v)),
    }
}

/// The fields that inserting the given pairs one after the other gives.
pub open spec fn fields_from(pairs: Seq<(Seq<char>, SValue)>) -> Seq<(Seq<char>, SValue)>
    decreases pairs.len(),
{
    if pairs.len() == 0 {
        Seq::empty()
    } else {
        field_insert(fields_from(pairs.drop_last()), pairs.last().0, pairs.last().1)
    }
}

pub proof fn lemma_name_index(s: Seq<(Seq<char>, SValue)>, k: Seq<char>)
    ensures
        name_index(s, k) matches Some(i) ==> 0 <= i < s.len() && s[i].0 == k,
        name_index(s, k) is None ==> forall|j: int| 0 <= j < s.len() ==> s[j].0 != k,
    decreases s.len(),
{
    if s.len() > 0 {
        lemma_name_index(s.drop_last(), k);
        assert forall|j: int| 0 <= j < s.len() - 1 implies s.drop_last()[j] == s[j] by {}
    }
}

pub proof fn lemma_rv_fields_push(s: Seq<(String, RValue)>, f: (String, RValue))
    ensures
        rv_fields(s.push(f)) == rv_fields(s).push((f.0@, rv(f.1))),
{
    assert(s.push(f).drop_last() =~= s);
}

pub proof fn lemma_rv_items_push(s: Seq<RValue>, v: RValue)
    ensures
        rv_items(s.push(v)) == rv_items(s).push(rv(v)),
{
    assert(s.push(v).drop_last() =~= s);
}

pub proof fn lemma_rv_fields_len(s: Seq<(String, RValue)>)
    ensures
        rv_fields(s).len() == s.len(),
        forall|i: int| 0 <= i < s.len() ==> #[trigger] rv_fields(s)[i] == (s[i].0@, rv(s[i].1)),
    decreases s.len(),
{
    if s.len() > 0 {
        lemma_rv_fields_len(s.drop_last());
        assert forall|i: int| 0 <= i < s.len() implies #[trigger] rv_fields(s)[i] == (
            s[i].0@,
            rv(s[i].1),
        ) by {
            if i < s.len() - 1 {
                assert(s.drop_last()[i] == s[i]);
            }
        }
    }
}

pub proof fn lemma_rv_items_len(s: Seq<RValue>)
    ensures
        rv_items(s).len() == s.len(),
        forall|i: int| 0 <= i < s.len() ==> #[trigger] rv_items(s)[i] == rv(s[i]),
    decreases s.len(),
{
    if s.len() > 0 {
        lemma_rv_items_len(s.drop_last());
        assert forall|i: int| 0 <= i < s.len() implies #[trigger] rv_items(s)[i] == rv(s[i]) by {
            if i < s.len() - 1 {
                assert(s.drop_last()[i] == s[i]);
            }
        }
    }
}

/// A copy of a byte vector.
pub fn copy_bytes(v: &Vec<u8>) -> (r: Vec<u8>)
    ensures
        r@ == v@,
{
    let mut out = crate::bytes::Bytes::new();
    out.push_slice(v.as_slice());
    out.into_bytes()
}

/// A copy of a vector of strings.
pub fn copy_strings(v: &Vec<String>) -> (r: Vec<String>)
    ensures
        strings_view(r@) == strings_view(v@),
{
    let mut out: Vec<String> = Vec::new();
    let mut i: usize = 0;
    while i < v.len()
        invariant
            i <= v@.len(),
            out@.len() == i,
            forall|j: int| 0 <= j < i ==> (#[trigger] out@[j])@ == v@[j]@,
        decreases v@.len() - i,
    {
        out.push(v[i].clone());
        i = i + 1;
    }
    assert(strings_view(out@) =~= strings_view(v@));
    out
}

impl UnionType {
    /// A copy of the type.
    pub fn duplicate(&self) -> (r: UnionType)
        ensures
            r@ == self@,
    {
        UnionType { name: self.name.clone(), variants: copy_strings(&self.variants) }
    }
}

/// Inserts `(k, v)` into insertion-ordered fields.
pub fn insert_field(fields: &mut Vec<(String, RValue)>, k: String, v: RValue)
    ensures
        rv_fields(final(fields)@) == field_insert(rv_fields(old(fields)@), k@, rv(v)),
{
    let ghost f0 = rv_fields(fields@);
    proof {
        lemma_rv_fields_len(fields@);
        lemma_name_index(f0, k@);
    }
    let mut i: usize = 0;
    while i < fields.len()
        invariant
            i <= fields@.len(),
            fields@ == old(fields)@,
            f0 == rv_fields(fields@),
            f0.len() == fields@.len(),
            forall|j: int| 0 <= j < fields@.len() ==> #[trigger] f0[j] == (fields@[j].0@, rv(fields@[j].1)),
            forall|j: int| 0 <= j < i ==> f0[j].0 != k@,
            name_index(f0, k@) matches Some(x) ==> 0 <= x < f0.len() && f0[x].0 == k@,
            name_index(f0, k@) is None ==> forall|j: int| 0 <= j < f0.len() ==> f0[j].0 != k@,
        decreases fields@.len() - i,
    {
        if crate::text::str_eq(fields[i].0.as_str(), k.as_str()) {
            let ghost before = fields@;
            fields.set(i, (k, v));
            proof {
                assert(f0[i as int].0 == k@);
                lemma_name_index_first(f0, k@);
                assert(name_index(f0, k@) == Some(i as int));
                lemma_rv_fields_len(fields@);
                assert(rv_fields(fields@) =~= f0.update(i as int, (k@, rv(v))));
            }
            return;
        }
        i = i + 1;
    }
    proof {
        lemma_rv_fields_push(fields@, (k, v));
    }
    fields.push((k, v));
}

pub proof fn lemma_name_index_first(s: Seq<(Seq<char>, SValue)>, k: Seq<char>)
    ensures
        name_index(s, k) matches Some(i) ==> forall|j: int| 0 <= j < i ==> s[j].0 != k,
    decreases s.len(),
{
    if s.len() > 0 {
        lemma_name_index_first(s.drop_last(), k);
        lemma_name_index(s.drop_last(), k);
        assert forall|j: int| 0 <= j < s.len() - 1 implies s.drop_last()[j] == s[j] by {}
    }
}

impl RValue {
    /// A deep copy of the value.
    pub fn duplicate(&self) -> (r: RValue)
        ensures
            r@ == self@,
        decreases self,
    {
        match self {
            RValue::Unit => RValue::Unit,
            RValue::Prim(p) => RValue::Prim(*p),
            RValue::Bytes { typename, value } => RValue::Bytes {
                typename: typename.clone(),
                value: copy_bytes(value),
            },
            RValue::Ref { typename, addr, value } => RValue::Ref {
                typename: *typename,
                addr: *addr,
                value: Box::new((**value).duplicate()),
            },
            RValue::UnresolvedRef { addr } => RValue::UnresolvedRef { addr: *addr },
            RValue::DynRef { typename, addr, vtable, value } => RValue::DynRef {
                typename: typename.clone(),
                addr: *addr,
                vtable: *vtable,
                value: Box::new((**value).duplicate()),
            },
            RValue::RefCounted { typename, addr, strong, weak, value } => RValue::RefCounted {
                typename: *typename,
                addr: *addr,
                strong: *strong,
                weak: *weak,
                value: Box::new((**value).duplicate()),
            },
            RValue::DynRefCounted { typename, addr, strong, weak, vtable, value } =>
                RValue::DynRefCounted {
                typename: typename.clone(),
                addr: *addr,
                strong: *strong,
                weak: *weak,
                vtable: *vtable,
                value: Box::new((**value).duplicate()),
            },
            RValue::Struct { typename, fields } => RValue::Struct {
                typename: typename.clone(),
                fields: duplicate_fields(fields),
            },
            RValue::Tuple { typename, items } => RValue::Tuple {
                typename: typename.clone(),
                items: duplicate_items(items),
            },
            RValue::Enum { typename, variant } => RValue::Enum {
                typename: typename.clone(),
                variant: variant.clone(),
            },
            RValue::String { typename, value } => RValue::String {
                typename: *typename,
                value: value.clone(),
            },
            RValue::Union { typeinfo, variant, fields } => RValue::Union {
                typeinfo: typeinfo.duplicate(),
                variant: variant.clone(),
                fields: duplicate_fields(fields),
            },
            RValue::Option { typename, variant, value } => RValue::Option {
                typename: typename.clone(),
                variant: variant.clone(),
                value: match value {
                    Some(b) => Some(Box::new((**b).duplicate())),
                    None => None,
                },
            },
            RValue::Result { typename, variant, value } => RValue::Result {
                typename: typename.clone(),
                variant: variant.clone(),
                value: Box::new((**value).duplicate()),
            },
            RValue::Array { typename, data } => RValue::Array {
                typename: *typename,
                data: duplicate_items(data),
            },
            RValue::Opaque => RValue::Opaque,
        }
    }
}

/// A deep copy of named values.
pub fn duplicate_fields(fields: &Vec<(String, RValue)>) -> (r: Vec<(String, RValue)>)
    ensures
        rv_fields(r@) == rv_fields(fields@),
    decreases fields,
{
    let mut out: Vec<(String, RValue)> = Vec::new();
    let mut i: usize = 0;
    while i < fields.len()
        invariant
            i <= fields@.len(),
            rv_fields(out@) == rv_fields(fields@.take(i as int)),
        decreases fields@.len() - i,
    {
        proof {
            assert(fields@.take(i + 1).drop_last() =~= fields@.take(i as int));
        }
        let v = fields[i].1.duplicate();
        proof {
            lemma_rv_fields_push(out@, (fields@[i as int].0, v));
        }
        out.push((fields[i].0.clone(), v));
        i = i + 1;
    }
    assert(fields@.take(i as int) =~= fields@);
    out
}

/// A deep copy of values.
pub fn duplicate_items(items: &Vec<RValue>) -> (r: Vec<RValue>)
    ensures
        rv_items(r@) == rv_items(items@),
    decreases items,
{
    let mut out: Vec<RValue> = Vec::new();
    let mut i: usize = 0;
    while i < items.len()
        invariant
            i <= items@.len(),
            rv_items(out@) == rv_items(items@.take(i as int)),
        decreases items@.len() - i,
    {
        proof {
            assert(items@.take(i + 1).drop_last() =~= items@.take(i as int));
        }
        let v = items[i].duplicate();
        proof {
            lemma_rv_items_push(out@, v);
        }
        out.push(v);
        i = i + 1;
    }
    assert(items@.take(i as int) =~= items@);
    out
}

} // verus!
