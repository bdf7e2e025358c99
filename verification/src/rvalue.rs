//! Lifting: rewriting the values that the standard library's types leave in
//! the stream (tuples written as structs, cells, reference counted and trait
//! object pointers, `Option` and `Result`) into their higher level forms.
use vstd::prelude::*;
use crate::decimal::parse_uint;
use crate::text::{starts_with, ends_with, str_starts_with, str_ends_with, str_eq};
use crate::value::{
    RefType, RValue, SValue, PValue, Addr, RefAddr, RefCountedType, SUnionType, UnionType, rv, rv_fields,
    rv_items, name_index, lemma_name_index, lemma_name_index_first, lemma_rv_fields_len,
    lemma_rv_fields_push, lemma_rv_items_len, lemma_rv_items_push,
};

verus! {

/// The value of the first field named `k`.
pub open spec fn field_get(f: Seq<(Seq<char>, SValue)>, k: Seq<char>) -> Option<SValue> {
    match name_index(f, k) {
        Some(i) => Some(f[i].1),
        None => None,
    }
}

/// The fields after removing the first field named `k` the way an
/// insertion-ordered map's `remove` does: the last field takes its place.
pub open spec fn swap_remove_field(f: Seq<(Seq<char>, SValue)>, k: Seq<char>) -> Seq<
    (Seq<char>, SValue),
> {
    match name_index(f, k) {
        Some(i) => f.update(i, f.last()).drop_last(),
        None => f,
    }
}

/// The field named `k` of a struct value.
pub open spec fn struct_field_of(v: SValue, k: Seq<char>) -> Option<SValue> {
    match v {
        SValue::Struct { fields, .. } => field_get(fields, k),
        _ => None,
    }
}

/// The address of a reference, or address zero for any other value.
pub open spec fn addr_of(v: SValue) -> RefAddr {
    match v {
        SValue::Ref { addr, .. } => addr,
        _ => RefAddr::Addr(Addr { value: 0 }),
    }
}

/// The value that a reference points to, or an opaque value.
pub open spec fn ref_target(v: SValue) -> SValue {
    match v {
        SValue::Ref { value, .. } => *value,
        _ => SValue::Opaque,
    }
}

/// A reference count kept as the `usize` in field `value` of field `k`; zero
/// where there is none.
pub open spec fn counter(v: SValue, k: Seq<char>) -> u64 {
    match struct_field_of(v, k) {
        Some(c) => match struct_field_of(c, "value"@) {
            Some(SValue::Prim(PValue::usize(n))) => n,
            _ => 0,
        },
        None => 0,
    }
}

/// Every field is named by its own index, as the fields of a tuple are.
pub open spec fn tuple_ready(f: Seq<(Seq<char>, SValue)>) -> bool {
    forall|i: int| 0 <= i < f.len() ==> parse_uint(#[trigger] f[i].0, usize::MAX as nat) == Some(i as nat)
}

/// The values of the fields, in order.
pub open spec fn field_values(f: Seq<(Seq<char>, SValue)>) -> Seq<SValue> {
    Seq::new(f.len(), |i: int| f[i].1)
}

/// The primitive inside a cell or an atomic: its one field is `value` (or
/// `v`), a struct whose field `value` is a primitive.
pub open spec fn cell_prim(f: Seq<(Seq<char>, SValue)>) -> Option<PValue> {
    if f.len() == 1 && (f[0].0 == "value"@ || f[0].0 == "v"@) {
        match struct_field_of(f[0].1, "value"@) {
            Some(SValue::Prim(p)) => Some(p),
            _ => None,
        }
    } else {
        None
    }
}

pub open spec fn is_tuple_name(ty: Seq<char>) -> bool {
    starts_with(ty, "("@) && ends_with(ty, ")"@)
}

pub open spec fn is_cell_name(ty: Seq<char>) -> bool {
    starts_with(ty, "core::sync::atomic::Atomic"@) || starts_with(ty, "core::cell::Cell<"@)
}

pub open spec fn is_dyn_box_name(ty: Seq<char>) -> bool {
    starts_with(ty, "&dyn "@) || starts_with(ty, "alloc::boxed::Box<dyn "@)
}

pub open spec fn is_dyn_counted_name(ty: Seq<char>) -> bool {
    starts_with(ty, "alloc::sync::Arc<dyn "@) || starts_with(ty, "alloc::rc::Rc<dyn "@)
}

pub open spec fn is_counted_name(ty: Seq<char>) -> bool {
    starts_with(ty, "alloc::sync::Arc<"@) || starts_with(ty, "alloc::rc::Rc<"@)
}

/// The field of the shared allocation that holds the value: `data` in an
/// `Arc`, `value` in an `Rc`.
pub open spec fn counted_field(ty: Seq<char>) -> Seq<char> {
    if starts_with(ty, "alloc::sync::Arc<"@) {
        "data"@
    } else {
        "value"@
    }
}

/// An empty struct of type `ty`.
pub open spec fn bare(ty: Seq<char>) -> SValue {
    SValue::Struct { typename: ty, fields: Seq::empty() }
}

/// Lifting an `Arc<dyn ..>` or `Rc<dyn ..>` whose field `ptr` is `p`.
pub open spec fn lift_dyn_counted(ty: Seq<char>, f: Seq<(Seq<char>, SValue)>, p: SValue) -> (
    SValue,
    bool,
) {
    match struct_field_of(p, "pointer"@) {
        Some(SValue::Struct { fields: g, .. }) => {
            let pointer = field_get(g, "pointer"@);
            let vtable = field_get(swap_remove_field(g, "pointer"@), "vtable"@);
            match (pointer, vtable) {
                (Some(SValue::Ref { addr, value, .. }), Some(vt)) => match struct_field_of(
                    *value,
                    counted_field(ty),
                ) {
                    Some(x) => (
                        SValue::DynRefCounted {
                            typename: ty,
                            addr,
                            strong: counter(*value, "strong"@),
                            weak: counter(*value, "weak"@),
                            vtable: addr_of(vt),
                            value: Box::new(x),
                        },
                        true,
                    ),
                    None => (
                        SValue::Struct { typename: ty, fields: swap_remove_field(f, "ptr"@) },
                        false,
                    ),
                },
                _ => (bare(ty), true),
            }
        },
        _ => (bare(ty), true),
    }
}

/// Lifting an `Arc<..>` or `Rc<..>` whose field `ptr` is `p`.
pub open spec fn lift_counted(ty: Seq<char>, f: Seq<(Seq<char>, SValue)>, p: SValue) -> (
    SValue,
    bool,
) {
    match struct_field_of(p, "pointer"@) {
        None => (SValue::Struct { typename: ty, fields: swap_remove_field(f, "ptr"@) }, false),
        Some(SValue::Ref { addr, value, .. }) => (
            SValue::RefCounted {
                typename: if starts_with(ty, "alloc::sync::Arc<"@) {
                    RefCountedType::Arc
                } else {
                    RefCountedType::Rc
                },
                addr,
                strong: counter(*value, "strong"@),
                weak: counter(*value, "weak"@),
                value: Box::new(
                    match struct_field_of(*value, counted_field(ty)) {
                        Some(x) => x,
                        None => SValue::Opaque,
                    },
                ),
            },
            true,
        ),
        Some(_) => (bare(ty), true),
    }
}

/// Lifting a struct of type `ty` whose fields, already lifted, are `f`: the
/// new value, and whether lifting succeeded.
pub open spec fn lift_struct(ty: Seq<char>, f: Seq<(Seq<char>, SValue)>) -> (SValue, bool) {
    let unchanged = SValue::Struct { typename: ty, fields: f };
    if is_tuple_name(ty) {
        if tuple_ready(f) {
            (SValue::Tuple { typename: ty, items: field_values(f) }, true)
        } else {
            (bare(ty), false)
        }
    } else if is_cell_name(ty) {
        match cell_prim(f) {
            Some(p) => (
                SValue::Struct { typename: ty, fields: seq![("value"@, SValue::Prim(p))] },
                true,
            ),
            None => (unchanged, false),
        }
    } else if is_dyn_box_name(ty) {
        match (field_get(f, "pointer"@), field_get(f, "vtable"@)) {
            (Some(pointer), Some(_)) => match field_get(
                swap_remove_field(f, "pointer"@),
                "vtable"@,
            ) {
                Some(vtable) => (
                    SValue::DynRef {
                        typename: ty,
                        addr: addr_of(pointer),
                        vtable: addr_of(vtable),
                        value: Box::new(ref_target(pointer)),
                    },
                    true,
                ),
                None => (
                    SValue::Struct { typename: ty, fields: swap_remove_field(f, "pointer"@) },
                    true,
                ),
            },
            _ => (unchanged, true),
        }
    } else if is_dyn_counted_name(ty) {
        match field_get(f, "ptr"@) {
            Some(p) => lift_dyn_counted(ty, f, p),
            None => (unchanged, true),
        }
    } else if is_counted_name(ty) {
        match field_get(f, "ptr"@) {
            Some(p) => lift_counted(ty, f, p),
            None => (unchanged, true),
        }
    } else {
        (unchanged, true)
    }
}

/// The payload of an `Option`: its field `0`, or an opaque value where it has
/// a field `<>`.
fn option_payload(f: &mut Vec<(String, RValue)>) -> (r: Option<Box<RValue>>)
    ensures
        match r {
            Some(b) => Some(Box::new(rv(*b))),
            None => None::<Box<SValue>>,
        } == match field_get(rv_fields(old(f)@), "0"@) {
            Some(x) => Some(Box::new(x)),
            None => if field_get(rv_fields(old(f)@), "<>"@) is Some {
                Some(Box::new(SValue::Opaque))
            } else {
                None
            },
        },
{
    match remove_field(f, "0") {
        Some(x) => Some(Box::new(x)),
        None => {
            if get_field(f, "<>").is_some() {
                Some(Box::new(RValue::Opaque))
            } else {
                None
            }
        },
    }
}

/// Lifting a Rust enum whose fields, already lifted, are `f`.
pub open spec fn lift_union(t: SUnionType, variant: Seq<char>, f: Seq<(Seq<char>, SValue)>) -> SValue {
    if starts_with(t.name, "core::option::Option"@) {
        SValue::Option {
            typename: t.name,
            variant,
            value: match field_get(f, "0"@) {
                Some(x) => Some(Box::new(x)),
                None => if field_get(f, "<>"@) is Some {
                    Some(Box::new(SValue::Opaque))
                } else {
                    None
                },
            },
        }
    } else if starts_with(t.name, "core::result::Result"@) {
        SValue::Result {
            typename: t.name,
            variant,
            value: Box::new(
                match field_get(f, "0"@) {
                    Some(x) => x,
                    None => SValue::Opaque,
                },
            ),
        }
    } else {
        SValue::Union { typeinfo: t, variant, fields: f }
    }
}

/// A value after lifting: the values inside references, structs, enums and
/// sequences are lifted first; then the value itself.
pub open spec fn lifted(v: SValue) -> SValue
    decreases v,
{
    match v {
        SValue::Ref { typename, addr, value } => SValue::Ref {
            typename,
            addr,
            value: Box::new(lifted(*value)),
        },
        SValue::Struct { typename, fields } => lift_struct(typename, lifted_fields(fields)).0,
        SValue::Union { typeinfo, variant, fields } => lift_union(
            typeinfo,
            variant,
            lifted_fields(fields),
        ),
        SValue::Array { typename, data } => SValue::Array { typename, data: lifted_items(data) },
        _ => v,
    }
}

/// The fields, each value lifted.
pub open spec fn lifted_fields(s: Seq<(Seq<char>, SValue)>) -> Seq<(Seq<char>, SValue)>
    decreases s,
{
    if s.len() == 0 {
        Seq::empty()
    } else {
        lifted_fields(s.drop_last()).push((s.last().0, lifted(s.last().1)))
    }
}

/// The values, each lifted.
pub open spec fn lifted_items(s: Seq<SValue>) -> Seq<SValue>
    decreases s,
{
    if s.len() == 0 {
        Seq::empty()
    } else {
        lifted_items(s.drop_last()).push(lifted(s.last()))
    }
}

/// Whether lifting the value itself succeeds (what is inside it may fail to
/// lift without that being reported).
pub open spec fn lift_ok(v: SValue) -> bool {
    match v {
        SValue::Struct { typename, fields } => lift_struct(typename, lifted_fields(fields)).1,
        _ => true,
    }
}


/// The index of the first field named `k`.
pub fn find_field(f: &Vec<(String, RValue)>, k: &str) -> (r: Option<usize>)
    ensures
        match r {
            Some(i) => name_index(rv_fields(f@), k@) == Some(i as int),
            None => name_index(rv_fields(f@), k@) is None,
        },
{
    let ghost s = rv_fields(f@);
    proof {
        lemma_rv_fields_len(f@);
        lemma_name_index(s, k@);
        lemma_name_index_first(s, k@);
    }
    let mut i: usize = 0;
    while i < f.len()
        invariant
            i <= f@.len(),
            s == rv_fields(f@),
            s.len() == f@.len(),
            forall|j: int| 0 <= j < f@.len() ==> #[trigger] s[j] == (f@[j].0@, rv(f@[j].1)),
            forall|j: int| 0 <= j < i ==> s[j].0 != k@,
            name_index(s, k@) matches Some(x) ==> 0 <= x < s.len() && s[x].0 == k@ && forall|j: int|
                0 <= j < x ==> s[j].0 != k@,
            name_index(s, k@) is None ==> forall|j: int| 0 <= j < s.len() ==> s[j].0 != k@,
        decreases f@.len() - i,
    {
        if str_eq(f[i].0.as_str(), k) {
            assert(s[i as int].0 == k@);
            return Some(i);
        }
        i = i + 1;
    }
    None
}

proof fn lemma_swap_remove_fields(f: Seq<(String, RValue)>, i: int)
    requires
        0 <= i < f.len(),
    ensures
        rv_fields(f.update(i, f.last()).drop_last()) == rv_fields(f).update(
            i,
            rv_fields(f).last(),
        ).drop_last(),
{
    let g = f.update(i, f.last()).drop_last();
    lemma_rv_fields_len(f);
    lemma_rv_fields_len(g);
    assert(rv_fields(g) =~= rv_fields(f).update(i, rv_fields(f).last()).drop_last());
}

/// Removes the first field named `k` the way an insertion-ordered map's
/// `remove` does, and gives its value.
pub fn remove_field(f: &mut Vec<(String, RValue)>, k: &str) -> (r: Option<RValue>)
    ensures
        rv_fields(final(f)@) == swap_remove_field(rv_fields(old(f)@), k@),
        match r {
            Some(x) => field_get(rv_fields(old(f)@), k@) == Some(rv(x)),
            None => field_get(rv_fields(old(f)@), k@) is None,
        },
{
    proof {
        lemma_rv_fields_len(f@);
        lemma_name_index(rv_fields(f@), k@);
    }
    match find_field(f, k) {
        Some(i) => {
            proof {
                lemma_swap_remove_fields(f@, i as int);
            }
            let (_, x) = f.swap_remove(i);
            Some(x)
        },
        None => None,
    }
}

/// The value of the first field named `k`.
pub fn get_field<'a>(f: &'a Vec<(String, RValue)>, k: &str) -> (r: Option<&'a RValue>)
    ensures
        match r {
            Some(x) => field_get(rv_fields(f@), k@) == Some(rv(*x)),
            None => field_get(rv_fields(f@), k@) is None,
        },
{
    proof {
        lemma_rv_fields_len(f@);
        lemma_name_index(rv_fields(f@), k@);
    }
    match find_field(f, k) {
        Some(i) => Some(&f[i].1),
        None => None,
    }
}

impl RValue {
    /// The field named `name` of a struct.
    pub fn struct_field(&self, name: &str) -> (r: Option<&RValue>)
        ensures
            match r {
                Some(x) => struct_field_of(rv(*self), name@) == Some(rv(*x)),
                None => struct_field_of(rv(*self), name@) is None,
            },
    {
        match self {
            RValue::Struct { fields, .. } => get_field(fields, name),
            _ => None,
        }
    }

    /// The primitive, if the value is one.
    pub fn prim(&self) -> (r: Option<PValue>)
        ensures
            r == (match rv(*self) {
                SValue::Prim(p) => Some(p),
                _ => None,
            }),
    {
        match self {
            RValue::Prim(p) => Some(*p),
            _ => None,
        }
    }
}

/// Takes the field named `field` out of a struct.
pub fn take_struct_field(value: RValue, field: &str) -> (r: Option<RValue>)
    ensures
        match r {
            Some(x) => struct_field_of(rv(value), field@) == Some(rv(x)),
            None => struct_field_of(rv(value), field@) is None,
        },
{
    match value {
        RValue::Struct { mut fields, .. } => remove_field(&mut fields, field),
        _ => None,
    }
}

/// The address of a reference, or address zero.
pub fn get_addr(value: &RValue) -> (r: RefAddr)
    ensures
        r == addr_of(rv(*value)),
{
    match value {
        RValue::Ref { addr, .. } => *addr,
        _ => RefAddr::Addr(Addr::from_u64(0)),
    }
}

/// The number inside a `usize` primitive.
pub fn take_usize(value: PValue) -> (r: Option<u64>)
    ensures
        r == (match value {
            PValue::usize(n) => Some(n),
            _ => None,
        }),
{
    match value {
        PValue::usize(v) => Some(v),
        _ => None,
    }
}

/// The value inside a box.
pub fn unbox<T>(value: Box<T>) -> (r: T)
    ensures
        r == *value,
{
    *value
}

/// The reference count in field `name` of a shared allocation.
fn read_counter(value: &RValue, name: &str) -> (r: u64)
    ensures
        r == counter(rv(*value), name@),
{
    match value.struct_field(name) {
        Some(c) => match c.struct_field("value") {
            Some(x) => match x.prim() {
                Some(p) => match take_usize(p) {
                    Some(n) => n,
                    None => 0,
                },
                None => 0,
            },
            None => 0,
        },
        None => 0,
    }
}


/// The values of the fields, in order.
fn into_field_values(f: Vec<(String, RValue)>) -> (r: Vec<RValue>)
    ensures
        rv_items(r@) == field_values(rv_fields(f@)),
{
    let ghost f0 = rv_fields(f@);
    proof {
        lemma_rv_fields_len(f@);
    }
    let mut rest = f;
    let mut out: Vec<RValue> = Vec::new();
    while rest.len() > 0
        invariant
            f0.len() == out@.len() + rest@.len(),
            rv_items(out@) == field_values(f0).take(out@.len() as int),
            forall|j: int| 0 <= j < rest@.len() ==> rv((#[trigger] rest@[j]).1) == f0[out@.len() + j].1,
        decreases rest@.len(),
    {
        let ghost before = rest@;
        let ghost k = out@.len() as int;
        let (_, x) = rest.remove(0);
        assert forall|j: int| 0 <= j < rest@.len() implies rv((#[trigger] rest@[j]).1) == f0[out@.len() + 1 + j].1 by {
            assert(rest@[j] == before[j + 1]);
        }
        proof {
            lemma_rv_items_push(out@, x);
        }
        out.push(x);
        assert(field_values(f0).take(k + 1) =~= field_values(f0).take(k).push(f0[k].1));
    }
    assert(field_values(f0).take(out@.len() as int) =~= field_values(f0));
    out
}

/// The fields named by their own index, in order, as a tuple's are.
fn check_tuple_names(f: &Vec<(String, RValue)>) -> (r: bool)
    ensures
        r == tuple_ready(rv_fields(f@)),
{
    let ghost s = rv_fields(f@);
    proof {
        lemma_rv_fields_len(f@);
    }
    let mut i: usize = 0;
    while i < f.len()
        invariant
            i <= f@.len(),
            s == rv_fields(f@),
            s.len() == f@.len(),
            forall|j: int| 0 <= j < f@.len() ==> #[trigger] s[j] == (f@[j].0@, rv(f@[j].1)),
            forall|j: int| 0 <= j < i ==> parse_uint(#[trigger] s[j].0, usize::MAX as nat) == Some(j as nat),
        decreases f@.len() - i,
    {
        let n = crate::decimal::parse_uint_str(f[i].0.as_str(), usize::MAX as u64);
        match n {
            Some(x) => {
                if x != i as u64 {
                    assert(parse_uint(s[i as int].0, usize::MAX as nat) != Some(i as nat));
                    return false;
                }
            },
            None => {
                assert(parse_uint(s[i as int].0, usize::MAX as nat) is None);
                return false;
            },
        }
        i = i + 1;
    }
    true
}

/// A single field `value` holding a primitive.
fn prim_field(p: PValue) -> (r: Vec<(String, RValue)>)
    ensures
        rv_fields(r@) == seq![("value"@, SValue::Prim(p))],
{
    let mut out: Vec<(String, RValue)> = Vec::new();
    let name = crate::text::to_owned_string("value");
    proof {
        lemma_rv_fields_push(out@, (name, RValue::Prim(p)));
        assert(rv_fields(out@) =~= Seq::<(Seq<char>, SValue)>::empty());
    }
    out.push((name, RValue::Prim(p)));
    assert(rv_fields(out@) =~= seq![("value"@, SValue::Prim(p))]);
    out
}

/// An empty struct of type `ty`.
fn bare_struct(ty: String) -> (r: RValue)
    ensures
        rv(r) == bare(ty@),
{
    let f: Vec<(String, RValue)> = Vec::new();
    assert(rv_fields(f@) =~= Seq::<(Seq<char>, SValue)>::empty());
    RValue::Struct { typename: ty, fields: f }
}

/// Lifting a struct of type `ty` whose fields, already lifted, are `f`.
fn lift_struct_exec(ty: String, f: Vec<(String, RValue)>) -> (r: (RValue, bool))
    ensures
        (rv(r.0), r.1) == lift_struct(ty@, rv_fields(f@)),
{
    let ghost f0 = rv_fields(f@);
    if str_starts_with(ty.as_str(), "(") && str_ends_with(ty.as_str(), ")") {
        if check_tuple_names(&f) {
            let items = into_field_values(f);
            return (RValue::Tuple { typename: ty, items }, true);
        } else {
            return (bare_struct(ty), false);
        }
    }
    if str_starts_with(ty.as_str(), "core::sync::atomic::Atomic") || str_starts_with(
        ty.as_str(),
        "core::cell::Cell<",
    ) {
        proof {
            lemma_rv_fields_len(f@);
        }
        if f.len() == 1 && (str_eq(f[0].0.as_str(), "value") || str_eq(f[0].0.as_str(), "v")) {
            match f[0].1.struct_field("value") {
                Some(x) => match x.prim() {
                    Some(p) => {
                        return (RValue::Struct { typename: ty, fields: prim_field(p) }, true);
                    },
                    None => {},
                },
                None => {},
            }
        }
        return (RValue::Struct { typename: ty, fields: f }, false);
    }
    if str_starts_with(ty.as_str(), "&dyn ") || str_starts_with(
        ty.as_str(),
        "alloc::boxed::Box<dyn ",
    ) {
        if find_field(&f, "pointer").is_some() && find_field(&f, "vtable").is_some() {
            let mut f = f;
            let pointer = remove_field(&mut f, "pointer");
            let vtable = remove_field(&mut f, "vtable");
            match (pointer, vtable) {
                (Some(p), Some(vt)) => {
                    let addr = get_addr(&p);
                    let vaddr = get_addr(&vt);
                    let ghost gp = rv(p);
                    let value = match p {
                        RValue::Ref { value, .. } => value,
                        _ => Box::new(RValue::Opaque),
                    };
                    assert(rv(*value) == ref_target(gp));
                    assert(field_get(f0, "pointer"@) == Some(gp));
                    assert(field_get(swap_remove_field(f0, "pointer"@), "vtable"@) == Some(rv(vt)));
                    return (RValue::DynRef { typename: ty, addr, vtable: vaddr, value }, true);
                },
                _ => {
                    return (RValue::Struct { typename: ty, fields: f }, true);
                },
            }
        }
        return (RValue::Struct { typename: ty, fields: f }, true);
    }
    if str_starts_with(ty.as_str(), "alloc::sync::Arc<dyn ") || str_starts_with(
        ty.as_str(),
        "alloc::rc::Rc<dyn ",
    ) {
        let mut f = f;
        match remove_field(&mut f, "ptr") {
            None => {
                return (RValue::Struct { typename: ty, fields: f }, true);
            },
            Some(p) => match take_struct_field(p, "pointer") {
                Some(RValue::Struct { mut fields, .. }) => {
                    let pointer = remove_field(&mut fields, "pointer");
                    let vtable = remove_field(&mut fields, "vtable");
                    match (pointer, vtable) {
                        (Some(RValue::Ref { addr, value, .. }), Some(vt)) => {
                            let strong = read_counter(&value, "strong");
                            let weak = read_counter(&value, "weak");
                            let field = if str_starts_with(ty.as_str(), "alloc::sync::Arc<") {
                                "data"
                            } else {
                                "value"
                            };
                            let vaddr = get_addr(&vt);
                            match take_struct_field(unbox(value), field) {
                                Some(x) => {
                                    return (
                                        RValue::DynRefCounted {
                                            typename: ty,
                                            addr,
                                            strong,
                                            weak,
                                            vtable: vaddr,
                                            value: Box::new(x),
                                        },
                                        true,
                                    );
                                },
                                None => {
                                    return (RValue::Struct { typename: ty, fields: f }, false);
                                },
                            }
                        },
                        _ => {
                            return (bare_struct(ty), true);
                        },
                    }
                },
                _ => {
                    return (bare_struct(ty), true);
                },
            },
        }
    }
    if str_starts_with(ty.as_str(), "alloc::sync::Arc<") || str_starts_with(
        ty.as_str(),
        "alloc::rc::Rc<",
    ) {
        let mut f = f;
        match remove_field(&mut f, "ptr") {
            None => {
                return (RValue::Struct { typename: ty, fields: f }, true);
            },
            Some(p) => match take_struct_field(p, "pointer") {
                None => {
                    return (RValue::Struct { typename: ty, fields: f }, false);
                },
                Some(RValue::Ref { addr, value, .. }) => {
                    let strong = read_counter(&value, "strong");
                    let weak = read_counter(&value, "weak");
                    let is_arc = str_starts_with(ty.as_str(), "alloc::sync::Arc<");
                    let field = if is_arc {
                        "data"
                    } else {
                        "value"
                    };
                    let inner = match take_struct_field(unbox(value), field) {
                        Some(x) => x,
                        None => RValue::Opaque,
                    };
                    let kind = if is_arc {
                        RefCountedType::Arc
                    } else {
                        RefCountedType::Rc
                    };
                    return (
                        RValue::RefCounted { typename: kind, addr, strong, weak, value: Box::new(inner) },
                        true,
                    );
                },
                Some(_) => {
                    return (bare_struct(ty), true);
                },
            },
        }
    }
    (RValue::Struct { typename: ty, fields: f }, true)
}

/// Lifting a Rust enum whose fields, already lifted, are `f`.
fn lift_union_exec(t: UnionType, variant: String, f: Vec<(String, RValue)>) -> (r: RValue)
    ensures
        rv(r) == lift_union(t@, variant@, rv_fields(f@)),
{
    if str_starts_with(t.name.as_str(), "core::option::Option") {
        let mut f = f;
        let value = option_payload(&mut f);
        RValue::Option { typename: t.name, variant, value }
    } else if str_starts_with(t.name.as_str(), "core::result::Result") {
        let mut f = f;
        let value = match remove_field(&mut f, "0") {
            Some(x) => x,
            None => RValue::Opaque,
        };
        RValue::Result { typename: t.name, variant, value: Box::new(value) }
    } else {
        RValue::Union { typeinfo: t, variant, fields: f }
    }
}

/// A lifted copy of the value, and whether lifting the value itself succeeded.
pub fn lift_copy(v: &RValue) -> (r: (RValue, bool))
    ensures
        rv(r.0) == lifted(rv(*v)),
        r.1 == lift_ok(rv(*v)),
    decreases v,
{
    match v {
        RValue::Ref { typename, addr, value } => {
            let inner = lift_copy(&**value);
            (RValue::Ref { typename: *typename, addr: *addr, value: Box::new(inner.0) }, true)
        },
        RValue::Struct { typename, fields } => {
            let f = lift_fields_copy(fields);
            lift_struct_exec(typename.clone(), f)
        },
        RValue::Union { typeinfo, variant, fields } => {
            let f = lift_fields_copy(fields);
            (lift_union_exec(typeinfo.duplicate(), variant.clone(), f), true)
        },
        RValue::Array { typename, data } => {
            (RValue::Array { typename: *typename, data: lift_items_copy(data) }, true)
        },
        _ => (v.duplicate(), true),
    }
}

/// Lifted copies of named values.
pub fn lift_fields_copy(fields: &Vec<(String, RValue)>) -> (r: Vec<(String, RValue)>)
    ensures
        rv_fields(r@) == lifted_fields(rv_fields(fields@)),
    decreases fields,
{
    let mut out: Vec<(String, RValue)> = Vec::new();
    let mut i: usize = 0;
    while i < fields.len()
        invariant
            i <= fields@.len(),
            rv_fields(out@) == lifted_fields(rv_fields(fields@.take(i as int))),
        decreases fields@.len() - i,
    {
        let ghost pre = rv_fields(fields@.take(i as int));
        proof {
            assert(fields@.take(i + 1).drop_last() =~= fields@.take(i as int));
            assert(pre.push((fields@[i as int].0@, rv(fields@[i as int].1))).drop_last() =~= pre);
        }
        let v = lift_copy(&fields[i].1).0;
        proof {
            lemma_rv_fields_push(out@, (fields@[i as int].0, v));
        }
        out.push((fields[i].0.clone(), v));
        i = i + 1;
    }
    assert(fields@.take(i as int) =~= fields@);
    out
}

/// Lifted copies of values.
pub fn lift_items_copy(items: &Vec<RValue>) -> (r: Vec<RValue>)
    ensures
        rv_items(r@) == lifted_items(rv_items(items@)),
    decreases items,
{
    let mut out: Vec<RValue> = Vec::new();
    let mut i: usize = 0;
    while i < items.len()
        invariant
            i <= items@.len(),
            rv_items(out@) == lifted_items(rv_items(items@.take(i as int))),
        decreases items@.len() - i,
    {
        let ghost pre = rv_items(items@.take(i as int));
        proof {
            assert(items@.take(i + 1).drop_last() =~= items@.take(i as int));
            assert(pre.push(rv(items@[i as int])).drop_last() =~= pre);
        }
        let v = lift_copy(&items[i]).0;
        proof {
            lemma_rv_items_push(out@, v);
        }
        out.push(v);
        i = i + 1;
    }
    assert(items@.take(i as int) =~= items@);
    out
}

/// Lifting a value in place.
pub trait RValueLift {
    /// Lifts the value to a higher level, in place; `None` where the value
    /// itself could not be lifted.
    fn lift(&mut self) -> Option<()>;
}

impl RValueLift for RValue {
    fn lift(&mut self) -> (r: Option<()>)
        ensures
            rv(*final(self)) == lifted(rv(*old(self))),
            r is Some <==> lift_ok(rv(*old(self))),
    {
        let (v, ok) = lift_copy(self);
        *self = v;
        if ok {
            Some(())
        } else {
            None
        }
    }
}

/// No two fields have the same name.
pub open spec fn distinct_names(f: Seq<(Seq<char>, SValue)>) -> bool {
    forall|i: int, j: int| 0 <= i < j < f.len() ==> f[i].0 != f[j].0
}

/// The field at `j` is the field named by its name, where names are
/// distinct.
proof fn lemma_distinct_get(f: Seq<(Seq<char>, SValue)>, j: int)
    requires
        distinct_names(f),
        0 <= j < f.len(),
    ensures
        name_index(f, f[j].0) == Some(j),
{
    lemma_name_index(f, f[j].0);
}

/// Removing the field named `k` the way a map does keeps every other
/// field under its name, where names are distinct.
proof fn lemma_swap_remove_keeps(f: Seq<(Seq<char>, SValue)>, k: Seq<char>, k2: Seq<char>)
    requires
        distinct_names(f),
        k != k2,
    ensures
        field_get(swap_remove_field(f, k), k2) == field_get(f, k2),
{
    lemma_name_index(f, k);
    lemma_name_index(f, k2);
    match name_index(f, k) {
        Some(i) => {
            let g = f.update(i, f.last()).drop_last();
            let n = f.len() as int;
            lemma_name_index(g, k2);
            match name_index(f, k2) {
                Some(j) => {
                    let jj = if j == n - 1 {
                        i
                    } else {
                        j
                    };
                    assert(g[jj] == f[j]);
                    assert forall|a: int, b: int| 0 <= a < b < g.len() implies g[a].0 != g[b].0 by {
                        let fa = if a == i { n - 1 } else { a };
                        let fb = if b == i { n - 1 } else { b };
                        assert(g[a] == f[fa]);
                        assert(g[b] == f[fb]);
                    }
                    lemma_distinct_get(g, jj);
                },
                None => {
                    assert forall|a: int| 0 <= a < g.len() implies g[a].0 != k2 by {
                        let fa = if a == i { n - 1 } else { a };
                        assert(g[a] == f[fa]);
                    }
                },
            }
        },
        None => {},
    }
}

/// Lifting a `Box<dyn ..>` or a `&dyn ..`, whose fields `pointer` and
/// `vtable` are references, gives a trait object pointer whose address is
/// that of `pointer`, whose vtable is the address of `vtable`, and whose
/// value is what `pointer` points to.
pub proof fn law_dyn_box_lifts(
    ty: Seq<char>,
    f: Seq<(Seq<char>, SValue)>,
    pt: RefType,
    pa: RefAddr,
    x: SValue,
    vt: RefType,
    va: RefAddr,
    y: SValue,
)
    requires
        starts_with(ty, "&dyn "@) || starts_with(ty, "alloc::boxed::Box<dyn "@),
        distinct_names(f),
        field_get(f, "pointer"@) == Some(SValue::Ref { typename: pt, addr: pa, value: Box::new(x) }),
        field_get(f, "vtable"@) == Some(SValue::Ref { typename: vt, addr: va, value: Box::new(y) }),
    ensures
        lift_struct(ty, f) == (SValue::DynRef { typename: ty, addr: pa, vtable: va, value: Box::new(x) }, true),
{
    reveal_strlit("&dyn ");
    reveal_strlit("alloc::boxed::Box<dyn ");
    reveal_strlit("(");
    reveal_strlit("core::sync::atomic::Atomic");
    reveal_strlit("core::cell::Cell<");
    assert(ty[0] == '&' || ty[0] == 'a') by {
        if starts_with(ty, "&dyn "@) {
            assert(ty.subrange(0, 5)[0] == ty[0]);
        } else {
            assert(ty.subrange(0, 22)[0] == ty[0]);
        }
    }
    if starts_with(ty, "("@) {
        assert(ty.subrange(0, 1)[0] == ty[0]);
    }
    if starts_with(ty, "core::sync::atomic::Atomic"@) {
        assert(ty.subrange(0, 26)[0] == ty[0]);
    }
    if starts_with(ty, "core::cell::Cell<"@) {
        assert(ty.subrange(0, 17)[0] == ty[0]);
    }
    reveal_strlit("pointer");
    reveal_strlit("vtable");
    assert("pointer"@ != "vtable"@) by {
        assert("pointer"@[0] != "vtable"@[0]);
    }
    lemma_swap_remove_keeps(f, "pointer"@, "vtable"@);
}

/// Lifting an `Option` takes its payload from its field `0`: `Some` of
/// that field's value `x`, or, with no field `0` (nor the field `<>` of a
/// payload that could not be read), `None`. Lifting a `Result` takes its
/// value from its field `0`. Both keep the type name and the variant.
pub proof fn law_option_result_lift(
    t: SUnionType,
    variant: Seq<char>,
    f: Seq<(Seq<char>, SValue)>,
    x: SValue,
)
    ensures
        starts_with(t.name, "core::option::Option"@) && field_get(f, "0"@) == Some(x) ==> (
        lift_union(t, variant, f) == (SValue::Option {
            typename: t.name,
            variant,
            value: Some(Box::new(x)),
        })),
        starts_with(t.name, "core::option::Option"@) && (forall|i: int|
            0 <= i < f.len() ==> f[i].0 != "0"@ && f[i].0 != "<>"@) ==> (lift_union(t, variant, f)
            == (SValue::Option { typename: t.name, variant, value: None })),
        starts_with(t.name, "core::result::Result"@) && field_get(f, "0"@) == Some(x) ==> (
        lift_union(t, variant, f) == (SValue::Result {
            typename: t.name,
            variant,
            value: Box::new(x),
        })),
        forall|i: int|
            0 <= i < f.len() && f[i].0 == "0"@ && (forall|j: int| 0 <= j < i ==> f[j].0 != "0"@)
                ==> #[trigger] field_get(f, "0"@) == Some(f[i].1),
{
    reveal_strlit("core::option::Option");
    reveal_strlit("core::result::Result");
    lemma_name_index(f, "0"@);
    lemma_name_index(f, "<>"@);
    lemma_name_index_first(f, "0"@);
    if starts_with(t.name, "core::result::Result"@) && starts_with(t.name, "core::option::Option"@) {
        assert(t.name.subrange(0, 20)[6] == t.name[6]);
        assert(t.name.subrange(0, 20)[6] == "core::result::Result"@[6]);
        assert(t.name.subrange(0, 20)[6] == "core::option::Option"@[6]);
    }
}

/// Lifting a tuple, whose fields are named by their positions, gives the
/// tuple of the fields' values, in order.
pub proof fn law_tuple_lifts(ty: Seq<char>, f: Seq<(Seq<char>, SValue)>)
    requires
        starts_with(ty, "("@),
        ends_with(ty, ")"@),
        forall|i: int| 0 <= i < f.len() ==> parse_uint(#[trigger] f[i].0, usize::MAX as nat) == Some(
            i as nat,
        ),
    ensures
        lift_struct(ty, f).1,
        (lift_struct(ty, f).0 matches SValue::Tuple { typename, items } && typename == ty
            && items.len() == f.len() && (forall|i: int| 0 <= i < f.len() ==> items[i] == f[i].1)),
{
}

/// Lifting a `Cell` or an atomic, whose one field `value` holds a struct
/// whose field `value` is a primitive, gives the struct of that one
/// primitive.
pub proof fn law_cell_lifts(ty: Seq<char>, k: Seq<char>, inner: Seq<char>, g: Seq<(Seq<char>, SValue)>, p: PValue)
    requires
        starts_with(ty, "core::cell::Cell<"@) || starts_with(ty, "core::sync::atomic::Atomic"@),
        k == "value"@ || k == "v"@,
        field_get(g, "value"@) == Some(SValue::Prim(p)),
    ensures
        lift_struct(ty, seq![(k, (SValue::Struct { typename: inner, fields: g }))]) == ((
            SValue::Struct { typename: ty, fields: seq![("value"@, SValue::Prim(p))] }),
            true,
        ),
{
    reveal_strlit("core::cell::Cell<");
    reveal_strlit("core::sync::atomic::Atomic");
    reveal_strlit("(");
    assert(ty[0] == 'c') by {
        if starts_with(ty, "core::cell::Cell<"@) {
            assert(ty.subrange(0, 17)[0] == ty[0]);
        } else {
            assert(ty.subrange(0, 26)[0] == ty[0]);
        }
    }
    if starts_with(ty, "("@) {
        assert(ty.subrange(0, 1)[0] == ty[0]);
    }
}

/// Lifting an `Rc<dyn ..>` or `Arc<dyn ..>`, whose field `ptr` holds the fat
/// pointer `pointer` (a reference to the shared allocation, and `vtable`),
/// gives a reference counted trait object: the allocation's address, its
/// `strong` and `weak` counts, the address of the vtable, and the value it
/// holds (field `value` of an `Rc`'s allocation, `data` of an `Arc`'s).
pub proof fn law_dyn_counted_lifts(
    ty: Seq<char>,
    f: Seq<(Seq<char>, SValue)>,
    ptr: SValue,
    gt: Seq<char>,
    g: Seq<(Seq<char>, SValue)>,
    pt: RefType,
    pa: RefAddr,
    inner: SValue,
    vt: RefType,
    va: RefAddr,
    y: SValue,
    x: SValue,
)
    requires
        starts_with(ty, "alloc::rc::Rc<dyn "@) || starts_with(ty, "alloc::sync::Arc<dyn "@),
        field_get(f, "ptr"@) == Some(ptr),
        struct_field_of(ptr, "pointer"@) == Some(SValue::Struct { typename: gt, fields: g }),
        distinct_names(g),
        field_get(g, "pointer"@) == Some(SValue::Ref { typename: pt, addr: pa, value: Box::new(inner) }),
        field_get(g, "vtable"@) == Some(SValue::Ref { typename: vt, addr: va, value: Box::new(y) }),
        struct_field_of(
            inner,
            if starts_with(ty, "alloc::sync::Arc<dyn "@) {
                "data"@
            } else {
                "value"@
            },
        ) == Some(x),
    ensures
        lift_struct(ty, f) == ((SValue::DynRefCounted {
            typename: ty,
            addr: pa,
            strong: counter(inner, "strong"@),
            weak: counter(inner, "weak"@),
            vtable: va,
            value: Box::new(x),
        }), true),
{
    reveal_strlit("alloc::rc::Rc<dyn ");
    reveal_strlit("alloc::sync::Arc<dyn ");
    reveal_strlit("alloc::sync::Arc<");
    reveal_strlit("alloc::boxed::Box<dyn ");
    reveal_strlit("&dyn ");
    reveal_strlit("(");
    reveal_strlit("core::sync::atomic::Atomic");
    reveal_strlit("core::cell::Cell<");
    reveal_strlit("data");
    reveal_strlit("value");
    let arc = starts_with(ty, "alloc::sync::Arc<dyn "@);
    assert(ty[0] == 'a' && ty[7] == (if arc { 's' } else { 'r' })) by {
        if arc {
            assert(ty.subrange(0, 21)[0] == ty[0]);
            assert(ty.subrange(0, 21)[7] == ty[7]);
        } else {
            assert(ty.subrange(0, 18)[0] == ty[0]);
            assert(ty.subrange(0, 18)[7] == ty[7]);
        }
    }
    if starts_with(ty, "("@) {
        assert(ty.subrange(0, 1)[0] == ty[0]);
    }
    if starts_with(ty, "core::sync::atomic::Atomic"@) {
        assert(ty.subrange(0, 26)[0] == ty[0]);
    }
    if starts_with(ty, "core::cell::Cell<"@) {
        assert(ty.subrange(0, 17)[0] == ty[0]);
    }
    if starts_with(ty, "&dyn "@) {
        assert(ty.subrange(0, 5)[0] == ty[0]);
    }
    if starts_with(ty, "alloc::boxed::Box<dyn "@) {
        assert(ty.subrange(0, 22)[7] == ty[7]);
    }
    if arc {
        assert(ty.subrange(0, 17) =~= ty.subrange(0, 21).subrange(0, 17));
        assert("alloc::sync::Arc<dyn "@.subrange(0, 17) =~= "alloc::sync::Arc<"@);
        assert(starts_with(ty, "alloc::sync::Arc<"@));
    } else if starts_with(ty, "alloc::sync::Arc<"@) {
        assert(ty.subrange(0, 17)[7] == ty[7]);
    }
    reveal_strlit("pointer");
    reveal_strlit("vtable");
    assert("pointer"@ != "vtable"@) by {
        assert("pointer"@[0] != "vtable"@[0]);
    }
    lemma_swap_remove_keeps(g, "pointer"@, "vtable"@);
}

} // verus!
