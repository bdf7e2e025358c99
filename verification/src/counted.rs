//! Reference-counted pointers: what the writer writes for an `Rc` or an
//! `Arc`, read back and lifted.
use vstd::prelude::*;
use crate::reader::{ref_spec, ref_type_spec, struct_spec};
use crate::roundtrip::{all_read_as, field_encs, law_ref_reads, law_struct_reads, reads_as, zip_names};
use crate::text::{find_from, lemma_find_from_bounds, replace_all, starts_with};
use crate::rvalue::{
    counted_field, counter, is_cell_name, is_counted_name, is_dyn_box_name, is_dyn_counted_name,
    is_tuple_name, lifted, lifted_fields, struct_field_of, field_get,
};
use crate::value::{fields_from, field_insert, name_index, Addr, PValue, RefAddr, RefCountedType, RefType, SValue};
use crate::writer::{
    counted_block_enc, counted_names, counted_ptr_enc, generic_name, lemma_counted_names, lemma_generic_no_quote,
    no_quoted_names, ref_enc, struct_enc, trimmed,
};

verus! {

/// A prefix in which no comma occurs survives trimming the allocator
/// argument from a type name.
pub proof fn lemma_trimmed_prefix(x: Seq<char>, p: Seq<char>)
    requires
        starts_with(x, p),
        !p.contains(','),
    ensures
        starts_with(trimmed(x), p),
{
    reveal_strlit(", alloc::alloc::Global>");
    reveal_strlit(">");
    let pat = ", alloc::alloc::Global>"@;
    lemma_find_from_bounds(x, pat, 0);
    match find_from(x, pat, 0) {
        Some(i) => {
            assert(x.subrange(i, i + pat.len())[0] == pat[0]);
            if i < p.len() {
                assert(x.subrange(0, p.len() as int)[i] == x[i]);
                assert(p[i] == ',');
            }
            let rest = x.subrange(i + pat.len(), x.len() as int);
            assert(trimmed(x) == x.subrange(0, i) + ">"@ + replace_all(rest, pat, ">"@));
            assert(trimmed(x).subrange(0, p.len() as int) =~= x.subrange(0, p.len() as int));
        },
        None => {},
    }
}

/// The value that a reference-counted pointer of kind `ty` to the block at
/// `addr` reads as, where the environment holds that block: the pointer
/// struct, whose `ptr` is a `NonNull` struct whose `pointer` references the
/// block.
pub open spec fn counted_ptr_value(
    ty: Seq<char>,
    pointee: Seq<char>,
    addr: u64,
    env: Map<u64, SValue>,
) -> SValue {
    let block = generic_name(counted_names(ty).1, pointee);
    let pointer = SValue::Ref {
        typename: RefType::Ptr,
        addr: RefAddr::Addr(Addr { value: addr }),
        value: Box::new(env[addr]),
    };
    let non_null = struct_spec(
        trimmed(generic_name("core::ptr::non_null::NonNull"@, block)),
        seq![("pointer"@, pointer)],
    );
    struct_spec(trimmed(generic_name(counted_names(ty).0, pointee)), seq![("ptr"@, non_null)])
}

/// A reference-counted pointer that `ValueWriter::ref_counted_to` writes
/// reads back as the pointer struct whose `ptr.pointer` references the
/// block that the environment holds at its address.
pub proof fn law_counted_ptr_reads(ty: Seq<char>, pointee: Seq<char>, addr: u64, env: Map<u64, SValue>)
    requires
        ty == "rc"@ || ty == "arc"@,
        !pointee.contains('"'),
        env.contains_key(addr),
    ensures
        reads_as(counted_ptr_enc(ty, pointee, addr), counted_ptr_value(ty, pointee, addr, env), env),
{
    reveal_strlit("ptr");
    reveal_strlit("Box");
    reveal_strlit("Rc");
    reveal_strlit("Arc");
    reveal_strlit("ref");
    lemma_counted_names(ty);
    let names = counted_names(ty);
    let block = generic_name(names.1, pointee);
    let nn_name = generic_name("core::ptr::non_null::NonNull"@, block);
    let outer = generic_name(names.0, pointee);
    lemma_generic_no_quote(names.1, pointee);
    lemma_generic_no_quote("core::ptr::non_null::NonNull"@, block);
    lemma_generic_no_quote(names.0, pointee);
    assert("ptr"@ != "Box"@) by {
        assert("ptr"@[0] != "Box"@[0]);
    }
    assert("ptr"@ != "Rc"@) by {
        assert("ptr"@.len() != "Rc"@.len());
    }
    assert("ptr"@ != "Arc"@) by {
        assert("ptr"@[0] != "Arc"@[0]);
    }
    assert("ptr"@ != "ref"@) by {
        assert("ptr"@[0] != "ref"@[0]);
    }
    assert(ref_type_spec("ptr"@) == Some(RefType::Ptr));
    let pointer = ref_spec(env, "ptr"@, addr)->0;
    law_ref_reads("ptr"@, addr, env);
    let ref_e = ref_enc("ptr"@, addr);
    let f1 = seq![("pointer"@, ref_e)];
    let v1 = seq![pointer];
    assert(field_encs(f1) =~= seq![ref_e]);
    assert(all_read_as(field_encs(f1), v1, env)) by {
        assert(field_encs(f1)[0] == ref_e);
    }
    assert(no_quoted_names(f1)) by {
        assert(f1[0].0 == "pointer"@);
    }
    law_struct_reads(nn_name, f1, v1, env);
    assert(zip_names(f1, v1) =~= seq![("pointer"@, pointer)]);
    let nn_e = struct_enc(nn_name, f1);
    let nn_v = struct_spec(trimmed(nn_name), seq![("pointer"@, pointer)]);
    let f2 = seq![("ptr"@, nn_e)];
    let v2 = seq![nn_v];
    assert(field_encs(f2) =~= seq![nn_e]);
    assert(all_read_as(field_encs(f2), v2, env)) by {
        assert(field_encs(f2)[0] == nn_e);
    }
    assert(no_quoted_names(f2)) by {
        assert(f2[0].0 == "ptr"@);
    }
    law_struct_reads(outer, f2, v2, env);
    assert(zip_names(f2, v2) =~= seq![("ptr"@, nn_v)]);
}

/// A name that starts with `p` does not start with, and is not, any `q`
/// that differs from `p` at a place both have.
proof fn lemma_not_prefix(x: Seq<char>, p: Seq<char>, q: Seq<char>, k: int)
    requires
        starts_with(x, p),
        0 <= k < p.len(),
        k < q.len(),
        p[k] != q[k],
    ensures
        !starts_with(x, q),
        x != q,
{
    assert(x.subrange(0, p.len() as int)[k] == x[k]);
    if starts_with(x, q) {
        assert(x.subrange(0, q.len() as int)[k] == x[k]);
    }
}

/// A struct of one field, of a type that is neither `()` nor `String`.
proof fn lemma_one_field_struct(ty: Seq<char>, k: Seq<char>, v: SValue)
    requires
        ty != "()"@,
        ty != "alloc::string::String"@,
    ensures
        struct_spec(ty, seq![(k, v)]) == (SValue::Struct { typename: ty, fields: seq![(k, v)] }),
{
    let pairs = seq![(k, v)];
    assert(pairs.drop_last() =~= Seq::<(Seq<char>, SValue)>::empty());
    assert(fields_from(pairs.drop_last()) =~= Seq::<(Seq<char>, SValue)>::empty());
    assert(name_index(Seq::<(Seq<char>, SValue)>::empty(), k) is None);
    assert(fields_from(pairs) =~= pairs);
}

/// The kind of a reference-counted pointer of kind `ty` once lifted.
pub open spec fn counted_type(ty: Seq<char>) -> RefCountedType {
    if ty == "rc"@ {
        RefCountedType::Rc
    } else {
        RefCountedType::Arc
    }
}

/// A reference-counted pointer that `ValueWriter::ref_counted_to` writes,
/// once read and lifted, is a reference-counted value of its kind at its
/// address, whose counts are the `strong` and `weak` counts of the block
/// that the environment holds there, and whose value is the block's field
/// `value` (`data` in an `Arc`), all lifted. The pointee must not be a
/// trait object, whose pointers lift otherwise.
pub proof fn law_counted_ptr_lifts(ty: Seq<char>, pointee: Seq<char>, addr: u64, env: Map<u64, SValue>)
    requires
        ty == "rc"@ || ty == "arc"@,
        !is_dyn_counted_name(trimmed(generic_name(counted_names(ty).0, pointee))),
    ensures
        lifted(counted_ptr_value(ty, pointee, addr, env)) == (SValue::RefCounted {
            typename: counted_type(ty),
            addr: RefAddr::Addr(Addr { value: addr }),
            strong: counter(lifted(env[addr]), "strong"@),
            weak: counter(lifted(env[addr]), "weak"@),
            value: Box::new(
                match struct_field_of(lifted(env[addr]), counted_names(ty).2) {
                    Some(x) => x,
                    None => SValue::Opaque,
                },
            ),
        }),
{
    reveal_strlit("rc");
    reveal_strlit("arc");
    reveal_strlit("alloc::rc::Rc");
    reveal_strlit("alloc::rc::RcBox");
    reveal_strlit("alloc::sync::Arc");
    reveal_strlit("alloc::sync::ArcInner");
    reveal_strlit("value");
    reveal_strlit("data");
    reveal_strlit("<");
    reveal_strlit(">");
    reveal_strlit("()");
    reveal_strlit("alloc::string::String");
    reveal_strlit("core::ptr::non_null::NonNull");
    reveal_strlit("alloc::rc::Rc<");
    reveal_strlit("alloc::sync::Arc<");
    reveal_strlit("core::ptr::non_null::NonNull<");
    reveal_strlit("(");
    reveal_strlit("core::sync::atomic::Atomic");
    reveal_strlit("core::cell::Cell<");
    reveal_strlit("&dyn ");
    reveal_strlit("alloc::boxed::Box<dyn ");
    reveal_strlit("alloc::sync::Arc<dyn ");
    reveal_strlit("alloc::rc::Rc<dyn ");
    assert("rc"@ != "arc"@) by {
        assert("rc"@.len() != "arc"@.len());
    }
    let names = counted_names(ty);
    let block = generic_name(names.1, pointee);
    let nn_name = generic_name("core::ptr::non_null::NonNull"@, block);
    let outer = generic_name(names.0, pointee);
    let t_nn = trimmed(nn_name);
    let t_out = trimmed(outer);
    let a = RefAddr::Addr(Addr { value: addr });
    let pointer = SValue::Ref { typename: RefType::Ptr, addr: a, value: Box::new(env[addr]) };
    // the type names keep the prefixes that tell them apart
    let nn_p = "core::ptr::non_null::NonNull<"@;
    assert(starts_with(nn_name, nn_p)) by {
        assert(nn_name.subrange(0, nn_p.len() as int) =~= nn_p);
    }
    assert(!nn_p.contains(','));
    lemma_trimmed_prefix(nn_name, nn_p);
    let out_p = if ty == "rc"@ {
        "alloc::rc::Rc<"@
    } else {
        "alloc::sync::Arc<"@
    };
    assert(starts_with(outer, out_p)) by {
        assert(outer.subrange(0, out_p.len() as int) =~= out_p);
    }
    assert(!out_p.contains(','));
    lemma_trimmed_prefix(outer, out_p);
    // the NonNull struct lifts as it is
    lemma_not_prefix(t_nn, nn_p, "()"@, 0);
    lemma_not_prefix(t_nn, nn_p, "alloc::string::String"@, 0);
    lemma_one_field_struct(t_nn, "pointer"@, pointer);
    lemma_not_prefix(t_nn, nn_p, "("@, 0);
    lemma_not_prefix(t_nn, nn_p, "core::sync::atomic::Atomic"@, 6);
    lemma_not_prefix(t_nn, nn_p, "core::cell::Cell<"@, 6);
    lemma_not_prefix(t_nn, nn_p, "&dyn "@, 0);
    lemma_not_prefix(t_nn, nn_p, "alloc::boxed::Box<dyn "@, 0);
    lemma_not_prefix(t_nn, nn_p, "alloc::sync::Arc<dyn "@, 0);
    lemma_not_prefix(t_nn, nn_p, "alloc::rc::Rc<dyn "@, 0);
    lemma_not_prefix(t_nn, nn_p, "alloc::sync::Arc<"@, 0);
    lemma_not_prefix(t_nn, nn_p, "alloc::rc::Rc<"@, 0);
    assert(!is_tuple_name(t_nn));
    assert(!is_cell_name(t_nn));
    assert(!is_dyn_box_name(t_nn));
    assert(!is_dyn_counted_name(t_nn));
    assert(!is_counted_name(t_nn));
    let nn_fields = seq![("pointer"@, pointer)];
    let nn_value = SValue::Struct { typename: t_nn, fields: nn_fields };
    let lifted_pointer = SValue::Ref { typename: RefType::Ptr, addr: a, value: Box::new(lifted(env[addr])) };
    assert(nn_fields.drop_last() =~= Seq::<(Seq<char>, SValue)>::empty());
    assert(lifted(pointer) == lifted_pointer);
    assert(lifted_fields(nn_fields.drop_last()) =~= Seq::<(Seq<char>, SValue)>::empty());
    assert(lifted_fields(nn_fields) =~= seq![("pointer"@, lifted_pointer)]);
    let lifted_nn = SValue::Struct { typename: t_nn, fields: seq![("pointer"@, lifted_pointer)] };
    assert(lifted(nn_value) == lifted_nn);
    // the pointer struct lifts to a reference-counted value
    lemma_not_prefix(t_out, out_p, "()"@, 0);
    lemma_not_prefix(t_out, out_p, "alloc::string::String"@, if ty == "rc"@ { 7int } else { 8int });
    lemma_one_field_struct(t_out, "ptr"@, nn_value);
    lemma_not_prefix(t_out, out_p, "("@, 0);
    lemma_not_prefix(t_out, out_p, "core::sync::atomic::Atomic"@, 0);
    lemma_not_prefix(t_out, out_p, "core::cell::Cell<"@, 0);
    lemma_not_prefix(t_out, out_p, "&dyn "@, 0);
    lemma_not_prefix(t_out, out_p, "alloc::boxed::Box<dyn "@, 7);
    if ty == "rc"@ {
        lemma_not_prefix(t_out, out_p, "alloc::sync::Arc<"@, 7);
    }
    assert(!is_tuple_name(t_out));
    assert(!is_cell_name(t_out));
    assert(!is_dyn_box_name(t_out));
    assert(is_counted_name(t_out));
    let out_fields = seq![("ptr"@, nn_value)];
    assert(out_fields.drop_last() =~= Seq::<(Seq<char>, SValue)>::empty());
    assert(lifted_fields(out_fields.drop_last()) =~= Seq::<(Seq<char>, SValue)>::empty());
    assert(lifted_fields(out_fields) =~= seq![("ptr"@, lifted_nn)]);
    assert(field_get(seq![("ptr"@, lifted_nn)], "ptr"@) == Some(lifted_nn)) by {
        let f = seq![("ptr"@, lifted_nn)];
        assert(f.drop_last() =~= Seq::<(Seq<char>, SValue)>::empty());
        assert(name_index(f.drop_last(), "ptr"@) is None);
        assert(name_index(f, "ptr"@) == Some(0int));
    }
    assert(struct_field_of(lifted_nn, "pointer"@) == Some(lifted_pointer)) by {
        let f = seq![("pointer"@, lifted_pointer)];
        assert(f.drop_last() =~= Seq::<(Seq<char>, SValue)>::empty());
        assert(name_index(f.drop_last(), "pointer"@) is None);
        assert(name_index(f, "pointer"@) == Some(0int));
    }
    assert(counted_field(t_out) == names.2);
}

/// The value that the block of a reference-counted pointer of kind `ty`
/// reads as, where its counts and its value read as `strong`, `weak` and
/// `value`.
pub open spec fn counted_block_value(
    ty: Seq<char>,
    pointee: Seq<char>,
    strong: SValue,
    weak: SValue,
    value: SValue,
) -> SValue {
    SValue::Struct {
        typename: trimmed(generic_name(counted_names(ty).1, pointee)),
        fields: seq![("strong"@, strong), ("weak"@, weak), (counted_names(ty).2, value)],
    }
}

proof fn lemma_block_names(ty: Seq<char>)
    requires
        ty == "rc"@ || ty == "arc"@,
    ensures
        "strong"@ != "weak"@,
        "strong"@ != counted_names(ty).2,
        "weak"@ != counted_names(ty).2,
{
    reveal_strlit("strong");
    reveal_strlit("weak");
    reveal_strlit("value");
    reveal_strlit("data");
    reveal_strlit("rc");
    reveal_strlit("arc");
    assert("strong"@[0] != "weak"@[0]);
    assert("strong"@[0] != "value"@[0]);
    assert("strong"@[0] != "data"@[0]);
    assert("weak"@[0] != "value"@[0]);
    assert("weak"@[0] != "data"@[0]);
}

/// Three fields of distinct names stay as they are.
proof fn lemma_three_fields(f: Seq<(Seq<char>, SValue)>)
    requires
        f.len() == 3,
        f[0].0 != f[1].0,
        f[0].0 != f[2].0,
        f[1].0 != f[2].0,
    ensures
        fields_from(f) == f,
        name_index(f, f[0].0) == Some(0int),
        name_index(f, f[1].0) == Some(1int),
        name_index(f, f[2].0) == Some(2int),
{
    let e = Seq::<(Seq<char>, SValue)>::empty();
    let f1 = seq![f[0]];
    let f2 = seq![f[0], f[1]];
    assert(f.drop_last() =~= f2);
    assert(f2.drop_last() =~= f1);
    assert(f1.drop_last() =~= e);
    assert(f1.last() == f[0]);
    assert(f2.last() == f[1]);
    assert(f.last() == f[2]);
    assert(fields_from(e) =~= e);
    assert(name_index(e, f[0].0) is None);
    assert(name_index(e, f[1].0) is None);
    assert(name_index(e, f[2].0) is None);
    assert(field_insert(e, f[0].0, f[0].1) =~= f1);
    assert(fields_from(f1) =~= f1);
    assert(name_index(f1, f[1].0) is None);
    assert(field_insert(f1, f[1].0, f[1].1) =~= f2);
    assert(fields_from(f2) =~= f2);
    assert(name_index(f1, f[2].0) is None);
    assert(name_index(f2, f[2].0) is None);
    assert(field_insert(f2, f[2].0, f[2].1) =~= f);
    assert(name_index(f1, f[0].0) == Some(0int));
    assert(name_index(f2, f[0].0) == Some(0int));
    assert(name_index(f2, f[1].0) == Some(1int));
}

/// The block that `ValueWriter::ref_counted_block` writes reads back as a
/// struct of the two counts and the value, each as it reads alone.
pub proof fn law_counted_block_reads(
    ty: Seq<char>,
    pointee: Seq<char>,
    s: Seq<u8>,
    w: Seq<u8>,
    v: Seq<u8>,
    vs: SValue,
    vw: SValue,
    vv: SValue,
    env: Map<u64, SValue>,
)
    requires
        ty == "rc"@ || ty == "arc"@,
        !pointee.contains('"'),
        reads_as(s, vs, env),
        reads_as(w, vw, env),
        reads_as(v, vv, env),
    ensures
        reads_as(counted_block_enc(ty, pointee, s, w, v), counted_block_value(ty, pointee, vs, vw, vv), env),
{
    reveal_strlit("alloc::rc::RcBox");
    reveal_strlit("alloc::sync::ArcInner");
    reveal_strlit("<");
    reveal_strlit("()");
    reveal_strlit("alloc::string::String");
    reveal_strlit("rc");
    reveal_strlit("arc");
    lemma_counted_names(ty);
    lemma_block_names(ty);
    let names = counted_names(ty);
    let block = generic_name(names.1, pointee);
    lemma_generic_no_quote(names.1, pointee);
    let fields = seq![("strong"@, s), ("weak"@, w), (names.2, v)];
    let vals = seq![vs, vw, vv];
    assert(field_encs(fields) =~= seq![s, w, v]);
    assert(all_read_as(field_encs(fields), vals, env)) by {
        assert forall|i: int| 0 <= i < 3 implies #[trigger] reads_as(field_encs(fields)[i], vals[i], env) by {
            if i == 0 {
                assert(field_encs(fields)[0] == s);
            } else if i == 1 {
                assert(field_encs(fields)[1] == w);
            } else {
                assert(field_encs(fields)[2] == v);
            }
        }
    }
    assert(no_quoted_names(fields)) by {
        assert forall|i: int| 0 <= i < fields.len() implies !(#[trigger] fields[i]).0.contains('"') by {
            if i == 0 {
                assert(fields[0].0 == "strong"@);
            } else if i == 1 {
                assert(fields[1].0 == "weak"@);
            } else {
                assert(fields[2].0 == names.2);
            }
        }
    }
    law_struct_reads(block, fields, vals, env);
    let zipped = zip_names(fields, vals);
    assert(zipped =~= seq![("strong"@, vs), ("weak"@, vw), (names.2, vv)]);
    lemma_three_fields(zipped);
    let p = names.1 + "<"@;
    assert(starts_with(block, p)) by {
        assert(block.subrange(0, p.len() as int) =~= p);
    }
    assert(!p.contains(','));
    lemma_trimmed_prefix(block, p);
    lemma_not_prefix(trimmed(block), p, "()"@, 0);
    lemma_not_prefix(trimmed(block), p, "alloc::string::String"@, if ty == "rc"@ { 7int } else { 8int });
}

/// The count in a lifted `Cell<usize>` or `AtomicUsize`: its field `value`
/// as a `usize`, zero where there is none.
pub open spec fn cell_count(c: SValue) -> u64 {
    match struct_field_of(c, "value"@) {
        Some(SValue::Prim(PValue::usize(n))) => n,
        _ => 0,
    }
}

/// A reference-counted pointer that `ValueWriter::ref_counted_to` writes to
/// the block that `ValueWriter::ref_counted_block` writes, once read with
/// that block in the environment and lifted, is a reference-counted value
/// of its kind at its address, whose counts are those in the lifted counts
/// and whose value is the lifted value. The pointee must not be a trait
/// object, whose pointers lift otherwise.
pub proof fn law_counted_roundtrip(
    ty: Seq<char>,
    pointee: Seq<char>,
    addr: u64,
    vs: SValue,
    vw: SValue,
    vv: SValue,
    env: Map<u64, SValue>,
)
    requires
        ty == "rc"@ || ty == "arc"@,
        !is_dyn_counted_name(trimmed(generic_name(counted_names(ty).0, pointee))),
        env.contains_key(addr),
        env[addr] == counted_block_value(ty, pointee, vs, vw, vv),
    ensures
        lifted(counted_ptr_value(ty, pointee, addr, env)) == (SValue::RefCounted {
            typename: counted_type(ty),
            addr: RefAddr::Addr(Addr { value: addr }),
            strong: cell_count(lifted(vs)),
            weak: cell_count(lifted(vw)),
            value: Box::new(lifted(vv)),
        }),
{
    law_counted_ptr_lifts(ty, pointee, addr, env);
    reveal_strlit("alloc::rc::RcBox");
    reveal_strlit("alloc::sync::ArcInner");
    reveal_strlit("<");
    reveal_strlit("rc");
    reveal_strlit("arc");
    reveal_strlit("(");
    reveal_strlit("core::sync::atomic::Atomic");
    reveal_strlit("core::cell::Cell<");
    reveal_strlit("&dyn ");
    reveal_strlit("alloc::boxed::Box<dyn ");
    reveal_strlit("alloc::sync::Arc<dyn ");
    reveal_strlit("alloc::rc::Rc<dyn ");
    reveal_strlit("alloc::sync::Arc<");
    reveal_strlit("alloc::rc::Rc<");
    lemma_counted_names(ty);
    lemma_block_names(ty);
    let names = counted_names(ty);
    let block = generic_name(names.1, pointee);
    let p = names.1 + "<"@;
    assert(starts_with(block, p)) by {
        assert(block.subrange(0, p.len() as int) =~= p);
    }
    assert(!p.contains(','));
    lemma_trimmed_prefix(block, p);
    let t = trimmed(block);
    let k: int = if ty == "rc"@ { 13 } else { 16 };
    lemma_not_prefix(t, p, "("@, 0);
    lemma_not_prefix(t, p, "core::sync::atomic::Atomic"@, 0);
    lemma_not_prefix(t, p, "core::cell::Cell<"@, 0);
    lemma_not_prefix(t, p, "&dyn "@, 0);
    lemma_not_prefix(t, p, "alloc::boxed::Box<dyn "@, 7);
    if ty == "rc"@ {
        lemma_not_prefix(t, p, "alloc::sync::Arc<dyn "@, 7);
        lemma_not_prefix(t, p, "alloc::rc::Rc<dyn "@, 13);
        lemma_not_prefix(t, p, "alloc::sync::Arc<"@, 7);
        lemma_not_prefix(t, p, "alloc::rc::Rc<"@, 13);
    } else {
        lemma_not_prefix(t, p, "alloc::sync::Arc<dyn "@, 16);
        lemma_not_prefix(t, p, "alloc::rc::Rc<dyn "@, 7);
        lemma_not_prefix(t, p, "alloc::sync::Arc<"@, 16);
        lemma_not_prefix(t, p, "alloc::rc::Rc<"@, 7);
    }
    assert(!is_tuple_name(t));
    assert(!is_cell_name(t));
    assert(!is_dyn_box_name(t));
    assert(!is_dyn_counted_name(t));
    assert(!is_counted_name(t));
    let f = seq![("strong"@, vs), ("weak"@, vw), (names.2, vv)];
    let lf = seq![("strong"@, lifted(vs)), ("weak"@, lifted(vw)), (names.2, lifted(vv))];
    assert(f.drop_last().drop_last().drop_last() =~= Seq::<(Seq<char>, SValue)>::empty());
    assert(lifted_fields(f.drop_last().drop_last().drop_last()) =~= Seq::<(Seq<char>, SValue)>::empty());
    assert(lifted_fields(f.drop_last().drop_last()) =~= seq![("strong"@, lifted(vs))]);
    assert(lifted_fields(f.drop_last()) =~= seq![("strong"@, lifted(vs)), ("weak"@, lifted(vw))]);
    assert(lifted_fields(f) =~= lf);
    assert(lifted(env[addr]) == (SValue::Struct { typename: t, fields: lf }));
    lemma_three_fields(lf);
}

} // verus!
