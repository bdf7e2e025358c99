//! What the reader reads back of what the writer writes: each encoding of
//! the writer, read at any position of any stream, pushes the value that it
//! encodes.
use vstd::prelude::*;
use vstd::utf8::{decode_utf8, encode_utf8, valid_utf8};
use crate::bytes::{blob_token, int_token, str_token, blob_open};
use crate::native::{ne_bytes, ne_value};
use crate::reader::{
    next_token_at, next_char_at, run, step, apply_op, RState, Step, SToken, prim_spec, strlit_spec,
    lemma_next_char_at_exact, lemma_ascii_valid_utf8, lemma_read_int_token, lemma_read_str_token,
};
use crate::value::SValue;
use crate::writer::{op, prim_enc, bytes_enc, enum_enc, strlit_enc, spaced, items_enc, named_spaced, struct_enc, trimmed, no_quoted_names, lemma_replace_all_keeps_out, ref_enc, union_enc, str_tokens, no_quotes, env_entry_enc};
use crate::value::ArrayType;

verus! {

/// An operator name: lower case ASCII letters and `_`.
pub open spec fn plain_op_name(name: Seq<char>) -> bool {
    &&& name.len() >= 1
    &&& forall|i: int| 0 <= i < name.len() ==> ('a' <= #[trigger] name[i] <= 'z' || name[i] == '_')
}

/// The UTF-8 encoding of ASCII characters is their codes.
pub proof fn lemma_encode_ascii(s: Seq<char>)
    requires
        forall|i: int| 0 <= i < s.len() ==> (#[trigger] s[i] as u32) < 0x80,
    ensures
        encode_utf8(s) == Seq::new(s.len(), |i: int| (s[i] as u32) as u8),
    decreases s.len(),
{
    if s.len() > 0 {
        let u = s[0] as u32;
        assert(u < 0x80);
        assert((u & 0x7F) as u8 == u as u8) by (bit_vector)
            requires
                u < 0x80,
        ;
        assert(vstd::utf8::encode_scalar(u) == seq![u as u8]);
        let rest = s.drop_first();
        assert forall|i: int| 0 <= i < rest.len() implies (#[trigger] rest[i] as u32) < 0x80 by {
            assert(rest[i] == s[i + 1]);
        }
        lemma_encode_ascii(rest);
        assert(encode_utf8(s) =~= Seq::new(s.len(), |i: int| (s[i] as u32) as u8));
    }
}

/// An operator token, followed by a space, reads as the operator.
pub proof fn lemma_read_op_token(src: Seq<u8>, pos: int, name: Seq<char>)
    requires
        0 <= pos,
        plain_op_name(name),
        pos + encode_utf8(name).len() + 1 <= src.len(),
        src.subrange(pos, pos + encode_utf8(name).len() + 1) == encode_utf8(name).push(32u8),
    ensures
        next_token_at(src, pos) == Step::Next(SToken::Op(name), pos + encode_utf8(name).len() + 1),
{
    let e = encode_utf8(name);
    let l = e.len() as int;
    lemma_encode_ascii(name);
    assert(l == name.len());
    assert forall|i: int| 0 <= i < l implies 95 <= #[trigger] e[i] <= 122 by {
        assert('a' <= name[i] <= 'z' || name[i] == '_');
    }
    assert forall|j: int| pos <= j < pos + l implies src[j] != 32u8 by {
        assert(src.subrange(pos, pos + l + 1)[j - pos] == e.push(32u8)[j - pos]);
    }
    assert(src.subrange(pos, pos + l + 1)[l] == e.push(32u8)[l]);
    lemma_next_char_at_exact(src, pos, pos + l, 32u8);
    let tok = src.subrange(pos, pos + l);
    assert(tok =~= e) by {
        assert forall|i: int| 0 <= i < l implies tok[i] == e[i] by {
            assert(src.subrange(pos, pos + l + 1)[i] == e.push(32u8)[i]);
        }
    }
    assert(tok != seq![34u8]) by {
        assert(95 <= e[0]);
    }
    assert(tok != seq![35u8]) by {
        assert(95 <= e[0]);
    }
    assert forall|i: int| 0 <= i < tok.len() implies #[trigger] tok[i] < 128 by {
        assert(95 <= e[i] <= 122);
    }
    lemma_ascii_valid_utf8(tok);
    assert(crate::decimal::parse_u64(tok) is None) by {
        assert(tok[0] != 43u8);
        assert(!crate::decimal::is_digit(tok[0]));
    }
    vstd::utf8::encode_utf8_decode_utf8(name);
}

/// A space reads as the empty operator, which does nothing.
pub proof fn lemma_read_space(src: Seq<u8>, pos: int)
    requires
        0 <= pos < src.len(),
        src[pos] == 32u8,
    ensures
        next_token_at(src, pos) == Step::Next(SToken::Op(Seq::empty()), pos + 1),
{
    if pos < src.len() - 1 {
        lemma_next_char_at_exact(src, pos, pos, 32u8);
    }
    assert(src.subrange(pos, pos) =~= Seq::<u8>::empty());
    lemma_ascii_valid_utf8(Seq::<u8>::empty());
    assert(decode_utf8(Seq::<u8>::empty()) =~= Seq::<char>::empty());
}

/// The empty operator leaves the machine as it is.
pub proof fn lemma_empty_op(st: RState)
    ensures
        apply_op(st, Seq::empty()) == Some(st),
{
    reveal_strlit("setenv");
    assert("setenv"@.len() == 6);
    reveal_strlit("prim");
    assert("prim"@.len() == 4);
    reveal_strlit("bytes");
    assert("bytes"@.len() == 5);
    reveal_strlit("arr");
    assert("arr"@.len() == 3);
    reveal_strlit("ref");
    assert("ref"@.len() == 3);
    reveal_strlit("struct");
    assert("struct"@.len() == 6);
    reveal_strlit("enum");
    assert("enum"@.len() == 4);
    reveal_strlit("unit");
    assert("unit"@.len() == 4);
    reveal_strlit("opaque");
    assert("opaque"@.len() == 6);
    reveal_strlit("strlit");
    assert("strlit"@.len() == 6);
    reveal_strlit("union_decl");
    assert("union_decl"@.len() == 10);
    reveal_strlit("vec");
    assert("vec"@.len() == 3);
    reveal_strlit("slice");
    assert("slice"@.len() == 5);
    reveal_strlit("name");
    assert("name"@.len() == 4);
}

/// A bytes token reads as its bytes.
pub proof fn lemma_read_blob_token(src: Seq<u8>, pos: int, b: Seq<u8>)
    requires
        0 <= pos,
        b.len() < 0x1_0000_0000,
        pos + blob_token(b).len() <= src.len(),
        src.subrange(pos, pos + blob_token(b).len()) == blob_token(b),
    ensures
        next_token_at(src, pos) == Step::Next(SToken::Bytes(b), pos + blob_token(b).len()),
{
    let t = blob_token(b);
    let h = ne_bytes(b.len() % 0x1_0000_0000, 4);
    crate::native::lemma_ne_roundtrip(b.len() % 0x1_0000_0000, 4);
    crate::native::lemma_pow256_values();
    assert(t == seq![35u8, 32u8] + h + b);
    assert forall|i: int| 0 <= i < t.len() implies src[pos + i] == t[i] by {
        assert(src.subrange(pos, pos + t.len())[i] == t[i]);
    }
    assert(t[0] == 35u8 && t[1] == 32u8);
    lemma_next_char_at_exact(src, pos, pos + 1, 32u8);
    assert(src.subrange(pos, pos + 1) =~= seq![35u8]);
    assert(src.subrange(pos + 2, pos + 6) =~= h) by {
        assert forall|i: int| 0 <= i < 4 implies src.subrange(pos + 2, pos + 6)[i] == h[i] by {
            assert(t[2 + i] == h[i]);
        }
    }
    assert(ne_value(h) == b.len());
    assert(src.subrange(pos + 6, pos + 6 + b.len()) =~= b) by {
        assert forall|i: int| 0 <= i < b.len() implies src.subrange(pos + 6, pos + 6 + b.len())[i]
            == b[i] by {
            assert(t[6 + i] == b[i]);
        }
    }
}


/// A run of bytes made of two parts holds each part.
pub proof fn lemma_sub(src: Seq<u8>, a: int, x: Seq<u8>, y: Seq<u8>)
    requires
        0 <= a,
        a + x.len() + y.len() <= src.len(),
        src.subrange(a, a + x.len() + y.len()) == x + y,
    ensures
        src.subrange(a, a + x.len()) == x,
        src.subrange(a + x.len(), a + x.len() + y.len()) == y,
{
    let b = a + x.len() + y.len();
    assert forall|i: int| 0 <= i < x.len() implies src.subrange(a, a + x.len())[i] == x[i] by {
        assert(src.subrange(a, b)[i] == (x + y)[i]);
    }
    assert forall|i: int| 0 <= i < y.len() implies src.subrange(a + x.len(), b)[i] == y[i] by {
        assert(src.subrange(a, b)[x.len() + i] == (x + y)[x.len() + i]);
    }
    assert(src.subrange(a, a + x.len()) =~= x);
    assert(src.subrange(a + x.len(), b) =~= y);
}

/// The machine with `v` pushed onto its values.
pub open spec fn push_val(st: RState, v: SValue) -> RState {
    RState { vals: st.vals.push(v), ..st }
}

/// Reading `e`, followed by a space, from any position of any stream and in
/// any state whose environment is `env`: the machine goes on after the space
/// with `v` pushed onto its values.
pub open spec fn reads_as(e: Seq<u8>, v: SValue, env: Map<u64, SValue>) -> bool {
    forall|src: Seq<u8>, p: int, st: RState|
        #![trigger run(src, p, st), src.subrange(p, p + e.len() + 1)]
        0 <= p && p + e.len() + 1 <= src.len() && src.subrange(p, p + e.len() + 1) == e.push(32u8)
            && st.env == env ==> run(src, p, st) == run(src, p + e.len() + 1, push_val(st, v))
}

proof fn lemma_str_then(src: Seq<u8>, p: int, st: RState, s: Seq<char>)
    requires
        0 <= p,
        !s.contains('"'),
        p + str_token(s).len() <= src.len(),
        src.subrange(p, p + str_token(s).len()) == str_token(s),
    ensures
        run(src, p, st) == run(src, p + str_token(s).len(), RState { strs: st.strs.push(s), ..st }),
{
    lemma_read_str_token(src, p, s);
}

proof fn lemma_blob_then(src: Seq<u8>, p: int, st: RState, b: Seq<u8>)
    requires
        0 <= p,
        b.len() < 0x1_0000_0000,
        p + blob_token(b).len() <= src.len(),
        src.subrange(p, p + blob_token(b).len()) == blob_token(b),
    ensures
        run(src, p, st) == run(src, p + blob_token(b).len(), RState { blobs: st.blobs.push(b), ..st }),
{
    lemma_read_blob_token(src, p, b);
}

proof fn lemma_int_then(src: Seq<u8>, p: int, st: RState, n: u64)
    requires
        0 <= p,
        p + int_token(n as nat).len() <= src.len(),
        src.subrange(p, p + int_token(n as nat).len()) == int_token(n as nat),
    ensures
        run(src, p, st) == run(src, p + int_token(n as nat).len(), RState { ints: st.ints.push(n), ..st }),
{
    lemma_read_int_token(src, p, n);
}

proof fn lemma_space_then(src: Seq<u8>, p: int, st: RState)
    requires
        0 <= p < src.len(),
        src[p] == 32u8,
    ensures
        run(src, p, st) == run(src, p + 1, st),
{
    lemma_read_space(src, p);
    lemma_empty_op(st);
}

proof fn lemma_op_then(src: Seq<u8>, p: int, st: RState, name: Seq<char>)
    requires
        0 <= p,
        plain_op_name(name),
        p + encode_utf8(name).len() + 1 <= src.len(),
        src.subrange(p, p + encode_utf8(name).len() + 1) == encode_utf8(name).push(32u8),
    ensures
        run(src, p, st) == match apply_op(st, name) {
            Some(st2) => run(src, p + encode_utf8(name).len() + 1, st2),
            None => None,
        },
{
    lemma_read_op_token(src, p, name);
}

/// The operators' names, and which operator each one selects.
pub proof fn lemma_op_names(st: RState)
    ensures
        plain_op_name("prim"@),
        plain_op_name("bytes"@),
        plain_op_name("arr"@),
        plain_op_name("ref"@),
        plain_op_name("struct"@),
        plain_op_name("enum"@),
        plain_op_name("unit"@),
        plain_op_name("opaque"@),
        plain_op_name("strlit"@),
        plain_op_name("union_decl"@),
        plain_op_name("vec"@),
        plain_op_name("slice"@),
        plain_op_name("name"@),
        apply_op(st, "prim"@) == crate::reader::op_prim(st),
        apply_op(st, "bytes"@) == crate::reader::op_bytes(st),
        apply_op(st, "arr"@) == crate::reader::op_items(st, crate::value::ArrayType::Arr),
        apply_op(st, "ref"@) == crate::reader::op_ref(st),
        apply_op(st, "struct"@) == crate::reader::op_struct(st),
        apply_op(st, "enum"@) == crate::reader::op_enum(st),
        apply_op(st, "unit"@) == crate::reader::op_push(st, SValue::Unit),
        apply_op(st, "opaque"@) == crate::reader::op_push(st, SValue::Opaque),
        apply_op(st, "strlit"@) == crate::reader::op_strlit(st),
        apply_op(st, "union_decl"@) == crate::reader::op_union(st),
        apply_op(st, "vec"@) == crate::reader::op_items(st, crate::value::ArrayType::Vec),
        apply_op(st, "slice"@) == crate::reader::op_items(st, crate::value::ArrayType::Slice),
        apply_op(st, "name"@) == crate::reader::op_name(st),
{
    reveal_strlit("setenv");
    reveal_strlit("prim");
    reveal_strlit("bytes");
    reveal_strlit("arr");
    reveal_strlit("ref");
    reveal_strlit("struct");
    reveal_strlit("enum");
    reveal_strlit("unit");
    reveal_strlit("opaque");
    reveal_strlit("strlit");
    reveal_strlit("union_decl");
    reveal_strlit("vec");
    reveal_strlit("slice");
    reveal_strlit("name");
    assert("prim"@ != "setenv"@) by { assert("prim"@.len() != "setenv"@.len()); }
    assert("bytes"@ != "setenv"@) by { assert("bytes"@.len() != "setenv"@.len()); }
    assert("bytes"@ != "prim"@) by { assert("bytes"@.len() != "prim"@.len()); }
    assert("arr"@ != "setenv"@) by { assert("arr"@.len() != "setenv"@.len()); }
    assert("arr"@ != "prim"@) by { assert("arr"@.len() != "prim"@.len()); }
    assert("arr"@ != "bytes"@) by { assert("arr"@.len() != "bytes"@.len()); }
    assert("ref"@ != "setenv"@) by { assert("ref"@.len() != "setenv"@.len()); }
    assert("ref"@ != "prim"@) by { assert("ref"@.len() != "prim"@.len()); }
    assert("ref"@ != "bytes"@) by { assert("ref"@.len() != "bytes"@.len()); }
    assert("ref"@ != "arr"@) by { assert("ref"@[0] != "arr"@[0]); }
    assert("struct"@ != "setenv"@) by { assert("struct"@[1] != "setenv"@[1]); }
    assert("struct"@ != "prim"@) by { assert("struct"@.len() != "prim"@.len()); }
    assert("struct"@ != "bytes"@) by { assert("struct"@.len() != "bytes"@.len()); }
    assert("struct"@ != "arr"@) by { assert("struct"@.len() != "arr"@.len()); }
    assert("struct"@ != "ref"@) by { assert("struct"@.len() != "ref"@.len()); }
    assert("enum"@ != "setenv"@) by { assert("enum"@.len() != "setenv"@.len()); }
    assert("enum"@ != "prim"@) by { assert("enum"@[0] != "prim"@[0]); }
    assert("enum"@ != "bytes"@) by { assert("enum"@.len() != "bytes"@.len()); }
    assert("enum"@ != "arr"@) by { assert("enum"@.len() != "arr"@.len()); }
    assert("enum"@ != "ref"@) by { assert("enum"@.len() != "ref"@.len()); }
    assert("enum"@ != "struct"@) by { assert("enum"@.len() != "struct"@.len()); }
    assert("unit"@ != "setenv"@) by { assert("unit"@.len() != "setenv"@.len()); }
    assert("unit"@ != "prim"@) by { assert("unit"@[0] != "prim"@[0]); }
    assert("unit"@ != "bytes"@) by { assert("unit"@.len() != "bytes"@.len()); }
    assert("unit"@ != "arr"@) by { assert("unit"@.len() != "arr"@.len()); }
    assert("unit"@ != "ref"@) by { assert("unit"@.len() != "ref"@.len()); }
    assert("unit"@ != "struct"@) by { assert("unit"@.len() != "struct"@.len()); }
    assert("unit"@ != "enum"@) by { assert("unit"@[0] != "enum"@[0]); }
    assert("opaque"@ != "setenv"@) by { assert("opaque"@[0] != "setenv"@[0]); }
    assert("opaque"@ != "prim"@) by { assert("opaque"@.len() != "prim"@.len()); }
    assert("opaque"@ != "bytes"@) by { assert("opaque"@.len() != "bytes"@.len()); }
    assert("opaque"@ != "arr"@) by { assert("opaque"@.len() != "arr"@.len()); }
    assert("opaque"@ != "ref"@) by { assert("opaque"@.len() != "ref"@.len()); }
    assert("opaque"@ != "struct"@) by { assert("opaque"@[0] != "struct"@[0]); }
    assert("opaque"@ != "enum"@) by { assert("opaque"@.len() != "enum"@.len()); }
    assert("opaque"@ != "unit"@) by { assert("opaque"@.len() != "unit"@.len()); }
    assert("strlit"@ != "setenv"@) by { assert("strlit"@[1] != "setenv"@[1]); }
    assert("strlit"@ != "prim"@) by { assert("strlit"@.len() != "prim"@.len()); }
    assert("strlit"@ != "bytes"@) by { assert("strlit"@.len() != "bytes"@.len()); }
    assert("strlit"@ != "arr"@) by { assert("strlit"@.len() != "arr"@.len()); }
    assert("strlit"@ != "ref"@) by { assert("strlit"@.len() != "ref"@.len()); }
    assert("strlit"@ != "struct"@) by { assert("strlit"@[3] != "struct"@[3]); }
    assert("strlit"@ != "enum"@) by { assert("strlit"@.len() != "enum"@.len()); }
    assert("strlit"@ != "unit"@) by { assert("strlit"@.len() != "unit"@.len()); }
    assert("strlit"@ != "opaque"@) by { assert("strlit"@[0] != "opaque"@[0]); }
    assert("union_decl"@ != "setenv"@) by { assert("union_decl"@.len() != "setenv"@.len()); }
    assert("union_decl"@ != "prim"@) by { assert("union_decl"@.len() != "prim"@.len()); }
    assert("union_decl"@ != "bytes"@) by { assert("union_decl"@.len() != "bytes"@.len()); }
    assert("union_decl"@ != "arr"@) by { assert("union_decl"@.len() != "arr"@.len()); }
    assert("union_decl"@ != "ref"@) by { assert("union_decl"@.len() != "ref"@.len()); }
    assert("union_decl"@ != "struct"@) by { assert("union_decl"@.len() != "struct"@.len()); }
    assert("union_decl"@ != "enum"@) by { assert("union_decl"@.len() != "enum"@.len()); }
    assert("union_decl"@ != "unit"@) by { assert("union_decl"@.len() != "unit"@.len()); }
    assert("union_decl"@ != "opaque"@) by { assert("union_decl"@.len() != "opaque"@.len()); }
    assert("union_decl"@ != "strlit"@) by { assert("union_decl"@.len() != "strlit"@.len()); }
    assert("vec"@ != "setenv"@) by { assert("vec"@.len() != "setenv"@.len()); }
    assert("vec"@ != "prim"@) by { assert("vec"@.len() != "prim"@.len()); }
    assert("vec"@ != "bytes"@) by { assert("vec"@.len() != "bytes"@.len()); }
    assert("vec"@ != "arr"@) by { assert("vec"@[0] != "arr"@[0]); }
    assert("vec"@ != "ref"@) by { assert("vec"@[0] != "ref"@[0]); }
    assert("vec"@ != "struct"@) by { assert("vec"@.len() != "struct"@.len()); }
    assert("vec"@ != "enum"@) by { assert("vec"@.len() != "enum"@.len()); }
    assert("vec"@ != "unit"@) by { assert("vec"@.len() != "unit"@.len()); }
    assert("vec"@ != "opaque"@) by { assert("vec"@.len() != "opaque"@.len()); }
    assert("vec"@ != "strlit"@) by { assert("vec"@.len() != "strlit"@.len()); }
    assert("vec"@ != "union_decl"@) by { assert("vec"@.len() != "union_decl"@.len()); }
    assert("slice"@ != "setenv"@) by { assert("slice"@.len() != "setenv"@.len()); }
    assert("slice"@ != "prim"@) by { assert("slice"@.len() != "prim"@.len()); }
    assert("slice"@ != "bytes"@) by { assert("slice"@[0] != "bytes"@[0]); }
    assert("slice"@ != "arr"@) by { assert("slice"@.len() != "arr"@.len()); }
    assert("slice"@ != "ref"@) by { assert("slice"@.len() != "ref"@.len()); }
    assert("slice"@ != "struct"@) by { assert("slice"@.len() != "struct"@.len()); }
    assert("slice"@ != "enum"@) by { assert("slice"@.len() != "enum"@.len()); }
    assert("slice"@ != "unit"@) by { assert("slice"@.len() != "unit"@.len()); }
    assert("slice"@ != "opaque"@) by { assert("slice"@.len() != "opaque"@.len()); }
    assert("slice"@ != "strlit"@) by { assert("slice"@.len() != "strlit"@.len()); }
    assert("slice"@ != "union_decl"@) by { assert("slice"@.len() != "union_decl"@.len()); }
    assert("slice"@ != "vec"@) by { assert("slice"@.len() != "vec"@.len()); }
    assert("name"@ != "setenv"@) by { assert("name"@.len() != "setenv"@.len()); }
    assert("name"@ != "prim"@) by { assert("name"@[0] != "prim"@[0]); }
    assert("name"@ != "bytes"@) by { assert("name"@.len() != "bytes"@.len()); }
    assert("name"@ != "arr"@) by { assert("name"@.len() != "arr"@.len()); }
    assert("name"@ != "ref"@) by { assert("name"@.len() != "ref"@.len()); }
    assert("name"@ != "struct"@) by { assert("name"@.len() != "struct"@.len()); }
    assert("name"@ != "enum"@) by { assert("name"@[0] != "enum"@[0]); }
    assert("name"@ != "unit"@) by { assert("name"@[0] != "unit"@[0]); }
    assert("name"@ != "opaque"@) by { assert("name"@.len() != "opaque"@.len()); }
    assert("name"@ != "strlit"@) by { assert("name"@.len() != "strlit"@.len()); }
    assert("name"@ != "union_decl"@) by { assert("name"@.len() != "union_decl"@.len()); }
    assert("name"@ != "vec"@) by { assert("name"@.len() != "vec"@.len()); }
    assert("name"@ != "slice"@) by { assert("name"@.len() != "slice"@.len()); }
}

proof fn lemma_prim_at(src: Seq<u8>, p: int, st: RState, ty: Seq<char>, b: Seq<u8>)
    requires
        !ty.contains('"'),
        b.len() < 0x1_0000_0000,
        prim_spec(ty, b) is Some,
        0 <= p,
        p + prim_enc(ty, b).len() + 1 <= src.len(),
        src.subrange(p, p + prim_enc(ty, b).len() + 1) == prim_enc(ty, b).push(32u8),
    ensures
        run(src, p, st) == run(src, p + prim_enc(ty, b).len() + 1, push_val(st, prim_spec(ty, b)->0)),
{
    let a = str_token(ty);
    let bt = blob_token(b);
    let o = op("prim");
    let e = prim_enc(ty, b);
    assert(e.push(32u8) =~= a + (bt + (seq![32u8] + o.push(32u8))));
    lemma_sub(src, p, a, bt + (seq![32u8] + o.push(32u8)));
    let p1 = p + a.len();
    lemma_sub(src, p1, bt, seq![32u8] + o.push(32u8));
    let p2 = p1 + bt.len();
    lemma_sub(src, p2, seq![32u8], o.push(32u8));
    let p3 = p2 + 1;
    assert(src.subrange(p2, p2 + 1)[0] == src[p2]);
    lemma_str_then(src, p, st, ty);
    let st1 = RState { strs: st.strs.push(ty), ..st };
    lemma_blob_then(src, p1, st1, b);
    let st2 = RState { blobs: st1.blobs.push(b), ..st1 };
    lemma_space_then(src, p2, st2);
    lemma_op_names(st2);
    lemma_op_then(src, p3, st2, "prim"@);
    assert(st2.blobs.drop_last() =~= st.blobs);
    assert(st2.strs.drop_last() =~= st.strs);
}

/// A primitive that the writer writes reads back as the primitive that its
/// bytes denote.
pub proof fn law_prim_reads(ty: Seq<char>, b: Seq<u8>, env: Map<u64, SValue>)
    requires
        !ty.contains('"'),
        b.len() < 0x1_0000_0000,
        prim_spec(ty, b) is Some,
    ensures
        reads_as(prim_enc(ty, b), prim_spec(ty, b)->0, env),
{
    assert forall|src: Seq<u8>, p: int, st: RState|
        0 <= p && p + prim_enc(ty, b).len() + 1 <= src.len() && src.subrange(
            p,
            p + prim_enc(ty, b).len() + 1,
        ) == prim_enc(ty, b).push(32u8) && st.env == env implies #[trigger] run(src, p, st) == run(
        src,
        p + prim_enc(ty, b).len() + 1,
        push_val(st, prim_spec(ty, b)->0),
    ) by {
        lemma_prim_at(src, p, st, ty, b);
    }
}

proof fn lemma_bytes_at(src: Seq<u8>, p: int, st: RState, ty: Seq<char>, b: Seq<u8>)
    requires
        !ty.contains('"'),
        b.len() < 0x1_0000_0000,
        0 <= p,
        p + bytes_enc(ty, b).len() + 1 <= src.len(),
        src.subrange(p, p + bytes_enc(ty, b).len() + 1) == bytes_enc(ty, b).push(32u8),
    ensures
        run(src, p, st) == run(
            src,
            p + bytes_enc(ty, b).len() + 1,
            push_val(st, SValue::Bytes { typename: ty, value: b }),
        ),
{
    let a = str_token(ty);
    let bt = blob_token(b);
    let o = op("bytes");
    assert(bytes_enc(ty, b).push(32u8) =~= a + (bt + o.push(32u8)));
    lemma_sub(src, p, a, bt + o.push(32u8));
    let p1 = p + a.len();
    lemma_sub(src, p1, bt, o.push(32u8));
    let p2 = p1 + bt.len();
    lemma_str_then(src, p, st, ty);
    let st1 = RState { strs: st.strs.push(ty), ..st };
    lemma_blob_then(src, p1, st1, b);
    let st2 = RState { blobs: st1.blobs.push(b), ..st1 };
    lemma_op_names(st2);
    lemma_op_then(src, p2, st2, "bytes"@);
    assert(st2.blobs.drop_last() =~= st.blobs);
    assert(st2.strs.drop_last() =~= st.strs);
}

/// Bytes that the writer writes read back as themselves, with their type.
pub proof fn law_bytes_reads(ty: Seq<char>, b: Seq<u8>, env: Map<u64, SValue>)
    requires
        !ty.contains('"'),
        b.len() < 0x1_0000_0000,
    ensures
        reads_as(bytes_enc(ty, b), SValue::Bytes { typename: ty, value: b }, env),
{
    assert forall|src: Seq<u8>, p: int, st: RState|
        0 <= p && p + bytes_enc(ty, b).len() + 1 <= src.len() && src.subrange(
            p,
            p + bytes_enc(ty, b).len() + 1,
        ) == bytes_enc(ty, b).push(32u8) && st.env == env implies #[trigger] run(src, p, st) == run(
        src,
        p + bytes_enc(ty, b).len() + 1,
        push_val(st, SValue::Bytes { typename: ty, value: b }),
    ) by {
        lemma_bytes_at(src, p, st, ty, b);
    }
}

proof fn lemma_enum_at(src: Seq<u8>, p: int, st: RState, ty: Seq<char>, variant: Seq<char>)
    requires
        !ty.contains('"'),
        !variant.contains('"'),
        0 <= p,
        p + enum_enc(ty, variant).len() + 1 <= src.len(),
        src.subrange(p, p + enum_enc(ty, variant).len() + 1) == enum_enc(ty, variant).push(32u8),
    ensures
        run(src, p, st) == run(
            src,
            p + enum_enc(ty, variant).len() + 1,
            push_val(st, SValue::Enum { typename: ty, variant }),
        ),
{
    let a = str_token(ty);
    let c = str_token(variant);
    let o = op("enum");
    assert(enum_enc(ty, variant).push(32u8) =~= a + (c + o.push(32u8)));
    lemma_sub(src, p, a, c + o.push(32u8));
    let p1 = p + a.len();
    lemma_sub(src, p1, c, o.push(32u8));
    let p2 = p1 + c.len();
    lemma_str_then(src, p, st, ty);
    let st1 = RState { strs: st.strs.push(ty), ..st };
    lemma_str_then(src, p1, st1, variant);
    let st2 = RState { strs: st1.strs.push(variant), ..st1 };
    lemma_op_names(st2);
    lemma_op_then(src, p2, st2, "enum"@);
    assert(st2.strs.drop_last().drop_last() =~= st.strs);
    assert(st2.strs.drop_last().last() == ty);
}

/// A C-style enum value that the writer writes reads back as its type and variant.
pub proof fn law_enum_reads(ty: Seq<char>, variant: Seq<char>, env: Map<u64, SValue>)
    requires
        !ty.contains('"'),
        !variant.contains('"'),
    ensures
        reads_as(enum_enc(ty, variant), SValue::Enum { typename: ty, variant }, env),
{
    assert forall|src: Seq<u8>, p: int, st: RState|
        0 <= p && p + enum_enc(ty, variant).len() + 1 <= src.len() && src.subrange(
            p,
            p + enum_enc(ty, variant).len() + 1,
        ) == enum_enc(ty, variant).push(32u8) && st.env == env implies #[trigger] run(src, p, st)
        == run(
        src,
        p + enum_enc(ty, variant).len() + 1,
        push_val(st, SValue::Enum { typename: ty, variant }),
    ) by {
        lemma_enum_at(src, p, st, ty, variant);
    }
}

proof fn lemma_strlit_at(src: Seq<u8>, p: int, st: RState, b: Seq<u8>)
    requires
        b.len() < 0x1_0000_0000,
        0 <= p,
        p + strlit_enc(b).len() + 1 <= src.len(),
        src.subrange(p, p + strlit_enc(b).len() + 1) == strlit_enc(b).push(32u8),
    ensures
        run(src, p, st) == run(src, p + strlit_enc(b).len() + 1, push_val(st, strlit_spec(b))),
{
    let bt = blob_token(b);
    let o = op("strlit");
    assert(strlit_enc(b).push(32u8) =~= bt + o.push(32u8));
    lemma_sub(src, p, bt, o.push(32u8));
    let p1 = p + bt.len();
    lemma_blob_then(src, p, st, b);
    let st1 = RState { blobs: st.blobs.push(b), ..st };
    lemma_op_names(st1);
    lemma_op_then(src, p1, st1, "strlit"@);
    assert(st1.blobs.drop_last() =~= st.blobs);
}

/// A string literal that the writer writes reads back as the string its
/// bytes hold (an opaque value where they hold none).
pub proof fn law_strlit_reads(b: Seq<u8>, env: Map<u64, SValue>)
    requires
        b.len() < 0x1_0000_0000,
    ensures
        reads_as(strlit_enc(b), strlit_spec(b), env),
{
    assert forall|src: Seq<u8>, p: int, st: RState|
        0 <= p && p + strlit_enc(b).len() + 1 <= src.len() && src.subrange(
            p,
            p + strlit_enc(b).len() + 1,
        ) == strlit_enc(b).push(32u8) && st.env == env implies #[trigger] run(src, p, st) == run(
        src,
        p + strlit_enc(b).len() + 1,
        push_val(st, strlit_spec(b)),
    ) by {
        lemma_strlit_at(src, p, st, b);
    }
}

/// The unit value and an opaque value that the writer writes read back as
/// themselves.
pub proof fn law_unit_opaque_reads(env: Map<u64, SValue>)
    ensures
        reads_as(op("unit"), SValue::Unit, env),
        reads_as(op("opaque"), SValue::Opaque, env),
{
    assert forall|src: Seq<u8>, p: int, st: RState|
        0 <= p && p + op("unit").len() + 1 <= src.len() && src.subrange(p, p + op("unit").len() + 1)
            == op("unit").push(32u8) && st.env == env implies #[trigger] run(src, p, st) == run(
        src,
        p + op("unit").len() + 1,
        push_val(st, SValue::Unit),
    ) by {
        lemma_op_names(st);
        lemma_op_then(src, p, st, "unit"@);
    }
    assert forall|src: Seq<u8>, p: int, st: RState|
        0 <= p && p + op("opaque").len() + 1 <= src.len() && src.subrange(
            p,
            p + op("opaque").len() + 1,
        ) == op("opaque").push(32u8) && st.env == env implies #[trigger] run(src, p, st) == run(
        src,
        p + op("opaque").len() + 1,
        push_val(st, SValue::Opaque),
    ) by {
        lemma_op_names(st);
        lemma_op_then(src, p, st, "opaque"@);
    }
}


/// Each encoding reads as the value of the same index.
pub open spec fn all_read_as(encs: Seq<Seq<u8>>, vals: Seq<SValue>, env: Map<u64, SValue>) -> bool {
    &&& encs.len() == vals.len()
    &&& forall|i: int| 0 <= i < encs.len() ==> #[trigger] reads_as(encs[i], vals[i], env)
}

#[verifier::spinoff_prover]
proof fn lemma_spaced_at(
    src: Seq<u8>,
    p: int,
    st: RState,
    encs: Seq<Seq<u8>>,
    vals: Seq<SValue>,
    env: Map<u64, SValue>,
)
    requires
        all_read_as(encs, vals, env),
        st.env == env,
        0 <= p,
        p + spaced(encs).len() <= src.len(),
        src.subrange(p, p + spaced(encs).len()) == spaced(encs),
    ensures
        run(src, p, st) == run(src, p + spaced(encs).len(), RState { vals: st.vals + vals, ..st }),
    decreases encs.len(),
{
    if encs.len() == 0 {
        assert(st.vals + vals =~= st.vals);
        assert(RState { vals: st.vals + vals, ..st } == st);
    } else {
        let pre = encs.drop_last();
        let last = encs.last();
        let k = encs.len() - 1;
        assert(spaced(encs) == spaced(pre) + last + seq![32u8]);
        assert(spaced(encs) =~= spaced(pre) + last.push(32u8));
        lemma_sub(src, p, spaced(pre), last.push(32u8));
        assert(all_read_as(pre, vals.drop_last(), env)) by {
            assert forall|i: int| 0 <= i < pre.len() implies #[trigger] reads_as(
                pre[i],
                vals.drop_last()[i],
                env,
            ) by {
                assert(reads_as(encs[i], vals[i], env));
            }
        }
        lemma_spaced_at(src, p, st, pre, vals.drop_last(), env);
        let p1 = p + spaced(pre).len();
        let st1 = RState { vals: st.vals + vals.drop_last(), ..st };
        assert(reads_as(encs[k], vals[k], env));
        assert(src.subrange(p1, p1 + last.len() + 1) == last.push(32u8));
        assert(run(src, p1, st1) == run(src, p1 + last.len() + 1, push_val(st1, vals[k])));
        assert(push_val(st1, vals[k]).vals =~= st.vals + vals);
    }
}

#[verifier::spinoff_prover]
proof fn lemma_items_at(
    src: Seq<u8>,
    p: int,
    st: RState,
    encs: Seq<Seq<u8>>,
    vals: Seq<SValue>,
    env: Map<u64, SValue>,
    name: Seq<char>,
    t: ArrayType,
)
    requires
        all_read_as(encs, vals, env),
        encs.len() <= u64::MAX,
        st.env == env,
        name == (match t {
            ArrayType::Arr => "arr"@,
            ArrayType::Vec => "vec"@,
            ArrayType::Slice => "slice"@,
        }),
        0 <= p,
        p + items_enc(encs, encode_utf8(name)).len() + 1 <= src.len(),
        src.subrange(p, p + items_enc(encs, encode_utf8(name)).len() + 1) == items_enc(
            encs,
            encode_utf8(name),
        ).push(32u8),
    ensures
        run(src, p, st) == run(
            src,
            p + items_enc(encs, encode_utf8(name)).len() + 1,
            push_val(st, SValue::Array { typename: t, data: vals }),
        ),
{
    let sp = spaced(encs);
    let n = encs.len() as u64;
    let it = int_token(n as nat);
    let o = encode_utf8(name);
    assert(items_enc(encs, o).push(32u8) =~= sp + (it + o.push(32u8)));
    lemma_sub(src, p, sp, it + o.push(32u8));
    let p1 = p + sp.len();
    lemma_sub(src, p1, it, o.push(32u8));
    let p2 = p1 + it.len();
    lemma_spaced_at(src, p, st, encs, vals, env);
    let st1 = RState { vals: st.vals + vals, ..st };
    lemma_int_then(src, p1, st1, n);
    let st2 = RState { ints: st1.ints.push(n), ..st1 };
    lemma_op_names(st2);
    lemma_op_then(src, p2, st2, name);
    assert(st2.ints.drop_last() =~= st.ints);
    assert(st2.vals.subrange(0, st2.vals.len() - n) =~= st.vals);
    assert(crate::reader::top(st2.vals, n as int) =~= vals);
}

/// A sequence (an array, a vector or a slice) that the writer writes reads
/// back as the sequence of what its items read as.
pub proof fn law_items_read(
    encs: Seq<Seq<u8>>,
    vals: Seq<SValue>,
    env: Map<u64, SValue>,
    t: ArrayType,
)
    requires
        all_read_as(encs, vals, env),
        encs.len() <= u64::MAX,
    ensures
        reads_as(
            items_enc(
                encs,
                op(
                    match t {
                        ArrayType::Arr => "arr",
                        ArrayType::Vec => "vec",
                        ArrayType::Slice => "slice",
                    },
                ),
            ),
            SValue::Array { typename: t, data: vals },
            env,
        ),
{
    let name = match t {
        ArrayType::Arr => "arr"@,
        ArrayType::Vec => "vec"@,
        ArrayType::Slice => "slice"@,
    };
    let e = items_enc(encs, encode_utf8(name));
    assert(op(
        match t {
            ArrayType::Arr => "arr",
            ArrayType::Vec => "vec",
            ArrayType::Slice => "slice",
        },
    ) == encode_utf8(name));
    assert forall|src: Seq<u8>, p: int, st: RState|
        0 <= p && p + e.len() + 1 <= src.len() && src.subrange(p, p + e.len() + 1) == e.push(32u8)
            && st.env == env implies #[trigger] run(src, p, st) == run(
        src,
        p + e.len() + 1,
        push_val(st, SValue::Array { typename: t, data: vals }),
    ) by {
        lemma_items_at(src, p, st, encs, vals, env, name, t);
    }
}


/// The encodings of named fields.
pub open spec fn field_encs(fields: Seq<(Seq<char>, Seq<u8>)>) -> Seq<Seq<u8>> {
    Seq::new(fields.len(), |i: int| fields[i].1)
}

/// The names of named fields.
pub open spec fn field_names(fields: Seq<(Seq<char>, Seq<u8>)>) -> Seq<Seq<char>> {
    Seq::new(fields.len(), |i: int| fields[i].0)
}

/// Each name with the value of the same index.
pub open spec fn zip_names(fields: Seq<(Seq<char>, Seq<u8>)>, vals: Seq<SValue>) -> Seq<
    (Seq<char>, SValue),
> {
    Seq::new(fields.len(), |i: int| (fields[i].0, vals[i]))
}

#[verifier::spinoff_prover]
proof fn lemma_named_at(
    src: Seq<u8>,
    p: int,
    st: RState,
    fields: Seq<(Seq<char>, Seq<u8>)>,
    vals: Seq<SValue>,
    env: Map<u64, SValue>,
)
    requires
        all_read_as(field_encs(fields), vals, env),
        no_quoted_names(fields),
        st.env == env,
        0 <= p,
        p + named_spaced(fields).len() <= src.len(),
        src.subrange(p, p + named_spaced(fields).len()) == named_spaced(fields),
    ensures
        run(src, p, st) == run(
            src,
            p + named_spaced(fields).len(),
            RState { strs: st.strs + field_names(fields), vals: st.vals + vals, ..st },
        ),
    decreases fields.len(),
{
    if fields.len() == 0 {
        assert(st.vals + vals =~= st.vals);
        assert(st.strs + field_names(fields) =~= st.strs);
        assert(RState { strs: st.strs + field_names(fields), vals: st.vals + vals, ..st } == st);
    } else {
        let pre = fields.drop_last();
        let last = fields.last();
        let k = fields.len() - 1;
        assert(named_spaced(fields) == named_spaced(pre) + str_token(last.0) + last.1 + seq![32u8]);
        assert(named_spaced(fields) =~= named_spaced(pre) + (str_token(last.0) + last.1.push(32u8)));
        lemma_sub(src, p, named_spaced(pre), str_token(last.0) + last.1.push(32u8));
        let p1 = p + named_spaced(pre).len();
        lemma_sub(src, p1, str_token(last.0), last.1.push(32u8));
        let p2 = p1 + str_token(last.0).len();
        assert(all_read_as(field_encs(pre), vals.drop_last(), env)) by {
            assert forall|i: int| 0 <= i < pre.len() implies #[trigger] reads_as(
                field_encs(pre)[i],
                vals.drop_last()[i],
                env,
            ) by {
                assert(reads_as(field_encs(fields)[i], vals[i], env));
            }
        }
        assert(no_quoted_names(pre)) by {
            assert forall|i: int| 0 <= i < pre.len() implies !(#[trigger] pre[i]).0.contains('"') by {
                assert(!fields[i].0.contains('"'));
            }
        }
        lemma_named_at(src, p, st, pre, vals.drop_last(), env);
        let st1 = RState { strs: st.strs + field_names(pre), vals: st.vals + vals.drop_last(), ..st };
        assert(!fields[k].0.contains('"'));
        lemma_str_then(src, p1, st1, last.0);
        let st2 = RState { strs: st1.strs.push(last.0), ..st1 };
        assert(reads_as(field_encs(fields)[k], vals[k], env));
        assert(field_encs(fields)[k] == last.1);
        assert(src.subrange(p2, p2 + last.1.len() + 1) == last.1.push(32u8));
        assert(run(src, p2, st2) == run(src, p2 + last.1.len() + 1, push_val(st2, vals[k])));
        assert(push_val(st2, vals[k]).vals =~= st.vals + vals);
        assert(push_val(st2, vals[k]).strs =~= st.strs + field_names(fields));
    }
}

#[verifier::spinoff_prover]
proof fn lemma_struct_at(
    src: Seq<u8>,
    p: int,
    st: RState,
    ty: Seq<char>,
    fields: Seq<(Seq<char>, Seq<u8>)>,
    vals: Seq<SValue>,
    env: Map<u64, SValue>,
)
    requires
        all_read_as(field_encs(fields), vals, env),
        no_quoted_names(fields),
        !ty.contains('"'),
        fields.len() <= u64::MAX,
        st.env == env,
        0 <= p,
        p + struct_enc(ty, fields).len() + 1 <= src.len(),
        src.subrange(p, p + struct_enc(ty, fields).len() + 1) == struct_enc(ty, fields).push(32u8),
    ensures
        run(src, p, st) == run(
            src,
            p + struct_enc(ty, fields).len() + 1,
            push_val(
                st,
                crate::reader::struct_spec(trimmed(ty), zip_names(fields, vals)),
            ),
        ),
{
    let ns = named_spaced(fields);
    let n = fields.len() as u64;
    let it = int_token(n as nat);
    let tt = str_token(trimmed(ty));
    let o = op("struct");
    assert(struct_enc(ty, fields).push(32u8) =~= ns + (it + (tt + o.push(32u8))));
    lemma_sub(src, p, ns, it + (tt + o.push(32u8)));
    let p1 = p + ns.len();
    lemma_sub(src, p1, it, tt + o.push(32u8));
    let p2 = p1 + it.len();
    lemma_sub(src, p2, tt, o.push(32u8));
    let p3 = p2 + tt.len();
    lemma_named_at(src, p, st, fields, vals, env);
    let st1 = RState { strs: st.strs + field_names(fields), vals: st.vals + vals, ..st };
    lemma_int_then(src, p1, st1, n);
    let st2 = RState { ints: st1.ints.push(n), ..st1 };
    reveal_strlit(">");
    assert(!">"@.contains('"')) by {
        assert(">"@[0] == '>');
    }
    lemma_replace_all_keeps_out(ty, ", alloc::alloc::Global>"@, ">"@, '"');
    lemma_str_then(src, p2, st2, trimmed(ty));
    let st3 = RState { strs: st2.strs.push(trimmed(ty)), ..st2 };
    lemma_op_names(st3);
    lemma_op_then(src, p3, st3, "struct"@);
    let strs = st3.strs.drop_last();
    assert(strs =~= st.strs + field_names(fields));
    assert(strs.subrange(0, strs.len() - n) =~= st.strs);
    assert(st3.ints.drop_last() =~= st.ints);
    assert(st3.vals.subrange(0, st3.vals.len() - n) =~= st.vals);
    assert(crate::reader::top_pairs(strs, st3.vals, n as int) =~= zip_names(fields, vals));
}

/// A struct that the writer writes reads back as the struct of what its
/// fields read as, under its type name without the default allocator.
pub proof fn law_struct_reads(
    ty: Seq<char>,
    fields: Seq<(Seq<char>, Seq<u8>)>,
    vals: Seq<SValue>,
    env: Map<u64, SValue>,
)
    requires
        all_read_as(field_encs(fields), vals, env),
        no_quoted_names(fields),
        !ty.contains('"'),
        fields.len() <= u64::MAX,
    ensures
        reads_as(
            struct_enc(ty, fields),
            crate::reader::struct_spec(trimmed(ty), zip_names(fields, vals)),
            env,
        ),
{
    let e = struct_enc(ty, fields);
    assert forall|src: Seq<u8>, p: int, st: RState|
        0 <= p && p + e.len() + 1 <= src.len() && src.subrange(p, p + e.len() + 1) == e.push(32u8)
            && st.env == env implies #[trigger] run(src, p, st) == run(
        src,
        p + e.len() + 1,
        push_val(st, crate::reader::struct_spec(trimmed(ty), zip_names(fields, vals))),
    ) by {
        lemma_struct_at(src, p, st, ty, fields, vals, env);
    }
}


proof fn lemma_ref_at(src: Seq<u8>, p: int, st: RState, ty: Seq<char>, addr: u64)
    requires
        !ty.contains('"'),
        crate::reader::ref_spec(st.env, ty, addr) is Some,
        0 <= p,
        p + ref_enc(ty, addr).len() + 1 <= src.len(),
        src.subrange(p, p + ref_enc(ty, addr).len() + 1) == ref_enc(ty, addr).push(32u8),
    ensures
        run(src, p, st) == run(
            src,
            p + ref_enc(ty, addr).len() + 1,
            push_val(st, crate::reader::ref_spec(st.env, ty, addr)->0),
        ),
{
    let a = str_token(ty);
    let b = ne_bytes(addr as nat, 8);
    crate::native::lemma_ne_roundtrip(addr as nat, 8);
    crate::native::lemma_pow256_values();
    let bt = blob_token(b);
    let o = op("ref");
    assert(ref_enc(ty, addr).push(32u8) =~= a + (bt + o.push(32u8)));
    lemma_sub(src, p, a, bt + o.push(32u8));
    let p1 = p + a.len();
    lemma_sub(src, p1, bt, o.push(32u8));
    let p2 = p1 + bt.len();
    lemma_str_then(src, p, st, ty);
    let st1 = RState { strs: st.strs.push(ty), ..st };
    lemma_blob_then(src, p1, st1, b);
    let st2 = RState { blobs: st1.blobs.push(b), ..st1 };
    lemma_op_names(st2);
    lemma_op_then(src, p2, st2, "ref"@);
    assert(ne_value(b) as u64 == addr);
    assert(st2.blobs.drop_last() =~= st.blobs);
    assert(st2.strs.drop_last() =~= st.strs);
}

/// A reference that the writer writes reads back as a reference to what the
/// environment holds at its address (unresolved where it holds nothing).
pub proof fn law_ref_reads(ty: Seq<char>, addr: u64, env: Map<u64, SValue>)
    requires
        !ty.contains('"'),
        crate::reader::ref_spec(env, ty, addr) is Some,
    ensures
        reads_as(ref_enc(ty, addr), crate::reader::ref_spec(env, ty, addr)->0, env),
{
    let e = ref_enc(ty, addr);
    assert forall|src: Seq<u8>, p: int, st: RState|
        0 <= p && p + e.len() + 1 <= src.len() && src.subrange(p, p + e.len() + 1) == e.push(32u8)
            && st.env == env implies #[trigger] run(src, p, st) == run(
        src,
        p + e.len() + 1,
        push_val(st, crate::reader::ref_spec(env, ty, addr)->0),
    ) by {
        lemma_ref_at(src, p, st, ty, addr);
    }
}

proof fn lemma_str_tokens_at(src: Seq<u8>, p: int, st: RState, names: Seq<Seq<char>>)
    requires
        no_quotes(names),
        0 <= p,
        p + str_tokens(names).len() <= src.len(),
        src.subrange(p, p + str_tokens(names).len()) == str_tokens(names),
    ensures
        run(src, p, st) == run(src, p + str_tokens(names).len(), RState { strs: st.strs + names, ..st }),
    decreases names.len(),
{
    if names.len() == 0 {
        assert(st.strs + names =~= st.strs);
        assert(RState { strs: st.strs + names, ..st } == st);
    } else {
        let pre = names.drop_last();
        let last = names.last();
        lemma_sub(src, p, str_tokens(pre), str_token(last));
        assert(no_quotes(pre)) by {
            assert forall|i: int| 0 <= i < pre.len() implies !(#[trigger] pre[i]).contains('"') by {
                assert(!names[i].contains('"'));
            }
        }
        lemma_str_tokens_at(src, p, st, pre);
        let p1 = p + str_tokens(pre).len();
        let st1 = RState { strs: st.strs + pre, ..st };
        assert(!names[names.len() - 1].contains('"'));
        lemma_str_then(src, p1, st1, last);
        assert(st1.strs.push(last) =~= st.strs + names);
    }
}

#[verifier::spinoff_prover]
#[verifier::rlimit(60)]
proof fn lemma_union_at(
    src: Seq<u8>,
    p: int,
    st: RState,
    name: Seq<char>,
    variants: Seq<Seq<char>>,
    index: u64,
    fields: Seq<(Seq<char>, Seq<u8>)>,
    vals: Seq<SValue>,
    env: Map<u64, SValue>,
)
    requires
        all_read_as(field_encs(fields), vals, env),
        no_quoted_names(fields),
        no_quotes(variants),
        !name.contains('"'),
        index < variants.len() <= usize::MAX,
        fields.len() <= u64::MAX,
        st.env == env,
        0 <= p,
        p + union_enc(name, variants, index as nat, fields).len() + 1 <= src.len(),
        src.subrange(p, p + union_enc(name, variants, index as nat, fields).len() + 1) == union_enc(
            name,
            variants,
            index as nat,
            fields,
        ).push(32u8),
    ensures
        run(src, p, st) == run(
            src,
            p + union_enc(name, variants, index as nat, fields).len() + 1,
            push_val(
                st,
                SValue::Union {
                    typeinfo: crate::value::SUnionType { name, variants },
                    variant: variants[index as int],
                    fields: crate::value::fields_from(zip_names(fields, vals)),
                },
            ),
        ),
{
    let ns = named_spaced(fields);
    let fc = fields.len() as u64;
    let vc = variants.len() as u64;
    let t1 = int_token(fc as nat);
    let t2 = int_token(index as nat);
    let tn = str_token(name);
    let tv = str_tokens(variants);
    let t3 = int_token(vc as nat);
    let o = op("union_decl");
    assert(union_enc(name, variants, index as nat, fields).push(32u8) =~= ns + (t1 + (t2 + (tn + (tv
        + (t3 + o.push(32u8)))))));
    lemma_sub(src, p, ns, t1 + (t2 + (tn + (tv + (t3 + o.push(32u8))))));
    let p1 = p + ns.len();
    lemma_sub(src, p1, t1, t2 + (tn + (tv + (t3 + o.push(32u8)))));
    let p2 = p1 + t1.len();
    lemma_sub(src, p2, t2, tn + (tv + (t3 + o.push(32u8))));
    let p3 = p2 + t2.len();
    lemma_sub(src, p3, tn, tv + (t3 + o.push(32u8)));
    let p4 = p3 + tn.len();
    lemma_sub(src, p4, tv, t3 + o.push(32u8));
    let p5 = p4 + tv.len();
    lemma_sub(src, p5, t3, o.push(32u8));
    let p6 = p5 + t3.len();
    lemma_named_at(src, p, st, fields, vals, env);
    let st1 = RState { strs: st.strs + field_names(fields), vals: st.vals + vals, ..st };
    lemma_int_then(src, p1, st1, fc);
    let st2 = RState { ints: st1.ints.push(fc), ..st1 };
    lemma_int_then(src, p2, st2, index);
    let st3 = RState { ints: st2.ints.push(index), ..st2 };
    lemma_str_then(src, p3, st3, name);
    let st4 = RState { strs: st3.strs.push(name), ..st3 };
    lemma_str_tokens_at(src, p4, st4, variants);
    let st5 = RState { strs: st4.strs + variants, ..st4 };
    lemma_int_then(src, p5, st5, vc);
    let st6 = RState { ints: st5.ints.push(vc), ..st5 };
    lemma_op_names(st6);
    lemma_op_then(src, p6, st6, "union_decl"@);
    let strs = st6.strs;
    let len = strs.len();
    assert(st6.ints.drop_last().last() == index);
    assert(st6.ints.drop_last().drop_last().last() == fc);
    assert(st6.ints.drop_last().drop_last().drop_last() =~= st.ints);
    assert((index as usize) == index);
    assert(strs.subrange(len - vc, len as int) =~= variants);
    assert(strs[len - vc - 1] == name);
    let strs2 = strs.subrange(0, len - vc - 1);
    assert(strs2 =~= st.strs + field_names(fields));
    assert(strs2.subrange(0, strs2.len() - fc) =~= st.strs);
    assert(st6.vals.subrange(0, st6.vals.len() - fc) =~= st.vals);
    assert(crate::reader::top_pairs(strs2, st6.vals, fc as int) =~= zip_names(fields, vals));
}

/// A Rust enum value with fields that the writer writes reads back as its
/// type, its variant and what its fields read as.
pub proof fn law_union_reads(
    name: Seq<char>,
    variants: Seq<Seq<char>>,
    index: u64,
    fields: Seq<(Seq<char>, Seq<u8>)>,
    vals: Seq<SValue>,
    env: Map<u64, SValue>,
)
    requires
        all_read_as(field_encs(fields), vals, env),
        no_quoted_names(fields),
        no_quotes(variants),
        !name.contains('"'),
        index < variants.len() <= usize::MAX,
        fields.len() <= u64::MAX,
    ensures
        reads_as(
            union_enc(name, variants, index as nat, fields),
            SValue::Union {
                typeinfo: crate::value::SUnionType { name, variants },
                variant: variants[index as int],
                fields: crate::value::fields_from(zip_names(fields, vals)),
            },
            env,
        ),
{
    let e = union_enc(name, variants, index as nat, fields);
    let v = SValue::Union {
        typeinfo: crate::value::SUnionType { name, variants },
        variant: variants[index as int],
        fields: crate::value::fields_from(zip_names(fields, vals)),
    };
    assert forall|src: Seq<u8>, p: int, st: RState|
        0 <= p && p + e.len() + 1 <= src.len() && src.subrange(p, p + e.len() + 1) == e.push(32u8)
            && st.env == env implies #[trigger] run(src, p, st) == run(
        src,
        p + e.len() + 1,
        push_val(st, v),
    ) by {
        lemma_union_at(src, p, st, name, variants, index, fields, vals, env);
    }
}

/// An entry of the environment that the writer writes, read back, sets the
/// address to what the entry's value reads as; nothing else changes.
pub proof fn law_env_entry_reads(
    src: Seq<u8>,
    p: int,
    st: RState,
    addr: u64,
    val: Seq<u8>,
    v: SValue,
)
    requires
        reads_as(val, v, st.env),
        0 <= p,
        p + env_entry_enc(addr, val).len() <= src.len(),
        src.subrange(p, p + env_entry_enc(addr, val).len()) == env_entry_enc(addr, val),
    ensures
        run(src, p, st) == run(
            src,
            p + env_entry_enc(addr, val).len(),
            RState { env: st.env.insert(addr, v), ..st },
        ),
{
    let b = ne_bytes(addr as nat, 8);
    crate::native::lemma_ne_roundtrip(addr as nat, 8);
    crate::native::lemma_pow256_values();
    let bt = blob_token(b);
    let o = op("setenv");
    assert(env_entry_enc(addr, val) =~= bt + (val.push(32u8) + o.push(32u8)));
    lemma_sub(src, p, bt, val.push(32u8) + o.push(32u8));
    let p1 = p + bt.len();
    lemma_sub(src, p1, val.push(32u8), o.push(32u8));
    let p2 = p1 + val.len() + 1;
    lemma_blob_then(src, p, st, b);
    let st1 = RState { blobs: st.blobs.push(b), ..st };
    assert(src.subrange(p1, p1 + val.len() + 1) == val.push(32u8));
    assert(run(src, p1, st1) == run(src, p2, push_val(st1, v)));
    let st2 = push_val(st1, v);
    reveal_strlit("setenv");
    assert(plain_op_name("setenv"@));
    lemma_op_then(src, p2, st2, "setenv"@);
    assert(ne_value(b) as u64 == addr);
    assert(st2.blobs.drop_last() =~= st.blobs);
    assert(st2.vals.drop_last() =~= st.vals);
}


/// A value's encoding followed by its name: what a stream of named values is
/// made of.
pub open spec fn named_entry(name: Seq<char>, e: Seq<u8>) -> Seq<u8> {
    e.push(32u8) + str_token(name) + op("name").push(32u8)
}

/// A stream of named values.
pub open spec fn named_stream(entries: Seq<(Seq<char>, Seq<u8>)>) -> Seq<u8>
    decreases entries.len(),
{
    if entries.len() == 0 {
        Seq::empty()
    } else {
        named_stream(entries.drop_last()) + named_entry(entries.last().0, entries.last().1)
    }
}

#[verifier::spinoff_prover]
proof fn lemma_named_stream_at(
    src: Seq<u8>,
    st: RState,
    entries: Seq<(Seq<char>, Seq<u8>)>,
    vals: Seq<SValue>,
)
    requires
        all_read_as(field_encs(entries), vals, st.env),
        no_quoted_names(entries),
        named_stream(entries).len() <= src.len(),
        src.subrange(0, named_stream(entries).len() as int) == named_stream(entries),
    ensures
        run(src, 0, st) == run(
            src,
            named_stream(entries).len() as int,
            RState { vals: st.vals + vals, names: st.names + field_names(entries), ..st },
        ),
    decreases entries.len(),
{
    if entries.len() == 0 {
        assert(st.vals + vals =~= st.vals);
        assert(st.names + field_names(entries) =~= st.names);
        assert(RState { vals: st.vals + vals, names: st.names + field_names(entries), ..st } == st);
    } else {
        let pre = entries.drop_last();
        let (name, e) = entries.last();
        let k = entries.len() - 1;
        let ne = named_entry(name, e);
        lemma_sub(src, 0, named_stream(pre), ne);
        assert(all_read_as(field_encs(pre), vals.drop_last(), st.env)) by {
            assert forall|i: int| 0 <= i < pre.len() implies #[trigger] reads_as(
                field_encs(pre)[i],
                vals.drop_last()[i],
                st.env,
            ) by {
                assert(reads_as(field_encs(entries)[i], vals[i], st.env));
            }
        }
        assert(no_quoted_names(pre)) by {
            assert forall|i: int| 0 <= i < pre.len() implies !(#[trigger] pre[i]).0.contains('"') by {
                assert(!entries[i].0.contains('"'));
            }
        }
        lemma_named_stream_at(src, st, pre, vals.drop_last());
        let p = named_stream(pre).len() as int;
        let st1 = RState { vals: st.vals + vals.drop_last(), names: st.names + field_names(pre), ..st };
        let o = op("name");
        assert(ne =~= e.push(32u8) + (str_token(name) + o.push(32u8)));
        lemma_sub(src, p, e.push(32u8), str_token(name) + o.push(32u8));
        let p1 = p + e.len() + 1;
        lemma_sub(src, p1, str_token(name), o.push(32u8));
        let p2 = p1 + str_token(name).len();
        assert(reads_as(field_encs(entries)[k], vals[k], st.env));
        assert(field_encs(entries)[k] == e);
        assert(src.subrange(p, p + e.len() + 1) == e.push(32u8));
        assert(run(src, p, st1) == run(src, p1, push_val(st1, vals[k])));
        let st2 = push_val(st1, vals[k]);
        assert(!entries[k].0.contains('"'));
        lemma_str_then(src, p1, st2, name);
        let st3 = RState { strs: st2.strs.push(name), ..st2 };
        lemma_op_names(st3);
        lemma_op_then(src, p2, st3, "name"@);
        assert(st3.strs.drop_last() =~= st.strs);
        assert(st3.names.push(name) =~= st.names + field_names(entries));
        assert(st2.vals =~= st.vals + vals);
    }
}

/// Reading a stream of named values, each written by the writer, gives the
/// names in order with what their values read as: reading succeeds, and
/// `read_values` returns each name with its value, lifted.
pub proof fn law_named_stream_reads(
    entries: Seq<(Seq<char>, Seq<u8>)>,
    vals: Seq<SValue>,
    env: Map<u64, SValue>,
)
    requires
        all_read_as(field_encs(entries), vals, env),
        no_quoted_names(entries),
    ensures
        run(named_stream(entries), 0, crate::reader::start_state(env)) == Some(
            RState { vals, names: field_names(entries), ..crate::reader::start_state(env) },
        ),
        crate::reader::reads_well(named_stream(entries), 0, env),
        crate::reader::named_values(run(named_stream(entries), 0, crate::reader::start_state(env))->0)
            == Seq::new(
            entries.len(),
            |i: int| (entries[i].0, crate::rvalue::lifted(vals[i])),
        ),
{
    let src = named_stream(entries);
    let st = crate::reader::start_state(env);
    assert(src.subrange(0, src.len() as int) =~= src);
    lemma_named_stream_at(src, st, entries, vals);
    assert(st.vals + vals =~= vals);
    assert(st.names + field_names(entries) =~= field_names(entries));
    let fin = RState { vals, names: field_names(entries), ..st };
    assert(next_token_at(src, src.len() as int) == Step::End);
    assert(run(src, src.len() as int, fin) == Some(fin));
    assert(crate::reader::named_values(fin) =~= Seq::new(
        entries.len(),
        |i: int| (entries[i].0, crate::rvalue::lifted(vals[i])),
    ));
}

/// A value's encoding followed by its name, with a space also between the
/// name and the `name` operator.
pub open spec fn spaced_entry(name: Seq<char>, e: Seq<u8>) -> Seq<u8> {
    e.push(32u8) + str_token(name).push(32u8) + op("name").push(32u8)
}

/// A stream of named values laid out with [`spaced_entry`].
pub open spec fn spaced_stream(entries: Seq<(Seq<char>, Seq<u8>)>) -> Seq<u8>
    decreases entries.len(),
{
    if entries.len() == 0 {
        Seq::empty()
    } else {
        spaced_stream(entries.drop_last()) + spaced_entry(entries.last().0, entries.last().1)
    }
}

#[verifier::spinoff_prover]
proof fn lemma_spaced_stream_at(
    src: Seq<u8>,
    st: RState,
    entries: Seq<(Seq<char>, Seq<u8>)>,
    vals: Seq<SValue>,
)
    requires
        all_read_as(field_encs(entries), vals, st.env),
        no_quoted_names(entries),
        spaced_stream(entries).len() <= src.len(),
        src.subrange(0, spaced_stream(entries).len() as int) == spaced_stream(entries),
    ensures
        run(src, 0, st) == run(
            src,
            spaced_stream(entries).len() as int,
            RState { vals: st.vals + vals, names: st.names + field_names(entries), ..st },
        ),
    decreases entries.len(),
{
    if entries.len() == 0 {
        assert(st.vals + vals =~= st.vals);
        assert(st.names + field_names(entries) =~= st.names);
        assert(RState { vals: st.vals + vals, names: st.names + field_names(entries), ..st } == st);
    } else {
        let pre = entries.drop_last();
        let (name, e) = entries.last();
        let k = entries.len() - 1;
        let ne = spaced_entry(name, e);
        lemma_sub(src, 0, spaced_stream(pre), ne);
        assert(all_read_as(field_encs(pre), vals.drop_last(), st.env)) by {
            assert forall|i: int| 0 <= i < pre.len() implies #[trigger] reads_as(
                field_encs(pre)[i],
                vals.drop_last()[i],
                st.env,
            ) by {
                assert(reads_as(field_encs(entries)[i], vals[i], st.env));
            }
        }
        assert(no_quoted_names(pre)) by {
            assert forall|i: int| 0 <= i < pre.len() implies !(#[trigger] pre[i]).0.contains('"') by {
                assert(!entries[i].0.contains('"'));
            }
        }
        lemma_spaced_stream_at(src, st, pre, vals.drop_last());
        let p = spaced_stream(pre).len() as int;
        let st1 = RState { vals: st.vals + vals.drop_last(), names: st.names + field_names(pre), ..st };
        let o = op("name");
        let tok = str_token(name);
        assert(ne =~= e.push(32u8) + (tok + (seq![32u8] + o.push(32u8))));
        lemma_sub(src, p, e.push(32u8), tok + (seq![32u8] + o.push(32u8)));
        let p1 = p + e.len() + 1;
        lemma_sub(src, p1, tok, seq![32u8] + o.push(32u8));
        let p2 = p1 + tok.len();
        lemma_sub(src, p2, seq![32u8], o.push(32u8));
        assert(src[p2] == 32u8) by {
            assert(src.subrange(p2, p2 + 1)[0] == src[p2]);
        }
        assert(reads_as(field_encs(entries)[k], vals[k], st.env));
        assert(field_encs(entries)[k] == e);
        assert(src.subrange(p, p + e.len() + 1) == e.push(32u8));
        assert(run(src, p, st1) == run(src, p1, push_val(st1, vals[k])));
        let st2 = push_val(st1, vals[k]);
        assert(!entries[k].0.contains('"'));
        lemma_str_then(src, p1, st2, name);
        let st3 = RState { strs: st2.strs.push(name), ..st2 };
        lemma_space_then(src, p2, st3);
        lemma_op_names(st3);
        lemma_op_then(src, p2 + 1, st3, "name"@);
        assert(st3.strs.drop_last() =~= st.strs);
        assert(st3.names.push(name) =~= st.names + field_names(entries));
        assert(st2.vals =~= st.vals + vals);
    }
}

/// Reading a stream of named values in which a space also stands before
/// each `name` operator gives the same as without it: the names in order
/// with what their values read as, lifted.
pub proof fn law_spaced_stream_reads(
    entries: Seq<(Seq<char>, Seq<u8>)>,
    vals: Seq<SValue>,
    env: Map<u64, SValue>,
)
    requires
        all_read_as(field_encs(entries), vals, env),
        no_quoted_names(entries),
    ensures
        run(spaced_stream(entries), 0, crate::reader::start_state(env)) == Some(
            RState { vals, names: field_names(entries), ..crate::reader::start_state(env) },
        ),
        crate::reader::reads_well(spaced_stream(entries), 0, env),
        crate::reader::named_values(run(spaced_stream(entries), 0, crate::reader::start_state(env))->0)
            == Seq::new(
            entries.len(),
            |i: int| (entries[i].0, crate::rvalue::lifted(vals[i])),
        ),
{
    let src = spaced_stream(entries);
    let st = crate::reader::start_state(env);
    assert(src.subrange(0, src.len() as int) =~= src);
    lemma_spaced_stream_at(src, st, entries, vals);
    assert(st.vals + vals =~= vals);
    assert(st.names + field_names(entries) =~= field_names(entries));
    let fin = RState { vals, names: field_names(entries), ..st };
    assert(next_token_at(src, src.len() as int) == Step::End);
    assert(run(src, src.len() as int, fin) == Some(fin));
    assert(crate::reader::named_values(fin) =~= Seq::new(
        entries.len(),
        |i: int| (entries[i].0, crate::rvalue::lifted(vals[i])),
    ));
}

} // verus!
