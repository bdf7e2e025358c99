//! Writing values as a postfix token stream.
//!
//! Every value is written as its operands followed by an operator token:
//! `" type"# <bytes> prim`, `<items> n arr`, `<fields> n " type"struct`, and
//! so on. Memory that references point to is written once, in the
//! environment that [`ValueWriter::emit_env`] emits.
use vstd::prelude::*;
use vstd::utf8::encode_utf8;
use crate::bytes::{blob_token, int_token, str_token, Bytes};
use crate::native::ne_bytes;
use crate::text::{append_str, replace_all, str_eq, str_replace, to_owned_string};
use crate::value::{strings_view, Addr, UnionType};
use crate::addr_table::{
    addr_table, opt_bytes, table_contains, table_insert, table_len, table_new, table_set,
    table_shift_remove, table_take,
};
use indexmap::IndexMap;

verus! {

/// The bytes of an operator token named by a string literal.
pub open spec fn op(name: &str) -> Seq<u8> {
    encode_utf8(name@)
}

/// The contents of a vector of blobs.
pub open spec fn blobs_view(v: Seq<Bytes>) -> Seq<Seq<u8>> {
    Seq::new(v.len(), |i: int| v[i]@)
}

/// The contents of a vector of named blobs.
pub open spec fn named_view(v: Seq<(String, Bytes)>) -> Seq<(Seq<char>, Seq<u8>)> {
    Seq::new(v.len(), |i: int| (v[i].0@, v[i].1@))
}

/// Each item followed by a space.
pub open spec fn spaced(items: Seq<Seq<u8>>) -> Seq<u8>
    decreases items.len(),
{
    if items.len() == 0 {
        Seq::empty()
    } else {
        spaced(items.drop_last()) + items.last() + seq![32u8]
    }
}

/// Each field as its name, its value and a space.
pub open spec fn named_spaced(fields: Seq<(Seq<char>, Seq<u8>)>) -> Seq<u8>
    decreases fields.len(),
{
    if fields.len() == 0 {
        Seq::empty()
    } else {
        named_spaced(fields.drop_last()) + str_token(fields.last().0) + fields.last().1 + seq![
            32u8,
        ]
    }
}

/// Each string as a string token.
pub open spec fn str_tokens(names: Seq<Seq<char>>) -> Seq<u8>
    decreases names.len(),
{
    if names.len() == 0 {
        Seq::empty()
    } else {
        str_tokens(names.drop_last()) + str_token(names.last())
    }
}

/// No string of the sequence holds a `"`.
pub open spec fn no_quotes(names: Seq<Seq<char>>) -> bool {
    forall|i: int| 0 <= i < names.len() ==> !(#[trigger] names[i]).contains('"')
}

/// No field name holds a `"`.
pub open spec fn no_quoted_names(fields: Seq<(Seq<char>, Seq<u8>)>) -> bool {
    forall|i: int| 0 <= i < fields.len() ==> !(#[trigger] fields[i]).0.contains('"')
}

/// A type name as the writer records it: without the default allocator argument.
pub open spec fn trimmed(ty: Seq<char>) -> Seq<char> {
    replace_all(ty, ", alloc::alloc::Global>"@, ">"@)
}

pub open spec fn prim_enc(ty: Seq<char>, val: Seq<u8>) -> Seq<u8> {
    str_token(ty) + blob_token(val) + seq![32u8] + op("prim")
}

pub open spec fn bytes_enc(ty: Seq<char>, val: Seq<u8>) -> Seq<u8> {
    str_token(ty) + blob_token(val) + op("bytes")
}

pub open spec fn items_enc(items: Seq<Seq<u8>>, name: Seq<u8>) -> Seq<u8> {
    spaced(items) + int_token(items.len()) + name
}

pub open spec fn ref_enc(ty: Seq<char>, addr: u64) -> Seq<u8> {
    str_token(ty) + blob_token(ne_bytes(addr as nat, 8)) + op("ref")
}

pub open spec fn struct_enc(ty: Seq<char>, fields: Seq<(Seq<char>, Seq<u8>)>) -> Seq<u8> {
    named_spaced(fields) + int_token(fields.len()) + str_token(trimmed(ty)) + op("struct")
}

pub open spec fn enum_enc(ty: Seq<char>, variant: Seq<char>) -> Seq<u8> {
    str_token(ty) + str_token(variant) + op("enum")
}

pub open spec fn strlit_enc(val: Seq<u8>) -> Seq<u8> {
    blob_token(val) + op("strlit")
}

pub open spec fn union_enc(
    name: Seq<char>,
    variants: Seq<Seq<char>>,
    index: nat,
    fields: Seq<(Seq<char>, Seq<u8>)>,
) -> Seq<u8> {
    named_spaced(fields) + int_token(fields.len()) + int_token(index) + str_token(name)
        + str_tokens(variants) + int_token(variants.len()) + op("union_decl")
}

/// One entry of the environment: the address, the value and `setenv`.
pub open spec fn env_entry_enc(addr: u64, val: Seq<u8>) -> Seq<u8> {
    blob_token(ne_bytes(addr as nat, 8)) + val + seq![32u8] + op("setenv") + seq![32u8]
}

/// The entries of `env` in `[lo, hi)` that hold a value, last first.
pub open spec fn env_range_enc(env: Seq<(u64, Option<Seq<u8>>)>, lo: int, hi: int) -> Seq<u8>
    decreases hi - lo,
{
    if hi <= lo {
        Seq::empty()
    } else {
        let e = env[hi - 1];
        let head = match e.1 {
            Some(v) => env_entry_enc(e.0, v),
            None => Seq::empty(),
        };
        head + env_range_enc(env, lo, hi - 1)
    }
}

/// The environment as `emit_env` writes it: the latest allocated entry first.
pub open spec fn env_enc(env: Seq<(u64, Option<Seq<u8>>)>) -> Seq<u8> {
    env_range_enc(env, 0, env.len() as int)
}

/// The index of the entry for `key`, if any.
pub open spec fn key_index(env: Seq<(u64, Option<Seq<u8>>)>, key: u64) -> Option<int>
    decreases env.len(),
{
    if env.len() == 0 {
        None
    } else {
        match key_index(env.drop_last(), key) {
            Some(i) => Some(i),
            None => if env.last().0 == key {
                Some((env.len() - 1) as int)
            } else {
                None
            },
        }
    }
}

/// Every address occurs at most once.
pub open spec fn unique_keys(env: Seq<(u64, Option<Seq<u8>>)>) -> bool {
    forall|i: int, j: int|
        0 <= i < env.len() && 0 <= j < env.len() && i != j ==> env[i].0 != env[j].0
}

pub proof fn lemma_key_index(env: Seq<(u64, Option<Seq<u8>>)>, key: u64)
    ensures
        key_index(env, key) matches Some(i) ==> 0 <= i < env.len() && env[i].0 == key && forall|
            j: int,
        |
            0 <= j < i ==> env[j].0 != key,
        key_index(env, key) is None ==> forall|j: int| 0 <= j < env.len() ==> env[j].0 != key,
    decreases env.len(),
{
    if env.len() > 0 {
        lemma_key_index(env.drop_last(), key);
        assert forall|j: int| 0 <= j < env.len() - 1 implies env.drop_last()[j] == env[j] by {}
    }
}

proof fn lemma_spaced_push(items: Seq<Seq<u8>>, x: Seq<u8>)
    ensures
        spaced(items.push(x)) == spaced(items) + x + seq![32u8],
{
    assert(items.push(x).drop_last() =~= items);
}

proof fn lemma_named_spaced_push(fields: Seq<(Seq<char>, Seq<u8>)>, f: (Seq<char>, Seq<u8>))
    ensures
        named_spaced(fields.push(f)) == named_spaced(fields) + str_token(f.0) + f.1 + seq![
            32u8,
        ],
{
    assert(fields.push(f).drop_last() =~= fields);
}

proof fn lemma_str_tokens_push(names: Seq<Seq<char>>, n: Seq<char>)
    ensures
        str_tokens(names.push(n)) == str_tokens(names) + str_token(n),
{
    assert(names.push(n).drop_last() =~= names);
}

proof fn lemma_env_range_low(env: Seq<(u64, Option<Seq<u8>>)>, lo: int, hi: int)
    requires
        0 < lo <= hi,
    ensures
        env_range_enc(env, lo - 1, hi) == env_range_enc(env, lo, hi) + match env[lo - 1].1 {
            Some(v) => env_entry_enc(env[lo - 1].0, v),
            None => Seq::empty(),
        },
    decreases hi - lo,
{
    if hi > lo {
        lemma_env_range_low(env, lo, hi - 1);
        let e = env[hi - 1];
        let head = match e.1 {
            Some(v) => env_entry_enc(e.0, v),
            None => Seq::<u8>::empty(),
        };
        let tail = match env[lo - 1].1 {
            Some(v) => env_entry_enc(env[lo - 1].0, v),
            None => Seq::<u8>::empty(),
        };
        assert(env_range_enc(env, lo - 1, hi) == head + env_range_enc(env, lo - 1, hi - 1));
        assert(head + (env_range_enc(env, lo, hi - 1) + tail) =~= (head + env_range_enc(
            env,
            lo,
            hi - 1,
        )) + tail);
    } else {
        assert(env_range_enc(env, lo - 1, hi - 1) =~= Seq::<u8>::empty());
        let tail = match env[lo - 1].1 {
            Some(v) => env_entry_enc(env[lo - 1].0, v),
            None => Seq::<u8>::empty(),
        };
        assert(tail + Seq::<u8>::empty() =~= Seq::<u8>::empty() + tail);
    }
}

/// `replace_all` adds no character that neither the text nor the replacement holds.
pub proof fn lemma_replace_all_keeps_out(h: Seq<char>, p: Seq<char>, r: Seq<char>, c: char)
    requires
        !h.contains(c),
        !r.contains(c),
    ensures
        !replace_all(h, p, r).contains(c),
    decreases h.len(),
{
    if p.len() > 0 {
        match crate::text::find_from(h, p, 0) {
            Some(i) => {
                if 0 <= i && i + p.len() <= h.len() {
                    let rest = h.subrange(i + p.len(), h.len() as int);
                    let pre = h.subrange(0, i);
                    assert forall|k: int| 0 <= k < rest.len() implies rest[k] != c by {
                        assert(rest[k] == h[i + p.len() + k]);
                    }
                    assert forall|k: int| 0 <= k < pre.len() implies pre[k] != c by {
                        assert(pre[k] == h[k]);
                    }
                    lemma_replace_all_keeps_out(rest, p, r, c);
                    let out = pre + r + replace_all(rest, p, r);
                    assert forall|k: int| 0 <= k < out.len() implies out[k] != c by {
                        if k < pre.len() {
                        } else if k < pre.len() + r.len() {
                            assert(out[k] == r[k - pre.len()]);
                        } else {
                            assert(out[k] == replace_all(rest, p, r)[k - pre.len() - r.len()]);
                        }
                    }
                }
            },
            None => {},
        }
    }
}

/// Writing a value failed.
#[derive(Debug)]
pub struct WriteErr;

/// The writer of a value: it encodes values as token streams and keeps the
/// environment of memory that references point to.
///
/// The environment is ordered: an address that is referenced again moves
/// to the end, so that the deepest reference is emitted first.
#[derive(Debug)]
pub struct ValueWriter {
    env: IndexMap<u64, Option<Bytes>>,
}

/// Values that are written by value-building operations.
///
/// `E` is what a value is written as.
pub trait Val {
    type E;

    /// The state of the environment is well formed.
    spec fn env_inv(&self) -> bool;

    /// An entry for `r` exists in the environment.
    spec fn env_has(&self, r: Addr) -> bool;

    /// Allocates a memory address. Returns true if this is the first time it is allocated.
    fn alloc_env(&mut self, addr: Addr) -> (fresh: bool)
        requires
            old(self).env_inv(),
        ensures
            final(self).env_inv(),
            final(self).env_has(addr),
    ;

    /// Sets the value at this memory address, which must have been allocated.
    fn set_env(&mut self, addr: Addr, v: Self::E)
        requires
            old(self).env_inv(),
            old(self).env_has(addr),
        ensures
            final(self).env_inv(),
    ;

    fn prim_v(&self, ty: &str, val: &[u8]) -> Self::E
        requires
            !ty@.contains('"'),
    ;

    fn bytes_v(&self, ty: &str, val: Bytes) -> Self::E
        requires
            !ty@.contains('"'),
    ;

    fn arr_v(&self, items: Vec<Self::E>) -> Self::E;

    /// The address must have been allocated already.
    fn ref_v(&self, ty: &str, r: Addr) -> Self::E
        requires
            !ty@.contains('"'),
    ;

    fn struct_v(&self, ty: &str, fields: Vec<(String, Self::E)>) -> Self::E
        requires
            !ty@.contains('"'),
            forall|i: int| 0 <= i < fields@.len() ==> !(#[trigger] fields@[i]).0@.contains('"'),
    ;

    /// C style enum, no field.
    fn enumerate_v(&self, ty: &str, variant: &str) -> Self::E
        requires
            !ty@.contains('"'),
            !variant@.contains('"'),
    ;

    fn unit_v(&self) -> Self::E;

    /// What could not be inspected.
    fn opaque_v(&self) -> Self::E;
}

/// Rust extension to [`Val`].
pub trait RVal: Val {
    fn strlit_v(&self, val: &[u8]) -> Self::E;

    /// Rust enum with fields.
    fn union_v(&mut self, t: &UnionType, index: usize, fields: Vec<(String, Self::E)>) -> Self::E
        requires
            !t.name@.contains('"'),
            no_quotes(strings_view(t.variants@)),
            forall|i: int| 0 <= i < fields@.len() ==> !(#[trigger] fields@[i]).0@.contains('"'),
    ;

    fn vector_v(&self, items: Vec<Self::E>) -> Self::E;

    fn slice_v(&self, items: Vec<Self::E>) -> Self::E;
}

/// Writes each blob followed by a space.
fn write_spaced(msg: &mut Bytes, items: &Vec<Bytes>)
    ensures
        final(msg)@ == old(msg)@ + spaced(blobs_view(items@)),
{
    let ghost start = msg@;
    let mut i: usize = 0;
    while i < items.len()
        invariant
            i <= items@.len(),
            msg@ == start + spaced(blobs_view(items@).take(i as int)),
        decreases items@.len() - i,
    {
        proof {
            lemma_spaced_push(blobs_view(items@).take(i as int), items@[i as int]@);
            assert(blobs_view(items@).take(i as int).push(items@[i as int]@) =~= blobs_view(
                items@,
            ).take(i + 1));
        }
        msg.push_slice(items[i].as_bytes());
        msg.space();
        i = i + 1;
    }
    assert(blobs_view(items@).take(i as int) =~= blobs_view(items@));
}

/// Writes each field as its name, its value and a space.
fn write_named(msg: &mut Bytes, fields: &Vec<(String, Bytes)>)
    requires
        forall|i: int| 0 <= i < fields@.len() ==> !(#[trigger] fields@[i]).0@.contains('"'),
    ensures
        final(msg)@ == old(msg)@ + named_spaced(named_view(fields@)),
{
    let ghost start = msg@;
    let mut i: usize = 0;
    while i < fields.len()
        invariant
            i <= fields@.len(),
            forall|i: int| 0 <= i < fields@.len() ==> !(#[trigger] fields@[i]).0@.contains('"'),
            msg@ == start + named_spaced(named_view(fields@).take(i as int)),
        decreases fields@.len() - i,
    {
        proof {
            lemma_named_spaced_push(
                named_view(fields@).take(i as int),
                named_view(fields@)[i as int],
            );
            assert(named_view(fields@).take(i as int).push(named_view(fields@)[i as int])
                =~= named_view(fields@).take(i + 1));
        }
        let f = &fields[i];
        msg.identifier(f.0.as_str());
        msg.push_slice(f.1.as_bytes());
        msg.space();
        i = i + 1;
    }
    assert(named_view(fields@).take(i as int) =~= named_view(fields@));
}

/// `ty` without the default allocator argument.
pub fn trim_type_name(ty: &str) -> (r: String)
    ensures
        r@ == trimmed(ty@),
{
    proof {
        reveal_strlit(", alloc::alloc::Global>");
    }
    str_replace(ty, ", alloc::alloc::Global>", ">")
}

impl ValueWriter {
    /// The environment: addresses in order, each with the value written for it, if any.
    pub closed spec fn env(&self) -> Seq<(u64, Option<Seq<u8>>)> {
        addr_table(self.env)
    }

    /// A writer with an empty environment.
    pub fn new() -> (r: Self)
        ensures
            r.env() == Seq::<(u64, Option<Seq<u8>>)>::empty(),
            r.env_inv(),
    {
        ValueWriter { env: table_new() }
    }

    /// Emits the environment: for each address that has a value, from the
    /// most recently allocated down, the address, the value and `setenv`.
    /// The values are taken out; the addresses stay.
    pub fn emit_env(&mut self) -> (r: Bytes)
        requires
            old(self).env_inv(),
        ensures
            r@ == env_enc(old(self).env()),
            final(self).env_inv(),
            final(self).env().len() == old(self).env().len(),
            forall|i: int|
                0 <= i < old(self).env().len() ==> (#[trigger] final(self).env()[i]).0 == old(
                    self,
                ).env()[i].0 && final(self).env()[i].1 is None,
    {
        let ghost e0 = self.env();
        let n = table_len(&self.env);
        let mut msg = Bytes::new();
        let mut k: usize = n;
        while k > 0
            invariant
                e0.len() == n,
                k <= n,
                self.env().len() == n,
                unique_keys(self.env()) || n == 0,
                forall|j: int| 0 <= j < k ==> #[trigger] self.env()[j] == e0[j],
                forall|j: int|
                    k <= j < n ==> (#[trigger] self.env()[j]).0 == e0[j].0 && self.env()[j].1
                        is None,
                msg@ == env_range_enc(e0, k as int, n as int),
            decreases k,
        {
            proof {
                lemma_env_range_low(e0, k as int, n as int);
            }
            k = k - 1;
            let ghost before = msg@;
            let ghost prev = self.env();
            let (key, value) = table_take(&mut self.env, k);
            assert(prev[k as int] == e0[k as int]);
            assert forall|j: int| 0 <= j < k implies #[trigger] self.env()[j] == e0[j] by {
                assert(self.env()[j] == prev[j]);
            }
            assert forall|j: int| k <= j < n implies (#[trigger] self.env()[j]).0 == e0[j].0
                && self.env()[j].1 is None by {
                if j > k {
                    assert(self.env()[j] == prev[j]);
                }
            }
            match value {
                Some(val) => {
                    let addr = Addr { value: key };
                    msg.blob(Bytes::from_vec(addr.to_bytes()));
                    msg.push_bytes(val);
                    msg.space();
                    msg.push_str("setenv");
                    msg.space();
                    assert(msg@ =~= before + env_entry_enc(key, e0[k as int].1->0));
                },
                None => {},
            }
        }
        proof {
            if n == 0 {
                assert(self.env() =~= Seq::<(u64, Option<Seq<u8>>)>::empty());
            }
        }
        msg
    }
}

impl Val for ValueWriter {
    type E = Bytes;

    open spec fn env_inv(&self) -> bool {
        unique_keys(self.env())
    }

    open spec fn env_has(&self, r: Addr) -> bool {
        key_index(self.env(), r.value) is Some
    }

    fn alloc_env(&mut self, addr: Addr) -> (fresh: bool)
        ensures
            fresh == (key_index(old(self).env(), addr.value) is None),
            fresh ==> final(self).env() == old(self).env().push((addr.value, None)),
            !fresh ==> final(self).env() == old(self).env().remove(
                key_index(old(self).env(), addr.value)->0,
            ).push(old(self).env()[key_index(old(self).env(), addr.value)->0]),
    {
        let ghost e0 = self.env();
        proof {
            lemma_key_index(e0, addr.value);
        }
        if table_contains(&self.env, addr.value) {
            let ghost i = key_index(e0, addr.value)->0;
            let val = table_shift_remove(&mut self.env, addr.value).unwrap();
            proof {
                let e1 = self.env();
                lemma_key_index(e1, addr.value);
                if key_index(e1, addr.value) is Some {
                    let j = key_index(e1, addr.value)->0;
                    let jj = if j < i { j } else { j + 1 };
                    assert(e1[j] == e0[jj]);
                    assert(jj != i);
                }
            }
            table_insert(&mut self.env, addr.value, val);
            assert(self.env() =~= e0.remove(i).push(e0[i]));
            false
        } else {
            table_insert(&mut self.env, addr.value, None);
            true
        }
    }

    fn set_env(&mut self, addr: Addr, v: Bytes)
        ensures
            final(self).env() == old(self).env().update(
                key_index(old(self).env(), addr.value)->0,
                (addr.value, Some(v@)),
            ),
    {
        table_set(&mut self.env, addr.value, Some(v));
    }

    fn prim_v(&self, ty: &str, val: &[u8]) -> (r: Bytes)
        ensures
            r@ == prim_enc(ty@, val@),
    {
        let mut msg = Bytes::new();
        msg.identifier(ty);
        msg.blob_slice(val);
        msg.space();
        msg.push_str("prim");
        assert(msg@ =~= prim_enc(ty@, val@));
        msg
    }

    fn bytes_v(&self, ty: &str, val: Bytes) -> (r: Bytes)
        ensures
            r@ == bytes_enc(ty@, val@),
    {
        let mut msg = Bytes::new();
        msg.identifier(ty);
        msg.blob(val);
        msg.push_str("bytes");
        assert(msg@ =~= bytes_enc(ty@, val@));
        msg
    }

    fn arr_v(&self, items: Vec<Bytes>) -> (r: Bytes)
        ensures
            r@ == items_enc(blobs_view(items@), op("arr")),
    {
        let mut msg = Bytes::new();
        write_spaced(&mut msg, &items);
        msg.integer(items.len());
        msg.push_str("arr");
        assert(msg@ =~= items_enc(blobs_view(items@), op("arr")));
        msg
    }

    fn ref_v(&self, ty: &str, addr: Addr) -> (r: Bytes)
        ensures
            r@ == ref_enc(ty@, addr.value),
    {
        let mut msg = Bytes::new();
        msg.identifier(ty);
        msg.blob(Bytes::from_vec(addr.to_bytes()));
        msg.push_str("ref");
        assert(msg@ =~= ref_enc(ty@, addr.value));
        msg
    }

    fn struct_v(&self, ty: &str, fields: Vec<(String, Bytes)>) -> (r: Bytes)
        ensures
            r@ == struct_enc(ty@, named_view(fields@)),
    {
        let mut msg = Bytes::new();
        write_named(&mut msg, &fields);
        msg.integer(fields.len());
        let trimmed_ty = trim_type_name(ty);
        proof {
            reveal_strlit(">");
            assert(!">"@.contains('"')) by {
                assert(">"@[0] == '>');
            }
            lemma_replace_all_keeps_out(ty@, ", alloc::alloc::Global>"@, ">"@, '"');
        }
        msg.identifier(trimmed_ty.as_str());
        msg.push_str("struct");
        assert(msg@ =~= struct_enc(ty@, named_view(fields@)));
        msg
    }

    fn enumerate_v(&self, ty: &str, variant: &str) -> (r: Bytes)
        ensures
            r@ == enum_enc(ty@, variant@),
    {
        let mut msg = Bytes::new();
        msg.identifier(ty);
        msg.identifier(variant);
        msg.push_str("enum");
        assert(msg@ =~= enum_enc(ty@, variant@));
        msg
    }

    fn unit_v(&self) -> (r: Bytes)
        ensures
            r@ == op("unit"),
    {
        let mut msg = Bytes::new();
        msg.push_str("unit");
        assert(msg@ =~= op("unit"));
        msg
    }

    fn opaque_v(&self) -> (r: Bytes)
        ensures
            r@ == op("opaque"),
    {
        let mut msg = Bytes::new();
        msg.push_str("opaque");
        assert(msg@ =~= op("opaque"));
        msg
    }
}

impl RVal for ValueWriter {
    fn strlit_v(&self, val: &[u8]) -> (r: Bytes)
        ensures
            r@ == strlit_enc(val@),
    {
        let mut msg = Bytes::new();
        msg.blob_slice(val);
        msg.push_str("strlit");
        assert(msg@ =~= strlit_enc(val@));
        msg
    }

    fn union_v(&mut self, t: &UnionType, index: usize, fields: Vec<(String, Bytes)>) -> (r: Bytes)
        ensures
            r@ == union_enc(t.name@, strings_view(t.variants@), index as nat, named_view(fields@)),
            final(self).env() == old(self).env(),
    {
        let mut msg = Bytes::new();
        write_named(&mut msg, &fields);
        msg.integer(fields.len());
        msg.integer(index);
        msg.identifier(t.name.as_str());
        let ghost mid = msg@;
        let mut k: usize = 0;
        while k < t.variants.len()
            invariant
                k <= t.variants@.len(),
                no_quotes(strings_view(t.variants@)),
                msg@ == mid + str_tokens(strings_view(t.variants@).take(k as int)),
            decreases t.variants@.len() - k,
        {
            proof {
                lemma_str_tokens_push(
                    strings_view(t.variants@).take(k as int),
                    strings_view(t.variants@)[k as int],
                );
                assert(strings_view(t.variants@).take(k as int).push(
                    strings_view(t.variants@)[k as int],
                ) =~= strings_view(t.variants@).take(k + 1));
                assert(!strings_view(t.variants@)[k as int].contains('"'));
            }
            msg.identifier(t.variants[k].as_str());
            k = k + 1;
        }
        assert(strings_view(t.variants@).take(k as int) =~= strings_view(t.variants@));
        msg.integer(t.variants.len());
        msg.push_str("union_decl");
        assert(msg@ =~= union_enc(
            t.name@,
            strings_view(t.variants@),
            index as nat,
            named_view(fields@),
        ));
        msg
    }

    fn vector_v(&self, items: Vec<Bytes>) -> (r: Bytes)
        ensures
            r@ == items_enc(blobs_view(items@), op("vec")),
    {
        let mut msg = Bytes::new();
        write_spaced(&mut msg, &items);
        msg.integer(items.len());
        msg.push_str("vec");
        assert(msg@ =~= items_enc(blobs_view(items@), op("vec")));
        msg
    }

    fn slice_v(&self, items: Vec<Bytes>) -> (r: Bytes)
        ensures
            r@ == items_enc(blobs_view(items@), op("slice")),
    {
        let mut msg = Bytes::new();
        write_spaced(&mut msg, &items);
        msg.integer(items.len());
        msg.push_str("slice");
        assert(msg@ =~= items_enc(blobs_view(items@), op("slice")));
        msg
    }
}

/// The names that a reference-counted pointer of kind `ty` (`rc` or `arc`)
/// is written with: the pointer's type, the type of the block that it
/// points to, and the block's field that holds the value.
pub open spec fn counted_names(ty: Seq<char>) -> (Seq<char>, Seq<char>, Seq<char>) {
    if ty == "rc"@ {
        ("alloc::rc::Rc"@, "alloc::rc::RcBox"@, "value"@)
    } else {
        ("alloc::sync::Arc"@, "alloc::sync::ArcInner"@, "data"@)
    }
}

/// `name<arg>`.
pub open spec fn generic_name(name: Seq<char>, arg: Seq<char>) -> Seq<char> {
    name + "<"@ + arg + ">"@
}

/// The block that a reference-counted pointer points to, with its two
/// counts and the value.
pub open spec fn counted_block_enc(
    ty: Seq<char>,
    pointee: Seq<char>,
    strong: Seq<u8>,
    weak: Seq<u8>,
    value: Seq<u8>,
) -> Seq<u8> {
    struct_enc(
        generic_name(counted_names(ty).1, pointee),
        seq![("strong"@, strong), ("weak"@, weak), (counted_names(ty).2, value)],
    )
}

/// A reference-counted pointer to the block at `addr`: the pointer type,
/// whose field `ptr` is a `NonNull` whose field `pointer` references `addr`.
pub open spec fn counted_ptr_enc(ty: Seq<char>, pointee: Seq<char>, addr: u64) -> Seq<u8> {
    struct_enc(
        generic_name(counted_names(ty).0, pointee),
        seq![
            (
                "ptr"@,
                struct_enc(
                    generic_name(
                        "core::ptr::non_null::NonNull"@,
                        generic_name(counted_names(ty).1, pointee),
                    ),
                    seq![("pointer"@, ref_enc("ptr"@, addr))],
                ),
            ),
        ],
    )
}

pub proof fn lemma_no_quote_concat(a: Seq<char>, b: Seq<char>)
    requires
        !a.contains('"'),
        !b.contains('"'),
    ensures
        !(a + b).contains('"'),
{
    assert forall|k: int| 0 <= k < (a + b).len() implies (a + b)[k] != '"' by {
        if k < a.len() {
            assert((a + b)[k] == a[k]);
        } else {
            assert((a + b)[k] == b[k - a.len()]);
        }
    }
}

pub proof fn lemma_generic_no_quote(name: Seq<char>, arg: Seq<char>)
    requires
        !name.contains('"'),
        !arg.contains('"'),
    ensures
        !generic_name(name, arg).contains('"'),
{
    reveal_strlit("<");
    reveal_strlit(">");
    assert(!"<"@.contains('"')) by {
        assert("<"@[0] == '<');
    }
    assert(!">"@.contains('"')) by {
        assert(">"@[0] == '>');
    }
    lemma_no_quote_concat(name, "<"@);
    lemma_no_quote_concat(name + "<"@, arg);
    lemma_no_quote_concat(name + "<"@ + arg, ">"@);
}

/// `name<arg>`.
fn generic_string(name: &str, arg: &str) -> (r: String)
    ensures
        r@ == generic_name(name@, arg@),
{
    let mut s = to_owned_string(name);
    append_str(&mut s, "<");
    append_str(&mut s, arg);
    append_str(&mut s, ">");
    s
}

pub proof fn lemma_counted_names(ty: Seq<char>)
    requires
        ty == "rc"@ || ty == "arc"@,
    ensures
        !counted_names(ty).0.contains('"'),
        !counted_names(ty).1.contains('"'),
        !counted_names(ty).2.contains('"'),
        !"strong"@.contains('"'),
        !"weak"@.contains('"'),
        !"ptr"@.contains('"'),
        !"pointer"@.contains('"'),
        !"core::ptr::non_null::NonNull"@.contains('"'),
{
    reveal_strlit("alloc::rc::Rc");
    reveal_strlit("alloc::rc::RcBox");
    reveal_strlit("value");
    reveal_strlit("alloc::sync::Arc");
    reveal_strlit("alloc::sync::ArcInner");
    reveal_strlit("data");
    reveal_strlit("strong");
    reveal_strlit("weak");
    reveal_strlit("ptr");
    reveal_strlit("pointer");
    reveal_strlit("core::ptr::non_null::NonNull");
}

impl ValueWriter {
    /// The block that a reference-counted pointer of kind `ty` (`rc` or
    /// `arc`) points to: `alloc::rc::RcBox<T> { strong, weak, value }`, or
    /// `alloc::sync::ArcInner<T> { strong, weak, data }`, from the values
    /// written for the two counts and for the pointee.
    pub fn ref_counted_block(
        &self,
        ty: &str,
        pointee_name: &str,
        strong: Bytes,
        weak: Bytes,
        value: Bytes,
    ) -> (r: Bytes)
        requires
            ty@ == "rc"@ || ty@ == "arc"@,
            !pointee_name@.contains('"'),
        ensures
            r@ == counted_block_enc(ty@, pointee_name@, strong@, weak@, value@),
    {
        proof {
            lemma_counted_names(ty@);
        }
        let is_rc = str_eq(ty, "rc");
        let inner_type = if is_rc {
            "alloc::rc::RcBox"
        } else {
            "alloc::sync::ArcInner"
        };
        let data_field = if is_rc {
            "value"
        } else {
            "data"
        };
        let name = generic_string(inner_type, pointee_name);
        proof {
            lemma_generic_no_quote(inner_type@, pointee_name@);
        }
        let ghost sv = strong@;
        let ghost wv = weak@;
        let ghost vv = value@;
        let mut fields: Vec<(String, Bytes)> = Vec::new();
        fields.push((to_owned_string("strong"), strong));
        fields.push((to_owned_string("weak"), weak));
        fields.push((to_owned_string(data_field), value));
        let r = self.struct_v(name.as_str(), fields);
        assert(named_view(fields@) =~= seq![("strong"@, sv), ("weak"@, wv), (data_field@, vv)]);
        r
    }

    /// Puts `block`, the block that a reference-counted pointer of kind `ty`
    /// (`rc` or `arc`) points to, at `addr` in the environment, and writes
    /// the pointer: `alloc::rc::Rc<T>` (`alloc::sync::Arc<T>`) whose field
    /// `ptr` is a `NonNull` to the block whose field `pointer` references
    /// `addr`. The address must have been allocated.
    pub fn ref_counted_to(&mut self, ty: &str, addr: Addr, pointee_name: &str, block: Bytes) -> (r: Bytes)
        requires
            old(self).env_inv(),
            old(self).env_has(addr),
            ty@ == "rc"@ || ty@ == "arc"@,
            !pointee_name@.contains('"'),
        ensures
            final(self).env_inv(),
            final(self).env() == old(self).env().update(
                key_index(old(self).env(), addr.value)->0,
                (addr.value, Some(block@)),
            ),
            r@ == counted_ptr_enc(ty@, pointee_name@, addr.value),
    {
        proof {
            lemma_counted_names(ty@);
        }
        let is_rc = str_eq(ty, "rc");
        let outer_type = if is_rc {
            "alloc::rc::Rc"
        } else {
            "alloc::sync::Arc"
        };
        let inner_type = if is_rc {
            "alloc::rc::RcBox"
        } else {
            "alloc::sync::ArcInner"
        };
        self.set_env(addr, block);
        let value = self.ref_v("ptr", addr);
        let ghost pv = value@;
        let inner_name = generic_string(inner_type, pointee_name);
        let nonnull = generic_string("core::ptr::non_null::NonNull", inner_name.as_str());
        proof {
            lemma_generic_no_quote(inner_type@, pointee_name@);
            lemma_generic_no_quote("core::ptr::non_null::NonNull"@, inner_name@);
            lemma_generic_no_quote(outer_type@, pointee_name@);
        }
        let mut inner_fields: Vec<(String, Bytes)> = Vec::new();
        inner_fields.push((to_owned_string("pointer"), value));
        let value = self.struct_v(nonnull.as_str(), inner_fields);
        assert(named_view(inner_fields@) =~= seq![("pointer"@, pv)]);
        let ghost nv = value@;
        let outer = generic_string(outer_type, pointee_name);
        let mut outer_fields: Vec<(String, Bytes)> = Vec::new();
        outer_fields.push((to_owned_string("ptr"), value));
        let r = self.struct_v(outer.as_str(), outer_fields);
        assert(named_view(outer_fields@) =~= seq![("ptr"@, nv)]);
        r
    }
}

} // verus!
