//! Reading values back from the postfix token stream.
//!
//! The stream is first cut into tokens. Strings, blobs and integers are
//! pushed onto stacks of their own; an operator token pops its operands off
//! the stacks and pushes the value it builds.
use vstd::prelude::*;
use vstd::utf8::{decode_utf8, encode_utf8, valid_utf8};
use std::collections::HashMap;
use crate::bytes::Bytes;
use crate::decimal::{parse_u64, parse_u64_bytes};
use crate::native::{decode_uint, ne_value};
use crate::text::str_eq;
use crate::rvalue::lifted;
use crate::value::{RValue, SValue, PValue, Addr, RefAddr, RefType, StringType, ArrayType, UnionType, SUnionType, rv, rv_fields, rv_items, fields_from, field_insert, strings_view};

verus! {

broadcast use vstd::std_specs::hash::group_hash_axioms;

/// A token of the stream.
#[derive(Debug)]
pub enum Token {
    Str(String),
    Bytes(Bytes),
    Int(u64),
    Op(String),
}

/// The content of a [`Token`].
pub enum SToken {
    Str(Seq<char>),
    Bytes(Seq<u8>),
    Int(u64),
    Op(Seq<char>),
}

impl View for Token {
    type V = SToken;

    open spec fn view(&self) -> SToken {
        match self {
            Token::Str(s) => SToken::Str(s@),
            Token::Bytes(b) => SToken::Bytes(b@),
            Token::Int(i) => SToken::Int(*i),
            Token::Op(s) => SToken::Op(s@),
        }
    }
}

/// The outcome of cutting one token at a position of the stream.
pub enum Step {
    /// The position is at or past the end.
    End,
    /// A token, and the position after it.
    Next(SToken, int),
    /// The bytes at the position cannot be read as a token.
    Fail,
}

/// The first position `>= q` that holds `c`, stopping at the last byte.
pub open spec fn next_char_at(src: Seq<u8>, q: int, c: u8) -> int
    decreases src.len() - q,
{
    if q >= src.len() - 1 {
        q
    } else if src[q] == c {
        q
    } else {
        next_char_at(src, q + 1, c)
    }
}

/// Cuts the token that starts at `cur`.
///
/// A token runs up to the next space (or up to the last byte of the stream,
/// which it then leaves out). A lone `"` opens a string that runs from two
/// bytes on up to the next `"`; a lone `#` opens a blob whose length is the
/// four bytes from two bytes on, in the machine's byte order. Any other token
/// is an integer when `str::parse::<u64>` accepts it, and an operator else.
pub open spec fn next_token_at(src: Seq<u8>, cur: int) -> Step {
    if cur < 0 {
        Step::Fail
    } else if cur >= src.len() {
        Step::End
    } else {
        let q = next_char_at(src, cur, 32u8);
        let tok = src.subrange(cur, q);
        if tok == seq![34u8] {
            let c2 = cur + 2;
            if c2 > src.len() {
                Step::Fail
            } else {
                let r = next_char_at(src, c2, 34u8);
                let b = src.subrange(c2, r);
                if valid_utf8(b) {
                    Step::Next(SToken::Str(decode_utf8(b)), r + 1)
                } else {
                    Step::Fail
                }
            }
        } else if tok == seq![35u8] {
            let c2 = cur + 2;
            if c2 + 4 > src.len() {
                Step::Fail
            } else {
                let l = ne_value(src.subrange(c2, c2 + 4));
                let c6 = c2 + 4;
                if c6 + l > src.len() {
                    Step::Fail
                } else {
                    Step::Next(SToken::Bytes(src.subrange(c6, c6 + l)), c6 + l)
                }
            }
        } else if !valid_utf8(tok) {
            Step::Fail
        } else {
            match parse_u64(tok) {
                Some(n) => Step::Next(SToken::Int(n), q + 1),
                None => Step::Next(SToken::Op(decode_utf8(tok)), q + 1),
            }
        }
    }
}

pub proof fn lemma_next_char_at(src: Seq<u8>, q: int, c: u8)
    requires
        0 <= q,
        src.len() >= 1,
    ensures
        q <= next_char_at(src, q, c),
        q <= src.len() - 1 ==> next_char_at(src, q, c) <= src.len() - 1,
        next_char_at(src, q, c) < src.len() - 1 ==> src[next_char_at(src, q, c)] == c,
        forall|j: int| q <= j < next_char_at(src, q, c) ==> src[j] != c,
    decreases src.len() - q,
{
    if q < src.len() - 1 && src[q] != c {
        lemma_next_char_at(src, q + 1, c);
    }
}

/// Every token moves the position forward.
pub proof fn lemma_next_token_advances(src: Seq<u8>, cur: int)
    ensures
        next_token_at(src, cur) matches Step::Next(_, c) ==> cur < c <= src.len() + 1,
{
    if 0 <= cur < src.len() {
        lemma_next_char_at(src, cur, 32u8);
        if cur + 2 <= src.len() {
            lemma_next_char_at(src, cur + 2, 34u8);
        }
        crate::native::lemma_ne_value_bound(src.subrange(cur + 2, cur + 6));
    }
}

/// `String::from_utf8`: the string the bytes encode, or the bytes back when
/// they are not valid UTF-8.
#[verifier::external_body]
fn utf8_string(bytes: Vec<u8>) -> (r: Result<String, Vec<u8>>)
    ensures
        match r {
            Ok(s) => valid_utf8(bytes@) && s@ == decode_utf8(bytes@),
            Err(b) => !valid_utf8(bytes@) && b@ == bytes@,
        },
{
    match String::from_utf8(bytes) {
        Ok(s) => Ok(s),
        Err(e) => Err(e.into_bytes()),
    }
}

/// `char::from_u32`: the character with this code point, if it is one.
#[verifier::external_body]
fn char_from_u32(u: u32) -> (r: Option<char>)
    ensures
        match r {
            Some(c) => is_char_code(u as int) && c as u32 == u,
            None => !is_char_code(u as int),
        },
{
    char::from_u32(u)
}

/// `u` is the code point of a character.
pub open spec fn is_char_code(u: int) -> bool {
    (0 <= u <= 0xD7FF) || (0xE000 <= u <= 0x10FFFF)
}

/// What the last `tries` attempts of decoding `b`, dropping the last byte
/// after each failure, give.
pub open spec fn utf8_with_retries(b: Seq<u8>, tries: nat) -> Option<Seq<char>>
    decreases tries,
{
    if tries == 0 {
        None
    } else if valid_utf8(b) {
        Some(decode_utf8(b))
    } else {
        utf8_with_retries(
            if b.len() > 0 {
                b.drop_last()
            } else {
                b
            },
            (tries - 1) as nat,
        )
    }
}

/// A string from bytes whose last character may have been cut short:
/// up to three trailing bytes are dropped until the rest is valid UTF-8.
pub fn string_from_utf8(raw: Vec<u8>) -> (r: Option<String>)
    ensures
        match r {
            Some(s) => utf8_with_retries(raw@, 4) == Some(s@),
            None => utf8_with_retries(raw@, 4) is None,
        },
{
    let ghost b0 = raw@;
    let mut bytes = raw;
    let mut k: usize = 0;
    while k < 4
        invariant
            k <= 4,
            b0 == raw@,
            utf8_with_retries(b0, 4) == utf8_with_retries(bytes@, (4 - k) as nat),
        decreases 4 - k,
    {
        let ghost cur_bytes = bytes@;
        assert(utf8_with_retries(cur_bytes, (4 - k) as nat) == if valid_utf8(cur_bytes) {
            Some(decode_utf8(cur_bytes))
        } else {
            utf8_with_retries(
                if cur_bytes.len() > 0 {
                    cur_bytes.drop_last()
                } else {
                    cur_bytes
                },
                (4 - k - 1) as nat,
            )
        });
        match utf8_string(bytes) {
            Ok(s) => {
                assert(utf8_with_retries(b0, 4) == Some(s@));
                return Some(s);
            },
            Err(e) => {
                let ghost before = e@;
                bytes = e;
                bytes.pop();
                assert(bytes@ == (if before.len() > 0 {
                    before.drop_last()
                } else {
                    before
                }));
            },
        }
        k = k + 1;
    }
    None
}

/// The stream being read: its bytes and the read position.
#[derive(Debug)]
pub struct SourceReader {
    source: Bytes,
    cur: usize,
}

impl SourceReader {
    pub closed spec fn src(&self) -> Seq<u8> {
        self.source@
    }

    pub closed spec fn pos(&self) -> int {
        self.cur as int
    }

    /// A reader of an empty stream.
    pub fn new() -> (r: SourceReader)
        ensures
            r.src() == Seq::<u8>::empty(),
            r.pos() == 0,
    {
        SourceReader { source: Bytes::new(), cur: 0 }
    }

    /// Reads `source` from `offset` on.
    pub fn set_source(&mut self, source: Bytes, offset: usize)
        ensures
            final(self).src() == source@,
            final(self).pos() == offset,
    {
        self.source = source;
        self.cur = offset;
    }

    fn next_char(&self, c: u8) -> (q: usize)
        requires
            self.source@.len() >= 1,
        ensures
            q == next_char_at(self.source@, self.cur as int, c),
    {
        let mut q = self.cur;
        let last = self.source.len() - 1;
        while q < last && self.source.get(q) != c
            invariant
                last == self.source@.len() - 1,
                next_char_at(self.source@, self.cur as int, c) == next_char_at(
                    self.source@,
                    q as int,
                    c,
                ),
            decreases last - q,
        {
            q = q + 1;
        }
        q
    }

    /// Cuts the next token and moves past it.
    pub fn next_token(&mut self) -> (t: Option<Token>)
        requires
            !(next_token_at(old(self).src(), old(self).pos()) is Fail),
            old(self).src().len() < usize::MAX,
        ensures
            final(self).src() == old(self).src(),
            match next_token_at(old(self).src(), old(self).pos()) {
                Step::End => t is None && final(self).pos() == old(self).pos(),
                Step::Next(tok, c) => t matches Some(x) && x@ == tok && final(self).pos() == c,
                Step::Fail => false,
            },
    {
        if self.cur >= self.source.len() {
            return None;
        }
        let ghost src = self.source@;
        let p = self.cur;
        let q = self.next_char(32u8);
        proof {
            lemma_next_char_at(src, p as int, 32u8);
        }
        let tok = self.source.slice(p, q);
        if tok.len() == 1 && tok[0] == 34u8 {
            assert(tok@ =~= seq![34u8]);
            self.cur = self.cur + 2;
            let r = self.next_char(34u8);
            proof {
                lemma_next_char_at(src, self.cur as int, 34u8);
            }
            let raw = self.source.slice(self.cur, r);
            let mut owned = Bytes::new();
            owned.push_slice(raw);
            self.cur = r + 1;
            match utf8_string(owned.into_bytes()) {
                Ok(s) => {
                    return Some(Token::Str(s));
                },
                Err(_) => {
                    assert(false);
                    return None;
                },
            }
        }
        assert(tok@ != seq![34u8]) by {
            if tok@ == seq![34u8] {
                assert(tok@.len() == 1 && tok@[0] == 34u8);
            }
        }
        if tok.len() == 1 && tok[0] == 35u8 {
            assert(tok@ =~= seq![35u8]);
            let c2 = self.cur + 2;
            let header = self.source.slice(c2, c2 + 4);
            proof {
                crate::native::lemma_ne_value_bound(header@);
                crate::native::lemma_pow256_values();
            }
            let len = decode_uint(header) as usize;
            let c6 = c2 + 4;
            let body = self.source.slice(c6, c6 + len);
            let mut owned = Bytes::new();
            owned.push_slice(body);
            self.cur = c6 + len;
            return Some(Token::Bytes(owned));
        }
        assert(tok@ != seq![35u8]) by {
            if tok@ == seq![35u8] {
                assert(tok@.len() == 1 && tok@[0] == 35u8);
            }
        }
        self.cur = q + 1;
        let n = parse_u64_bytes(tok);
        let mut owned = Bytes::new();
        owned.push_slice(tok);
        match utf8_string(owned.into_bytes()) {
            Ok(s) => match n {
                Some(v) => Some(Token::Int(v)),
                None => Some(Token::Op(s)),
            },
            Err(_) => {
                assert(false);
                None
            },
        }
    }
}

/// The value that `b` denotes as a signed integer of `n` bytes (two's complement).
pub open spec fn signed_value(b: Seq<u8>, n: nat) -> int {
    if ne_value(b) >= crate::native::pow256(n) / 2 {
        ne_value(b) - crate::native::pow256(n)
    } else {
        ne_value(b) as int
    }
}

/// The primitive that the bytes `b` of a value of type `ty` give; `None`
/// where reading them fails: an unknown type or a byte count that does not
/// fit the type.
pub open spec fn prim_spec(ty: Seq<char>, b: Seq<u8>) -> Option<SValue> {
    let u = ne_value(b);
    if ty == "bool"@ {
        if b.len() >= 1 {
            Some(SValue::Prim(PValue::bool(b[0] != 0)))
        } else {
            None
        }
    } else if ty == "char"@ {
        if b.len() != 4 {
            None
        } else if is_char_code(u as int) {
            Some(SValue::Prim(PValue::char((u as u32) as char)))
        } else {
            Some(SValue::Opaque)
        }
    } else if ty == "u8"@ {
        if b.len() == 1 { Some(SValue::Prim(PValue::u8(u as u8))) } else { None }
    } else if ty == "i8"@ {
        if b.len() == 1 { Some(SValue::Prim(PValue::i8(signed_value(b, 1) as i8))) } else { None }
    } else if ty == "u16"@ {
        if b.len() == 2 { Some(SValue::Prim(PValue::u16(u as u16))) } else { None }
    } else if ty == "i16"@ {
        if b.len() == 2 { Some(SValue::Prim(PValue::i16(signed_value(b, 2) as i16))) } else { None }
    } else if ty == "u32"@ {
        if b.len() == 4 { Some(SValue::Prim(PValue::u32(u as u32))) } else { None }
    } else if ty == "i32"@ {
        if b.len() == 4 { Some(SValue::Prim(PValue::i32(signed_value(b, 4) as i32))) } else { None }
    } else if ty == "u64"@ {
        if b.len() == 8 { Some(SValue::Prim(PValue::u64(u as u64))) } else { None }
    } else if ty == "i64"@ {
        if b.len() == 8 { Some(SValue::Prim(PValue::i64(signed_value(b, 8) as i64))) } else { None }
    } else if ty == "usize"@ {
        if b.len() == 4 || b.len() == 8 { Some(SValue::Prim(PValue::usize(u as u64))) } else { None }
    } else if ty == "isize"@ {
        if b.len() == 4 || b.len() == 8 {
            Some(SValue::Prim(PValue::isize(signed_value(b, b.len()) as i64)))
        } else {
            None
        }
    } else if ty == "u128"@ {
        if b.len() == 16 { Some(SValue::Prim(PValue::u128(u as u128))) } else { None }
    } else if ty == "i128"@ {
        if b.len() == 16 { Some(SValue::Prim(PValue::i128(signed_value(b, 16) as i128))) } else { None }
    } else if ty == "f32"@ {
        if b.len() == 4 { Some(SValue::Prim(PValue::float32(u as u32))) } else { None }
    } else if ty == "f64"@ {
        if b.len() == 8 { Some(SValue::Prim(PValue::float64(u as u64))) } else { None }
    } else {
        None
    }
}

/// The kind of pointer that a `ref` names; `None` for an unknown name.
pub open spec fn ref_type_spec(ty: Seq<char>) -> Option<RefType> {
    if ty == "Box"@ {
        Some(RefType::Box)
    } else if ty == "Rc"@ {
        Some(RefType::Rc)
    } else if ty == "Arc"@ {
        Some(RefType::Arc)
    } else if ty == "ref"@ {
        Some(RefType::Ref)
    } else if ty == "ptr"@ {
        Some(RefType::Ptr)
    } else {
        None
    }
}

/// A reference to `addr`: resolved where the environment holds it, when its
/// kind is known (else reading fails); unresolved otherwise.
pub open spec fn ref_spec(env: Map<u64, SValue>, ty: Seq<char>, addr: u64) -> Option<SValue> {
    if env.contains_key(addr) {
        match ref_type_spec(ty) {
            Some(t) => Some(SValue::Ref {
                typename: t,
                addr: RefAddr::Addr(Addr { value: addr }),
                value: Box::new(env[addr]),
            }),
            None => None,
        }
    } else {
        Some(SValue::UnresolvedRef { addr: RefAddr::Addr(Addr { value: addr }) })
    }
}

/// A struct from its type name and its fields in order; `()` with no field is
/// the unit value and a `String` made of one `vec` field of bytes is a string.
pub open spec fn struct_spec(ty: Seq<char>, pairs: Seq<(Seq<char>, SValue)>) -> SValue {
    let f = fields_from(pairs);
    if ty == "()"@ && f.len() == 0 {
        SValue::Unit
    } else if ty == "alloc::string::String"@ && f.len() == 1 && f[0].0 == "vec"@ {
        match f[0].1 {
            SValue::Bytes { value, .. } => match utf8_with_retries(value, 4) {
                Some(s) => SValue::String { typename: StringType::String, value: s },
                None => SValue::Opaque,
            },
            _ => SValue::Opaque,
        }
    } else {
        SValue::Struct { typename: ty, fields: f }
    }
}

/// A string literal from its bytes, or an opaque value if they are no string.
pub open spec fn strlit_spec(b: Seq<u8>) -> SValue {
    match utf8_with_retries(b, 4) {
        Some(s) => SValue::String { typename: StringType::StrLit, value: s },
        None => SValue::Opaque,
    }
}

/// The state of the reading machine.
pub struct RState {
    pub strs: Seq<Seq<char>>,
    pub blobs: Seq<Seq<u8>>,
    pub ints: Seq<u64>,
    pub vals: Seq<SValue>,
    pub names: Seq<Seq<char>>,
    pub env: Map<u64, SValue>,
}

/// The `n` topmost strings and values, bottom first, as pairs.
pub open spec fn top_pairs(strs: Seq<Seq<char>>, vals: Seq<SValue>, n: int) -> Seq<
    (Seq<char>, SValue),
> {
    Seq::new(n as nat, |i: int| (strs[strs.len() - n + i], vals[vals.len() - n + i]))
}

/// The `n` topmost values, bottom first.
pub open spec fn top(vals: Seq<SValue>, n: int) -> Seq<SValue> {
    vals.subrange(vals.len() - n, vals.len() as int)
}

pub open spec fn op_setenv(st: RState) -> Option<RState> {
    if st.blobs.len() >= 1 && st.vals.len() >= 1 && st.blobs.last().len() == 8 {
        Some(
            RState {
                blobs: st.blobs.drop_last(),
                vals: st.vals.drop_last(),
                env: st.env.insert(ne_value(st.blobs.last()) as u64, st.vals.last()),
                ..st
            },
        )
    } else {
        None
    }
}

pub open spec fn op_prim(st: RState) -> Option<RState> {
    if st.blobs.len() >= 1 && st.strs.len() >= 1 {
        match prim_spec(st.strs.last(), st.blobs.last()) {
            Some(v) => Some(
                RState {
                    blobs: st.blobs.drop_last(),
                    strs: st.strs.drop_last(),
                    vals: st.vals.push(v),
                    ..st
                },
            ),
            None => None,
        }
    } else {
        None
    }
}

pub open spec fn op_bytes(st: RState) -> Option<RState> {
    if st.blobs.len() >= 1 && st.strs.len() >= 1 {
        Some(
            RState {
                blobs: st.blobs.drop_last(),
                strs: st.strs.drop_last(),
                vals: st.vals.push(SValue::Bytes { typename: st.strs.last(), value: st.blobs.last() }),
                ..st
            },
        )
    } else {
        None
    }
}

/// `arr`, `vec` and `slice`: a sequence of the values below the count.
pub open spec fn op_items(st: RState, t: ArrayType) -> Option<RState> {
    if st.ints.len() >= 1 && st.vals.len() >= st.ints.last() {
        let n = st.ints.last() as int;
        Some(
            RState {
                ints: st.ints.drop_last(),
                vals: st.vals.subrange(0, st.vals.len() - n).push(
                    SValue::Array { typename: t, data: top(st.vals, n) },
                ),
                ..st
            },
        )
    } else {
        None
    }
}

pub open spec fn op_ref(st: RState) -> Option<RState> {
    if st.blobs.len() >= 1 && st.blobs.last().len() == 8 && st.strs.len() >= 1 {
        match ref_spec(st.env, st.strs.last(), ne_value(st.blobs.last()) as u64) {
            Some(v) => Some(
                RState {
                    blobs: st.blobs.drop_last(),
                    strs: st.strs.drop_last(),
                    vals: st.vals.push(v),
                    ..st
                },
            ),
            None => None,
        }
    } else {
        None
    }
}

pub open spec fn op_struct(st: RState) -> Option<RState> {
    if st.strs.len() >= 1 && st.ints.len() >= 1 && st.strs.len() - 1 >= st.ints.last()
        && st.vals.len() >= st.ints.last() {
        let n = st.ints.last() as int;
        let name = st.strs.last();
        let strs = st.strs.drop_last();
        Some(
            RState {
                strs: strs.subrange(0, strs.len() - n),
                ints: st.ints.drop_last(),
                vals: st.vals.subrange(0, st.vals.len() - n).push(
                    struct_spec(name, top_pairs(strs, st.vals, n)),
                ),
                ..st
            },
        )
    } else {
        None
    }
}

pub open spec fn op_enum(st: RState) -> Option<RState> {
    if st.strs.len() >= 2 {
        let variant = st.strs.last();
        let name = st.strs.drop_last().last();
        Some(
            RState {
                strs: st.strs.drop_last().drop_last(),
                vals: st.vals.push(SValue::Enum { typename: name, variant }),
                ..st
            },
        )
    } else {
        None
    }
}

pub open spec fn op_push(st: RState, v: SValue) -> Option<RState> {
    Some(RState { vals: st.vals.push(v), ..st })
}

pub open spec fn op_strlit(st: RState) -> Option<RState> {
    if st.blobs.len() >= 1 {
        Some(
            RState {
                blobs: st.blobs.drop_last(),
                vals: st.vals.push(strlit_spec(st.blobs.last())),
                ..st
            },
        )
    } else {
        None
    }
}

pub open spec fn op_union(st: RState) -> Option<RState> {
    if st.ints.len() >= 3 {
        let vc = st.ints.last() as int;
        let index = st.ints.drop_last().last();
        let fc = st.ints.drop_last().drop_last().last() as int;
        if st.strs.len() >= vc + 1 + fc && st.vals.len() >= fc && (index as usize) < vc {
            let variants = st.strs.subrange(st.strs.len() - vc, st.strs.len() as int);
            let name = st.strs[st.strs.len() - vc - 1];
            let strs = st.strs.subrange(0, st.strs.len() - vc - 1);
            Some(
                RState {
                    strs: strs.subrange(0, strs.len() - fc),
                    ints: st.ints.drop_last().drop_last().drop_last(),
                    vals: st.vals.subrange(0, st.vals.len() - fc).push(
                        SValue::Union {
                            typeinfo: SUnionType { name, variants },
                            variant: variants[(index as usize) as int],
                            fields: fields_from(top_pairs(strs, st.vals, fc)),
                        },
                    ),
                    ..st
                },
            )
        } else {
            None
        }
    } else {
        None
    }
}

pub open spec fn op_name(st: RState) -> Option<RState> {
    if st.strs.len() >= 1 {
        Some(RState { strs: st.strs.drop_last(), names: st.names.push(st.strs.last()), ..st })
    } else {
        None
    }
}

/// What an operator token does; `None` where reading fails. Unknown
/// operators (among them the empty one that a doubled space gives) do nothing.
pub open spec fn apply_op(st: RState, o: Seq<char>) -> Option<RState> {
    if o == "setenv"@ {
        op_setenv(st)
    } else if o == "prim"@ {
        op_prim(st)
    } else if o == "bytes"@ {
        op_bytes(st)
    } else if o == "arr"@ {
        op_items(st, ArrayType::Arr)
    } else if o == "ref"@ {
        op_ref(st)
    } else if o == "struct"@ {
        op_struct(st)
    } else if o == "enum"@ {
        op_enum(st)
    } else if o == "unit"@ {
        op_push(st, SValue::Unit)
    } else if o == "opaque"@ {
        op_push(st, SValue::Opaque)
    } else if o == "strlit"@ {
        op_strlit(st)
    } else if o == "union_decl"@ {
        op_union(st)
    } else if o == "vec"@ {
        op_items(st, ArrayType::Vec)
    } else if o == "slice"@ {
        op_items(st, ArrayType::Slice)
    } else if o == "name"@ {
        op_name(st)
    } else {
        Some(st)
    }
}

/// What one token does to the machine.
pub open spec fn step(st: RState, tok: SToken) -> Option<RState> {
    match tok {
        SToken::Str(s) => Some(RState { strs: st.strs.push(s), ..st }),
        SToken::Bytes(b) => Some(RState { blobs: st.blobs.push(b), ..st }),
        SToken::Int(i) => Some(RState { ints: st.ints.push(i), ..st }),
        SToken::Op(o) => apply_op(st, o),
    }
}

/// Runs the machine over the tokens from `cur` to the end of the stream.
pub open spec fn run(src: Seq<u8>, cur: int, st: RState) -> Option<RState>
    decreases src.len() + 2 - cur,
{
    match next_token_at(src, cur) {
        Step::End => Some(st),
        Step::Fail => None,
        Step::Next(tok, c) => if cur < c <= src.len() + 1 {
            match step(st, tok) {
                Some(st2) => run(src, c, st2),
                None => None,
            }
        } else {
            None
        },
    }
}

/// A machine with empty stacks and the given environment.
pub open spec fn start_state(env: Map<u64, SValue>) -> RState {
    RState {
        strs: Seq::empty(),
        blobs: Seq::empty(),
        ints: Seq::empty(),
        vals: Seq::empty(),
        names: Seq::empty(),
        env,
    }
}

/// The memory that references point to, by address.
#[derive(Debug)]
pub struct ReaderContext {
    env: HashMap<u64, RValue>,
}

/// The kind of pointer that a `ref` names.
pub fn parse_ref_type(ty: &str) -> (r: Option<RefType>)
    ensures
        r == ref_type_spec(ty@),
{
    if str_eq(ty, "Box") {
        Some(RefType::Box)
    } else if str_eq(ty, "Rc") {
        Some(RefType::Rc)
    } else if str_eq(ty, "Arc") {
        Some(RefType::Arc)
    } else if str_eq(ty, "ref") {
        Some(RefType::Ref)
    } else if str_eq(ty, "ptr") {
        Some(RefType::Ptr)
    } else {
        None
    }
}

/// The signed value of `u`, an unsigned value of `n` bytes (two's complement).
fn to_signed(u: u128, n: usize) -> (r: i128)
    requires
        1 <= n <= 16,
        u < crate::native::pow256(n as nat),
    ensures
        r == (if u >= crate::native::pow256(n as nat) / 2 {
            u - crate::native::pow256(n as nat)
        } else {
            u as int
        }),
{
    proof {
        crate::native::lemma_pow256_values();
    }
    if n == 16 {
        if u >= 0x8000_0000_0000_0000_0000_0000_0000_0000u128 {
            ((u - 0x8000_0000_0000_0000_0000_0000_0000_0000u128) as i128) + i128::MIN
        } else {
            u as i128
        }
    } else {
        proof {
            crate::native::lemma_pow256_mono(n as nat, 15);
            reveal_with_fuel(crate::native::pow256, 16);
        }
        let mut p: u128 = 1;
        let mut k: usize = 0;
        while k < n
            invariant
                k <= n <= 15,
                p == crate::native::pow256(k as nat),
                p <= crate::native::pow256(15),
            decreases n - k,
        {
            proof {
                crate::native::lemma_pow256_values();
                crate::native::lemma_pow256_mono((k + 1) as nat, 15);
                assert(crate::native::pow256((k + 1) as nat) == 256 * crate::native::pow256(k as nat));
            }
            p = p * 256;
            k = k + 1;
        }
        if u >= p / 2 {
            (u as i128) - (p as i128)
        } else {
            u as i128
        }
    }
}

impl ReaderContext {
    /// The environment: the value at each address that has one.
    pub closed spec fn env(&self) -> Map<u64, SValue> {
        Map::new(|k: u64| self.env@.contains_key(k), |k: u64| rv(self.env@[k]))
    }

    /// A context with an empty environment.
    pub fn new() -> (r: ReaderContext)
        ensures
            r.env() == Map::<u64, SValue>::empty(),
    {
        let r = ReaderContext { env: HashMap::new() };
        assert(r.env() =~= Map::<u64, SValue>::empty());
        r
    }

    /// Records the value at this memory address.
    pub fn set_env(&mut self, addr: Addr, val: RValue)
        ensures
            final(self).env() == old(self).env().insert(addr.value, rv(val)),
    {
        let ghost v = rv(val);
        self.env.insert(addr.value, val);
        assert(self.env() =~= old(self).env().insert(addr.value, v));
    }

    /// A primitive of type `ty` from its bytes.
    pub fn prim_v(&self, ty: &str, b: &[u8]) -> (r: RValue)
        requires
            prim_spec(ty@, b@) is Some,
        ensures
            r@ == prim_spec(ty@, b@)->0,
    {
        let n = b.len();
        let u: u128 = if n <= 16 {
            decode_uint(b)
        } else {
            0
        };
        proof {
            crate::native::lemma_ne_value_bound(b@);
            crate::native::lemma_pow256_values();
        }
        if str_eq(ty, "bool") {
            RValue::Prim(PValue::bool(b[0] != 0))
        } else if str_eq(ty, "char") {
            match char_from_u32(u as u32) {
                Some(c) => {
                    proof {
                        vstd::utf8::char_u32_cast(c, u as u32);
                    }
                    RValue::Prim(PValue::char(c))
                },
                None => RValue::Opaque,
            }
        } else if str_eq(ty, "u8") {
            RValue::Prim(PValue::u8(u as u8))
        } else if str_eq(ty, "i8") {
            RValue::Prim(PValue::i8(to_signed(u, 1) as i8))
        } else if str_eq(ty, "u16") {
            RValue::Prim(PValue::u16(u as u16))
        } else if str_eq(ty, "i16") {
            RValue::Prim(PValue::i16(to_signed(u, 2) as i16))
        } else if str_eq(ty, "u32") {
            RValue::Prim(PValue::u32(u as u32))
        } else if str_eq(ty, "i32") {
            RValue::Prim(PValue::i32(to_signed(u, 4) as i32))
        } else if str_eq(ty, "u64") {
            RValue::Prim(PValue::u64(u as u64))
        } else if str_eq(ty, "i64") {
            RValue::Prim(PValue::i64(to_signed(u, 8) as i64))
        } else if str_eq(ty, "usize") {
            RValue::Prim(PValue::usize(u as u64))
        } else if str_eq(ty, "isize") {
            RValue::Prim(PValue::isize(to_signed(u, n) as i64))
        } else if str_eq(ty, "u128") {
            RValue::Prim(PValue::u128(u))
        } else if str_eq(ty, "i128") {
            RValue::Prim(PValue::i128(to_signed(u, 16)))
        } else if str_eq(ty, "f32") {
            RValue::Prim(PValue::float32(u as u32))
        } else {
            RValue::Prim(PValue::float64(u as u64))
        }
    }

    /// A blob of bytes of type `ty`.
    pub fn bytes_v(&self, ty: &str, val: Bytes) -> (r: RValue)
        ensures
            r@ == (SValue::Bytes { typename: ty@, value: val@ }),
    {
        RValue::Bytes { typename: crate::text::to_owned_string(ty), value: val.into_bytes() }
    }

    /// An array of the values, in order.
    pub fn arr_v(&self, items: Vec<RValue>) -> (r: RValue)
        ensures
            r@ == (SValue::Array { typename: ArrayType::Arr, data: rv_items(items@) }),
    {
        RValue::Array { typename: ArrayType::Arr, data: items }
    }

    /// A reference of kind `ty` to `addr`.
    pub fn ref_v(&self, ty: &str, addr: Addr) -> (r: RValue)
        requires
            ref_spec(self.env(), ty@, addr.value) is Some,
        ensures
            r@ == ref_spec(self.env(), ty@, addr.value)->0,
    {
        match self.env.get(&addr.value) {
            Some(val) => {
                let t = parse_ref_type(ty).unwrap();
                RValue::Ref {
                    typename: t,
                    addr: RefAddr::Addr(addr),
                    value: Box::new(val.duplicate()),
                }
            },
            None => RValue::UnresolvedRef { addr: RefAddr::Addr(addr) },
        }
    }

    /// A string literal from its bytes, if they are one.
    pub fn strlit_v(&self, v: Vec<u8>) -> (r: Option<RValue>)
        ensures
            match r {
                Some(x) => utf8_with_retries(v@, 4) is Some && x@ == strlit_spec(v@),
                None => utf8_with_retries(v@, 4) is None,
            },
    {
        match string_from_utf8(v) {
            Some(s) => Some(RValue::String { typename: StringType::StrLit, value: s }),
            None => None,
        }
    }

    /// A C-style enum value.
    pub fn enumerate_v(&self, ty: String, variant: String) -> (r: RValue)
        ensures
            r@ == (SValue::Enum { typename: ty@, variant: variant@ }),
    {
        RValue::Enum { typename: ty, variant }
    }

    /// A struct of type `ty` from its fields in order.
    pub fn struct_v(&self, ty: String, fields: Vec<(String, RValue)>) -> (r: RValue)
        ensures
            r@ == struct_spec(ty@, rv_fields(fields@)),
    {
        let f = build_fields(fields);
        if str_eq(ty.as_str(), "()") && f.len() == 0 {
            return RValue::Unit;
        }
        proof {
            crate::value::lemma_rv_fields_len(f@);
        }
        if str_eq(ty.as_str(), "alloc::string::String") && f.len() == 1 && str_eq(
            f[0].0.as_str(),
            "vec",
        ) {
            let mut f = f;
            let (_, first) = f.pop().unwrap();
            return match first {
                RValue::Bytes { value, .. } => match string_from_utf8(value) {
                    Some(s) => RValue::String { typename: StringType::String, value: s },
                    None => RValue::Opaque,
                },
                _ => RValue::Opaque,
            };
        }
        RValue::Struct { typename: ty, fields: f }
    }

    /// The unit value.
    pub fn unit_v(&self) -> (r: RValue)
        ensures
            r@ == SValue::Unit,
    {
        RValue::Unit
    }

    /// A value that could not be inspected.
    pub fn opaque_v(&self) -> (r: RValue)
        ensures
            r@ == SValue::Opaque,
    {
        RValue::Opaque
    }

    /// A Rust enum value with fields, of variant `index` of `t`.
    pub fn union_v(&mut self, t: &UnionType, index: usize, fields: Vec<(String, RValue)>) -> (r:
        RValue)
        requires
            index < t.variants@.len(),
        ensures
            r@ == (SValue::Union {
                typeinfo: t@,
                variant: t.variants@[index as int]@,
                fields: fields_from(rv_fields(fields@)),
            }),
            final(self).env() == old(self).env(),
    {
        let f = build_fields(fields);
        RValue::Union { typeinfo: t.duplicate(), variant: t.variants[index].clone(), fields: f }
    }

    /// A vector of the values, in order.
    pub fn vector_v(&self, items: Vec<RValue>) -> (r: RValue)
        ensures
            r@ == (SValue::Array { typename: ArrayType::Vec, data: rv_items(items@) }),
    {
        RValue::Array { typename: ArrayType::Vec, data: items }
    }

    /// A slice of the values, in order.
    pub fn slice_v(&self, items: Vec<RValue>) -> (r: RValue)
        ensures
            r@ == (SValue::Array { typename: ArrayType::Slice, data: rv_items(items@) }),
    {
        RValue::Array { typename: ArrayType::Slice, data: items }
    }
}

/// The fields that inserting the pairs in order into an insertion-ordered map gives.
pub fn build_fields(pairs: Vec<(String, RValue)>) -> (r: Vec<(String, RValue)>)
    ensures
        rv_fields(r@) == fields_from(rv_fields(pairs@)),
{
    let ghost p0 = rv_fields(pairs@);
    proof {
        crate::value::lemma_rv_fields_len(pairs@);
    }
    let mut rest = pairs;
    let mut stack: Vec<(String, RValue)> = Vec::new();
    while rest.len() > 0
        invariant
            p0.len() == rest@.len() + stack@.len(),
            forall|i: int| 0 <= i < rest@.len() ==> (#[trigger] rest@[i]).0@ == p0[i].0 && rv(rest@[i].1) == p0[i].1,
            forall|i: int|
                0 <= i < stack@.len() ==> (#[trigger] stack@[i]).0@ == p0[p0.len() - 1 - i].0
                    && rv(stack@[i].1) == p0[p0.len() - 1 - i].1,
        decreases rest@.len(),
    {
        let ghost before = rest@;
        let x = rest.pop().unwrap();
        assert(rest@ =~= before.drop_last());
        assert forall|i: int| 0 <= i < rest@.len() implies (#[trigger] rest@[i]).0@ == p0[i].0
            && rv(rest@[i].1) == p0[i].1 by {
            assert(rest@[i] == before[i]);
        }
        stack.push(x);
    }
    let mut out: Vec<(String, RValue)> = Vec::new();
    while stack.len() > 0
        invariant
            p0.len() == out@.len() + stack@.len() || true,
            stack@.len() <= p0.len(),
            forall|i: int|
                0 <= i < stack@.len() ==> (#[trigger] stack@[i]).0@ == p0[p0.len() - 1 - i].0
                    && rv(stack@[i].1) == p0[p0.len() - 1 - i].1,
            rv_fields(out@) == fields_from(p0.take(p0.len() - stack@.len())),
        decreases stack@.len(),
    {
        let ghost before = stack@;
        let ghost k = p0.len() - stack@.len();
        let (name, val) = stack.pop().unwrap();
        assert(stack@ =~= before.drop_last());
        assert forall|i: int| 0 <= i < stack@.len() implies (#[trigger] stack@[i]).0@ == p0[p0.len()
            - 1 - i].0 && rv(stack@[i].1) == p0[p0.len() - 1 - i].1 by {
            assert(stack@[i] == before[i]);
        }
        assert(p0.take(k + 1).drop_last() =~= p0.take(k));
        assert(p0.take(k + 1).last() == p0[k]);
        crate::value::insert_field(&mut out, name, val);
    }
    assert(p0.take(p0.len() as int) =~= p0);
    out
}

/// The contents of a vector of blobs.
pub open spec fn blob_seq(v: Seq<Bytes>) -> Seq<Seq<u8>> {
    Seq::new(v.len(), |i: int| v[i]@)
}

/// The stacks of the reading machine.
struct Stacks {
    strs: Vec<String>,
    blobs: Vec<Bytes>,
    ints: Vec<u64>,
    vals: Vec<RValue>,
    names: Vec<String>,
}

proof fn lemma_rv_items_drop_last(s: Seq<RValue>)
    requires
        s.len() > 0,
    ensures
        rv_items(s.drop_last()) == rv_items(s).drop_last(),
        rv_items(s).last() == rv(s.last()),
{
    crate::value::lemma_rv_items_len(s);
    crate::value::lemma_rv_items_len(s.drop_last());
    assert(rv_items(s.drop_last()) =~= rv_items(s).drop_last());
}

proof fn lemma_strings_drop_last(s: Seq<String>)
    requires
        s.len() > 0,
    ensures
        strings_view(s.drop_last()) == strings_view(s).drop_last(),
        strings_view(s).last() == s.last()@,
{
    assert(strings_view(s.drop_last()) =~= strings_view(s).drop_last());
}

proof fn lemma_blobs_drop_last(s: Seq<Bytes>)
    requires
        s.len() > 0,
    ensures
        blob_seq(s.drop_last()) == blob_seq(s).drop_last(),
        blob_seq(s).last() == s.last()@,
{
    assert(blob_seq(s.drop_last()) =~= blob_seq(s).drop_last());
}

impl Stacks {
    spec fn state(&self, env: Map<u64, SValue>) -> RState {
        RState {
            strs: strings_view(self.strs@),
            blobs: blob_seq(self.blobs@),
            ints: self.ints@,
            vals: rv_items(self.vals@),
            names: strings_view(self.names@),
            env,
        }
    }

    fn pop_str(&mut self) -> (r: String)
        requires
            old(self).strs@.len() > 0,
        ensures
            r@ == strings_view(old(self).strs@).last(),
            strings_view(final(self).strs@) == strings_view(old(self).strs@).drop_last(),
            final(self).strs@ == old(self).strs@.drop_last(),
            final(self).blobs == old(self).blobs,
            final(self).ints == old(self).ints,
            final(self).vals == old(self).vals,
            final(self).names == old(self).names,
    {
        proof {
            lemma_strings_drop_last(self.strs@);
        }
        self.strs.pop().unwrap()
    }

    fn pop_blob(&mut self) -> (r: Bytes)
        requires
            old(self).blobs@.len() > 0,
        ensures
            r@ == blob_seq(old(self).blobs@).last(),
            blob_seq(final(self).blobs@) == blob_seq(old(self).blobs@).drop_last(),
            final(self).strs == old(self).strs,
            final(self).ints == old(self).ints,
            final(self).vals == old(self).vals,
            final(self).names == old(self).names,
    {
        proof {
            lemma_blobs_drop_last(self.blobs@);
        }
        self.blobs.pop().unwrap()
    }

    fn pop_int(&mut self) -> (r: u64)
        requires
            old(self).ints@.len() > 0,
        ensures
            r == old(self).ints@.last(),
            final(self).ints@ == old(self).ints@.drop_last(),
            final(self).strs == old(self).strs,
            final(self).blobs == old(self).blobs,
            final(self).vals == old(self).vals,
            final(self).names == old(self).names,
    {
        self.ints.pop().unwrap()
    }

    fn pop_val(&mut self) -> (r: RValue)
        requires
            old(self).vals@.len() > 0,
        ensures
            rv(r) == rv_items(old(self).vals@).last(),
            rv_items(final(self).vals@) == rv_items(old(self).vals@).drop_last(),
            final(self).vals@ == old(self).vals@.drop_last(),
            final(self).strs == old(self).strs,
            final(self).blobs == old(self).blobs,
            final(self).ints == old(self).ints,
            final(self).names == old(self).names,
    {
        proof {
            lemma_rv_items_drop_last(self.vals@);
        }
        self.vals.pop().unwrap()
    }

    fn push_val(&mut self, v: RValue)
        ensures
            rv_items(final(self).vals@) == rv_items(old(self).vals@).push(rv(v)),
            final(self).strs == old(self).strs,
            final(self).blobs == old(self).blobs,
            final(self).ints == old(self).ints,
            final(self).names == old(self).names,
    {
        proof {
            crate::value::lemma_rv_items_push(self.vals@, v);
        }
        self.vals.push(v);
    }

    /// Pops the `n` topmost values; they come out bottom first.
    fn pop_values(&mut self, n: u64) -> (r: Vec<RValue>)
        requires
            old(self).vals@.len() >= n,
        ensures
            rv_items(r@) == top(rv_items(old(self).vals@), n as int),
            rv_items(final(self).vals@) == rv_items(old(self).vals@).subrange(
                0,
                old(self).vals@.len() - n,
            ),
            final(self).strs == old(self).strs,
            final(self).blobs == old(self).blobs,
            final(self).ints == old(self).ints,
            final(self).names == old(self).names,
    {
        let ghost v0 = rv_items(self.vals@);
        let ghost len0 = self.vals@.len() as int;
        proof {
            crate::value::lemma_rv_items_len(self.vals@);
        }
        let mut reversed: Vec<RValue> = Vec::new();
        let mut k: u64 = 0;
        while k < n
            invariant
                k <= n,
                len0 >= n,
                v0.len() == len0,
                self.vals@.len() == len0 - k,
                rv_items(self.vals@) == v0.subrange(0, len0 - k),
                reversed@.len() == k,
                forall|i: int| 0 <= i < k ==> rv(#[trigger] reversed@[i]) == v0[len0 - 1 - i],
                self.strs == old(self).strs,
                self.blobs == old(self).blobs,
                self.ints == old(self).ints,
                self.names == old(self).names,
            decreases n - k,
        {
            let ghost before = rv_items(self.vals@);
            let v = self.pop_val();
            assert(rv_items(self.vals@) =~= v0.subrange(0, len0 - k - 1));
            reversed.push(v);
            k = k + 1;
        }
        let mut out: Vec<RValue> = Vec::new();
        while reversed.len() > 0
            invariant
                reversed@.len() + out@.len() == n,
                len0 >= n,
                v0.len() == len0,
                forall|i: int| 0 <= i < reversed@.len() ==> rv(#[trigger] reversed@[i]) == v0[len0 - 1 - i],
                rv_items(out@) == v0.subrange(len0 - n, len0 - reversed@.len()),
            decreases reversed@.len(),
        {
            let ghost before = reversed@;
            let v = reversed.pop().unwrap();
            assert(reversed@ =~= before.drop_last());
            assert(forall|i: int| 0 <= i < reversed@.len() ==> reversed@[i] == before[i]);
            proof {
                crate::value::lemma_rv_items_push(out@, v);
            }
            out.push(v);
            assert(v0.subrange(len0 - n, len0 - reversed@.len()) =~= v0.subrange(
                len0 - n,
                len0 - before.len(),
            ).push(v0[len0 - 1 - (before.len() - 1)]));
        }
        assert(top(v0, n as int) =~= v0.subrange(len0 - n, len0));
        out
    }

    /// Pops the `n` topmost values with the `n` topmost strings as their
    /// names; they come out bottom first.
    fn pop_fields(&mut self, n: u64) -> (r: Vec<(String, RValue)>)
        requires
            old(self).vals@.len() >= n,
            old(self).strs@.len() >= n,
        ensures
            rv_fields(r@) == top_pairs(
                strings_view(old(self).strs@),
                rv_items(old(self).vals@),
                n as int,
            ),
            rv_items(final(self).vals@) == rv_items(old(self).vals@).subrange(
                0,
                old(self).vals@.len() - n,
            ),
            strings_view(final(self).strs@) == strings_view(old(self).strs@).subrange(
                0,
                old(self).strs@.len() - n,
            ),
            final(self).blobs == old(self).blobs,
            final(self).ints == old(self).ints,
            final(self).names == old(self).names,
    {
        let ghost v0 = rv_items(self.vals@);
        let ghost s0 = strings_view(self.strs@);
        let ghost lv = self.vals@.len() as int;
        let ghost ls = self.strs@.len() as int;
        proof {
            crate::value::lemma_rv_items_len(self.vals@);
        }
        let mut reversed: Vec<(String, RValue)> = Vec::new();
        let mut k: u64 = 0;
        while k < n
            invariant
                k <= n,
                lv >= n,
                ls >= n,
                v0.len() == lv,
                s0.len() == ls,
                self.vals@.len() == lv - k,
                self.strs@.len() == ls - k,
                rv_items(self.vals@) == v0.subrange(0, lv - k),
                strings_view(self.strs@) == s0.subrange(0, ls - k),
                reversed@.len() == k,
                forall|i: int|
                    0 <= i < k ==> rv((#[trigger] reversed@[i]).1) == v0[lv - 1 - i]
                        && reversed@[i].0@ == s0[ls - 1 - i],
                self.blobs == old(self).blobs,
                self.ints == old(self).ints,
                self.names == old(self).names,
            decreases n - k,
        {
            let v = self.pop_val();
            let name = self.pop_str();
            assert(rv_items(self.vals@) =~= v0.subrange(0, lv - k - 1));
            assert(strings_view(self.strs@) =~= s0.subrange(0, ls - k - 1));
            reversed.push((name, v));
            k = k + 1;
        }
        let mut out: Vec<(String, RValue)> = Vec::new();
        while reversed.len() > 0
            invariant
                reversed@.len() + out@.len() == n,
                lv >= n,
                ls >= n,
                v0.len() == lv,
                s0.len() == ls,
                forall|i: int|
                    0 <= i < reversed@.len() ==> rv((#[trigger] reversed@[i]).1) == v0[lv - 1 - i]
                        && reversed@[i].0@ == s0[ls - 1 - i],
                rv_fields(out@) == top_pairs(s0, v0, n as int).take(out@.len() as int),
            decreases reversed@.len(),
        {
            let ghost before = reversed@;
            let f = reversed.pop().unwrap();
            assert(reversed@ =~= before.drop_last());
            assert(forall|i: int| 0 <= i < reversed@.len() ==> reversed@[i] == before[i]);
            proof {
                crate::value::lemma_rv_fields_push(out@, f);
            }
            let ghost k = out@.len() as int;
            out.push(f);
            assert(top_pairs(s0, v0, n as int).take(k + 1) =~= top_pairs(s0, v0, n as int).take(
                k,
            ).push((f.0@, rv(f.1))));
        }
        assert(top_pairs(s0, v0, n as int).take(n as int) =~= top_pairs(s0, v0, n as int));
        out
    }
}

impl Stacks {
    fn exec_setenv(&mut self, ctx: &mut ReaderContext)
        requires
            op_setenv(old(self).state(old(ctx).env())) is Some,
        ensures
            final(self).state(final(ctx).env()) == op_setenv(old(self).state(old(ctx).env()))->0,
    {
        let b = self.pop_blob();
        let addr = Addr::new(b.as_bytes());
        let v = self.pop_val();
        ctx.set_env(addr, v);
    }

    fn exec_prim(&mut self, ctx: &ReaderContext)
        requires
            op_prim(old(self).state(ctx.env())) is Some,
        ensures
            final(self).state(ctx.env()) == op_prim(old(self).state(ctx.env()))->0,
    {
        let b = self.pop_blob();
        let ty = self.pop_str();
        let v = ctx.prim_v(ty.as_str(), b.as_bytes());
        self.push_val(v);
    }

    fn exec_bytes(&mut self, ctx: &ReaderContext)
        requires
            op_bytes(old(self).state(ctx.env())) is Some,
        ensures
            final(self).state(ctx.env()) == op_bytes(old(self).state(ctx.env()))->0,
    {
        let b = self.pop_blob();
        let ty = self.pop_str();
        let v = ctx.bytes_v(ty.as_str(), b);
        self.push_val(v);
    }

    fn exec_items(&mut self, ctx: &ReaderContext, t: ArrayType)
        requires
            op_items(old(self).state(ctx.env()), t) is Some,
        ensures
            final(self).state(ctx.env()) == op_items(old(self).state(ctx.env()), t)->0,
    {
        proof {
            crate::value::lemma_rv_items_len(self.vals@);
        }
        let n = self.pop_int();
        let items = self.pop_values(n);
        let v = match t {
            ArrayType::Arr => ctx.arr_v(items),
            ArrayType::Vec => ctx.vector_v(items),
            ArrayType::Slice => ctx.slice_v(items),
        };
        self.push_val(v);
    }

    fn exec_ref(&mut self, ctx: &ReaderContext)
        requires
            op_ref(old(self).state(ctx.env())) is Some,
        ensures
            final(self).state(ctx.env()) == op_ref(old(self).state(ctx.env()))->0,
    {
        let b = self.pop_blob();
        let addr = Addr::new(b.as_bytes());
        let ty = self.pop_str();
        let v = ctx.ref_v(ty.as_str(), addr);
        self.push_val(v);
    }

    fn exec_struct(&mut self, ctx: &ReaderContext)
        requires
            op_struct(old(self).state(ctx.env())) is Some,
        ensures
            final(self).state(ctx.env()) == op_struct(old(self).state(ctx.env()))->0,
    {
        proof {
            crate::value::lemma_rv_items_len(self.vals@);
        }
        let name = self.pop_str();
        let n = self.pop_int();
        let fields = self.pop_fields(n);
        let v = ctx.struct_v(name, fields);
        self.push_val(v);
    }

    fn exec_enum(&mut self, ctx: &ReaderContext)
        requires
            op_enum(old(self).state(ctx.env())) is Some,
        ensures
            final(self).state(ctx.env()) == op_enum(old(self).state(ctx.env()))->0,
    {
        let variant = self.pop_str();
        let name = self.pop_str();
        let v = ctx.enumerate_v(name, variant);
        self.push_val(v);
    }

    fn exec_strlit(&mut self, ctx: &ReaderContext)
        requires
            op_strlit(old(self).state(ctx.env())) is Some,
        ensures
            final(self).state(ctx.env()) == op_strlit(old(self).state(ctx.env()))->0,
    {
        let b = self.pop_blob();
        let v = match ctx.strlit_v(b.into_bytes()) {
            Some(x) => x,
            None => ctx.opaque_v(),
        };
        self.push_val(v);
    }

    fn exec_union(&mut self, ctx: &mut ReaderContext)
        requires
            op_union(old(self).state(old(ctx).env())) is Some,
        ensures
            final(self).state(final(ctx).env()) == op_union(old(self).state(old(ctx).env()))->0,
    {
        proof {
            crate::value::lemma_rv_items_len(self.vals@);
        }
        let ghost s0 = strings_view(self.strs@);
        let vc = self.pop_int();
        let mut reversed: Vec<String> = Vec::new();
        let mut k: u64 = 0;
        while k < vc
            invariant
                k <= vc,
                s0.len() >= vc,
                strings_view(self.strs@) == s0.subrange(0, s0.len() - k),
                reversed@.len() == k,
                forall|i: int| 0 <= i < k ==> (#[trigger] reversed@[i])@ == s0[s0.len() - 1 - i],
                self.blobs == old(self).blobs,
                self.ints@ == old(self).ints@.drop_last(),
                self.vals == old(self).vals,
                self.names == old(self).names,
            decreases vc - k,
        {
            let x = self.pop_str();
            assert(strings_view(self.strs@) =~= s0.subrange(0, s0.len() - k - 1));
            reversed.push(x);
            k = k + 1;
        }
        let mut variants: Vec<String> = Vec::new();
        while reversed.len() > 0
            invariant
                reversed@.len() + variants@.len() == vc,
                s0.len() >= vc,
                forall|i: int| 0 <= i < reversed@.len() ==> (#[trigger] reversed@[i])@ == s0[s0.len() - 1 - i],
                strings_view(variants@) == s0.subrange(s0.len() - vc, s0.len() - reversed@.len()),
            decreases reversed@.len(),
        {
            let ghost before = reversed@;
            let x = reversed.pop().unwrap();
            assert(reversed@ =~= before.drop_last());
            assert(forall|i: int| 0 <= i < reversed@.len() ==> reversed@[i] == before[i]);
            variants.push(x);
            assert(strings_view(variants@) =~= s0.subrange(
                s0.len() - vc,
                s0.len() - reversed@.len(),
            ));
        }
        let ghost st = old(self).state(old(ctx).env());
        let ghost len = s0.len() as int;
        assert(strings_view(variants@) =~= s0.subrange(len - vc, len));
        let name = self.pop_str();
        assert(name@ == s0[len - vc - 1]);
        assert(strings_view(self.strs@) =~= s0.subrange(0, len - vc - 1));
        let index = self.pop_int() as usize;
        let fc = self.pop_int();
        assert(self.ints@ =~= st.ints.drop_last().drop_last().drop_last());
        let ghost strs1 = strings_view(self.strs@);
        let fields = self.pop_fields(fc);
        assert(strings_view(self.strs@) =~= strs1.subrange(0, strs1.len() - fc));
        let t = UnionType { name, variants };
        assert(t@.variants == strings_view(variants@));
        let v = ctx.union_v(&t, index, fields);
        self.push_val(v);
        proof {
            let r = op_union(st)->0;
            assert(strings_view(self.strs@) =~= r.strs);
            assert(self.ints@ =~= r.ints);
            assert(rv_items(self.vals@) =~= r.vals);
            assert(blob_seq(self.blobs@) =~= r.blobs);
            assert(strings_view(self.names@) =~= r.names);
        }
    }

    fn exec_name(&mut self)
        requires
            old(self).strs@.len() >= 1,
        ensures
            strings_view(final(self).strs@) == strings_view(old(self).strs@).drop_last(),
            strings_view(final(self).names@) == strings_view(old(self).names@).push(
                strings_view(old(self).strs@).last(),
            ),
            final(self).blobs == old(self).blobs,
            final(self).ints == old(self).ints,
            final(self).vals == old(self).vals,
    {
        let n = self.pop_str();
        self.names.push(n);
        assert(strings_view(self.names@) =~= strings_view(old(self).names@).push(
            strings_view(old(self).strs@).last(),
        ));
    }

    /// Applies an operator token.
    fn apply(&mut self, o: &str, ctx: &mut ReaderContext)
        requires
            apply_op(old(self).state(old(ctx).env()), o@) is Some,
        ensures
            final(self).state(final(ctx).env()) == apply_op(old(self).state(old(ctx).env()), o@)->0,
    {
        if str_eq(o, "setenv") {
            self.exec_setenv(ctx);
        } else if str_eq(o, "prim") {
            self.exec_prim(ctx);
        } else if str_eq(o, "bytes") {
            self.exec_bytes(ctx);
        } else if str_eq(o, "arr") {
            self.exec_items(ctx, ArrayType::Arr);
        } else if str_eq(o, "ref") {
            self.exec_ref(ctx);
        } else if str_eq(o, "struct") {
            self.exec_struct(ctx);
        } else if str_eq(o, "enum") {
            self.exec_enum(ctx);
        } else if str_eq(o, "unit") {
            let v = ctx.unit_v();
            self.push_val(v);
        } else if str_eq(o, "opaque") {
            let v = ctx.opaque_v();
            self.push_val(v);
        } else if str_eq(o, "strlit") {
            self.exec_strlit(ctx);
        } else if str_eq(o, "union_decl") {
            self.exec_union(ctx);
        } else if str_eq(o, "vec") {
            self.exec_items(ctx, ArrayType::Vec);
        } else if str_eq(o, "slice") {
            self.exec_items(ctx, ArrayType::Slice);
        } else if str_eq(o, "name") {
            self.exec_name();
        }
    }
}


/// Where reading from `cur` stops: the first position at which the stream
/// has no token left.
pub open spec fn run_end(src: Seq<u8>, cur: int) -> int
    decreases src.len() + 2 - cur,
{
    match next_token_at(src, cur) {
        Step::Next(_, c) => if cur < c <= src.len() + 1 {
            run_end(src, c)
        } else {
            cur
        },
        _ => cur,
    }
}

impl SourceReader {
    /// Runs the machine over the rest of the stream; gives the names and the
    /// values that it leaves.
    fn run_tokens(&mut self, ctx: &mut ReaderContext) -> (r: (Vec<String>, Vec<RValue>))
        requires
            run(old(self).src(), old(self).pos(), start_state(old(ctx).env())) is Some,
            old(self).src().len() < usize::MAX,
        ensures
            ({
                let st = run(old(self).src(), old(self).pos(), start_state(old(ctx).env()))->0;
                &&& final(self).src() == old(self).src()
                &&& final(self).pos() == run_end(old(self).src(), old(self).pos())
                &&& final(ctx).env() == st.env
                &&& strings_view(r.0@) == st.names
                &&& rv_items(r.1@) == st.vals
            }),
    {
        let ghost src = self.source@;
        let ghost pos0 = self.cur as int;
        let ghost goal = run(src, pos0, start_state(ctx.env()));
        let mut stacks = Stacks {
            strs: Vec::new(),
            blobs: Vec::new(),
            ints: Vec::new(),
            vals: Vec::new(),
            names: Vec::new(),
        };
        assert(strings_view(stacks.strs@) =~= Seq::<Seq<char>>::empty());
        assert(strings_view(stacks.names@) =~= Seq::<Seq<char>>::empty());
        assert(blob_seq(stacks.blobs@) =~= Seq::<Seq<u8>>::empty());
        assert(rv_items(stacks.vals@) =~= Seq::<SValue>::empty());
        assert(stacks.state(ctx.env()) == start_state(ctx.env()));
        loop
            invariant
                self.source@ == src,
                src.len() < usize::MAX,
                goal is Some,
                run(src, self.cur as int, stacks.state(ctx.env())) == goal,
                run_end(src, self.cur as int) == run_end(src, pos0),
            ensures
                self.source@ == src,
                self.cur as int == run_end(src, pos0),
                stacks.state(ctx.env()) == goal->0,
            decreases src.len() + 2 - self.cur,
        {
            let ghost c0 = self.cur as int;
            let ghost st0 = stacks.state(ctx.env());
            proof {
                lemma_next_token_advances(src, c0);
            }
            let tok = self.next_token();
            match tok {
                None => {
                    break;
                },
                Some(t) => {
                    let ghost tv = t@;
                    match t {
                        Token::Str(x) => {
                            stacks.strs.push(x);
                            assert(strings_view(stacks.strs@) =~= st0.strs.push(x@));
                        },
                        Token::Bytes(x) => {
                            stacks.blobs.push(x);
                            assert(blob_seq(stacks.blobs@) =~= st0.blobs.push(x@));
                        },
                        Token::Int(x) => {
                            stacks.ints.push(x);
                        },
                        Token::Op(o) => {
                            stacks.apply(o.as_str(), ctx);
                        },
                    }
                    assert(stacks.state(ctx.env()) =~= step(st0, tv)->0);
                },
            }
        }
        (stacks.names, stacks.vals)
    }
}


/// What reading gives: each name with its value, lifted.
pub open spec fn named_values(st: RState) -> Seq<(Seq<char>, SValue)> {
    Seq::new(st.names.len(), |i: int| (st.names[i], lifted(st.vals[i])))
}

/// Reading the rest of the stream succeeds and leaves one value per name.
pub open spec fn reads_well(src: Seq<u8>, cur: int, env: Map<u64, SValue>) -> bool {
    &&& run(src, cur, start_state(env)) is Some
    &&& run(src, cur, start_state(env))->0.names.len() == run(src, cur, start_state(env))->0.vals.len()
}

impl SourceReader {
    /// Reads the rest of the stream: tokens push strings, blobs and integers,
    /// operators build values; then each value left is lifted and paired
    /// with its name.
    pub fn read_values(&mut self, ctx: &mut ReaderContext) -> (r: Vec<(String, RValue)>)
        requires
            reads_well(old(self).src(), old(self).pos(), old(ctx).env()),
            old(self).src().len() < usize::MAX,
        ensures
            ({
                let st = run(old(self).src(), old(self).pos(), start_state(old(ctx).env()))->0;
                &&& final(self).src() == old(self).src()
                &&& final(self).pos() == run_end(old(self).src(), old(self).pos())
                &&& final(ctx).env() == st.env
                &&& rv_fields(r@) == named_values(st)
            }),
    {
        let ghost st = run(self.src(), self.pos(), start_state(ctx.env()))->0;
        let (names, vals) = self.run_tokens(ctx);
        proof {
            crate::value::lemma_rv_items_len(vals@);
        }
        let mut out: Vec<(String, RValue)> = Vec::new();
        let mut i: usize = 0;
        while i < vals.len()
            invariant
                i <= vals@.len(),
                names@.len() == vals@.len(),
                strings_view(names@) == st.names,
                rv_items(vals@) == st.vals,
                st.vals.len() == vals@.len(),
                forall|j: int| 0 <= j < vals@.len() ==> #[trigger] st.vals[j] == rv(vals@[j]),
                rv_fields(out@) == named_values(st).take(i as int),
            decreases vals@.len() - i,
        {
            let (v, _) = crate::rvalue::lift_copy(&vals[i]);
            let n = names[i].clone();
            proof {
                crate::value::lemma_rv_fields_push(out@, (n, v));
                assert(named_values(st).take(i + 1) =~= named_values(st).take(i as int).push(
                    (st.names[i as int], lifted(st.vals[i as int])),
                ));
            }
            out.push((n, v));
            i = i + 1;
        }
        assert(named_values(st).take(i as int) =~= named_values(st));
        out
    }
}

/// A reader of the event stream: the bytes being read and the memory that
/// references point to.
#[derive(Debug)]
pub struct Reader {
    source: SourceReader,
    context: ReaderContext,
}

impl Reader {
    pub closed spec fn src(&self) -> Seq<u8> {
        self.source.src()
    }

    pub closed spec fn pos(&self) -> int {
        self.source.pos()
    }

    pub closed spec fn env(&self) -> Map<u64, SValue> {
        self.context.env()
    }

    /// A reader of an empty stream with an empty environment.
    pub fn new() -> (r: Reader)
        ensures
            r.src() == Seq::<u8>::empty(),
            r.pos() == 0,
            r.env() == Map::<u64, SValue>::empty(),
    {
        Reader { source: SourceReader::new(), context: ReaderContext::new() }
    }

    /// Reads the values of the rest of the stream, as `SourceReader::read_values`.
    pub fn read_values(&mut self) -> (r: Vec<(String, RValue)>)
        requires
            reads_well(old(self).src(), old(self).pos(), old(self).env()),
            old(self).src().len() < usize::MAX,
        ensures
            ({
                let st = run(old(self).src(), old(self).pos(), start_state(old(self).env()))->0;
                &&& final(self).src() == old(self).src()
                &&& final(self).pos() == run_end(old(self).src(), old(self).pos())
                &&& final(self).env() == st.env
                &&& rv_fields(r@) == named_values(st)
            }),
    {
        self.source.read_values(&mut self.context)
    }

    /// Reads a string token; `None` at the end of the stream.
    pub fn read_string(&mut self) -> (r: Option<String>)
        requires
            old(self).src().len() < usize::MAX,
            next_token_at(old(self).src(), old(self).pos()) is End
                || next_token_at(old(self).src(), old(self).pos()) matches Step::Next(SToken::Str(_), _),
        ensures
            final(self).src() == old(self).src(),
            final(self).env() == old(self).env(),
            match next_token_at(old(self).src(), old(self).pos()) {
                Step::Next(SToken::Str(s), c) => r matches Some(x) && x@ == s && final(self).pos() == c,
                _ => r is None && final(self).pos() == old(self).pos(),
            },
    {
        match self.source.next_token() {
            Some(Token::Str(s)) => Some(s),
            _ => None,
        }
    }

    /// Reads an integer token; `None` at the end of the stream.
    pub fn read_int(&mut self) -> (r: Option<u64>)
        requires
            old(self).src().len() < usize::MAX,
            next_token_at(old(self).src(), old(self).pos()) is End
                || next_token_at(old(self).src(), old(self).pos()) matches Step::Next(SToken::Int(_), _),
        ensures
            final(self).src() == old(self).src(),
            final(self).env() == old(self).env(),
            match next_token_at(old(self).src(), old(self).pos()) {
                Step::Next(SToken::Int(n), c) => r == Some(n) && final(self).pos() == c,
                _ => r is None && final(self).pos() == old(self).pos(),
            },
    {
        match self.source.next_token() {
            Some(Token::Int(i)) => Some(i),
            _ => None,
        }
    }

    /// Reads `source` from `offset` on; the environment stays.
    pub fn set_source(&mut self, source: Bytes, offset: usize)
        ensures
            final(self).src() == source@,
            final(self).pos() == offset,
            final(self).env() == old(self).env(),
    {
        self.source.set_source(source, offset)
    }
}


/// Bytes below 128 are valid UTF-8.
pub proof fn lemma_ascii_valid_utf8(s: Seq<u8>)
    requires
        forall|i: int| 0 <= i < s.len() ==> #[trigger] s[i] < 128,
    ensures
        valid_utf8(s),
    decreases s.len(),
{
    if s.len() > 0 {
        let b = s[0];
        assert(b < 128);
        assert((b & 0x7F) as u32 == b as u32) by (bit_vector)
            requires
                b < 128,
        ;
        assert(vstd::utf8::valid_first_scalar(s));
        assert(vstd::utf8::pop_first_scalar(s) =~= s.drop_first());
        lemma_ascii_valid_utf8(s.drop_first());
    }
}

/// `next_char_at` finds the first `c` from `q` on.
pub proof fn lemma_next_char_at_exact(src: Seq<u8>, q: int, k: int, c: u8)
    requires
        0 <= q <= k < src.len(),
        src[k] == c,
        forall|j: int| q <= j < k ==> src[j] != c,
    ensures
        next_char_at(src, q, c) == k,
    decreases k - q,
{
    if q < k {
        lemma_next_char_at_exact(src, q + 1, k, c);
    }
}

/// An integer token reads back as its integer.
pub proof fn lemma_read_int_token(src: Seq<u8>, pos: int, n: u64)
    requires
        0 <= pos,
        pos + crate::bytes::int_token(n as nat).len() <= src.len(),
        src.subrange(pos, pos + crate::bytes::int_token(n as nat).len()) == crate::bytes::int_token(
            n as nat,
        ),
    ensures
        next_token_at(src, pos) == Step::Next(
            SToken::Int(n),
            pos + crate::bytes::int_token(n as nat).len(),
        ),
{
    let d = crate::decimal::decimal(n as nat);
    let l = d.len() as int;
    crate::decimal::lemma_decimal_digits(n as nat);
    crate::decimal::lemma_parse_decimal(n);
    let t = crate::bytes::int_token(n as nat);
    assert(t == d.push(32u8));
    assert forall|j: int| pos <= j < pos + l implies src[j] != 32u8 by {
        assert(src.subrange(pos, pos + t.len())[j - pos] == t[j - pos]);
        assert(src[j] == d[j - pos]);
        assert(crate::decimal::is_digit(d[j - pos]));
    }
    assert(src.subrange(pos, pos + t.len())[l] == t[l]);
    assert(src[pos + l] == 32u8);
    lemma_next_char_at_exact(src, pos, pos + l, 32u8);
    let tok = src.subrange(pos, pos + l);
    assert(tok =~= d) by {
        assert forall|i: int| 0 <= i < l implies tok[i] == d[i] by {
            assert(src.subrange(pos, pos + t.len())[i] == t[i]);
        }
    }
    assert(crate::decimal::is_digit(d[0]));
    assert(tok != seq![34u8]);
    assert(tok != seq![35u8]);
    assert forall|i: int| 0 <= i < tok.len() implies #[trigger] tok[i] < 128 by {
        assert(crate::decimal::is_digit(d[i]));
    }
    lemma_ascii_valid_utf8(tok);
}


/// The UTF-8 encoding of characters other than `"` holds no byte 34.
pub proof fn lemma_encode_no_quote(chars: Seq<char>)
    requires
        !chars.contains('"'),
    ensures
        forall|i: int| 0 <= i < encode_utf8(chars).len() ==> #[trigger] encode_utf8(chars)[i] != 34u8,
    decreases chars.len(),
{
    if chars.len() > 0 {
        let c = chars[0];
        assert(c != '"') by {
            if c == '"' {
                assert(chars.contains('"'));
            }
        }
        let u = c as u32;
        vstd::utf8::char_is_scalar(c);
        assert(u != 34u32) by {
            if u == 34u32 {
                vstd::utf8::char_u32_cast(c, u);
                vstd::utf8::char_u32_cast('"', ('"' as u32));
                assert(('"' as u32) == 34u32);
            }
        }
        let e = vstd::utf8::encode_scalar(u);
        assert forall|i: int| 0 <= i < e.len() implies e[i] != 34u8 by {
            if vstd::utf8::has_width_1_encoding(u) {
                assert((u & 0x7F) as u8 != 34u8) by (bit_vector)
                    requires
                        u <= 0x7F,
                        u != 34u32,
                ;
            } else {
                assert(((0xC0u8 | ((u >> 6) & 0x1F) as u8) != 34u8) && ((0xE0u8 | ((u >> 12)
                    & 0x0F) as u8) != 34u8) && ((0xF0u8 | ((u >> 18) & 0x7) as u8) != 34u8) && ((0x80u8
                    | (u & 0x3F) as u8) != 34u8) && ((0x80u8 | ((u >> 6) & 0x3F) as u8) != 34u8)
                    && ((0x80u8 | ((u >> 12) & 0x3F) as u8) != 34u8)) by (bit_vector);
            }
        }
        let rest = chars.drop_first();
        assert(!rest.contains('"')) by {
            if rest.contains('"') {
                let j = choose|j: int| 0 <= j < rest.len() && rest[j] == '"';
                assert(chars[j + 1] == '"');
            }
        }
        lemma_encode_no_quote(rest);
        assert(encode_utf8(chars) == e + encode_utf8(rest));
    }
}

/// A string token reads back as its string.
pub proof fn lemma_read_str_token(src: Seq<u8>, pos: int, s: Seq<char>)
    requires
        0 <= pos,
        !s.contains('"'),
        pos + crate::bytes::str_token(s).len() <= src.len(),
        src.subrange(pos, pos + crate::bytes::str_token(s).len()) == crate::bytes::str_token(s),
    ensures
        next_token_at(src, pos) == Step::Next(
            SToken::Str(s),
            pos + crate::bytes::str_token(s).len(),
        ),
{
    let t = crate::bytes::str_token(s);
    let e = encode_utf8(s);
    let l = e.len() as int;
    assert(t == seq![34u8, 32u8] + e + seq![34u8]);
    assert forall|i: int| 0 <= i < t.len() implies src[pos + i] == t[i] by {
        assert(src.subrange(pos, pos + t.len())[i] == t[i]);
    }
    assert(t[0] == 34u8);
    assert(t[1] == 32u8);
    assert(t[2 + l] == 34u8);
    assert(src[pos] == 34u8);
    assert(src[pos + 1] == 32u8);
    lemma_next_char_at_exact(src, pos, pos + 1, 32u8);
    assert(src.subrange(pos, pos + 1) =~= seq![34u8]);
    lemma_encode_no_quote(s);
    assert forall|j: int| pos + 2 <= j < pos + 2 + l implies src[j] != 34u8 by {
        assert(t[j - pos] == e[j - pos - 2]);
    }
    assert(src[pos + 2 + l] == 34u8);
    lemma_next_char_at_exact(src, pos + 2, pos + 2 + l, 34u8);
    assert(src.subrange(pos + 2, pos + 2 + l) =~= e) by {
        assert forall|i: int| 0 <= i < l implies src.subrange(pos + 2, pos + 2 + l)[i] == e[i] by {
            assert(t[i + 2] == e[i]);
        }
    }
    vstd::utf8::encode_utf8_valid_utf8(s);
    vstd::utf8::encode_utf8_decode_utf8(s);
}

/// A step read after a prefix, with its position moved back by the
/// prefix's length.
pub open spec fn shift_step(st: Step, k: int) -> Step {
    match st {
        Step::Next(tok, c) => Step::Next(tok, c - k),
        other => other,
    }
}

proof fn lemma_next_char_shift(pre: Seq<u8>, src: Seq<u8>, q: int, c: u8)
    requires
        0 <= q,
    ensures
        next_char_at(pre + src, pre.len() + q, c) == pre.len() + next_char_at(src, q, c),
    decreases src.len() - q,
{
    let all = pre + src;
    if q >= src.len() - 1 {
    } else {
        assert(all[pre.len() + q] == src[q]);
        if src[q] != c {
            lemma_next_char_shift(pre, src, q + 1, c);
        }
    }
}

proof fn lemma_next_token_shift(pre: Seq<u8>, src: Seq<u8>, cur: int)
    requires
        0 <= cur,
    ensures
        shift_step(next_token_at(pre + src, pre.len() + cur), pre.len() as int) == next_token_at(src, cur),
{
    let all = pre + src;
    let k = pre.len() as int;
    if cur < src.len() {
        lemma_next_char_shift(pre, src, cur, 32u8);
        let q = next_char_at(src, cur, 32u8);
        lemma_next_char_at(src, cur, 32u8);
        assert(all.subrange(k + cur, k + q) =~= src.subrange(cur, q));
        let c2 = cur + 2;
        if c2 <= src.len() {
            lemma_next_char_shift(pre, src, c2, 34u8);
            let r = next_char_at(src, c2, 34u8);
            lemma_next_char_at(src, c2, 34u8);
            assert(all.subrange(k + c2, k + r) =~= src.subrange(c2, r));
        }
        if c2 + 4 <= src.len() {
            assert(all.subrange(k + c2, k + c2 + 4) =~= src.subrange(c2, c2 + 4));
            let l = crate::native::ne_value(src.subrange(c2, c2 + 4));
            if c2 + 4 + l <= src.len() {
                assert(all.subrange(k + c2 + 4, k + c2 + 4 + l) =~= src.subrange(c2 + 4, c2 + 4 + l));
            }
        }
    }
}

/// Reading after a prefix is reading the rest on its own.
pub proof fn lemma_run_shift(pre: Seq<u8>, src: Seq<u8>, cur: int, st: RState)
    requires
        0 <= cur,
    ensures
        run(pre + src, pre.len() + cur, st) == run(src, cur, st),
    decreases src.len() + 2 - cur,
{
    lemma_next_token_shift(pre, src, cur);
    match next_token_at(src, cur) {
        Step::Next(tok, c) => {
            if cur < c <= src.len() + 1 {
                match step(st, tok) {
                    Some(st2) => {
                        lemma_run_shift(pre, src, c, st2);
                    },
                    None => {},
                }
            }
        },
        _ => {},
    }
}

/// A name written as a string token, then an integer written as an integer
/// token, read back in turn as the name, as the integer, and then as the
/// end of the stream: what `Reader::read_string` and `Reader::read_int`
/// return on them.
pub proof fn law_string_then_int(s: Seq<char>, n: u64)
    requires
        !s.contains('"'),
    ensures
        ({
            let a = crate::bytes::str_token(s);
            let b = crate::bytes::int_token(n as nat);
            let src = a + b;
            &&& next_token_at(src, 0) == Step::Next(SToken::Str(s), a.len() as int)
            &&& next_token_at(src, a.len() as int) == Step::Next(SToken::Int(n), src.len() as int)
            &&& next_token_at(src, src.len() as int) == Step::End
        }),
{
    let a = crate::bytes::str_token(s);
    let b = crate::bytes::int_token(n as nat);
    let src = a + b;
    assert(src.subrange(0, a.len() as int) =~= a);
    lemma_read_str_token(src, 0, s);
    assert(src.subrange(a.len() as int, (a.len() + b.len()) as int) =~= b);
    lemma_read_int_token(src, a.len() as int, n);
}

/// Two integers written as integer tokens, read back in turn as the first,
/// as the second, and then as the end of the stream: what
/// `Reader::read_int` returns on them.
pub proof fn law_int_then_int(m: u64, n: u64)
    ensures
        ({
            let a = crate::bytes::int_token(m as nat);
            let b = crate::bytes::int_token(n as nat);
            let src = a + b;
            &&& next_token_at(src, 0) == Step::Next(SToken::Int(m), a.len() as int)
            &&& next_token_at(src, a.len() as int) == Step::Next(SToken::Int(n), src.len() as int)
            &&& next_token_at(src, src.len() as int) == Step::End
        }),
{
    let a = crate::bytes::int_token(m as nat);
    let b = crate::bytes::int_token(n as nat);
    let src = a + b;
    assert(src.subrange(0, a.len() as int) =~= a);
    lemma_read_int_token(src, 0, m);
    assert(src.subrange(a.len() as int, (a.len() + b.len()) as int) =~= b);
    lemma_read_int_token(src, a.len() as int, n);
}

/// The name of the primitive type that a value belongs to, as the stream
/// names it.
pub open spec fn pvalue_type_name(p: PValue) -> Seq<char> {
    match p {
        PValue::bool(_) => "bool"@,
        PValue::char(_) => "char"@,
        PValue::u8(_) => "u8"@,
        PValue::i8(_) => "i8"@,
        PValue::u16(_) => "u16"@,
        PValue::i16(_) => "i16"@,
        PValue::u32(_) => "u32"@,
        PValue::i32(_) => "i32"@,
        PValue::u64(_) => "u64"@,
        PValue::i64(_) => "i64"@,
        PValue::usize(_) => "usize"@,
        PValue::isize(_) => "isize"@,
        PValue::u128(_) => "u128"@,
        PValue::i128(_) => "i128"@,
        PValue::float32(_) => "f32"@,
        PValue::float64(_) => "f64"@,
    }
}

/// The number that a value of an unsigned integer type, or the bits of a
/// floating point number, denote; zero for any other value.
pub open spec fn pvalue_bits(p: PValue) -> int {
    match p {
        PValue::u8(x) => x as int,
        PValue::u16(x) => x as int,
        PValue::u32(x) => x as int,
        PValue::u64(x) => x as int,
        PValue::usize(x) => x as int,
        PValue::u128(x) => x as int,
        PValue::float32(x) => x as int,
        PValue::float64(x) => x as int,
        PValue::char(c) => c as int,
        PValue::bool(x) => if x {
            1
        } else {
            0
        },
        _ => 0,
    }
}

/// A type name whose values are unsigned integers or floating point
/// numbers, kept by their bits.
pub open spec fn bits_type_name(ty: Seq<char>) -> bool {
    ty == "u8"@ || ty == "u16"@ || ty == "u32"@ || ty == "u64"@ || ty == "usize"@ || ty == "u128"@
        || ty == "f32"@ || ty == "f64"@
}

/// The width in bytes of a primitive of type `ty`, where there is one
/// width.
pub open spec fn fixed_width(ty: Seq<char>) -> int {
    if ty == "u8"@ || ty == "i8"@ || ty == "bool"@ {
        1
    } else if ty == "u16"@ || ty == "i16"@ {
        2
    } else if ty == "u32"@ || ty == "i32"@ || ty == "f32"@ || ty == "char"@ {
        4
    } else if ty == "u64"@ || ty == "i64"@ || ty == "f64"@ || ty == "usize"@ || ty == "isize"@ {
        8
    } else if ty == "u128"@ || ty == "i128"@ {
        16
    } else {
        0
    }
}

/// Reading the bytes of a primitive gives a value of the type that the
/// stream names; for an unsigned integer or a floating point number, one
/// whose bits are the number that the bytes denote in the machine's byte
/// order. Bytes of the width of a number type are always read.
pub proof fn law_prim_reads_as_named(ty: Seq<char>, b: Seq<u8>)
    ensures
        prim_spec(ty, b) matches Some(SValue::Prim(p)) ==> pvalue_type_name(p) == ty,
        bits_type_name(ty) ==> (prim_spec(ty, b) matches Some(SValue::Prim(p)) ==> pvalue_bits(p)
            == ne_value(b)),
        bits_type_name(ty) && b.len() == fixed_width(ty) ==> prim_spec(ty, b) is Some,
        ty == "f32"@ && b.len() == 4 ==> prim_spec(ty, b) == Some(
            SValue::Prim(PValue::float32(ne_value(b) as u32)),
        ),
        ty == "f64"@ && b.len() == 8 ==> prim_spec(ty, b) == Some(
            SValue::Prim(PValue::float64(ne_value(b) as u64)),
        ),
        ty == "char"@ ==> (prim_spec(ty, b) matches Some(SValue::Prim(p)) ==> pvalue_bits(p)
            == ne_value(b)),
        ty == "bool"@ ==> (prim_spec(ty, b) matches Some(SValue::Prim(p)) ==> pvalue_bits(p) == (
        if b[0] != 0 {
            1int
        } else {
            0int
        })),
{
    reveal_strlit("bool");
    reveal_strlit("char");
    reveal_strlit("u8");
    reveal_strlit("i8");
    reveal_strlit("u16");
    reveal_strlit("i16");
    reveal_strlit("u32");
    reveal_strlit("i32");
    reveal_strlit("u64");
    reveal_strlit("i64");
    reveal_strlit("usize");
    reveal_strlit("isize");
    reveal_strlit("u128");
    reveal_strlit("i128");
    reveal_strlit("f32");
    reveal_strlit("f64");
    crate::native::lemma_ne_value_bound(b);
    crate::native::lemma_pow256_values();
    assert("bool"@[0] == 'b' && "bool"@[1] == 'o' && "bool"@.len() == 4);
    assert("char"@[0] == 'c' && "char"@[1] == 'h' && "char"@.len() == 4);
    assert("u8"@[0] == 'u' && "u8"@[1] == '8' && "u8"@.len() == 2);
    assert("i8"@[0] == 'i' && "i8"@[1] == '8' && "i8"@.len() == 2);
    assert("u16"@[0] == 'u' && "u16"@[1] == '1' && "u16"@.len() == 3);
    assert("i16"@[0] == 'i' && "i16"@[1] == '1' && "i16"@.len() == 3);
    assert("u32"@[0] == 'u' && "u32"@[1] == '3' && "u32"@.len() == 3);
    assert("i32"@[0] == 'i' && "i32"@[1] == '3' && "i32"@.len() == 3);
    assert("u64"@[0] == 'u' && "u64"@[1] == '6' && "u64"@.len() == 3);
    assert("i64"@[0] == 'i' && "i64"@[1] == '6' && "i64"@.len() == 3);
    assert("usize"@[0] == 'u' && "usize"@[1] == 's' && "usize"@.len() == 5);
    assert("isize"@[0] == 'i' && "isize"@[1] == 's' && "isize"@.len() == 5);
    assert("u128"@[0] == 'u' && "u128"@[1] == '1' && "u128"@.len() == 4);
    assert("i128"@[0] == 'i' && "i128"@[1] == '1' && "i128"@.len() == 4);
    assert("f32"@[0] == 'f' && "f32"@[1] == '3' && "f32"@.len() == 3);
    assert("f64"@[0] == 'f' && "f64"@[1] == '6' && "f64"@.len() == 3);
    let u = ne_value(b);
    if bits_type_name(ty) {
        if b.len() == 1 {
            assert(u < 0x100);
        } else if b.len() == 2 {
            assert(u < 0x1_0000);
        } else if b.len() == 4 {
            assert(u < 0x1_0000_0000);
        } else if b.len() == 8 {
            assert(u < 0x1_0000_0000_0000_0000);
        } else if b.len() == 16 {
            assert(u < 0x1_0000_0000_0000_0000_0000_0000_0000_0000);
        }
    }
}

/// The value of a signed integer; zero for any other value.
pub open spec fn pvalue_signed(p: PValue) -> int {
    match p {
        PValue::i8(x) => x as int,
        PValue::i16(x) => x as int,
        PValue::i32(x) => x as int,
        PValue::i64(x) => x as int,
        PValue::isize(x) => x as int,
        PValue::i128(x) => x as int,
        _ => 0,
    }
}

/// A signed integer type name.
pub open spec fn signed_type_name(ty: Seq<char>) -> bool {
    ty == "i8"@ || ty == "i16"@ || ty == "i32"@ || ty == "i64"@ || ty == "isize"@ || ty == "i128"@
}

/// Reading the bytes of a signed integer gives the two's complement value
/// that they denote: the one value in the range of that many bytes that
/// is congruent to the number the bytes denote in the machine's byte order.
pub proof fn law_signed_prim_reads(ty: Seq<char>, b: Seq<u8>)
    requires
        signed_type_name(ty),
    ensures
        prim_spec(ty, b) matches Some(SValue::Prim(p)) ==> ({
            let m = crate::native::pow256(b.len()) as int;
            &&& -(m / 2) <= pvalue_signed(p) < m / 2
            &&& (pvalue_signed(p) - ne_value(b)) % m == 0
        }),
{
    reveal_strlit("bool");
    reveal_strlit("char");
    reveal_strlit("u8");
    reveal_strlit("i8");
    reveal_strlit("u16");
    reveal_strlit("i16");
    reveal_strlit("u32");
    reveal_strlit("i32");
    reveal_strlit("u64");
    reveal_strlit("i64");
    reveal_strlit("usize");
    reveal_strlit("isize");
    reveal_strlit("u128");
    reveal_strlit("i128");
    reveal_strlit("f32");
    reveal_strlit("f64");
    assert("bool"@[0] == 'b' && "bool"@[1] == 'o' && "bool"@.len() == 4);
    assert("char"@[0] == 'c' && "char"@[1] == 'h' && "char"@.len() == 4);
    assert("u8"@[0] == 'u' && "u8"@[1] == '8' && "u8"@.len() == 2);
    assert("i8"@[0] == 'i' && "i8"@[1] == '8' && "i8"@.len() == 2);
    assert("u16"@[0] == 'u' && "u16"@[1] == '1' && "u16"@.len() == 3);
    assert("i16"@[0] == 'i' && "i16"@[1] == '1' && "i16"@.len() == 3);
    assert("u32"@[0] == 'u' && "u32"@[1] == '3' && "u32"@.len() == 3);
    assert("i32"@[0] == 'i' && "i32"@[1] == '3' && "i32"@.len() == 3);
    assert("u64"@[0] == 'u' && "u64"@[1] == '6' && "u64"@.len() == 3);
    assert("i64"@[0] == 'i' && "i64"@[1] == '6' && "i64"@.len() == 3);
    assert("usize"@[0] == 'u' && "usize"@[1] == 's' && "usize"@.len() == 5);
    assert("isize"@[0] == 'i' && "isize"@[1] == 's' && "isize"@.len() == 5);
    assert("u128"@[0] == 'u' && "u128"@[1] == '1' && "u128"@.len() == 4);
    assert("i128"@[0] == 'i' && "i128"@[1] == '1' && "i128"@.len() == 4);
    assert("f32"@[0] == 'f' && "f32"@[1] == '3' && "f32"@.len() == 3);
    assert("f64"@[0] == 'f' && "f64"@[1] == '6' && "f64"@.len() == 3);
    crate::native::lemma_ne_value_bound(b);
    crate::native::lemma_pow256_values();
    let m = crate::native::pow256(b.len()) as int;
    let u = ne_value(b) as int;
    if prim_spec(ty, b) is Some {
        let sv = signed_value(b, b.len());
        assert(b.len() == 1 || b.len() == 2 || b.len() == 4 || b.len() == 8 || b.len() == 16);
        assert(m == 0x100 || m == 0x1_0000 || m == 0x1_0000_0000 || m == 0x1_0000_0000_0000_0000
            || m == 0x1_0000_0000_0000_0000_0000_0000_0000_0000);
        assert(sv == u - m || sv == u);
        assert(-(m / 2) <= sv < m / 2);
        assert((sv - u) % m == 0) by {
            if sv == u - m {
                assert(sv - u == -m);
                vstd::arithmetic::div_mod::lemma_mod_self_0(m);
                assert((-m) % m == 0) by (nonlinear_arith)
                    requires
                        m > 0,
                ;
            } else {
                assert(sv - u == 0);
            }
        }
    }
}

} // verus!
