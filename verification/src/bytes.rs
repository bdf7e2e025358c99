use vstd::prelude::*;
use vstd::utf8::encode_utf8;
use crate::decimal::{decimal, decimal_bytes};
use crate::native::{encode_uint, ne_bytes};

verus! {

/// Blob of bytes, backed by a `Vec<u8>`.
#[derive(Debug, PartialEq, Eq, PartialOrd, Ord, Hash)]
pub struct Bytes(Vec<u8>);

impl Clone for Bytes {
    fn clone(&self) -> (r: Self)
        ensures
            r@ == self@,
    {
        let v = self.0.clone();
        assert(v@ =~= self.0@);
        Bytes(v)
    }
}

impl View for Bytes {
    type V = Seq<u8>;

    closed spec fn view(&self) -> Seq<u8> {
        self.0@
    }
}

/// The two bytes `"` and space that open a string token.
pub open spec fn str_open() -> Seq<u8> {
    seq![34u8, 32u8]
}

/// The two bytes `#` and space that open a bytes token.
pub open spec fn blob_open() -> Seq<u8> {
    seq![35u8, 32u8]
}

/// The bytes of a string token holding `s`.
pub open spec fn str_token(s: Seq<char>) -> Seq<u8> {
    str_open() + encode_utf8(s) + seq![34u8]
}

/// The bytes of an integer token holding `i` (with its trailing space).
pub open spec fn int_token(i: nat) -> Seq<u8> {
    decimal(i).push(32u8)
}

/// The bytes of a bytes token holding `b`: its length in four bytes of the
/// machine's byte order (reduced modulo 2^32, as a cast to `u32` does), then `b`.
pub open spec fn blob_token(b: Seq<u8>) -> Seq<u8> {
    blob_open() + ne_bytes(b.len() % 0x1_0000_0000, 4) + b
}

impl Bytes {
    /// An empty blob.
    pub fn new() -> (r: Self)
        ensures
            r@ == Seq::<u8>::empty(),
    {
        Bytes(Vec::new())
    }

    /// Number of bytes held.
    pub fn len(&self) -> (r: usize)
        ensures
            r == self@.len(),
    {
        self.0.len()
    }

    /// The byte at index `i`.
    pub fn get(&self, i: usize) -> (r: u8)
        requires
            i < self@.len(),
        ensures
            r == self@[i as int],
    {
        self.0[i]
    }

    /// The bytes in `[p, q)`.
    pub fn slice(&self, p: usize, q: usize) -> (r: &[u8])
        requires
            p <= q <= self@.len(),
        ensures
            r@ == self@.subrange(p as int, q as int),
    {
        vstd::slice::slice_subrange(self.0.as_slice(), p, q)
    }

    /// Appends one byte.
    pub fn push_byte(&mut self, byte: u8)
        ensures
            final(self)@ == old(self)@.push(byte),
    {
        self.0.push(byte);
    }

    /// Appends all bytes of another blob.
    pub fn push_bytes(&mut self, bytes: Self)
        ensures
            final(self)@ == old(self)@ + bytes@,
    {
        let mut other = bytes.0;
        self.0.append(&mut other);
    }

    /// Appends the bytes of a slice.
    pub fn push_slice(&mut self, bytes: &[u8])
        ensures
            final(self)@ == old(self)@ + bytes@,
    {
        let ghost start = self@;
        let mut i: usize = 0;
        while i < bytes.len()
            invariant
                i <= bytes@.len(),
                self@ =~= start + bytes@.subrange(0, i as int),
            decreases bytes@.len() - i,
        {
            self.0.push(bytes[i]);
            i = i + 1;
        }
        assert(bytes@.subrange(0, bytes@.len() as int) =~= bytes@);
    }

    /// Appends the UTF-8 bytes of a string.
    pub fn push_string(&mut self, string: String)
        ensures
            final(self)@ == old(self)@ + encode_utf8(string@),
    {
        self.push_slice(string.as_str().as_bytes());
    }

    /// Appends the UTF-8 bytes of a string slice.
    pub fn push_str(&mut self, str: &str)
        ensures
            final(self)@ == old(self)@ + encode_utf8(str@),
    {
        self.push_slice(str.as_bytes());
    }

    /// Removes all bytes.
    pub fn clear(&mut self)
        ensures
            final(self)@ == Seq::<u8>::empty(),
    {
        self.0.clear();
    }

    /// The bytes held, as a slice.
    pub fn as_bytes(&self) -> (r: &[u8])
        ensures
            r@ == self@,
    {
        self.0.as_slice()
    }

    /// The bytes held, as a vector.
    pub fn into_bytes(self) -> (r: Vec<u8>)
        ensures
            r@ == self@,
    {
        self.0
    }

    /// Wraps a vector of bytes.
    pub fn from_vec(bytes: Vec<u8>) -> (r: Self)
        ensures
            r@ == bytes@,
    {
        Bytes(bytes)
    }

    /// The `n` least significant bytes of `v` in the machine's byte order,
    /// as `to_ne_bytes` gives them for an integer of `n` bytes.
    pub fn from_uint(v: u128, n: usize) -> (r: Self)
        requires
            n <= 16,
        ensures
            r@ == ne_bytes(v as nat, n as nat),
    {
        Bytes(encode_uint(v, n))
    }

    /// Emits a string token. The string must not hold a `"`.
    pub fn identifier(&mut self, s: &str)
        requires
            !s@.contains('"'),
        ensures
            final(self)@ == old(self)@ + str_token(s@),
    {
        let ghost start = self@;
        self.push_byte(34u8);
        self.push_byte(32u8);
        self.push_slice(s.as_bytes());
        self.push_byte(34u8);
        assert(self@ =~= start + str_token(s@));
    }

    /// Emits an integer token.
    pub fn integer<I: Integer>(&mut self, i: I)
        ensures
            final(self)@ == old(self)@ + int_token(i.value() as nat),
    {
        let ghost start = self@;
        let digits = decimal_bytes(i.as_u64());
        self.push_slice(digits.as_slice());
        self.space();
        assert(self@ =~= start + int_token(i.value() as nat));
    }

    /// Emits a bytes token.
    pub fn blob(&mut self, bytes: Bytes)
        ensures
            final(self)@ == old(self)@ + blob_token(bytes@),
    {
        let ghost start = self@;
        self.push_byte(35u8);
        self.push_byte(32u8);
        let len = (bytes.len() as u64 % 0x1_0000_0000u64) as u128;
        let header = encode_uint(len, 4);
        self.push_slice(header.as_slice());
        self.push_bytes(bytes);
        assert(self@ =~= start + blob_token(bytes@));
    }

    /// Emits a bytes token from a slice.
    pub fn blob_slice(&mut self, bytes: &[u8])
        ensures
            final(self)@ == old(self)@ + blob_token(bytes@),
    {
        let ghost start = self@;
        self.push_byte(35u8);
        self.push_byte(32u8);
        let len = (bytes.len() as u64 % 0x1_0000_0000u64) as u128;
        let header = encode_uint(len, 4);
        self.push_slice(header.as_slice());
        self.push_slice(bytes);
        assert(self@ =~= start + blob_token(bytes@));
    }

    /// Emits a token separator.
    pub fn space(&mut self)
        ensures
            final(self)@ == old(self)@.push(32u8),
    {
        self.push_byte(32u8);
    }
}

impl Default for Bytes {
    fn default() -> (r: Self)
        ensures
            r@ == Seq::<u8>::empty(),
    {
        Self::new()
    }
}

impl From<Vec<u8>> for Bytes {
    fn from(bytes: Vec<u8>) -> (r: Self) {
        Bytes(bytes)
    }
}

impl vstd::std_specs::convert::FromSpecImpl<Vec<u8>> for Bytes {
    open spec fn obeys_from_spec() -> bool {
        true
    }

    closed spec fn from_spec(bytes: Vec<u8>) -> Bytes {
        Bytes(bytes)
    }
}

/// Wrapping a vector keeps its bytes.
pub proof fn lemma_from_vec_view(bytes: Vec<u8>)
    ensures
        <Bytes as vstd::std_specs::convert::FromSpec<Vec<u8>>>::from_spec(bytes)@ == bytes@,
{
}

/// An unsigned integer that can be written as an integer token:
/// `usize`, `u64` or `u32`.
pub trait Integer {
    spec fn value(&self) -> u64;

    fn as_u64(&self) -> (r: u64)
        ensures
            r == self.value(),
    ;
}

impl Integer for u64 {
    open spec fn value(&self) -> u64 {
        *self
    }

    fn as_u64(&self) -> (r: u64) {
        *self
    }
}

impl Integer for u32 {
    open spec fn value(&self) -> u64 {
        *self as u64
    }

    fn as_u64(&self) -> (r: u64) {
        *self as u64
    }
}

impl Integer for usize {
    open spec fn value(&self) -> u64 {
        *self as u64
    }

    fn as_u64(&self) -> (r: u64) {
        *self as u64
    }
}

} // verus!
