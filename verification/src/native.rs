//! Native byte order of fixed-width unsigned integers.
//!
//! The event stream stores integers in the byte order of the machine that
//! writes it. Which order that is stays abstract here: it is
//! `vstd::endian::endianness()`, and every statement holds for either order.
use vstd::prelude::*;
use vstd::endian::{endianness, Endian};

verus! {

/// `256` to the power `n`.
pub open spec fn pow256(n: nat) -> nat
    decreases n,
{
    if n == 0 {
        1
    } else {
        256 * pow256((n - 1) as nat)
    }
}

/// The number that `b` denotes when its first byte is the least significant.
pub open spec fn le_value(b: Seq<u8>) -> nat
    decreases b.len(),
{
    if b.len() == 0 {
        0
    } else {
        b[0] as nat + 256 * le_value(b.drop_first())
    }
}

/// The `n` least significant bytes of `v`, least significant first.
pub open spec fn le_bytes(v: nat, n: nat) -> Seq<u8>
    decreases n,
{
    if n == 0 {
        Seq::empty()
    } else {
        seq![(v % 256) as u8] + le_bytes(v / 256, (n - 1) as nat)
    }
}

/// `s` in reverse order.
pub open spec fn rev(s: Seq<u8>) -> Seq<u8> {
    Seq::new(s.len(), |i: int| s[s.len() - 1 - i])
}

/// True on a machine that stores the least significant byte first.
pub open spec fn native_little() -> bool {
    endianness() is Little
}

/// The number that `b` denotes in the machine's byte order.
pub open spec fn ne_value(b: Seq<u8>) -> nat {
    if native_little() {
        le_value(b)
    } else {
        le_value(rev(b))
    }
}

/// The `n`-byte representation of `v` in the machine's byte order.
pub open spec fn ne_bytes(v: nat, n: nat) -> Seq<u8> {
    if native_little() {
        le_bytes(v, n)
    } else {
        rev(le_bytes(v, n))
    }
}

pub proof fn lemma_pow256_pos(n: nat)
    ensures
        pow256(n) >= 1,
    decreases n,
{
    if n > 0 {
        lemma_pow256_pos((n - 1) as nat);
    }
}

pub proof fn lemma_pow256_values()
    ensures
        pow256(1) == 0x100,
        pow256(2) == 0x1_0000,
        pow256(4) == 0x1_0000_0000,
        pow256(8) == 0x1_0000_0000_0000_0000,
        pow256(15) == 0x1_0000_0000_0000_0000_0000_0000_0000_00,
        pow256(16) == 0x1_0000_0000_0000_0000_0000_0000_0000_0000,
{
    reveal_with_fuel(pow256, 17);
}

pub proof fn lemma_le_bytes_len(v: nat, n: nat)
    ensures
        le_bytes(v, n).len() == n,
    decreases n,
{
    if n > 0 {
        lemma_le_bytes_len(v / 256, (n - 1) as nat);
    }
}

pub proof fn lemma_le_value_bound(b: Seq<u8>)
    ensures
        le_value(b) < pow256(b.len()),
    decreases b.len(),
{
    if b.len() > 0 {
        lemma_le_value_bound(b.drop_first());
    }
}

/// Decoding what `le_bytes` wrote gives the value back, reduced to `n` bytes.
pub proof fn lemma_le_roundtrip(v: nat, n: nat)
    ensures
        le_value(le_bytes(v, n)) == v % pow256(n),
    decreases n,
{
    if n > 0 {
        let rest = le_bytes(v / 256, (n - 1) as nat);
        assert(le_bytes(v, n).drop_first() =~= rest);
        lemma_le_roundtrip(v / 256, (n - 1) as nat);
        lemma_pow256_pos((n - 1) as nat);
        let p = pow256((n - 1) as nat);
        assert(v % (256 * p) == v % 256 + 256 * ((v / 256) % p)) by (nonlinear_arith)
            requires
                p >= 1,
        {
            vstd::arithmetic::div_mod::lemma_breakdown(v as int, 256, p as int);
        }
    }
}

pub proof fn lemma_rev_rev(s: Seq<u8>)
    ensures
        rev(rev(s)) =~= s,
        rev(s).len() == s.len(),
{
}

/// Decoding in the machine's order what was encoded in it gives the value back.
pub proof fn lemma_ne_roundtrip(v: nat, n: nat)
    ensures
        ne_value(ne_bytes(v, n)) == v % pow256(n),
        ne_bytes(v, n).len() == n,
{
    lemma_le_roundtrip(v, n);
    lemma_le_bytes_len(v, n);
    lemma_rev_rev(le_bytes(v, n));
}

pub proof fn lemma_ne_value_bound(b: Seq<u8>)
    ensures
        ne_value(b) < pow256(b.len()),
{
    lemma_le_value_bound(b);
    lemma_le_value_bound(rev(b));
}

/// `u16::to_ne_bytes`: the two bytes of `x` in the machine's byte order.
#[verifier::external_body]
fn u16_to_ne_bytes(x: u16) -> (r: [u8; 2])
    ensures
        r@ == ne_bytes(x as nat, 2),
{
    x.to_ne_bytes()
}

/// Whether the machine stores the least significant byte first.
pub fn is_little_endian() -> (r: bool)
    ensures
        r == native_little(),
{
    let b = u16_to_ne_bytes(1);
    proof {
        reveal_with_fuel(le_bytes, 3);
        assert(le_bytes(1, 2) =~= seq![1u8, 0u8]);
    }
    b[0] == 1
}

/// The `n` least significant bytes of `v`, in the machine's byte order.
pub fn encode_uint(v: u128, n: usize) -> (r: Vec<u8>)
    requires
        n <= 16,
    ensures
        r@ == ne_bytes(v as nat, n as nat),
{
    let little = is_little_endian();
    let mut le: Vec<u8> = Vec::new();
    let mut rest: u128 = v;
    let mut i: usize = 0;
    while i < n
        invariant
            i <= n,
            le@ + le_bytes(rest as nat, (n - i) as nat) == le_bytes(v as nat, n as nat),
        decreases n - i,
    {
        let ghost old_le = le@;
        let ghost old_rest = rest;
        assert(le_bytes(rest as nat, (n - i) as nat) =~= seq![(rest % 256) as u8] + le_bytes(
            (rest / 256) as nat,
            (n - i - 1) as nat,
        ));
        le.push((rest % 256) as u8);
        rest = rest / 256;
        i = i + 1;
        assert(le@ + le_bytes(rest as nat, (n - i) as nat) =~= old_le + le_bytes(
            old_rest as nat,
            (n - i + 1) as nat,
        ));
    }
    assert(le@ =~= le_bytes(v as nat, n as nat));
    proof {
        lemma_le_bytes_len(v as nat, n as nat);
    }
    if little {
        le
    } else {
        let mut out: Vec<u8> = Vec::new();
        let mut j: usize = n;
        while j > 0
            invariant
                j <= n,
                le@.len() == n,
                out@ =~= rev(le@).subrange(0, (n - j) as int),
            decreases j,
        {
            j = j - 1;
            out.push(le[j]);
        }
        out
    }
}

/// The number that `b` denotes in the machine's byte order.
pub fn decode_uint(b: &[u8]) -> (r: u128)
    requires
        b@.len() <= 16,
    ensures
        r == ne_value(b@),
{
    let little = is_little_endian();
    let n = b.len();
    let ghost src = if little {
        b@
    } else {
        rev(b@)
    };
    let mut acc: u128 = 0;
    let mut i: usize = n;
    while i > 0
        invariant
            n == b@.len(),
            n <= 16,
            i <= n,
            src.len() == n,
            little ==> src == b@,
            !little ==> src == rev(b@),
            acc == le_value(src.subrange(i as int, n as int)),
        decreases i,
    {
        i = i - 1;
        let byte = if little {
            b[i]
        } else {
            b[n - 1 - i]
        };
        assert(src[i as int] == byte);
        let ghost tail = src.subrange(i as int, n as int);
        assert(tail.drop_first() =~= src.subrange(i + 1, n as int));
        proof {
            lemma_le_value_bound(src.subrange(i + 1, n as int));
            assert(pow256((n - i - 1) as nat) <= pow256(15)) by {
                lemma_pow256_mono((n - i - 1) as nat, 15);
            }
            lemma_pow256_values();
            reveal_with_fuel(pow256, 17);
        }
        acc = byte as u128 + 256 * acc;
    }
    assert(src.subrange(0, n as int) =~= src);
    acc
}

pub proof fn lemma_pow256_mono(a: nat, b: nat)
    requires
        a <= b,
    ensures
        pow256(a) <= pow256(b),
    decreases b,
{
    if a < b {
        lemma_pow256_mono(a, (b - 1) as nat);
        lemma_pow256_pos((b - 1) as nat);
    }
}

} // verus!
