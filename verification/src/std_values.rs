//! Values of standard library types as they lie in memory: the buckets of
//! a hash table, the order in which its entries are written, and the
//! bit-packed representation of `std::io::Error`.
use vstd::prelude::*;
use crate::bytes::Bytes;

verus! {

/// Comparing two byte strings from position `i` on: by the first byte where
/// they differ, else the shorter first.
pub open spec fn bytes_lt_from(a: Seq<u8>, b: Seq<u8>, i: int) -> bool
    decreases a.len() - i,
{
    if i >= a.len() {
        i < b.len()
    } else if i >= b.len() {
        false
    } else if a[i] != b[i] {
        a[i] < b[i]
    } else {
        bytes_lt_from(a, b, i + 1)
    }
}

/// `a` comes before `b` in the order of byte strings.
pub open spec fn bytes_lt(a: Seq<u8>, b: Seq<u8>) -> bool {
    bytes_lt_from(a, b, 0)
}

/// `a` comes before `b`, or is `b`.
pub open spec fn bytes_le(a: Seq<u8>, b: Seq<u8>) -> bool {
    a == b || bytes_lt(a, b)
}

proof fn lemma_bytes_lt_irreflexive(a: Seq<u8>, i: int)
    requires
        0 <= i,
    ensures
        !bytes_lt_from(a, a, i),
    decreases a.len() - i,
{
    if i < a.len() {
        lemma_bytes_lt_irreflexive(a, i + 1);
    }
}

proof fn lemma_bytes_lt_total(a: Seq<u8>, b: Seq<u8>, i: int)
    requires
        0 <= i <= a.len(),
        i <= b.len(),
        a.subrange(0, i) == b.subrange(0, i),
        a != b,
    ensures
        bytes_lt_from(a, b, i) || bytes_lt_from(b, a, i),
    decreases a.len() - i,
{
    if i < a.len() && i < b.len() && a[i] == b[i] {
        assert(a.subrange(0, i + 1) =~= a.subrange(0, i).push(a[i]));
        assert(b.subrange(0, i + 1) =~= b.subrange(0, i).push(b[i]));
        lemma_bytes_lt_total(a, b, i + 1);
    } else if i >= a.len() && i >= b.len() {
        assert(a =~= a.subrange(0, i));
        assert(b =~= b.subrange(0, i));
    }
}

proof fn lemma_bytes_lt_transitive(a: Seq<u8>, b: Seq<u8>, c: Seq<u8>, i: int)
    requires
        0 <= i,
        bytes_lt_from(a, b, i),
        bytes_lt_from(b, c, i),
    ensures
        bytes_lt_from(a, c, i),
    decreases a.len() - i,
{
    if i < a.len() && i < b.len() && i < c.len() && a[i] == b[i] && b[i] == c[i] {
        lemma_bytes_lt_transitive(a, b, c, i + 1);
    }
}

proof fn lemma_bytes_le_transitive(a: Seq<u8>, b: Seq<u8>, c: Seq<u8>)
    requires
        bytes_le(a, b),
        bytes_le(b, c),
    ensures
        bytes_le(a, c),
{
    if a != b && b != c {
        lemma_bytes_lt_transitive(a, b, c, 0);
    }
}

/// Whether `a` comes before `b`, or is `b`, in the order of byte strings.
pub fn bytes_less_eq(a: &Bytes, b: &Bytes) -> (r: bool)
    ensures
        r == bytes_le(a@, b@),
{
    let x = a.as_bytes();
    let y = b.as_bytes();
    let mut i: usize = 0;
    while i < x.len() && i < y.len()
        invariant
            x@ == a@,
            y@ == b@,
            i <= x@.len(),
            i <= y@.len(),
            x@.subrange(0, i as int) == y@.subrange(0, i as int),
            bytes_lt_from(a@, b@, 0) == bytes_lt_from(a@, b@, i as int),
        decreases x@.len() - i,
    {
        if x[i] != y[i] {
            assert(x@ != y@) by {
                assert(x@[i as int] != y@[i as int]);
            }
            return x[i] < y[i];
        }
        assert(x@.subrange(0, i + 1) =~= x@.subrange(0, i as int).push(x@[i as int]));
        assert(y@.subrange(0, i + 1) =~= y@.subrange(0, i as int).push(y@[i as int]));
        i = i + 1;
    }
    if x.len() == y.len() {
        assert(x@ =~= x@.subrange(0, i as int));
        assert(y@ =~= y@.subrange(0, i as int));
        true
    } else {
        proof {
            if x@.len() > y@.len() {
                assert(x@ != y@);
            }
        }
        i < y.len()
    }
}

/// The contents of a sequence of byte buffers.
pub open spec fn contents(s: Seq<Bytes>) -> Seq<Seq<u8>> {
    Seq::new(s.len(), |i: int| s[i]@)
}

/// The byte strings are in order.
pub open spec fn entries_sorted(s: Seq<Seq<u8>>) -> bool {
    forall|i: int, j: int| 0 <= i < j < s.len() ==> bytes_le(#[trigger] s[i], #[trigger] s[j])
}

/// Sorts the written entries of a hash table by their bytes, so that equal
/// tables are written alike whatever order their buckets are in.
pub fn sort_entries(v: &mut Vec<Bytes>)
    ensures
        contents(final(v)@).to_multiset() == contents(old(v)@).to_multiset(),
        entries_sorted(contents(final(v)@)),
{
    broadcast use vstd::seq_lib::to_multiset_remove, vstd::seq_lib::to_multiset_insert;
    let n = v.len();
    let ghost m0 = contents(v@).to_multiset();
    let mut i: usize = 1;
    if n == 0 {
        return;
    }
    while i < n
        invariant
            1 <= i <= n,
            v@.len() == n,
            contents(v@).to_multiset() == m0,
            entries_sorted(contents(v@).take(i as int)),
        decreases n - i,
    {
        let ghost before = v@;
        let x = v.remove(i);
        assert(contents(v@) =~= contents(before).remove(i as int));
        let mut k: usize = 0;
        while k < i && bytes_less_eq(&v[k], &x)
            invariant
                k <= i,
                i < n,
                v@.len() == n - 1,
                v@ == before.remove(i as int),
                forall|j: int| 0 <= j < k ==> bytes_le(#[trigger] v@[j]@, x@),
            decreases i - k,
        {
            k = k + 1;
        }
        let ghost mid = v@;
        proof {
            if k < i {
                let y = mid[k as int]@;
                if y != x@ {
                    assert(y.subrange(0, 0) =~= x@.subrange(0, 0));
                    lemma_bytes_lt_total(y, x@, 0);
                }
                lemma_bytes_lt_irreflexive(x@, 0);
            }
        }
        v.insert(k, x);
        proof {
            broadcast use vstd::multiset::group_multiset_axioms, vstd::seq_lib::to_multiset_contains;
            assert(contents(v@) =~= contents(mid).insert(k as int, x@));
            assert(contents(before)[i as int] == x@);
            assert(contents(mid) == contents(before).remove(i as int));
            vstd::seq_lib::to_multiset_remove(contents(before), i as int);
            vstd::seq_lib::to_multiset_insert(contents(mid), k as int, x@);
            assert(contents(mid).to_multiset() == m0.remove(x@));
            assert(contents(v@).to_multiset() == contents(mid).to_multiset().insert(x@));
            assert(contents(before).contains(x@));
            assert(m0.count(x@) > 0);
            assert(m0.remove(x@).insert(x@) =~= m0);
            let s = contents(v@).take(i + 1);
            assert forall|a: int, b: int| 0 <= a < b < s.len() implies bytes_le(#[trigger] s[a], #[trigger] s[b]) by {
                let p = contents(before).take(i as int);
                if b < k {
                    assert(s[a] == p[a] && s[b] == p[b]);
                } else if b == k {
                    assert(s[a] == p[a]);
                } else if a < k {
                    assert(s[a] == p[a] && s[b] == p[b - 1]);
                    assert(bytes_le(x@, mid[k as int]@));
                    assert(bytes_le(mid[k as int]@, s[b])) by {
                        if k < b - 1 {
                            assert(mid[k as int]@ == p[k as int]);
                        }
                    }
                    lemma_bytes_le_transitive(s[a], x@, mid[k as int]@);
                    lemma_bytes_le_transitive(s[a], mid[k as int]@, s[b]);
                } else if a == k {
                    assert(s[b] == p[b - 1]);
                    assert(bytes_le(mid[k as int]@, s[b])) by {
                        if k < b - 1 {
                            assert(mid[k as int]@ == p[k as int]);
                        }
                    }
                    lemma_bytes_le_transitive(x@, mid[k as int]@, s[b]);
                } else {
                    assert(s[a] == p[a - 1] && s[b] == p[b - 1]);
                }
            }
        }
        i = i + 1;
    }
    assert(contents(v@).take(n as int) =~= contents(v@));
}

/// The indexes of the full buckets of a hash table from control byte `i`
/// on, at most `left` of them: a control byte whose top bit is clear marks
/// a full bucket.
pub open spec fn full_from(c: Seq<u8>, i: int, left: nat) -> Seq<int>
    decreases c.len() - i,
{
    if i >= c.len() || left == 0 || i < 0 {
        Seq::empty()
    } else if c[i] & 0x80u8 == 0 {
        seq![i] + full_from(c, i + 1, (left - 1) as nat)
    } else {
        full_from(c, i + 1, left)
    }
}

/// The indexes as integers.
pub open spec fn indexes(v: Seq<usize>) -> Seq<int> {
    Seq::new(v.len(), |k: int| v[k] as int)
}

/// The indexes of the first `limit` full buckets of a hash table, in the
/// order of its control bytes. With no room for any entry, the table must
/// have no full bucket.
pub fn full_buckets(control: &[u8], limit: usize) -> (r: Vec<usize>)
    requires
        limit == 0 ==> forall|j: int| 0 <= j < control@.len() ==> control@[j] & 0x80u8 != 0,
    ensures
        indexes(r@) == full_from(control@, 0, limit as nat),
{
    let mut out: Vec<usize> = Vec::new();
    let mut items = limit;
    let mut i: usize = 0;
    assert(indexes(out@) =~= Seq::<int>::empty());
    while i < control.len() && items > 0
        invariant
            i <= control@.len(),
            full_from(control@, 0, limit as nat) == indexes(out@) + full_from(control@, i as int, items as nat),
        decreases control@.len() - i,
    {
        if control[i] & 0x80 == 0 {
            let ghost before = out@;
            out.push(i);
            assert(indexes(out@) =~= indexes(before) + seq![i as int]);
            assert(indexes(before) + seq![i as int] + full_from(control@, i + 1, (items - 1) as nat)
                =~= indexes(before) + (seq![i as int] + full_from(control@, i + 1, (items - 1) as nat)));
            items = items - 1;
        }
        i = i + 1;
    }
    assert(full_from(control@, i as int, items as nat) =~= Seq::<int>::empty());
    assert(indexes(out@) + Seq::<int>::empty() =~= indexes(out@));
    out
}

/// The address of bucket `i` of a hash table whose control bytes start at
/// `base`: the buckets, of `size` bytes each, lie before the control bytes,
/// the first one last.
pub fn bucket_addr(base: u64, i: u64, size: u64) -> (r: u64)
    requires
        i < u64::MAX,
        (i + 1) * size <= base,
    ensures
        r == base - (i + 1) * size,
{
    assert((i + 1) * size <= u64::MAX);
    base - (i + 1) * size
}

/// The padding after `size` bytes up to the next multiple of `align`.
pub open spec fn padding(size: int, align: int) -> int {
    if size % align == 0 {
        0
    } else {
        align - size % align
    }
}

/// Where the value of an entry of a hash table lies: after its key of
/// `key_size` bytes, rounded up to the entry's alignment.
pub fn value_offset(key_size: usize, align: usize) -> (r: usize)
    requires
        align > 0,
        key_size + padding(key_size as int, align as int) <= usize::MAX,
    ensures
        r == key_size + padding(key_size as int, align as int),
{
    key_size + if key_size % align == 0 {
        0
    } else {
        align - (key_size % align)
    }
}

/// How a `std::io::Error` is packed into one word, as the two low bits of
/// the word tell.
#[derive(Debug, PartialEq, Eq)]
pub enum IoErrorRepr {
    /// An operating system error, whose code is the high half of the word.
    Os { code: i32 },
    /// An error with a static message: the word is the address of the
    /// error's kind, which the message follows.
    SimpleMessage { addr: u64 },
    /// An error of a kind alone, or a custom error: the kind is the high
    /// half of the word.
    Kind { kind: u64 },
}

/// Reads the representation of a `std::io::Error` from its word.
pub fn io_error_repr(word: u64) -> (r: IoErrorRepr)
    ensures
        (word & 3 == 2) == (r is Os),
        (word & 3 == 0) == (r is SimpleMessage),
        (word & 3 == 1 || word & 3 == 3) == (r is Kind),
        r matches IoErrorRepr::Os { code } ==> code == ((word >> 32u64) as u32) as i32,
        r matches IoErrorRepr::SimpleMessage { addr } ==> addr == word,
        r matches IoErrorRepr::Kind { kind } ==> kind == ((word >> 32u64) as u32) as u64,
{
    let tag = word & 3;
    assert(word & 3 <= 3) by (bit_vector);
    if tag == 2 {
        IoErrorRepr::Os { code: ((word >> 32) as u32) as i32 }
    } else if tag == 0 {
        IoErrorRepr::SimpleMessage { addr: word }
    } else {
        IoErrorRepr::Kind { kind: ((word >> 32) as u32) as u64 }
    }
}

} // verus!
