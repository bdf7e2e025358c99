//! Character-level helpers for the names and lines that the debugger handles.
use vstd::prelude::*;
use vstd::string::StrSliceExecFns;

verus! {

/// `p` occurs in `h` starting at index `i`.
pub open spec fn occurs_at(h: Seq<char>, i: int, p: Seq<char>) -> bool {
    0 <= i && i + p.len() <= h.len() && h.subrange(i, i + p.len()) == p
}

/// The first index `>= from` at which `p` occurs in `h`.
pub open spec fn find_from(h: Seq<char>, p: Seq<char>, from: int) -> Option<int>
    decreases h.len() + 1 - from,
{
    if from < 0 || from + p.len() > h.len() {
        None
    } else if occurs_at(h, from, p) {
        Some(from)
    } else {
        find_from(h, p, from + 1)
    }
}

/// The last index `<= upto` at which `p` occurs in `h`.
pub open spec fn rfind_upto(h: Seq<char>, p: Seq<char>, upto: int) -> Option<int>
    decreases upto + 1,
{
    if upto < 0 {
        None
    } else if occurs_at(h, upto, p) {
        Some(upto)
    } else {
        rfind_upto(h, p, upto - 1)
    }
}

/// The last index at which `p` occurs in `h`.
pub open spec fn rfind(h: Seq<char>, p: Seq<char>) -> Option<int> {
    rfind_upto(h, p, h.len() - p.len())
}

pub open spec fn starts_with(h: Seq<char>, p: Seq<char>) -> bool {
    occurs_at(h, 0, p)
}

pub open spec fn ends_with(h: Seq<char>, p: Seq<char>) -> bool {
    occurs_at(h, h.len() - p.len(), p)
}

pub open spec fn contains(h: Seq<char>, p: Seq<char>) -> bool {
    find_from(h, p, 0) is Some
}

/// `str::split_once`: the parts before and after the first occurrence of `p`.
pub open spec fn split_once(h: Seq<char>, p: Seq<char>) -> Option<(Seq<char>, Seq<char>)> {
    match find_from(h, p, 0) {
        Some(i) => Some((h.subrange(0, i), h.subrange(i + p.len(), h.len() as int))),
        None => None,
    }
}

/// `str::rsplit_once`: the parts before and after the last occurrence of `p`.
pub open spec fn rsplit_once(h: Seq<char>, p: Seq<char>) -> Option<(Seq<char>, Seq<char>)> {
    match rfind(h, p) {
        Some(i) => Some((h.subrange(0, i), h.subrange(i + p.len(), h.len() as int))),
        None => None,
    }
}

/// The characters of `s`.
pub fn chars_of(s: &str) -> (r: Vec<char>)
    ensures
        r@ == s@,
{
    let mut v: Vec<char> = Vec::new();
    for c in it: s.chars()
        invariant
            v@ == it.seq().take(it.index() as int),
    {
        v.push(c);
    }
    v
}

/// Whether `p` occurs in `h` at index `i`.
pub fn occurs_at_exec(h: &Vec<char>, i: usize, p: &Vec<char>) -> (r: bool)
    ensures
        r == occurs_at(h@, i as int, p@),
{
    if i > h.len() || p.len() > h.len() - i {
        return false;
    }
    let hl = h.len();
    let mut k: usize = 0;
    while k < p.len()
        invariant
            hl == h@.len(),
            i + p@.len() <= h@.len(),
            i <= h@.len(),
            k <= p@.len(),
            forall|j: int| 0 <= j < k ==> h@[i + j] == p@[j],
        decreases p@.len() - k,
    {
        assert(i + k < h@.len());
        if h[i + k] != p[k] {
            assert(h@.subrange(i as int, i + p@.len())[k as int] != p@[k as int]);
            return false;
        }
        k = k + 1;
    }
    assert(h@.subrange(i as int, i + p@.len()) =~= p@);
    true
}

/// The first index `>= from` at which `p` occurs in `h`.
pub fn find_from_exec(h: &Vec<char>, p: &Vec<char>, from: usize) -> (r: Option<usize>)
    ensures
        r is None <==> find_from(h@, p@, from as int) is None,
        r matches Some(i) ==> find_from(h@, p@, from as int) == Some(i as int) && i + p@.len()
            <= h@.len(),
{
    if p.len() > h.len() || from > h.len() - p.len() {
        return None;
    }
    let last = h.len() - p.len();
    let mut i: usize = from;
    while i <= last
        invariant
            from <= i,
            last + p@.len() == h@.len(),
            i <= last + 1,
            find_from(h@, p@, from as int) == find_from(h@, p@, i as int),
        decreases last + 1 - i,
    {
        if occurs_at_exec(h, i, p) {
            return Some(i);
        }
        if i == last {
            assert(find_from(h@, p@, i + 1) is None);
            return None;
        }
        i = i + 1;
    }
    None
}

/// The last index at which `p` occurs in `h`.
pub fn rfind_exec(h: &Vec<char>, p: &Vec<char>) -> (r: Option<usize>)
    ensures
        r is None <==> rfind(h@, p@) is None,
        r matches Some(i) ==> rfind(h@, p@) == Some(i as int) && i + p@.len() <= h@.len(),
{
    if p.len() > h.len() {
        assert(rfind_upto(h@, p@, h@.len() - p@.len()) is None);
        return None;
    }
    let mut i: usize = h.len() - p.len();
    loop
        invariant
            i + p@.len() <= h@.len(),
            rfind(h@, p@) == rfind_upto(h@, p@, i as int),
        decreases i,
    {
        if occurs_at_exec(h, i, p) {
            return Some(i);
        }
        if i == 0 {
            assert(rfind_upto(h@, p@, -1) is None);
            return None;
        }
        i = i - 1;
    }
}

/// `s[from..to]` on character indices.
pub fn substring<'a>(s: &'a str, from: usize, to: usize) -> (r: &'a str)
    requires
        from <= to <= s@.len(),
    ensures
        r@ == s@.subrange(from as int, to as int),
{
    s.substring_char(from, to)
}

/// `str::starts_with`.
pub fn str_starts_with(s: &str, p: &str) -> (r: bool)
    ensures
        r == starts_with(s@, p@),
{
    let h = chars_of(s);
    let q = chars_of(p);
    occurs_at_exec(&h, 0, &q)
}

/// `str::ends_with`.
pub fn str_ends_with(s: &str, p: &str) -> (r: bool)
    ensures
        r == ends_with(s@, p@),
{
    let h = chars_of(s);
    let q = chars_of(p);
    if q.len() > h.len() {
        return false;
    }
    occurs_at_exec(&h, h.len() - q.len(), &q)
}

/// `str::contains`.
pub fn str_contains(s: &str, p: &str) -> (r: bool)
    ensures
        r == contains(s@, p@),
{
    let h = chars_of(s);
    let q = chars_of(p);
    find_from_exec(&h, &q, 0).is_some()
}

/// `str::find`: the character index of the first occurrence of `p`.
pub fn str_find(s: &str, p: &str) -> (r: Option<usize>)
    ensures
        r is None <==> find_from(s@, p@, 0) is None,
        r matches Some(i) ==> find_from(s@, p@, 0) == Some(i as int),
{
    let h = chars_of(s);
    let q = chars_of(p);
    find_from_exec(&h, &q, 0)
}

/// Whether two strings hold the same characters.
pub fn str_eq(a: &str, b: &str) -> (r: bool)
    ensures
        r == (a@ == b@),
{
    let x = chars_of(a);
    let y = chars_of(b);
    if x.len() != y.len() {
        return false;
    }
    let r = occurs_at_exec(&x, 0, &y);
    assert(x@.subrange(0, y@.len() as int) =~= x@);
    r
}

/// `str::split_once`.
pub fn str_split_once<'a>(s: &'a str, p: &str) -> (r: Option<(&'a str, &'a str)>)
    ensures
        r is Some <==> split_once(s@, p@) is Some,
        r matches Some((x, y)) ==> split_once(s@, p@) == Some((x@, y@)),
{
    let h = chars_of(s);
    let q = chars_of(p);
    let hl = h.len();
    let ql = q.len();
    match find_from_exec(&h, &q, 0) {
        Some(i) => {
            let a = substring(s, 0, i);
            let b = substring(s, i + ql, hl);
            assert(find_from(s@, p@, 0) == Some(i as int));
            Some((a, b))
        },
        None => None,
    }
}

/// `str::rsplit_once`.
pub fn str_rsplit_once<'a>(s: &'a str, p: &str) -> (r: Option<(&'a str, &'a str)>)
    ensures
        r is Some <==> rsplit_once(s@, p@) is Some,
        r matches Some((x, y)) ==> rsplit_once(s@, p@) == Some((x@, y@)),
{
    let h = chars_of(s);
    let q = chars_of(p);
    let hl = h.len();
    let ql = q.len();
    match rfind_exec(&h, &q) {
        Some(i) => {
            let a = substring(s, 0, i);
            let b = substring(s, i + ql, hl);
            assert(rfind(s@, p@) == Some(i as int));
            Some((a, b))
        },
        None => None,
    }
}

} // verus!

verus! {

/// `str::replace` with a non-empty pattern: every occurrence of `p` in `h`,
/// from left to right and without overlap, replaced by `r`.
pub open spec fn replace_all(h: Seq<char>, p: Seq<char>, r: Seq<char>) -> Seq<char>
    decreases h.len(),
{
    if p.len() == 0 {
        h
    } else {
        match find_from(h, p, 0) {
            Some(i) => if 0 <= i && i + p.len() <= h.len() {
                h.subrange(0, i) + r + replace_all(h.subrange(i + p.len(), h.len() as int), p, r)
            } else {
                h
            },
            None => h,
        }
    }
}

/// An owned copy of a string slice.
pub fn to_owned_string(s: &str) -> (r: String)
    ensures
        r@ == s@,
{
    s.to_string()
}

/// Appends `t` to `s`.
pub fn append_str(s: &mut String, t: &str)
    ensures
        final(s)@ == old(s)@ + t@,
{
    s.append(t);
}

/// `str::replace` with a non-empty pattern.
pub fn str_replace(s: &str, p: &str, r: &str) -> (out: String)
    requires
        p@.len() > 0,
    ensures
        out@ == replace_all(s@, p@, r@),
{
    let h = chars_of(s);
    let q = chars_of(p);
    let hl = h.len();
    let ql = q.len();
    let mut out = String::new();
    let mut pos: usize = 0;
    assert(s@.subrange(0, hl as int) =~= s@);
    loop
        invariant
            h@ == s@,
            q@ == p@,
            hl == h@.len(),
            ql == q@.len(),
            ql > 0,
            pos <= hl,
            out@ + replace_all(s@.subrange(pos as int, hl as int), p@, r@) == replace_all(
                s@,
                p@,
                r@,
            ),
        decreases hl - pos,
    {
        let ghost rest = s@.subrange(pos as int, hl as int);
        match find_from_exec(&h, &q, pos) {
            Some(i) => {
                proof {
                    lemma_find_from_shift(s@, p@, pos as int);
                    lemma_find_from_bounds(s@, p@, pos as int);
                    assert(rest.subrange(i - pos + ql, rest.len() as int) =~= s@.subrange(
                        i + ql,
                        hl as int,
                    ));
                    assert(rest.subrange(0, i - pos) =~= s@.subrange(pos as int, i as int));
                }
                let ghost old_out = out@;
                let before = substring(s, pos, i);
                append_str(&mut out, before);
                append_str(&mut out, r);
                pos = i + ql;
                assert(replace_all(rest, p@, r@) == before@ + r@ + replace_all(
                    s@.subrange(pos as int, hl as int),
                    p@,
                    r@,
                ));
                assert(out@ + replace_all(s@.subrange(pos as int, hl as int), p@, r@) =~= old_out
                    + replace_all(rest, p@, r@));
            },
            None => {
                proof {
                    lemma_find_from_shift(s@, p@, pos as int);
                }
                let tail = substring(s, pos, hl);
                append_str(&mut out, tail);
                return out;
            },
        }
    }
}

/// What `find_from` finds is an occurrence at or after `from`.
pub proof fn lemma_find_from_bounds(h: Seq<char>, p: Seq<char>, from: int)
    ensures
        find_from(h, p, from) matches Some(i) ==> from <= i && i + p.len() <= h.len()
            && occurs_at(h, i, p),
    decreases h.len() + 1 - from,
{
    if from >= 0 && from + p.len() <= h.len() && !occurs_at(h, from, p) {
        lemma_find_from_bounds(h, p, from + 1);
    }
}

/// Finding in a suffix is finding in the whole from the suffix's start.
pub proof fn lemma_find_from_shift(h: Seq<char>, p: Seq<char>, pos: int)
    requires
        0 <= pos <= h.len(),
    ensures
        match find_from(h.subrange(pos, h.len() as int), p, 0) {
            Some(j) => find_from(h, p, pos) == Some(j + pos),
            None => find_from(h, p, pos) is None,
        },
{
    lemma_find_from_shift_from(h, p, pos, 0);
}

proof fn lemma_find_from_shift_from(h: Seq<char>, p: Seq<char>, pos: int, k: int)
    requires
        0 <= pos <= h.len(),
        0 <= k,
    ensures
        match find_from(h.subrange(pos, h.len() as int), p, k) {
            Some(j) => find_from(h, p, pos + k) == Some(j + pos),
            None => find_from(h, p, pos + k) is None,
        },
    decreases h.len() + 1 - (pos + k),
{
    let t = h.subrange(pos, h.len() as int);
    if k + p.len() > t.len() {
    } else {
        assert(occurs_at(t, k, p) == occurs_at(h, pos + k, p)) by {
            assert(t.subrange(k, k + p.len()) =~= h.subrange(pos + k, pos + k + p.len()));
        }
        if !occurs_at(t, k, p) {
            lemma_find_from_shift_from(h, p, pos, k + 1);
        }
    }
}


/// `char::is_whitespace`: the characters with Unicode's `White_Space` property.
pub open spec fn is_whitespace(c: char) -> bool {
    ||| c == ' '
    ||| ('\t' <= c && c <= '\r')
    ||| c == '\u{85}'
    ||| c == '\u{a0}'
    ||| c == '\u{1680}'
    ||| ('\u{2000}' <= c && c <= '\u{200a}')
    ||| c == '\u{2028}'
    ||| c == '\u{2029}'
    ||| c == '\u{202f}'
    ||| c == '\u{205f}'
    ||| c == '\u{3000}'
}

/// `s` without its leading whitespace.
pub open spec fn trim_start(s: Seq<char>) -> Seq<char>
    decreases s.len(),
{
    if s.len() > 0 && is_whitespace(s[0]) {
        trim_start(s.drop_first())
    } else {
        s
    }
}

/// `s` without its trailing whitespace.
pub open spec fn trim_end(s: Seq<char>) -> Seq<char>
    decreases s.len(),
{
    if s.len() > 0 && is_whitespace(s.last()) {
        trim_end(s.drop_last())
    } else {
        s
    }
}

/// `str::trim`.
pub open spec fn trim(s: Seq<char>) -> Seq<char> {
    trim_end(trim_start(s))
}

pub fn is_whitespace_char(c: char) -> (r: bool)
    ensures
        r == is_whitespace(c),
{
    c == ' ' || ('\t' <= c && c <= '\r') || c == '\u{85}' || c == '\u{a0}' || c == '\u{1680}'
        || ('\u{2000}' <= c && c <= '\u{200a}') || c == '\u{2028}' || c == '\u{2029}' || c
        == '\u{202f}' || c == '\u{205f}' || c == '\u{3000}'
}

/// `str::trim`.
pub fn str_trim<'a>(s: &'a str) -> (r: &'a str)
    ensures
        r@ == trim(s@),
{
    let cs = chars_of(s);
    let n = cs.len();
    let mut a: usize = 0;
    assert(s@.subrange(0, n as int) =~= s@);
    while a < n && is_whitespace_char(cs[a])
        invariant
            a <= n,
            n == s@.len(),
            cs@ == s@,
            trim_start(s@) == trim_start(s@.subrange(a as int, n as int)),
        decreases n - a,
    {
        assert(s@.subrange(a as int, n as int).drop_first() =~= s@.subrange(a + 1, n as int));
        a = a + 1;
    }
    assert(trim_start(s@) == s@.subrange(a as int, n as int));
    let mut b: usize = n;
    while b > a && is_whitespace_char(cs[b - 1])
        invariant
            a <= b <= n,
            n == s@.len(),
            cs@ == s@,
            trim(s@) == trim_end(s@.subrange(a as int, b as int)),
        decreases b,
    {
        assert(s@.subrange(a as int, b as int).drop_last() =~= s@.subrange(a as int, b - 1));
        b = b - 1;
    }
    substring(s, a, b)
}

} // verus!
