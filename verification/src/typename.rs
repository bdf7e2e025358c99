//! Type names: matching them against templates in which `..` stands for
//! one or more characters (for validating test cases), the kind of pointer
//! that one names, and the variant in the text of an enum value.
use vstd::prelude::*;
use vstd::utf8::is_char_boundary;
use vstd::string::StringSliceAdditionalSpecFns;
use crate::writer::WriteErr;
use crate::text::{find_from, occurs_at, starts_with, ends_with, str_find, str_starts_with, str_ends_with, str_eq, substring, chars_of, lemma_find_from_bounds};

verus! {

/// `str::split` with a non-empty pattern: the pieces between the
/// occurrences of `p`, found from left to right without overlap.
pub open spec fn split_all(h: Seq<char>, p: Seq<char>) -> Seq<Seq<char>>
    decreases h.len(),
{
    if p.len() == 0 {
        seq![h]
    } else {
        match find_from(h, p, 0) {
            Some(i) => if 0 <= i && i + p.len() <= h.len() {
                seq![h.subrange(0, i)] + split_all(h.subrange(i + p.len(), h.len() as int), p)
            } else {
                seq![h]
            },
            None => seq![h],
        }
    }
}

/// `s` is `g₁ + p₁ + … + gₘ + pₘ` for `parts == [p₁, …, pₘ]` and some
/// strings `gᵢ` of one character or more (the empty string, for no part).
pub open spec fn gaps_then(s: Seq<char>, parts: Seq<Seq<char>>) -> bool
    decreases parts.len(),
{
    if parts.len() == 0 {
        s.len() == 0
    } else {
        exists|j: int|
            1 <= j && j + parts[0].len() <= s.len() && #[trigger] s.subrange(j, j + parts[0].len())
                == parts[0] && gaps_then(s.subrange(j + parts[0].len(), s.len() as int), parts.drop_first())
    }
}

/// Whether `a` matches the template `t`, in which each `..` stands for one
/// or more characters: with `t` cut at its `..` into `p₀, …, pₖ`, `a` is
/// `t` itself where there is no `..`, else `p₀ + g₁ + p₁ + … + gₖ + pₖ`
/// for some non-empty strings `gᵢ`.
pub open spec fn wildcard_spec(t: Seq<char>, a: Seq<char>) -> bool {
    let parts = split_all(t, ".."@);
    if parts.len() == 1 {
        t == a
    } else {
        starts_with(a, parts[0]) && gaps_then(
            a.subrange(parts[0].len() as int, a.len() as int),
            parts.drop_first(),
        )
    }
}

/// The first occurrence from `from` on comes no later than any other.
proof fn lemma_find_from_first(h: Seq<char>, p: Seq<char>, from: int, at: int)
    requires
        0 <= from <= at,
        occurs_at(h, at, p),
    ensures
        find_from(h, p, from) matches Some(j) && j <= at,
    decreases at - from,
{
    if !occurs_at(h, from, p) {
        lemma_find_from_first(h, p, from + 1, at);
    }
}

/// A longer suffix before the first gap still matches: the gap grows.
proof fn lemma_gaps_extend(s: Seq<char>, e0: int, e: int, parts: Seq<Seq<char>>)
    requires
        parts.len() >= 1,
        0 <= e0 <= e <= s.len(),
        gaps_then(s.subrange(e, s.len() as int), parts),
    ensures
        gaps_then(s.subrange(e0, s.len() as int), parts),
{
    let t = s.subrange(e, s.len() as int);
    let t0 = s.subrange(e0, s.len() as int);
    let pl = parts[0].len() as int;
    let j = choose|j: int|
        1 <= j && j + parts[0].len() <= t.len() && #[trigger] t.subrange(j, j + parts[0].len())
            == parts[0] && gaps_then(t.subrange(j + parts[0].len(), t.len() as int), parts.drop_first());
    let j0 = j + (e - e0);
    assert(t0.subrange(j0, j0 + pl) =~= t.subrange(j, j + pl));
    assert(t0.subrange(j0 + pl, t0.len() as int) =~= t.subrange(j + pl, t.len() as int));
}

/// Matching two parts or more: the leftmost occurrence of the first part
/// past a gap of one character or more is as good as any.
proof fn lemma_gaps_step(a: Seq<char>, index: int, parts: Seq<Seq<char>>)
    requires
        0 <= index <= a.len(),
        parts.len() >= 2,
    ensures
        gaps_then(a.subrange(index, a.len() as int), parts) == match find_from(a, parts[0], index + 1) {
            Some(j) => gaps_then(a.subrange(j + parts[0].len(), a.len() as int), parts.drop_first()),
            None => false,
        },
{
    let s = a.subrange(index, a.len() as int);
    let p = parts[0];
    let pl = p.len() as int;
    lemma_find_from_bounds(a, p, index + 1);
    match find_from(a, p, index + 1) {
        Some(j) => {
            if gaps_then(a.subrange(j + pl, a.len() as int), parts.drop_first()) {
                let jj = j - index;
                assert(s.subrange(jj, jj + pl) =~= a.subrange(j, j + pl));
                assert(s.subrange(jj + pl, s.len() as int) =~= a.subrange(j + pl, a.len() as int));
            }
        },
        None => {},
    }
    if gaps_then(s, parts) {
        let jj = choose|jj: int|
            1 <= jj && jj + p.len() <= s.len() && #[trigger] s.subrange(jj, jj + p.len()) == p
                && gaps_then(s.subrange(jj + p.len(), s.len() as int), parts.drop_first());
        let at = index + jj;
        assert(a.subrange(at, at + pl) =~= s.subrange(jj, jj + pl));
        assert(s.subrange(jj + pl, s.len() as int) =~= a.subrange(at + pl, a.len() as int));
        lemma_find_from_first(a, p, index + 1, at);
        let j0 = find_from(a, p, index + 1)->0;
        lemma_gaps_extend(a, j0 + pl, at + pl, parts.drop_first());
    }
}

/// Matching the last part: a gap of one character or more, then the part
/// at the end.
proof fn lemma_gaps_last(a: Seq<char>, index: int, parts: Seq<Seq<char>>)
    requires
        0 <= index <= a.len(),
        parts.len() == 1,
    ensures
        gaps_then(a.subrange(index, a.len() as int), parts) == (a.len() - index > parts[0].len()
            && ends_with(a, parts[0])),
{
    let s = a.subrange(index, a.len() as int);
    let p = parts[0];
    let pl = p.len() as int;
    let n = a.len() as int;
    assert(parts.drop_first().len() == 0);
    if gaps_then(s, parts) {
        let jj = choose|jj: int|
            1 <= jj && jj + p.len() <= s.len() && #[trigger] s.subrange(jj, jj + p.len()) == p
                && gaps_then(s.subrange(jj + p.len(), s.len() as int), parts.drop_first());
        assert(jj + pl == s.len());
        assert(a.subrange(n - pl, n) =~= s.subrange(jj, jj + pl));
    }
    if n - index > pl && ends_with(a, p) {
        let jj = s.len() - pl;
        assert(s.subrange(jj, jj + pl) =~= a.subrange(n - pl, n));
        assert(s.subrange(jj + pl, s.len() as int) =~= Seq::<char>::empty());
        assert(gaps_then(s.subrange(jj + pl, s.len() as int), parts.drop_first()));
        assert(s.subrange(jj, jj + p.len()) == p);
        assert(gaps_then(s, parts));
    }
}

pub proof fn lemma_split_all_len(h: Seq<char>, p: Seq<char>)
    ensures
        split_all(h, p).len() >= 1,
    decreases h.len(),
{
    if p.len() > 0 {
        match find_from(h, p, 0) {
            Some(i) => if 0 <= i && i + p.len() <= h.len() {
                lemma_split_all_len(h.subrange(i + p.len(), h.len() as int), p);
            },
            None => {},
        }
    }
}

/// `str::split` with a non-empty pattern.
pub fn split_str<'a>(s: &'a str, p: &str) -> (r: Vec<&'a str>)
    requires
        p@.len() > 0,
    ensures
        r@.len() == split_all(s@, p@).len(),
        forall|i: int| 0 <= i < r@.len() ==> #[trigger] r@[i]@ == split_all(s@, p@)[i],
{
    let n = s.unicode_len();
    let pl = p.unicode_len();
    let mut out: Vec<&'a str> = Vec::new();
    let mut pos: usize = 0;
    assert(s@.subrange(0, n as int) =~= s@);
    assert(Seq::new(out@.len(), |i: int| out@[i]@) + split_all(s@, p@) =~= split_all(s@, p@));
    loop
        invariant
            pos <= n,
            n == s@.len(),
            pl == p@.len(),
            pl > 0,
            split_all(s@, p@) == Seq::new(out@.len(), |i: int| out@[i]@) + split_all(
                s@.subrange(pos as int, n as int),
                p@,
            ),
        decreases n - pos,
    {
        let rest = substring(s, pos, n);
        match str_find(rest, p) {
            Some(i) => {
                proof {
                    lemma_find_from_bounds(rest@, p@, 0);
                }
                let piece = substring(rest, 0, i);
                let ghost before = Seq::new(out@.len(), |i: int| out@[i]@);
                out.push(piece);
                assert(s@.subrange(pos as int, n as int).subrange(i + pl, n - pos) =~= s@.subrange(
                    pos + i + pl,
                    n as int,
                ));
                assert(Seq::new(out@.len(), |i: int| out@[i]@) =~= before.push(piece@));
                assert(before.push(piece@) + split_all(s@.subrange(pos + i + pl, n as int), p@)
                    =~= before + (seq![piece@] + split_all(s@.subrange(pos + i + pl, n as int), p@)));
                pos = pos + i + pl;
            },
            None => {
                let ghost before = Seq::new(out@.len(), |i: int| out@[i]@);
                out.push(rest);
                assert(Seq::new(out@.len(), |i: int| out@[i]@) =~= before.push(rest@));
                assert(before + seq![rest@] =~= before.push(rest@));
                return out;
            },
        }
    }
}

/// Whether `against` matches `template`, in which each `..` stands for one
/// or more characters.
pub fn wildcard_match(template: &str, against: &str) -> (r: bool)
    ensures
        r == wildcard_spec(template@, against@),
{
    proof {
        reveal_strlit("..");
        lemma_split_all_len(template@, ".."@);
    }
    let parts = split_str(template, "..");
    let ghost ps = split_all(template@, ".."@);
    if parts.len() == 1 {
        return str_eq(template, against);
    }
    if !str_starts_with(against, parts[0]) {
        return false;
    }
    let a = chars_of(against);
    let n = a.len();
    let mut index: usize = parts[0].unicode_len();
    let mut i: usize = 1;
    assert(ps.drop_first().subrange(0, ps.len() - 1) =~= ps.drop_first());
    while i < parts.len() - 1
        invariant
            1 <= i <= parts@.len() - 1,
            parts@.len() == ps.len(),
            ps.len() > 1,
            ps == split_all(template@, ".."@),
            forall|j: int| 0 <= j < parts@.len() ==> #[trigger] parts@[j]@ == ps[j],
            a@ == against@,
            n == against@.len(),
            index <= n,
            wildcard_spec(template@, against@) == gaps_then(
                against@.subrange(index as int, n as int),
                ps.subrange(i as int, ps.len() as int),
            ),
        decreases parts@.len() - i,
    {
        let part = chars_of(parts[i]);
        let ghost rest = ps.subrange(i as int, ps.len() as int);
        proof {
            lemma_gaps_step(against@, index as int, rest);
            assert(rest[0] == ps[i as int]);
            assert(rest.drop_first() =~= ps.subrange(i + 1, ps.len() as int));
        }
        if index == n {
            proof {
                assert(find_from(against@, rest[0], index + 1) is None);
            }
            return false;
        }
        match crate::text::find_from_exec(&a, &part, index + 1) {
            Some(at) => {
                index = at + part.len();
            },
            None => {
                return false;
            },
        }
        i = i + 1;
    }
    let last = parts[parts.len() - 1];
    proof {
        let rest = ps.subrange(i as int, ps.len() as int);
        assert(rest.len() == 1);
        assert(rest[0] == ps[ps.len() - 1]);
        lemma_gaps_last(against@, index as int, rest);
    }
    let ll = last.unicode_len();
    n - index > ll && str_ends_with(against, last)
}

/// The kind of pointer that a type name names.
pub open spec fn pointer_kind(name: Seq<char>) -> Seq<char> {
    if starts_with(name, "&"@) {
        "ref"@
    } else if starts_with(name, "alloc::boxed::Box<"@) {
        "Box"@
    } else if starts_with(name, "alloc::rc::Rc<"@) {
        "Rc"@
    } else if starts_with(name, "alloc::sync::Arc<"@) {
        "Arc"@
    } else {
        "ptr"@
    }
}

/// The kind of pointer that a type name names: `ref` for a reference,
/// `Box`, `Rc` or `Arc` for those, and `ptr` for any other.
pub fn pointer_typename(name: &str) -> (r: &'static str)
    ensures
        r@ == pointer_kind(name@),
{
    if str_starts_with(name, "&") {
        "ref"
    } else if str_starts_with(name, "alloc::boxed::Box<") {
        "Box"
    } else if str_starts_with(name, "alloc::rc::Rc<") {
        "Rc"
    } else if str_starts_with(name, "alloc::sync::Arc<") {
        "Arc"
    } else {
        "ptr"
    }
}

/// `b` begins with `p`.
pub open spec fn bytes_prefix(b: Seq<u8>, p: Seq<u8>) -> bool {
    p.len() <= b.len() && b.subrange(0, p.len() as int) == p
}

/// The text of an enum value names a variant of `parent`: it starts with
/// the type name, then come two separator bytes and at least one more.
pub open spec fn has_variant(parent: &str, text: &str) -> bool {
    &&& bytes_prefix(text.spec_bytes(), parent.spec_bytes())
    &&& parent.spec_bytes().len() + 2 < text.spec_bytes().len()
}

/// Splits the text of an enum value, such as `app::Color::Red`, into the
/// enum's type name `parent` and the variant's name; an error where the
/// text is not a variant of `parent` (an invalid value prints as a number).
/// The cut falls two bytes after the type name, which must be on a
/// character boundary.
pub fn enumerate_value<'a>(parent: &'a str, text: &'a str) -> (r: Result<(&'a str, &'a str), WriteErr>)
    requires
        has_variant(parent, text) ==> is_char_boundary(
            text.spec_bytes(),
            parent.spec_bytes().len() + 2int,
        ),
    ensures
        r is Ok <==> has_variant(parent, text),
        r matches Ok((p, v)) ==> p == parent && v.spec_bytes() == text.spec_bytes().subrange(
            parent.spec_bytes().len() + 2int,
            text.spec_bytes().len() as int,
        ),
{
    let pb = parent.as_bytes();
    let tb = text.as_bytes();
    if pb.len() > tb.len() {
        return Err(WriteErr);
    }
    let mut i: usize = 0;
    while i < pb.len()
        invariant
            pb@ == parent.spec_bytes(),
            tb@ == text.spec_bytes(),
            pb@.len() <= tb@.len(),
            i <= pb@.len(),
            forall|j: int| 0 <= j < i ==> tb@[j] == pb@[j],
        decreases pb@.len() - i,
    {
        if pb[i] != tb[i] {
            assert(tb@.subrange(0, pb@.len() as int)[i as int] != pb@[i as int]);
            return Err(WriteErr);
        }
        i = i + 1;
    }
    assert(tb@.subrange(0, pb@.len() as int) =~= pb@);
    if tb.len() - pb.len() <= 2 {
        return Err(WriteErr);
    }
    let (_, v) = text.split_at(pb.len() + 2);
    Ok((parent, v))
}

} // verus!
