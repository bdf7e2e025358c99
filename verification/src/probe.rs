//! Reading the size and alignment of a type from what a probe program
//! prints: `size = N` on its first line and `align = M` on its second.
use vstd::prelude::*;
use crate::decimal::parse_uint;
use crate::text::{split_once, ends_with, str_split_once, str_eq, str_ends_with, substring};
use crate::typename::{split_all, split_str, lemma_split_all_len};

verus! {

/// Why the probe's output could not be read.
#[derive(Debug, PartialEq, Eq)]
pub enum ProbeErr {
    /// A line is missing.
    MissingLine,
    /// A line has no ` = `.
    MissingAttr,
    /// A line names another attribute than the one expected.
    UnexpectedAttr,
    /// A value is not a number.
    NotANumber,
    /// The size and alignment make no layout.
    InvalidLayout,
}

/// `str::lines`: the text cut at each `\n`, a `\r` before it dropped, with
/// no line after a final `\n`.
pub open spec fn lines_of(s: Seq<char>) -> Seq<Seq<char>> {
    let pieces = split_all(s, seq!['\n']);
    let kept = if pieces.last().len() == 0 {
        pieces.drop_last()
    } else {
        pieces
    };
    Seq::new(
        kept.len(),
        |i: int|
            if i < pieces.len() - 1 && kept[i].len() > 0 && kept[i].last() == '\r' {
                kept[i].drop_last()
            } else {
                kept[i]
            },
    )
}

/// `Layout::from_size_align` accepts these: the alignment is a power of two
/// and the size rounded up to it fits in an `isize`.
pub open spec fn valid_layout(size: nat, align: nat) -> bool {
    &&& is_pow2(align)
    &&& size + (align - 1) <= isize::MAX
}

/// `n` is a power of two.
pub open spec fn is_pow2(n: nat) -> bool
    decreases n,
{
    if n == 1 {
        true
    } else if n == 0 || n % 2 == 1 {
        false
    } else {
        is_pow2(n / 2)
    }
}

/// The value of attribute `name` on a line `name = value`.
pub open spec fn attr_value(line: Seq<char>, name: Seq<char>) -> Result<Seq<char>, ProbeErr> {
    match split_once(line, " = "@) {
        None => Err(ProbeErr::MissingAttr),
        Some((attr, value)) => if attr == name {
            Ok(value)
        } else {
            Err(ProbeErr::UnexpectedAttr)
        },
    }
}

/// What the probe's output gives: the size and the alignment.
pub open spec fn probe_spec(output: Seq<char>) -> Result<(usize, usize), ProbeErr> {
    let lines = lines_of(output);
    if lines.len() < 1 {
        Err(ProbeErr::MissingLine)
    } else {
        match attr_value(lines[0], "size"@) {
            Err(e) => Err(e),
            Ok(size) => if lines.len() < 2 {
                Err(ProbeErr::MissingLine)
            } else {
                match attr_value(lines[1], "align"@) {
                    Err(e) => Err(e),
                    Ok(align) => match (
                        parse_uint(size, usize::MAX as nat),
                        parse_uint(align, usize::MAX as nat),
                    ) {
                        (Some(s), Some(a)) => if valid_layout(s, a) {
                            Ok((s as usize, a as usize))
                        } else {
                            Err(ProbeErr::InvalidLayout)
                        },
                        _ => Err(ProbeErr::NotANumber),
                    },
                }
            },
        }
    }
}


fn is_power_of_two(n: usize) -> (r: bool)
    ensures
        r == is_pow2(n as nat),
{
    let mut m = n;
    while m > 1 && m % 2 == 0
        invariant
            is_pow2(n as nat) == is_pow2(m as nat),
        decreases m,
    {
        m = m / 2;
    }
    m == 1
}

fn layout_ok(size: usize, align: usize) -> (r: bool)
    ensures
        r == valid_layout(size as nat, align as nat),
{
    if !is_power_of_two(align) {
        return false;
    }
    let max = isize::MAX as usize;
    align - 1 <= max && size <= max - (align - 1)
}

fn attr_value_exec<'a>(line: &'a str, name: &str) -> (r: Result<&'a str, ProbeErr>)
    ensures
        match r {
            Ok(v) => attr_value(line@, name@) == Ok::<Seq<char>, ProbeErr>(v@),
            Err(e) => attr_value(line@, name@) == Err::<Seq<char>, ProbeErr>(e),
        },
{
    match str_split_once(line, " = ") {
        None => Err(ProbeErr::MissingAttr),
        Some((attr, value)) => if str_eq(attr, name) {
            Ok(value)
        } else {
            Err(ProbeErr::UnexpectedAttr)
        },
    }
}

fn strip_cr<'a>(line: &'a str, followed: bool) -> (r: &'a str)
    ensures
        r@ == if followed && line@.len() > 0 && line@.last() == '\r' {
            line@.drop_last()
        } else {
            line@
        },
{
    proof {
        reveal_strlit("\r");
    }
    let n = line.unicode_len();
    if followed && n > 0 && str_ends_with(line, "\r") {
        assert(line@.subrange(n - 1, n as int)[0] == line@[n - 1]);
        substring(line, 0, n - 1)
    } else {
        proof {
            if followed && n > 0 && line@.last() == '\r' {
                assert(line@.subrange(n - 1, n as int) =~= "\r"@);
            }
        }
        line
    }
}

/// The first two lines of `s`, as `str::lines` gives them.
fn first_lines<'a>(s: &'a str) -> (r: (Option<&'a str>, Option<&'a str>))
    ensures
        r.0 matches Some(x) ==> lines_of(s@).len() >= 1 && x@ == lines_of(s@)[0],
        r.0 is None ==> lines_of(s@).len() < 1,
        r.1 matches Some(x) ==> lines_of(s@).len() >= 2 && x@ == lines_of(s@)[1],
        r.1 is None ==> lines_of(s@).len() < 2,
{
    proof {
        reveal_strlit("\n");
        lemma_split_all_len(s@, seq!['\n']);
    }
    assert("\n"@ =~= seq!['\n']);
    let pieces = split_str(s, "\n");
    let n = pieces.len();
    let last_empty = pieces[n - 1].unicode_len() == 0;
    let kept: usize = if last_empty {
        n - 1
    } else {
        n
    };
    let a = if kept >= 1 {
        Some(strip_cr(pieces[0], 0 < n - 1))
    } else {
        None
    };
    let b = if kept >= 2 {
        Some(strip_cr(pieces[1], 1 < n - 1))
    } else {
        None
    };
    (a, b)
}

/// Reads the size and the alignment from what the probe printed.
pub fn probe_layout(output: &str) -> (r: Result<(usize, usize), ProbeErr>)
    ensures
        r == probe_spec(output@),
{
    let (l1, l2) = first_lines(output);
    let line1 = match l1 {
        Some(l) => l,
        None => {
            return Err(ProbeErr::MissingLine);
        },
    };
    let size = match attr_value_exec(line1, "size") {
        Ok(v) => v,
        Err(e) => {
            return Err(e);
        },
    };
    let line2 = match l2 {
        Some(l) => l,
        None => {
            return Err(ProbeErr::MissingLine);
        },
    };
    let align = match attr_value_exec(line2, "align") {
        Ok(v) => v,
        Err(e) => {
            return Err(e);
        },
    };
    let s = crate::decimal::parse_uint_str(size, usize::MAX as u64);
    let a = crate::decimal::parse_uint_str(align, usize::MAX as u64);
    match (s, a) {
        (Some(s), Some(a)) => {
            if layout_ok(s as usize, a as usize) {
                Ok((s as usize, a as usize))
            } else {
                Err(ProbeErr::InvalidLayout)
            }
        },
        _ => Err(ProbeErr::NotANumber),
    }
}

} // verus!
