//! Reading the lines in which the debugger describes a breakpoint location,
//! such as
//! `2.1: where = vec_map.o`vec_map::main + 11 at vec_map.rs:6:27, address = ...`,
//! and the assembly lines of a disassembly.
use vstd::prelude::*;
use crate::text::{
    split_once, starts_with, ends_with, replace_all, trim, is_whitespace, str_split_once,
    str_starts_with, str_ends_with, str_replace, str_trim, substring, chars_of,
};

verus! {

/// `str::trim_start_matches` with a character: `s` without its leading `c`s.
pub open spec fn trim_start_char(s: Seq<char>, c: char) -> Seq<char>
    decreases s.len(),
{
    if s.len() > 0 && s[0] == c {
        trim_start_char(s.drop_first(), c)
    } else {
        s
    }
}

/// `str::trim_end_matches` with a non-empty pattern: `s` without the
/// copies of `p` that it ends with.
pub open spec fn trim_end_pattern(s: Seq<char>, p: Seq<char>) -> Seq<char>
    decreases s.len(),
{
    if p.len() > 0 && p.len() <= s.len() && ends_with(s, p) {
        trim_end_pattern(s.subrange(0, s.len() - p.len()), p)
    } else {
        s
    }
}

/// The fully qualified name of the function of a breakpoint line: between
/// the backtick and ` + `, without leading `<` and trailing `::{{closure}}`.
pub open spec fn bp_fn_full_name(line: Seq<char>) -> Option<Seq<char>> {
    match split_once(line, "`"@) {
        Some((_, after)) => match split_once(after, " + "@) {
            Some((between, _)) => Some(
                trim_end_pattern(trim_start_char(between, '<'), "::{{closure}}"@),
            ),
            None => None,
        },
        None => None,
    }
}

/// The name of the executable of a breakpoint line: between ` = ` and the
/// backtick.
pub open spec fn executable_name(line: Seq<char>) -> Option<Seq<char>> {
    match split_once(line, " = "@) {
        Some((_, after)) => match split_once(after, "`"@) {
            Some((between, _)) => Some(between),
            None => None,
        },
        None => None,
    }
}

/// The function of a breakpoint line is defined in the executable: its
/// crate (the name up to the first `:`) begins the executable's name with
/// `-` read as `_`.
pub open spec fn executable_fn(line: Seq<char>) -> bool {
    match (bp_fn_full_name(line), executable_name(line)) {
        (Some(full), Some(exe)) => match split_once(full, ":"@) {
            Some((prefix, _)) => starts_with(replace_all(exe, "-"@, "_"@), prefix),
            None => false,
        },
        _ => false,
    }
}

/// `str::trim_start_matches` with a character.
pub fn trim_start_matches_char<'a>(s: &'a str, c: char) -> (r: &'a str)
    ensures
        r@ == trim_start_char(s@, c),
{
    let cs = chars_of(s);
    let n = cs.len();
    let mut a: usize = 0;
    assert(s@.subrange(0, n as int) =~= s@);
    while a < n && cs[a] == c
        invariant
            a <= n,
            n == s@.len(),
            cs@ == s@,
            trim_start_char(s@, c) == trim_start_char(s@.subrange(a as int, n as int), c),
        decreases n - a,
    {
        assert(s@.subrange(a as int, n as int).drop_first() =~= s@.subrange(a + 1, n as int));
        a = a + 1;
    }
    substring(s, a, n)
}

/// `str::trim_end_matches` with a non-empty pattern.
pub fn trim_end_matches_str<'a>(s: &'a str, p: &str) -> (r: &'a str)
    requires
        p@.len() > 0,
    ensures
        r@ == trim_end_pattern(s@, p@),
{
    let pl = p.unicode_len();
    let mut b: usize = s.unicode_len();
    assert(s@.subrange(0, b as int) =~= s@);
    loop
        invariant
            b <= s@.len(),
            pl == p@.len(),
            pl > 0,
            trim_end_pattern(s@, p@) == trim_end_pattern(s@.subrange(0, b as int), p@),
        decreases b,
    {
        let cur = substring(s, 0, b);
        if pl <= b && str_ends_with(cur, p) {
            assert(cur@.subrange(0, b - pl) =~= s@.subrange(0, b - pl));
            b = b - pl;
        } else {
            return cur;
        }
    }
}

/// The fully qualified name of the function of a breakpoint line.
pub fn get_bp_fn_full_name(line: &str) -> (r: Option<&str>)
    ensures
        match r {
            Some(x) => bp_fn_full_name(line@) == Some(x@),
            None => bp_fn_full_name(line@) is None,
        },
{
    proof {
        reveal_strlit("::{{closure}}");
    }
    if let Some((_, after)) = str_split_once(line, "`") {
        if let Some((between, _)) = str_split_once(after, " + ") {
            let full_name = trim_end_matches_str(trim_start_matches_char(between, '<'), "::{{closure}}");
            return Some(full_name);
        }
    }
    None
}

/// The name of the executable of a breakpoint line.
pub fn get_executable_name(line: &str) -> (r: Option<&str>)
    ensures
        match r {
            Some(x) => executable_name(line@) == Some(x@),
            None => executable_name(line@) is None,
        },
{
    if let Some((_, after)) = str_split_once(line, " = ") {
        if let Some((between, _)) = str_split_once(after, "`") {
            return Some(between);
        }
    }
    None
}

/// Whether the function of a breakpoint line is defined in the executable.
pub fn is_executable_fn(line: &str) -> (r: bool)
    ensures
        r == executable_fn(line@),
{
    if let Some(fn_full_name) = get_bp_fn_full_name(line) {
        if let Some(executable_name) = get_executable_name(line) {
            if let Some((exec_prefix, _)) = str_split_once(fn_full_name, ":") {
                proof {
                    reveal_strlit("-");
                }
                let replaced = str_replace(executable_name, "-", "_");
                if str_starts_with(replaced.as_str(), exec_prefix) {
                    return true;
                }
            }
        }
    }
    false
}

/// The index of the first whitespace character from `i` on.
pub open spec fn first_whitespace_from(s: Seq<char>, i: int) -> Option<int>
    decreases s.len() - i,
{
    if i < 0 || i >= s.len() {
        None
    } else if is_whitespace(s[i]) {
        Some(i)
    } else {
        first_whitespace_from(s, i + 1)
    }
}

/// An assembly line cut into its instruction and its operands.
pub open spec fn asm_parts(long: Seq<char>) -> (Seq<char>, Seq<char>) {
    match first_whitespace_from(long, 0) {
        Some(pv) => (long.subrange(0, pv), trim(long.subrange(pv, long.len() as int))),
        None => (long, Seq::empty()),
    }
}

/// Cuts an assembly line into its instruction and its operands.
pub fn parse_asm(long: &str) -> (r: (&str, &str))
    ensures
        (r.0@, r.1@) == asm_parts(long@),
{
    let cs = chars_of(long);
    let n = cs.len();
    let mut i: usize = 0;
    while i < n
        invariant
            i <= n,
            n == long@.len(),
            cs@ == long@,
            first_whitespace_from(long@, 0) == first_whitespace_from(long@, i as int),
        decreases n - i,
    {
        if crate::text::is_whitespace_char(cs[i]) {
            let inst = substring(long, 0, i);
            let operand = str_trim(substring(long, i, n));
            return (inst, operand);
        }
        i = i + 1;
    }
    proof {
        reveal_strlit("");
    }
    (long, "")
}


/// A package and how to trace it, as given on the command line
/// (`package/trace`).
#[derive(Debug)]
pub struct PackageCfg {
    pub package: String,
    pub trace: String,
}

/// Cuts `package/trace` at its first `/`.
pub fn parse_package_cfg(src: &str) -> (r: PackageCfg)
    requires
        split_once(src@, "/"@) is Some,
    ensures
        split_once(src@, "/"@) == Some((r.package@, r.trace@)),
{
    match str_split_once(src, "/") {
        Some((package, trace)) => PackageCfg {
            package: crate::text::to_owned_string(package),
            trace: crate::text::to_owned_string(trace),
        },
        None => PackageCfg { package: String::new(), trace: String::new() },
    }
}

} // verus!
