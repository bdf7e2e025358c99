//! The settings of `firedbg.toml`: which members of a workspace are traced,
//! and how much of each.
use vstd::prelude::*;
use std::collections::BTreeMap;
use crate::text::{chars_of, str_eq, to_owned_string};

verus! {

/// The whole `firedbg.toml`.
#[derive(Debug, Clone, PartialEq, Eq, Default)]
pub struct Config {
    pub workspace: Workspace,
    pub targets: Vec<Target>,
}

/// The `[workspace]` table: settings by member name.
#[derive(Debug, Clone, PartialEq, Eq, Default)]
pub struct Workspace {
    pub members: BTreeMap<String, Member>,
}

/// The settings of one member.
#[derive(Debug, Clone, PartialEq, Eq, Default)]
pub struct Member {
    pub trace: Trace,
}

/// A target to run under the debugger.
#[derive(Debug, Clone, PartialEq, Eq)]
pub struct Target {
    pub name: String,
    pub target: TargetType,
    pub argv: Vec<String>,
}

/// The kind of a target.
#[derive(Debug, Clone, PartialEq, Eq)]
pub enum TargetType {
    Binary { name: String },
    Example { name: String },
}

/// How much of a member is traced.
#[derive(Debug, Clone, Copy, PartialEq, Eq, Structural, Default)]
pub enum Trace {
    #[default]
    Off,
    CallOnly,
    Full,
}

/// The pinned version of the command line tool.
#[derive(Debug, Clone, PartialEq, Eq, Default)]
pub struct Version {
    pub firedbg_cli: String,
}

/// The name of a trace level in `firedbg.toml` (kebab case).
pub open spec fn trace_name(t: Trace) -> Seq<char> {
    match t {
        Trace::Off => "none"@,
        Trace::CallOnly => "call-only"@,
        Trace::Full => "full"@,
    }
}

impl Trace {
    /// The name of the trace level.
    pub fn to_str(&self) -> (r: &str)
        ensures
            r@ == trace_name(*self),
    {
        match self {
            Trace::Off => "none",
            Trace::CallOnly => "call-only",
            Trace::Full => "full",
        }
    }

    /// The trace level with this name; `None` for any other name.
    pub fn from_name(name: &str) -> (r: Option<Trace>)
        ensures
            match r {
                Some(t) => trace_name(t) == name@,
                None => forall|t: Trace| trace_name(t) != name@,
            },
    {
        if str_eq(name, "none") {
            Some(Trace::Off)
        } else if str_eq(name, "call-only") {
            Some(Trace::CallOnly)
        } else if str_eq(name, "full") {
            Some(Trace::Full)
        } else {
            None
        }
    }
}

/// Reading back the name of a trace level gives the level.
pub proof fn law_trace_name_roundtrip(t: Trace, u: Trace)
    ensures
        trace_name(t) == trace_name(u) <==> t == u,
{
    reveal_strlit("none");
    reveal_strlit("call-only");
    reveal_strlit("full");
    if t != u {
        match (t, u) {
            (Trace::Off, Trace::CallOnly) | (Trace::CallOnly, Trace::Off) => {
                assert(trace_name(Trace::Off).len() != trace_name(Trace::CallOnly).len());
            },
            (Trace::Off, Trace::Full) | (Trace::Full, Trace::Off) => {
                assert(trace_name(Trace::Off)[0] != trace_name(Trace::Full)[0]);
            },
            (Trace::CallOnly, Trace::Full) | (Trace::Full, Trace::CallOnly) => {
                assert(trace_name(Trace::CallOnly).len() != trace_name(Trace::Full).len());
            },
            _ => {},
        }
    }
}

/// Comparing two names from position `i` on, as strings are ordered: by
/// the first character where they differ, else the shorter first.
pub open spec fn name_lt_from(a: Seq<char>, b: Seq<char>, i: int) -> bool
    decreases a.len() - i,
{
    if i >= a.len() {
        i < b.len()
    } else if i >= b.len() {
        false
    } else if a[i] != b[i] {
        (a[i] as u32) < (b[i] as u32)
    } else {
        name_lt_from(a, b, i + 1)
    }
}

/// `a` comes before `b` in the order of strings.
pub open spec fn name_lt(a: Seq<char>, b: Seq<char>) -> bool {
    name_lt_from(a, b, 0)
}

proof fn lemma_name_lt_total(a: Seq<char>, b: Seq<char>, i: int)
    requires
        0 <= i <= a.len(),
        i <= b.len(),
        a.subrange(0, i) == b.subrange(0, i),
        a != b,
    ensures
        name_lt_from(a, b, i) || name_lt_from(b, a, i),
    decreases a.len() - i,
{
    if i < a.len() && i < b.len() && a[i] == b[i] {
        assert(a.subrange(0, i + 1) =~= a.subrange(0, i).push(a[i]));
        assert(b.subrange(0, i + 1) =~= b.subrange(0, i).push(b[i]));
        lemma_name_lt_total(a, b, i + 1);
    } else if i >= a.len() && i >= b.len() {
        assert(a =~= a.subrange(0, i));
        assert(b =~= b.subrange(0, i));
    } else if i < a.len() && i < b.len() {
        vstd::utf8::char_u32_cast(a[i], a[i] as u32);
        vstd::utf8::char_u32_cast(b[i], b[i] as u32);
    }
}

proof fn lemma_name_lt_transitive(a: Seq<char>, b: Seq<char>, c: Seq<char>, i: int)
    requires
        0 <= i,
        name_lt_from(a, b, i),
        name_lt_from(b, c, i),
    ensures
        name_lt_from(a, c, i),
    decreases a.len() - i,
{
    if i < a.len() && i < b.len() && i < c.len() && a[i] == b[i] && b[i] == c[i] {
        lemma_name_lt_transitive(a, b, c, i + 1);
    }
}

/// Whether `a` comes before `b` in the order of strings.
pub fn name_less(a: &str, b: &str) -> (r: bool)
    ensures
        r == name_lt(a@, b@),
{
    let x = chars_of(a);
    let y = chars_of(b);
    let mut i: usize = 0;
    while i < x.len() && i < y.len()
        invariant
            x@ == a@,
            y@ == b@,
            i <= x@.len(),
            i <= y@.len(),
            name_lt_from(a@, b@, 0) == name_lt_from(a@, b@, i as int),
        decreases x@.len() - i,
    {
        if x[i] != y[i] {
            return (x[i] as u32) < (y[i] as u32);
        }
        i = i + 1;
    }
    i < y.len()
}

/// The trace level of a package named `name`: that of the last member so
/// named in the settings, else full for the package of the executable and
/// none for any other.
pub open spec fn trace_of(name: Seq<char>, executable: Seq<char>, members: Seq<(String, Trace)>) -> Trace
    decreases members.len(),
{
    if members.len() == 0 {
        if name == executable {
            Trace::Full
        } else {
            Trace::Off
        }
    } else if members.last().0@ == name {
        members.last().1
    } else {
        trace_of(name, executable, members.drop_last())
    }
}

/// The trace level of the package named `name`.
fn member_trace(name: &str, executable: &str, members: &Vec<(String, Trace)>) -> (r: Trace)
    ensures
        r == trace_of(name@, executable@, members@),
{
    let mut k: usize = members.len();
    assert(members@.take(k as int) =~= members@);
    while k > 0
        invariant
            k <= members@.len(),
            trace_of(name@, executable@, members@) == trace_of(name@, executable@, members@.take(k as int)),
        decreases k,
    {
        assert(members@.take(k as int).drop_last() =~= members@.take(k - 1));
        if str_eq(members[k - 1].0.as_str(), name) {
            return members[k - 1].1;
        }
        k = k - 1;
    }
    if str_eq(name, executable) {
        Trace::Full
    } else {
        Trace::Off
    }
}

/// The names of the entries are in strictly increasing order.
pub open spec fn names_sorted(r: Seq<(String, Trace)>) -> bool {
    forall|i: int, j: int| 0 <= i < j < r.len() ==> name_lt(#[trigger] r[i].0@, #[trigger] r[j].0@)
}

/// Some package is named `name`.
pub open spec fn package_named(packages: Seq<String>, name: Seq<char>) -> bool {
    exists|q: int| 0 <= q < packages.len() && (#[trigger] packages[q])@ == name
}

/// Some entry is named `name`.
pub open spec fn entry_named(r: Seq<(String, Trace)>, name: Seq<char>) -> bool {
    exists|i: int| 0 <= i < r.len() && (#[trigger] r[i]).0@ == name
}

/// Every entry is named after one of the packages.
pub open spec fn named_after(r: Seq<(String, Trace)>, packages: Seq<String>) -> bool {
    forall|i: int| 0 <= i < r.len() ==> package_named(packages, (#[trigger] r[i]).0@)
}

/// Every package has an entry.
pub open spec fn has_entries(r: Seq<(String, Trace)>, packages: Seq<String>) -> bool {
    forall|q: int| 0 <= q < packages.len() ==> entry_named(r, (#[trigger] packages[q])@)
}

/// Every entry holds the trace level of its name.
pub open spec fn traced(r: Seq<(String, Trace)>, executable: Seq<char>, members: Seq<(String, Trace)>) -> bool {
    forall|i: int| 0 <= i < r.len() ==> (#[trigger] r[i]).1 == trace_of(r[i].0@, executable, members)
}

#[verifier::spinoff_prover]
proof fn lemma_insert_sorted(before: Seq<(String, Trace)>, j: int, x: (String, Trace))
    requires
        0 <= j <= before.len(),
        names_sorted(before),
        forall|i: int| 0 <= i < j ==> name_lt(#[trigger] before[i].0@, x.0@),
        forall|i: int| j <= i < before.len() ==> name_lt(x.0@, #[trigger] before[i].0@),
    ensures
        names_sorted(before.insert(j, x)),
{
    let r = before.insert(j, x);
    assert forall|a: int, b: int| 0 <= a < b < r.len() implies name_lt(#[trigger] r[a].0@, #[trigger] r[b].0@) by {
        if b < j {
            assert(r[a] == before[a] && r[b] == before[b]);
        } else if b == j {
            assert(r[a] == before[a]);
        } else if a < j {
            assert(r[a] == before[a] && r[b] == before[b - 1]);
        } else if a == j {
            assert(r[b] == before[b - 1]);
        } else {
            assert(r[a] == before[a - 1] && r[b] == before[b - 1]);
        }
    }
}

#[verifier::spinoff_prover]
proof fn lemma_insert_named(before: Seq<(String, Trace)>, j: int, x: (String, Trace), packages: Seq<String>, k: int)
    requires
        0 <= j <= before.len(),
        0 <= k < packages.len(),
        x.0@ == packages[k]@,
        named_after(before, packages.take(k)),
    ensures
        named_after(before.insert(j, x), packages.take(k + 1)),
{
    let r = before.insert(j, x);
    let pk = packages.take(k);
    let pk1 = packages.take(k + 1);
    assert forall|i: int| 0 <= i < r.len() implies package_named(pk1, (#[trigger] r[i]).0@) by {
        if i == j {
            assert(pk1[k] == packages[k]);
            assert(r[i] == x);
        } else {
            let b = if i < j { i } else { i - 1 };
            let e = before[b];
            assert(r[i] == e);
            assert(package_named(pk, e.0@));
            let q = choose|q: int| 0 <= q < pk.len() && (#[trigger] pk[q])@ == e.0@;
            assert(pk1[q] == pk[q]);
        }
    }
}

#[verifier::spinoff_prover]
proof fn lemma_insert_entries(before: Seq<(String, Trace)>, j: int, x: (String, Trace), packages: Seq<String>, k: int)
    requires
        0 <= j <= before.len(),
        0 <= k < packages.len(),
        x.0@ == packages[k]@,
        has_entries(before, packages.take(k)),
    ensures
        has_entries(before.insert(j, x), packages.take(k + 1)),
{
    let r = before.insert(j, x);
    let pk = packages.take(k);
    let pk1 = packages.take(k + 1);
    assert forall|q: int| 0 <= q < pk1.len() implies entry_named(r, (#[trigger] pk1[q])@) by {
        if q == k {
            assert(r[j] == x);
        } else {
            let p = pk[q];
            assert(pk1[q] == p);
            assert(entry_named(before, p@));
            let i0 = choose|i: int| 0 <= i < before.len() && (#[trigger] before[i]).0@ == p@;
            if i0 < j {
                assert(r[i0] == before[i0]);
            } else {
                assert(r[i0 + 1] == before[i0]);
            }
        }
    }
}

#[verifier::spinoff_prover]
proof fn lemma_insert_traced(
    before: Seq<(String, Trace)>,
    j: int,
    x: (String, Trace),
    executable: Seq<char>,
    members: Seq<(String, Trace)>,
)
    requires
        0 <= j <= before.len(),
        x.1 == trace_of(x.0@, executable, members),
        traced(before, executable, members),
    ensures
        traced(before.insert(j, x), executable, members),
{
    let r = before.insert(j, x);
    assert forall|i: int| 0 <= i < r.len() implies (#[trigger] r[i]).1 == trace_of(r[i].0@, executable, members) by {
        if i < j {
            assert(r[i] == before[i]);
        } else if i > j {
            assert(r[i] == before[i - 1]);
        }
    }
}

#[verifier::spinoff_prover]
proof fn lemma_present_named(r: Seq<(String, Trace)>, packages: Seq<String>, k: int)
    requires
        0 <= k < packages.len(),
        named_after(r, packages.take(k)),
    ensures
        named_after(r, packages.take(k + 1)),
{
    let pk = packages.take(k);
    let pk1 = packages.take(k + 1);
    assert forall|i: int| 0 <= i < r.len() implies package_named(pk1, (#[trigger] r[i]).0@) by {
        assert(package_named(pk, r[i].0@));
        let q = choose|q: int| 0 <= q < pk.len() && (#[trigger] pk[q])@ == r[i].0@;
        assert(pk1[q] == pk[q]);
    }
}

#[verifier::spinoff_prover]
proof fn lemma_present_entries(r: Seq<(String, Trace)>, j: int, packages: Seq<String>, k: int)
    requires
        0 <= j < r.len(),
        0 <= k < packages.len(),
        r[j].0@ == packages[k]@,
        has_entries(r, packages.take(k)),
    ensures
        has_entries(r, packages.take(k + 1)),
{
    let pk = packages.take(k);
    let pk1 = packages.take(k + 1);
    assert forall|q: int| 0 <= q < pk1.len() implies entry_named(r, (#[trigger] pk1[q])@) by {
        if q == k {
            assert(r[j].0@ == pk1[q]@);
        } else {
            let p = pk[q];
            assert(pk1[q] == p);
            assert(entry_named(r, p@));
        }
    }
}

/// The trace level of each package of a workspace, one entry per package
/// name, in the order of the names: the trace level that the settings of
/// `firedbg.toml` give its name (the last one, where several do), else
/// full for the package of the executable and none for every other.
pub fn trace_packages(
    packages: &Vec<String>,
    executable: &str,
    members: &Vec<(String, Trace)>,
) -> (r: Vec<(String, Trace)>)
    ensures
        names_sorted(r@),
        named_after(r@, packages@),
        has_entries(r@, packages@),
        traced(r@, executable@, members@),
{
    let mut r: Vec<(String, Trace)> = Vec::new();
    let mut k: usize = 0;
    while k < packages.len()
        invariant
            k <= packages@.len(),
            names_sorted(r@),
            named_after(r@, packages@.take(k as int)),
            has_entries(r@, packages@.take(k as int)),
            traced(r@, executable@, members@),
        decreases packages@.len() - k,
    {
        let name = packages[k].as_str();
        let mut j: usize = 0;
        while j < r.len() && name_less(r[j].0.as_str(), name)
            invariant
                j <= r@.len(),
                forall|i: int| 0 <= i < j ==> name_lt(#[trigger] r@[i].0@, name@),
            decreases r@.len() - j,
        {
            j = j + 1;
        }
        if j < r.len() && str_eq(r[j].0.as_str(), name) {
            proof {
                lemma_present_named(r@, packages@, k as int);
                lemma_present_entries(r@, j as int, packages@, k as int);
            }
        } else {
            proof {
                if j < r@.len() {
                    assert(r@[j as int].0@.subrange(0, 0) =~= name@.subrange(0, 0));
                    lemma_name_lt_total(r@[j as int].0@, name@, 0);
                }
                assert forall|i: int| j <= i < r@.len() implies name_lt(name@, #[trigger] r@[i].0@) by {
                    if i > j {
                        lemma_name_lt_transitive(name@, r@[j as int].0@, r@[i].0@, 0);
                    }
                }
            }
            let t = member_trace(name, executable, members);
            let entry = (to_owned_string(name), t);
            proof {
                lemma_insert_sorted(r@, j as int, entry);
                lemma_insert_named(r@, j as int, entry, packages@, k as int);
                lemma_insert_entries(r@, j as int, entry, packages@, k as int);
                lemma_insert_traced(r@, j as int, entry, executable@, members@);
            }
            r.insert(j, entry);
        }
        k = k + 1;
    }
    assert(packages@.take(k as int) =~= packages@);
    r
}

} // verus!
