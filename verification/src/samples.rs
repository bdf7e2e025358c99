//! Small programs that the debugger is tested on: recursion, enums, results
//! and options, and structs returned by value.
use vstd::prelude::*;
use vstd::multiset::Multiset;

verus! {

/// `n!`.
pub open spec fn fact(n: nat) -> nat
    decreases n,
{
    if n == 0 {
        1
    } else {
        n * fact((n - 1) as nat)
    }
}

/// The factorial of `i`; `i` must be small enough for it to fit an `i32`.
pub fn factorial(i: i32) -> (r: i32)
    requires
        0 <= i,
        fact(i as nat) <= i32::MAX,
    ensures
        r == fact(i as nat),
    decreases i,
{
    if i == 0 {
        1
    } else {
        proof {
            lemma_fact_pos((i - 1) as nat);
            assert(fact(i as nat) == i * fact((i - 1) as nat));
            assert(fact((i - 1) as nat) <= fact(i as nat)) by (nonlinear_arith)
                requires
                    fact(i as nat) == i * fact((i - 1) as nat),
                    i >= 1,
                    fact((i - 1) as nat) >= 1,
            ;
        }
        i * factorial(i - 1)
    }
}

proof fn lemma_fact_pos(n: nat)
    ensures
        fact(n) >= 1,
    decreases n,
{
    if n > 0 {
        lemma_fact_pos((n - 1) as nat);
        assert(n * fact((n - 1) as nat) >= 1) by (nonlinear_arith)
            requires
                n >= 1,
                fact((n - 1) as nat) >= 1,
        ;
    }
}

/// `0 + 1 + ... + n`.
pub open spec fn triangle(n: nat) -> nat
    decreases n,
{
    if n == 0 {
        0
    } else {
        n + triangle((n - 1) as nat)
    }
}

/// The sum of the numbers up to `i`, by a chain of recursive calls.
pub fn chain(i: usize) -> (r: usize)
    requires
        triangle(i as nat) <= usize::MAX,
    ensures
        r == triangle(i as nat),
    decreases i,
{
    if i == 0 {
        return i;
    }
    return i + chain(i - 1);
}

#[derive(Debug, Copy, Clone, PartialEq, Eq, Structural)]
pub enum Size {
    Small,
    Medium,
    Big,
}

#[derive(Debug, Copy, Clone, PartialEq, Eq, Structural)]
pub enum Direction {
    North,
    East,
    South,
    West,
}

#[derive(Debug, Copy, Clone, PartialEq, Eq, Structural)]
pub enum Greek {
    Alpha,
    Beta,
    Gamma,
    Delta,
    Epsilon,
}

/// The next smaller size; there is none below `Small`.
pub fn shrink(size: Size) -> (r: Size)
    requires
        size != Size::Small,
    ensures
        r == (if size == Size::Big {
            Size::Medium
        } else {
            Size::Small
        }),
{
    match size {
        Size::Medium => Size::Small,
        _ => Size::Medium,
    }
}

/// The opposite direction.
pub fn flip(dir: Direction) -> (r: Direction)
    ensures
        r == match dir {
            Direction::North => Direction::South,
            Direction::East => Direction::West,
            Direction::South => Direction::North,
            Direction::West => Direction::East,
        },
{
    match dir {
        Direction::North => Direction::South,
        Direction::East => Direction::West,
        Direction::South => Direction::North,
        Direction::West => Direction::East,
    }
}

/// The next letter; there is none after `Epsilon`.
pub fn advance(greek: Greek) -> (r: Greek)
    requires
        greek != Greek::Epsilon,
    ensures
        r == match greek {
            Greek::Alpha => Greek::Beta,
            Greek::Beta => Greek::Gamma,
            Greek::Gamma => Greek::Delta,
            _ => Greek::Epsilon,
        },
{
    match greek {
        Greek::Alpha => Greek::Beta,
        Greek::Beta => Greek::Gamma,
        Greek::Gamma => Greek::Delta,
        _ => Greek::Epsilon,
    }
}

/// Flipping twice gives the direction back.
pub proof fn law_flip_twice(dir: Direction)
    ensures
        match dir {
            Direction::North => Direction::South,
            Direction::East => Direction::West,
            Direction::South => Direction::North,
            Direction::West => Direction::East,
        } matches d && match d {
            Direction::North => Direction::South,
            Direction::East => Direction::West,
            Direction::South => Direction::North,
            Direction::West => Direction::East,
        } == dir,
{
}

/// `Ok(())` for 0, `Err(true)` for 1, `Err(false)` for 2.
pub fn res_13(i: i32) -> (r: Result<(), bool>)
    requires
        0 <= i <= 2,
    ensures
        r == (if i == 0 {
            Ok::<(), bool>(())
        } else {
            Err::<(), bool>(i == 1)
        }),
{
    match i {
        0 => Ok(()),
        1 => Err(true),
        _ => Err(false),
    }
}

/// `Err(())` for 0, `Ok(true)` for 1, `Ok(false)` for 2.
pub fn res_14(i: i32) -> (r: Result<bool, ()>)
    requires
        0 <= i <= 2,
    ensures
        r == (if i == 0 {
            Err::<bool, ()>(())
        } else {
            Ok::<bool, ()>(i == 1)
        }),
{
    match i {
        0 => Err(()),
        1 => Ok(true),
        _ => Ok(false),
    }
}

/// `Ok(false)`, `Ok(true)`, `Err(false)`, `Err(true)` for 0 to 3.
pub fn res_15(i: i32) -> (r: Result<bool, bool>)
    requires
        0 <= i <= 3,
    ensures
        r == (if i <= 1 {
            Ok::<bool, bool>(i == 1)
        } else {
            Err::<bool, bool>(i == 3)
        }),
{
    match i {
        0 => Ok(false),
        1 => Ok(true),
        2 => Err(false),
        _ => Err(true),
    }
}

#[derive(Debug, Copy, Clone, PartialEq, Eq, Structural)]
pub enum Gearbox {
    Automatic,
    Manual,
}

/// `Automatic` for 1, `Manual` for 2, nothing else.
pub fn res_enum(i: i32) -> (r: Option<Gearbox>)
    ensures
        r == (if i == 1 {
            Some(Gearbox::Automatic)
        } else if i == 2 {
            Some(Gearbox::Manual)
        } else {
            None
        }),
{
    if i == 1 {
        Some(Gearbox::Automatic)
    } else if i == 2 {
        Some(Gearbox::Manual)
    } else {
        None
    }
}

/// Nothing for 0, a pair of sizes otherwise.
pub fn usize_pair(i: i32) -> (r: Option<(usize, usize)>)
    ensures
        r == (if i == 0 {
            None
        } else {
            Some((1234usize, 5678usize))
        }),
{
    if i == 0 {
        None
    } else {
        Some((1234, 5678))
    }
}

#[derive(Debug, Copy, Clone, PartialEq, Eq, Structural)]
pub struct Good(pub i32);

#[derive(Debug, Copy, Clone, PartialEq, Eq, Structural)]
pub struct Bad {
    pub i: u32,
}

/// Swaps success and failure, counting one up.
pub fn func(v: Result<Good, Bad>) -> (r: Result<Good, Bad>)
    requires
        v matches Ok(Good(x)) ==> x < i32::MAX,
        v matches Err(Bad { i }) ==> i < u32::MAX,
    ensures
        r == match v {
            Ok(Good(x)) => Err::<Good, Bad>(Bad { i: (x + 1) as u32 }),
            Err(Bad { i }) => Ok::<Good, Bad>(Good((i + 1) as i32)),
        },
{
    match v {
        Ok(Good(v)) => Err(Bad { i: (v + 1) as u32 }),
        Err(Bad { i }) => Ok(Good((i + 1) as i32)),
    }
}

/// What a loop counting `i` down to one prints, one number per line.
pub open spec fn count_down(i: int) -> Seq<i32>
    decreases i,
{
    if i <= 0 {
        Seq::empty()
    } else {
        seq![i as i32] + count_down(i - 1)
    }
}

/// The numbers that counting down from `i` prints (the loop runs `i` times
/// at most and stops at zero).
pub fn iter(i: i32) -> (r: Vec<i32>)
    ensures
        r@ == count_down(i as int),
{
    let mut i = i;
    let ghost i0 = i as int;
    let mut out: Vec<i32> = Vec::new();
    let mut n: i32 = 0;
    let end = i;
    while n < end
        invariant
            i0 == end,
            i0 > 0 ==> 0 <= n <= i0 && i == i0 - n && out@ + count_down(i as int) == count_down(i0),
            i0 <= 0 ==> out@.len() == 0 && n == 0,
        ensures
            i0 > 0 ==> i == 0 && out@ + count_down(i as int) == count_down(i0),
            i0 <= 0 ==> out@.len() == 0,
        decreases end - n,
    {
        if i <= 0 {
            break;
        }
        out.push(i);
        proof {
            assert(count_down(i as int) == seq![i as i32] + count_down(i - 1));
            assert(out@ + count_down(i - 1) =~= (out@.drop_last() + seq![i as i32]) + count_down(
                i - 1,
            ));
        }
        i = i - 1;
        n = n + 1;
    }
    proof {
        if i0 > 0 {
            assert(count_down(i as int) =~= Seq::<i32>::empty());
            assert(out@ + Seq::<i32>::empty() =~= out@);
        } else {
            assert(out@ =~= count_down(i0));
        }
    }
    out
}

/// A roll of the dice: always the number itself.
pub fn dice(i: i32) -> (r: Result<i32, ()>)
    ensures
        r == Ok::<i32, ()>(i),
{
    Ok(i)
}

/// The three numbers that the function prints, each first rolled.
pub fn prolog(a: i32, b: i32, c: i32) -> (r: Result<(i32, i32, i32), ()>)
    ensures
        r == Ok::<(i32, i32, i32), ()>((a, b, c)),
{
    let (a, b, c) = (dice(a), dice(b), dice(c));
    let a = a?;
    let b = b?;
    let c = c?;
    Ok((a, b, c))
}

#[derive(Debug, PartialEq, Eq)]
pub struct Piston(pub u8);

#[derive(Debug, PartialEq, Eq)]
pub enum EngineConfig {
    Inline { i: i32 },
    Vshape(i16, i16),
}

#[derive(Debug, PartialEq, Eq)]
pub struct Engine {
    pub config: EngineConfig,
    pub pistons: Vec<Piston>,
}

#[derive(Debug, PartialEq, Eq)]
pub struct Car {
    pub brand: &'static str,
    pub engine: Engine,
    pub gearbox: Gearbox,
}

/// The pistons numbered 1 to `n`.
pub open spec fn numbered(n: nat) -> Seq<Piston> {
    Seq::new(n, |i: int| Piston((i + 1) as u8))
}

/// A Ford with an inline engine of four pistons and a manual gearbox.
pub fn create_manual_car() -> (r: Car)
    ensures
        r.brand@ == "Ford"@,
        r.engine.config == (EngineConfig::Inline { i: 4 }),
        r.engine.pistons@ == numbered(4),
        r.gearbox == Gearbox::Manual,
{
    let pistons = vec![Piston(1), Piston(2), Piston(3), Piston(4)];
    assert(pistons@ =~= numbered(4));
    Car {
        brand: "Ford",
        engine: Engine { config: EngineConfig::Inline { i: 4 }, pistons },
        gearbox: Gearbox::Manual,
    }
}

/// A Mazda with a V engine of no pistons and an automatic gearbox.
pub fn create_auto_car() -> (r: Car)
    ensures
        r.brand@ == "Mazda"@,
        r.engine.config == EngineConfig::Vshape(3, 3),
        r.engine.pistons@ == Seq::<Piston>::empty(),
        r.gearbox == Gearbox::Automatic,
{
    let car = Car {
        brand: "Mazda",
        engine: Engine { config: EngineConfig::Vshape(3, 3), pistons: vec![] },
        gearbox: Gearbox::Automatic,
    };
    car
}

/// The first car if `first`, else the second.
pub fn choose_a_car_for_me<'a>(first: bool, a: &'a Car, b: &'a Car) -> (r: &'a Car)
    ensures
        r == (if first {
            a
        } else {
            b
        }),
{
    if first {
        a
    } else {
        b
    }
}

/// The manual Ford for a positive `i`, else nothing.
pub fn res_obj(i: i32) -> (r: Option<Car>)
    ensures
        i > 0 <==> r is Some,
        r matches Some(car) ==> car.brand@ == "Ford"@ && car.engine.config == (EngineConfig::Inline {
            i: 4,
        }) && car.engine.pistons@ == numbered(4) && car.gearbox == Gearbox::Manual,
{
    if i > 0 {
        let pistons = vec![Piston(1), Piston(2), Piston(3), Piston(4)];
        assert(pistons@ =~= numbered(4));
        Some(
            Car {
                brand: "Ford",
                engine: Engine { config: EngineConfig::Inline { i: 4 }, pistons },
                gearbox: Gearbox::Manual,
            },
        )
    } else {
        None
    }
}

/// A boxed automatic car of no brand and no pistons for a positive `i`,
/// else nothing.
pub fn res_box(i: i32) -> (r: Option<Box<Car>>)
    ensures
        i > 0 <==> r is Some,
        r matches Some(car) ==> car.brand@ == "Nil"@ && car.engine.config == (EngineConfig::Inline {
            i: 0,
        }) && car.engine.pistons@ == Seq::<Piston>::empty() && car.gearbox == Gearbox::Automatic,
{
    if i > 0 {
        Some(
            Box::new(
                Car {
                    brand: "Nil",
                    engine: Engine { config: EngineConfig::Inline { i: 0 }, pistons: vec![] },
                    gearbox: Gearbox::Automatic,
                },
            ),
        )
    } else {
        None
    }
}

/// The values of `s` in `[lo, hi)` are at most `p`.
pub open spec fn all_le(s: Seq<i32>, lo: int, hi: int, p: i32) -> bool {
    forall|k: int| lo <= k < hi ==> #[trigger] s[k] <= p
}

/// The values of `s` in `[lo, hi)` are at least `p`.
pub open spec fn all_ge(s: Seq<i32>, lo: int, hi: int, p: i32) -> bool {
    forall|k: int| lo <= k < hi ==> #[trigger] s[k] >= p
}

/// `s` with the values at `i` and `j` exchanged.
pub open spec fn swapped(s: Seq<i32>, i: int, j: int) -> Seq<i32> {
    s.update(i, s[j]).update(j, s[i])
}

proof fn lemma_swap_perm(s: Seq<i32>, i: int, j: int)
    requires
        0 <= i < s.len(),
        0 <= j < s.len(),
    ensures
        swapped(s, i, j).to_multiset() =~= s.to_multiset(),
        swapped(s, i, j).len() == s.len(),
{
    broadcast use vstd::multiset::group_multiset_axioms, vstd::multiset::group_multiset_properties, vstd::seq_lib::to_multiset_contains;
    let t = s.update(i, s[j]);
    vstd::seq_lib::to_multiset_update(s, i, s[j]);
    vstd::seq_lib::to_multiset_update(t, j, s[i]);
    assert(t[j] == s[j]);
    let m = s.to_multiset();
    assert(s.contains(s[i]));
    assert(s.contains(s[j]));
    assert(m.count(s[i]) > 0);
    assert(m.insert(s[j]).remove(s[i]).insert(s[i]).remove(s[j]) =~= m);
}

/// The values of `s` in `[lo, hi)`, as a multiset.
pub open spec fn range_ms(s: Seq<i32>, lo: int, hi: int) -> Multiset<i32> {
    s.subrange(lo, hi).to_multiset()
}

proof fn lemma_swap_range(s: Seq<i32>, i: int, j: int, lo: int, hi: int)
    requires
        0 <= lo <= i < hi <= s.len(),
        lo <= j < hi,
    ensures
        range_ms(swapped(s, i, j), lo, hi) == range_ms(s, lo, hi),
{
    let sub = s.subrange(lo, hi);
    assert(swapped(s, i, j).subrange(lo, hi) =~= swapped(sub, i - lo, j - lo));
    lemma_swap_perm(sub, i - lo, j - lo);
}

/// Values in `[lo, hi)` that have the same multiset keep their bounds.
proof fn lemma_range_bound(s: Seq<i32>, t: Seq<i32>, lo: int, hi: int, b: i32)
    requires
        0 <= lo <= hi <= s.len(),
        s.len() == t.len(),
        range_ms(s, lo, hi) == range_ms(t, lo, hi),
    ensures
        all_le(s, lo, hi, b) ==> all_le(t, lo, hi, b),
        all_ge(s, lo, hi, b) ==> all_ge(t, lo, hi, b),
{
    broadcast use vstd::seq_lib::to_multiset_contains;
    assert forall|k: int| lo <= k < hi implies exists|j: int| lo <= j < hi && s[j] == #[trigger] t[k] by {
        let ts = t.subrange(lo, hi);
        let ss = s.subrange(lo, hi);
        assert(ts[k - lo] == t[k]);
        assert(ts.contains(t[k]));
        assert(ss.to_multiset().count(t[k]) > 0);
        assert(ss.contains(t[k]));
        let j = choose|j: int| 0 <= j < ss.len() && ss[j] == t[k];
        assert(s[lo + j] == t[k]);
    }
}

fn swap_values(arr: &mut Vec<i32>, i: usize, j: usize)
    requires
        i < old(arr)@.len(),
        j < old(arr)@.len(),
    ensures
        final(arr)@ == swapped(old(arr)@, i as int, j as int),
{
    let a = arr[i];
    let b = arr[j];
    arr.set(i, b);
    arr.set(j, a);
}

/// Partitions `arr[low..=high]` around its last value: the values before
/// the returned index are at most that value, the value at the index is
/// it, and the values after it up to `high` are at least it.
pub fn partition(arr: &mut Vec<i32>, low: isize, high: isize) -> (r: isize)
    requires
        0 <= low < high < old(arr)@.len(),
    ensures
        low <= r <= high,
        final(arr)@.len() == old(arr)@.len(),
        range_ms(final(arr)@, low as int, high + 1) == range_ms(old(arr)@, low as int, high + 1),
        forall|k: int| 0 <= k < old(arr)@.len() && !(low <= k <= high) ==> final(arr)@[k] == old(
            arr,
        )@[k],
        final(arr)@[r as int] == old(arr)@[high as int],
        all_le(final(arr)@, low as int, r as int, old(arr)@[high as int]),
        all_ge(final(arr)@, r + 1, high + 1, old(arr)@[high as int]),
{
    let ghost a0 = arr@;
    let pivot = high as usize;
    let pv = arr[pivot];
    let mut store_index: isize = low - 1;
    let mut last_index: isize = high;
    loop
        invariant_except_break
            low - 1 <= store_index < last_index <= high,
            all_le(arr@, low as int, store_index + 1, pv),
            all_ge(arr@, last_index as int, high as int, pv),
        invariant
            0 <= low < high < arr@.len(),
            pivot == high,
            pv == a0[high as int],
            arr@.len() == a0.len(),
            range_ms(arr@, low as int, high + 1) == range_ms(a0, low as int, high + 1),
            forall|k: int| 0 <= k < a0.len() && !(low <= k < high) ==> arr@[k] == a0[k],
        ensures
            low <= store_index <= high,
            -1 <= last_index < high,
            store_index >= last_index,
            arr@.len() == a0.len(),
            range_ms(arr@, low as int, high + 1) == range_ms(a0, low as int, high + 1),
            forall|k: int| 0 <= k < a0.len() && !(low <= k < high) ==> arr@[k] == a0[k],
            arr@[store_index as int] >= pv,
            all_le(arr@, low as int, store_index as int, pv),
            all_ge(arr@, store_index + 1, high as int, pv),
        decreases last_index - store_index,
    {
        store_index = store_index + 1;
        let ghost store0 = store_index;
        while arr[store_index as usize] < arr[pivot]
            invariant
                store0 <= store_index,
                0 <= low < high < arr@.len(),
                pivot == high,
                pv == a0[high as int],
                arr@[high as int] == pv,
                low <= store_index <= high,
                store_index <= last_index || store_index == high,
                all_le(arr@, low as int, store_index as int, pv),
                all_ge(arr@, last_index as int, high as int, pv),
            decreases high - store_index,
        {
            store_index = store_index + 1;
        }
        let ghost last0 = last_index;
        last_index = last_index - 1;
        while last_index >= 0 && arr[last_index as usize] > arr[pivot]
            invariant
                0 <= low < high < arr@.len(),
                pivot == high,
                arr@[high as int] == pv,
                -1 <= last_index < last0 <= high,
                forall|k: int| last_index < k < last0 ==> #[trigger] arr@[k] > pv,
            decreases last_index + 1,
        {
            last_index = last_index - 1;
        }
        assert(all_ge(arr@, store_index + 1, high as int, pv) || store_index < last_index) by {
            if store_index >= last_index {
                assert forall|k: int| store_index + 1 <= k < high implies #[trigger] arr@[k] >= pv by {
                    if k < last0 {
                        assert(last_index < k);
                    }
                }
            }
        }
        if store_index >= last_index {
            break;
        } else {
            let ghost before = arr@;
            proof {
                lemma_swap_range(before, store_index as int, last_index as int, low as int, high + 1);
            }
            swap_values(arr, store_index as usize, last_index as usize);
            assert forall|k: int| last_index <= k < high implies #[trigger] arr@[k] >= pv by {
                if k == last_index {
                } else if k < last0 {
                    assert(before[k] > pv);
                } else {
                    assert(before[k] >= pv);
                }
            }
            assert forall|k: int| low <= k < store_index + 1 implies #[trigger] arr@[k] <= pv by {
                if k < store_index {
                    assert(before[k] <= pv);
                }
            }
        }
    }
    let ghost before = arr@;
    proof {
        lemma_swap_range(before, store_index as int, pivot as int, low as int, high + 1);
    }
    swap_values(arr, store_index as usize, pivot);
    assert forall|k: int| store_index + 1 <= k < high + 1 implies #[trigger] arr@[k] >= pv by {
        if k == high {
            assert(arr@[k] == before[store_index as int]);
        } else {
            assert(arr@[k] == before[k]);
        }
    }
    assert forall|k: int| low <= k < store_index implies #[trigger] arr@[k] <= pv by {
        assert(arr@[k] == before[k]);
    }
    store_index
}


/// The values of `s` in `[lo, hi]` are in ascending order.
pub open spec fn sorted_between(s: Seq<i32>, lo: int, hi: int) -> bool {
    forall|i: int, j: int| lo <= i <= j <= hi ==> s[i] <= s[j]
}

proof fn lemma_range_split(s: Seq<i32>, lo: int, mid: int, hi: int)
    requires
        0 <= lo <= mid <= hi <= s.len(),
    ensures
        range_ms(s, lo, hi) == range_ms(s, lo, mid).add(range_ms(s, mid, hi)),
{
    assert(s.subrange(lo, hi) =~= s.subrange(lo, mid) + s.subrange(mid, hi));
    vstd::seq_lib::lemma_multiset_commutative(s.subrange(lo, mid), s.subrange(mid, hi));
}

proof fn lemma_range_same(s: Seq<i32>, t: Seq<i32>, lo: int, hi: int)
    requires
        0 <= lo <= hi <= s.len(),
        s.len() == t.len(),
        forall|k: int| lo <= k < hi ==> s[k] == t[k],
    ensures
        range_ms(s, lo, hi) == range_ms(t, lo, hi),
{
    assert(s.subrange(lo, hi) =~= t.subrange(lo, hi));
}

/// Sorts `arr[low..=high]` in ascending order, leaving the other values as
/// they are.
pub fn quick_sort(arr: &mut Vec<i32>, low: isize, high: isize)
    requires
        low < high ==> 0 <= low && high < old(arr)@.len(),
        old(arr)@.len() <= isize::MAX,
    ensures
        final(arr)@.len() == old(arr)@.len(),
        low < high ==> range_ms(final(arr)@, low as int, high + 1) == range_ms(
            old(arr)@,
            low as int,
            high + 1,
        ),
        forall|k: int| 0 <= k < old(arr)@.len() && !(low <= k <= high) ==> final(arr)@[k] == old(
            arr,
        )@[k],
        low >= high ==> final(arr)@ == old(arr)@,
        sorted_between(final(arr)@, low as int, high as int),
    decreases if high > low {
        high - low
    } else {
        0
    },
{
    if low < high {
        let ghost s0 = arr@;
        let p = partition(arr, low, high);
        let ghost s1 = arr@;
        let ghost pv = s0[high as int];
        quick_sort(arr, low, p - 1);
        let ghost s2 = arr@;
        quick_sort(arr, p + 1, high);
        let ghost s3 = arr@;
        proof {
            let lo = low as int;
            let hi = high as int;
            let q = p as int;
            // the left part keeps its bound through the first call, and is untouched by the second
            if lo < q - 1 {
                lemma_range_bound(s1, s2, lo, q, pv);
            } else {
                assert(s2 == s1);
            }
            assert(all_le(s2, lo, q, pv));
            assert(forall|k: int| lo <= k < q ==> s3[k] == s2[k]);
            assert(all_le(s3, lo, q, pv));
            assert(s3[q] == pv);
            if q + 1 < hi {
                assert(forall|k: int| q + 1 <= k <= hi ==> s2[k] == s1[k]);
                lemma_range_same(s1, s2, q + 1, hi + 1);
                lemma_range_bound(s2, s3, q + 1, hi + 1, pv);
            } else {
                assert(s3 == s2);
                assert(forall|k: int| q + 1 <= k <= hi ==> s2[k] == s1[k]);
            }
            assert(all_ge(s3, q + 1, hi + 1, pv));
            assert(sorted_between(s3, lo, hi)) by {
                assert forall|i: int, j: int| lo <= i <= j <= hi implies s3[i] <= s3[j] by {
                    if j < q {
                        assert(sorted_between(s2, lo, q - 1));
                        assert(s3[i] == s2[i] && s3[j] == s2[j]);
                    } else if i > q {
                        assert(sorted_between(s3, q + 1, hi));
                    } else {
                        assert(s3[i] <= pv);
                        assert(s3[j] >= pv);
                    }
                }
            }
            // the multiset of the whole range
            lemma_range_split(s1, lo, q, hi + 1);
            lemma_range_split(s3, lo, q, hi + 1);
            lemma_range_split(s1, q, q + 1, hi + 1);
            lemma_range_split(s3, q, q + 1, hi + 1);
            if lo < q - 1 {
                assert(range_ms(s2, lo, q) == range_ms(s1, lo, q));
            } else {
                assert(s2 == s1);
            }
            lemma_range_same(s2, s3, lo, q);
            lemma_range_same(s1, s3, q, q + 1);
            if q + 1 < hi {
                assert(range_ms(s3, q + 1, hi + 1) == range_ms(s2, q + 1, hi + 1));
                lemma_range_same(s1, s2, q + 1, hi + 1);
            } else {
                lemma_range_same(s1, s3, q + 1, hi + 1);
            }
        }
    }
}

/// Sorts the values in ascending order (there must be at least one).
pub fn run(arr: &mut Vec<i32>)
    requires
        1 <= old(arr)@.len() <= isize::MAX,
    ensures
        final(arr)@.to_multiset() == old(arr)@.to_multiset(),
        sorted_between(final(arr)@, 0, final(arr)@.len() - 1),
{
    let len = arr.len();
    let ghost s0 = arr@;
    quick_sort(arr, 0, (len - 1) as isize);
    proof {
        if len > 1 {
            assert(arr@.subrange(0, len as int) =~= arr@);
            assert(s0.subrange(0, len as int) =~= s0);
        }
    }
}

} // verus!
