//! The types of the values that the debugger captures, as they are named
//! in the debug information, and their sizes.
use vstd::prelude::*;
use std::rc::Rc;
use crate::decimal::{decimal_text, lemma_decimal_text_digits, parse_uint, push_decimal};
use crate::text::{
    append_str, contains, ends_with, occurs_at, rsplit_once, starts_with, str_contains,
    str_ends_with, str_eq, str_rsplit_once, str_starts_with, str_trim, substring, trim,
};

verus! {

/// A type, as far as the debugger tells types apart. Floating point types
/// are `float32` and `float64`.
#[allow(non_camel_case_types)]
#[derive(Debug, PartialEq, Eq)]
pub enum ValueType {
    Unit,
    bool,
    char,
    u8,
    i8,
    u16,
    i16,
    u32,
    i32,
    u64,
    i64,
    u128,
    i128,
    float32,
    float64,
    usize,
    isize,
    str,
    Option(Rc<ValueType>),
    Result(Rc<ValueType>, Rc<ValueType>),
    /// ref, Box, Rc, Arc
    Reference(Rc<ValueType>),
    /// Fat pointers: &dyn Trait, Box<dyn>, Rc<dyn>, Arc<dyn>
    DynRef(Rc<ValueType>),
    Array(Rc<ValueType>, usize),
    Slice(Rc<ValueType>),
    Other(String),
}

/// The content of a [`ValueType`].
#[allow(non_camel_case_types)]
pub enum SType {
    Unit,
    bool,
    char,
    u8,
    i8,
    u16,
    i16,
    u32,
    i32,
    u64,
    i64,
    u128,
    i128,
    float32,
    float64,
    usize,
    isize,
    str,
    Option(Box<SType>),
    Result(Box<SType>, Box<SType>),
    Reference(Box<SType>),
    DynRef(Box<SType>),
    Array(Box<SType>, usize),
    Slice(Box<SType>),
    Other(Seq<char>),
}

/// The size of a type, where it is known.
#[derive(Debug)]
pub enum SizeOfType {
    Sized(usize),
    Unknown,
}

/// The content of a type.
pub open spec fn st(t: ValueType) -> SType
    decreases t,
{
    match t {
        ValueType::Unit => SType::Unit,
        ValueType::bool => SType::bool,
        ValueType::char => SType::char,
        ValueType::u8 => SType::u8,
        ValueType::i8 => SType::i8,
        ValueType::u16 => SType::u16,
        ValueType::i16 => SType::i16,
        ValueType::u32 => SType::u32,
        ValueType::i32 => SType::i32,
        ValueType::u64 => SType::u64,
        ValueType::i64 => SType::i64,
        ValueType::u128 => SType::u128,
        ValueType::i128 => SType::i128,
        ValueType::float32 => SType::float32,
        ValueType::float64 => SType::float64,
        ValueType::usize => SType::usize,
        ValueType::isize => SType::isize,
        ValueType::str => SType::str,
        ValueType::Option(a) => SType::Option(Box::new(st(*a))),
        ValueType::Result(a, b) => SType::Result(Box::new(st(*a)), Box::new(st(*b))),
        ValueType::Reference(a) => SType::Reference(Box::new(st(*a))),
        ValueType::DynRef(a) => SType::DynRef(Box::new(st(*a))),
        ValueType::Array(a, n) => SType::Array(Box::new(st(*a)), n),
        ValueType::Slice(a) => SType::Slice(Box::new(st(*a))),
        ValueType::Other(s) => SType::Other(s@),
    }
}

impl View for ValueType {
    type V = SType;

    open spec fn view(&self) -> SType {
        st(*self)
    }
}

impl Clone for ValueType {
    fn clone(&self) -> (r: Self)
        ensures
            r@ == self@,
        decreases self,
    {
        match self {
            ValueType::Unit => ValueType::Unit,
            ValueType::bool => ValueType::bool,
            ValueType::char => ValueType::char,
            ValueType::u8 => ValueType::u8,
            ValueType::i8 => ValueType::i8,
            ValueType::u16 => ValueType::u16,
            ValueType::i16 => ValueType::i16,
            ValueType::u32 => ValueType::u32,
            ValueType::i32 => ValueType::i32,
            ValueType::u64 => ValueType::u64,
            ValueType::i64 => ValueType::i64,
            ValueType::u128 => ValueType::u128,
            ValueType::i128 => ValueType::i128,
            ValueType::float32 => ValueType::float32,
            ValueType::float64 => ValueType::float64,
            ValueType::usize => ValueType::usize,
            ValueType::isize => ValueType::isize,
            ValueType::str => ValueType::str,
            ValueType::Option(a) => ValueType::Option(Rc::new((**a).clone())),
            ValueType::Result(a, b) => ValueType::Result(
                Rc::new((**a).clone()),
                Rc::new((**b).clone()),
            ),
            ValueType::Reference(a) => ValueType::Reference(Rc::new((**a).clone())),
            ValueType::DynRef(a) => ValueType::DynRef(Rc::new((**a).clone())),
            ValueType::Array(a, n) => ValueType::Array(Rc::new((**a).clone()), *n),
            ValueType::Slice(a) => ValueType::Slice(Rc::new((**a).clone())),
            ValueType::Other(s) => ValueType::Other(s.clone()),
        }
    }
}

impl Default for ValueType {
    fn default() -> (r: Self)
        ensures
            r@ == SType::Unit,
    {
        ValueType::Unit
    }
}

/// The name of a primitive type; `None` for any other type.
pub open spec fn prim_name(t: SType) -> Option<Seq<char>> {
    match t {
        SType::Unit => Some("()"@),
        SType::bool => Some("bool"@),
        SType::char => Some("char"@),
        SType::u8 => Some("u8"@),
        SType::i8 => Some("i8"@),
        SType::u16 => Some("u16"@),
        SType::i16 => Some("i16"@),
        SType::u32 => Some("u32"@),
        SType::i32 => Some("i32"@),
        SType::u64 => Some("u64"@),
        SType::i64 => Some("i64"@),
        SType::u128 => Some("u128"@),
        SType::i128 => Some("i128"@),
        SType::float32 => Some("f32"@),
        SType::float64 => Some("f64"@),
        SType::usize => Some("usize"@),
        SType::isize => Some("isize"@),
        _ => None,
    }
}

/// The name of a type, as `Display` writes it.
pub open spec fn type_text(t: SType) -> Seq<char>
    decreases t,
{
    match t {
        SType::str => "str"@,
        SType::Option(a) => "core::option::Option<"@ + type_text(*a) + ">"@,
        SType::Result(a, b) => "core::result::Result<"@ + type_text(*a) + ", "@ + type_text(*b)
            + ">"@,
        SType::Reference(a) => "&"@ + type_text(*a),
        SType::DynRef(a) => "&dyn "@ + type_text(*a),
        SType::Array(a, n) => "["@ + type_text(*a) + "; "@ + decimal_text(n as nat) + "]"@,
        SType::Slice(a) => "&["@ + type_text(*a) + "]"@,
        SType::Other(s) => s,
        _ => prim_name(t)->0,
    }
}

/// The number of bytes of a pointer, and of a `usize`.
pub open spec fn ptr_size() -> nat {
    (usize::BITS / 8) as nat
}

/// The size in bytes of a type, where it is known.
pub open spec fn size_spec(t: SType) -> Option<nat>
    decreases t,
{
    match t {
        SType::Unit => Some(0),
        SType::bool => Some(1),
        SType::char => Some(4),
        SType::u8 => Some(1),
        SType::i8 => Some(1),
        SType::u16 => Some(2),
        SType::i16 => Some(2),
        SType::u32 => Some(4),
        SType::i32 => Some(4),
        SType::u64 => Some(8),
        SType::i64 => Some(8),
        SType::u128 => Some(16),
        SType::i128 => Some(16),
        SType::float32 => Some(4),
        SType::float64 => Some(8),
        SType::usize => Some(ptr_size()),
        SType::isize => Some(ptr_size()),
        SType::str => None,
        SType::Option(_) => None,
        SType::Result(_, _) => None,
        SType::Reference(r) => match *r {
            SType::str => Some(2 * ptr_size()),
            _ => Some(ptr_size()),
        },
        SType::DynRef(_) => Some(2 * ptr_size()),
        SType::Array(a, n) => match size_spec(*a) {
            Some(s) => Some(s * (n as nat)),
            None => None,
        },
        SType::Slice(_) => Some(2 * ptr_size()),
        SType::Other(_) => None,
    }
}

/// Every size that computing the size of `t` multiplies out fits in a `usize`.
pub open spec fn size_fits(t: SType) -> bool
    decreases t,
{
    match t {
        SType::Array(a, n) => size_fits(*a) && match size_spec(*a) {
            Some(s) => s * n <= usize::MAX,
            None => true,
        },
        _ => true,
    }
}

impl ValueType {
    pub fn is_primitive(&self) -> (r: bool)
        ensures
            r == prim_name(self@) is Some,
    {
        match self {
            ValueType::Unit | ValueType::bool | ValueType::char | ValueType::u8 | ValueType::i8
            | ValueType::u16 | ValueType::i16 | ValueType::u32 | ValueType::i32 | ValueType::u64
            | ValueType::i64 | ValueType::u128 | ValueType::i128 | ValueType::float32
            | ValueType::float64 | ValueType::usize | ValueType::isize => true,
            _ => false,
        }
    }

    /// The name of a primitive type.
    pub fn primitive_name(&self) -> (r: &'static str)
        requires
            prim_name(self@) is Some,
        ensures
            r@ == prim_name(self@)->0,
    {
        match self {
            ValueType::Unit => "()",
            ValueType::bool => "bool",
            ValueType::char => "char",
            ValueType::u8 => "u8",
            ValueType::i8 => "i8",
            ValueType::u16 => "u16",
            ValueType::i16 => "i16",
            ValueType::u32 => "u32",
            ValueType::i32 => "i32",
            ValueType::u64 => "u64",
            ValueType::i64 => "i64",
            ValueType::u128 => "u128",
            ValueType::i128 => "i128",
            ValueType::float32 => "f32",
            ValueType::float64 => "f64",
            ValueType::usize => "usize",
            _ => "isize",
        }
    }

    /// The size of the type in bytes, where it is known.
    pub fn size_of(&self) -> (r: SizeOfType)
        requires
            size_fits(self@),
        ensures
            match r {
                SizeOfType::Sized(n) => size_spec(self@) == Some(n as nat),
                SizeOfType::Unknown => size_spec(self@) is None,
            },
        decreases self,
    {
        proof {
            reveal_with_fuel(st, 2);
            reveal_with_fuel(size_spec, 2);
        }
        let ptr: usize = (usize::BITS / 8) as usize;
        assert(ptr == ptr_size());
        match self {
            ValueType::Unit => SizeOfType::Sized(0),
            ValueType::bool => SizeOfType::Sized(1),
            ValueType::char => SizeOfType::Sized(4),
            ValueType::u8 => SizeOfType::Sized(1),
            ValueType::i8 => SizeOfType::Sized(1),
            ValueType::u16 => SizeOfType::Sized(2),
            ValueType::i16 => SizeOfType::Sized(2),
            ValueType::u32 => SizeOfType::Sized(4),
            ValueType::i32 => SizeOfType::Sized(4),
            ValueType::u64 => SizeOfType::Sized(8),
            ValueType::i64 => SizeOfType::Sized(8),
            ValueType::u128 => SizeOfType::Sized(16),
            ValueType::i128 => SizeOfType::Sized(16),
            ValueType::float32 => SizeOfType::Sized(4),
            ValueType::float64 => SizeOfType::Sized(8),
            ValueType::usize => SizeOfType::Sized(ptr),
            ValueType::isize => SizeOfType::Sized(ptr),
            ValueType::str => SizeOfType::Unknown,
            ValueType::Option(_) => SizeOfType::Unknown,
            ValueType::Result(_, _) => SizeOfType::Unknown,
            ValueType::Reference(r) => match **r {
                ValueType::str => SizeOfType::Sized(2 * ptr),
                _ => SizeOfType::Sized(ptr),
            },
            ValueType::DynRef(_) => SizeOfType::Sized(2 * ptr),
            ValueType::Array(ty, len) => match ty.size_of() {
                SizeOfType::Sized(size) => {
                    proof {
                        assert(size * *len <= usize::MAX);
                    }
                    SizeOfType::Sized(size * *len)
                },
                SizeOfType::Unknown => SizeOfType::Unknown,
            },
            ValueType::Slice(_) => SizeOfType::Sized(2 * ptr),
            ValueType::Other(_) => SizeOfType::Unknown,
        }
    }

    /// `&str`.
    pub fn is_str(&self) -> (r: bool)
        ensures
            r == (self@ matches SType::Reference(a) && *a matches SType::str),
    {
        proof {
            reveal_with_fuel(st, 2);
        }
        match self {
            ValueType::Reference(r) => match **r {
                ValueType::str => true,
                _ => false,
            },
            _ => false,
        }
    }

    /// A pointer of one word.
    pub fn is_thin_ptr(&self) -> (r: bool)
        ensures
            r == (self@ matches SType::Reference(a) && !(*a matches SType::str)),
    {
        proof {
            reveal_with_fuel(st, 2);
        }
        match self {
            ValueType::DynRef(_) => false,
            ValueType::Reference(r) => !matches!(**r, ValueType::str),
            _ => false,
        }
    }

    /// A pointer of two words: to a trait object, or `&str`.
    pub fn is_fat_ptr(&self) -> (r: bool)
        ensures
            r == (self@ is DynRef || (self@ matches SType::Reference(a) && *a matches SType::str)),
    {
        proof {
            reveal_with_fuel(st, 2);
        }
        match self {
            ValueType::DynRef(_) => true,
            ValueType::Reference(r) => matches!(**r, ValueType::str),
            _ => false,
        }
    }

    pub fn is_integer(&self) -> (r: bool)
        ensures
            r == (self@ is u8 || self@ is i8 || self@ is u16 || self@ is i16 || self@ is u32
                || self@ is i32 || self@ is u64 || self@ is i64 || self@ is u128 || self@ is i128
                || self@ is usize || self@ is isize),
    {
        match self {
            ValueType::u8 | ValueType::i8 | ValueType::u16 | ValueType::i16 | ValueType::u32
            | ValueType::i32 | ValueType::u64 | ValueType::i64 | ValueType::u128
            | ValueType::i128 | ValueType::usize | ValueType::isize => true,
            _ => false,
        }
    }

    pub fn is_signed_integer(&self) -> (r: bool)
        ensures
            r == (self@ is i8 || self@ is i16 || self@ is i32 || self@ is i64 || self@ is i128
                || self@ is isize),
    {
        match self {
            ValueType::i8 | ValueType::i16 | ValueType::i32 | ValueType::i64 | ValueType::i128
            | ValueType::isize => true,
            _ => false,
        }
    }

    pub fn is_float(&self) -> (r: bool)
        ensures
            r == (self@ is float32 || self@ is float64),
    {
        matches!(self, ValueType::float32 | ValueType::float64)
    }

    /// The name of the type, as `Display` writes it.
    pub fn to_string(&self) -> (r: String)
        ensures
            r@ == type_text(self@),
    {
        let mut s = String::new();
        self.write_to(&mut s);
        assert(s@ =~= type_text(self@));
        s
    }

    /// Appends the name of the type.
    pub fn write_to(&self, s: &mut String)
        ensures
            final(s)@ == old(s)@ + type_text(self@),
        decreases self,
    {
        match self {
            ValueType::str => append_str(s, "str"),
            ValueType::Option(a) => {
                append_str(s, "core::option::Option<");
                a.write_to(s);
                append_str(s, ">");
            },
            ValueType::Result(a, b) => {
                append_str(s, "core::result::Result<");
                a.write_to(s);
                append_str(s, ", ");
                b.write_to(s);
                append_str(s, ">");
            },
            ValueType::Reference(a) => {
                append_str(s, "&");
                a.write_to(s);
            },
            ValueType::DynRef(a) => {
                append_str(s, "&dyn ");
                a.write_to(s);
            },
            ValueType::Array(a, n) => {
                append_str(s, "[");
                a.write_to(s);
                append_str(s, "; ");
                push_decimal(s, *n as u64);
                append_str(s, "]");
            },
            ValueType::Slice(a) => {
                append_str(s, "&[");
                a.write_to(s);
                append_str(s, "]");
            },
            ValueType::Other(t) => append_str(s, t.as_str()),
            _ => append_str(s, self.primitive_name()),
        }
        assert(final(s)@ =~= old(s)@ + type_text(self@));
    }
}

/// The types written as a tuple: `(a, b, )`.
pub open spec fn tuple_text(chain: Seq<SType>) -> Seq<char>
    decreases chain.len(),
{
    if chain.len() == 0 {
        "("@
    } else {
        tuple_text(chain.drop_last()) + type_text(chain.last()) + ", "@
    }
}

/// The types of a tuple, written as the tuple type: `(a, b, )`.
pub fn format_value_type_as_tuple(chain: &[ValueType]) -> (r: String)
    ensures
        r@ == tuple_text(Seq::new(chain@.len(), |i: int| chain@[i]@)) + ")"@,
{
    let ghost sc = Seq::new(chain@.len(), |i: int| chain@[i]@);
    let mut s = crate::text::to_owned_string("(");
    let mut i: usize = 0;
    while i < chain.len()
        invariant
            i <= chain@.len(),
            sc == Seq::new(chain@.len(), |i: int| chain@[i]@),
            s@ == tuple_text(sc.take(i as int)),
        decreases chain@.len() - i,
    {
        assert(sc.take(i + 1).drop_last() =~= sc.take(i as int));
        chain[i].write_to(&mut s);
        append_str(&mut s, ", ");
        i = i + 1;
    }
    assert(sc.take(i as int) =~= sc);
    append_str(&mut s, ")");
    s
}


/// Scanning `s` without its last character from index `i`, at nesting depth
/// `depth` of `<` and `>`: the first `,` at depth zero.
pub open spec fn pair_scan(s: Seq<char>, i: int, depth: int) -> Result<int, Seq<char>>
    decreases s.len() - i,
{
    if i >= s.len() - 1 {
        if depth != 0 {
            Err("unmatched < >"@)
        } else {
            Err("cannot find ,"@)
        }
    } else if s[i] == ',' && depth == 0 {
        Ok(i)
    } else {
        pair_scan(
            s,
            i + 1,
            depth + if s[i] == '<' {
                1int
            } else if s[i] == '>' {
                -1int
            } else {
                0int
            },
        )
    }
}

/// The index of the `,` that separates the two type arguments of a generic
/// type whose arguments, followed by the closing `>`, are `s`.
pub open spec fn pair_pivot(s: Seq<char>) -> Result<int, Seq<char>> {
    pair_scan(s, 0, 0)
}

pub proof fn lemma_pair_scan_bounds(s: Seq<char>, i: int, depth: int)
    requires
        0 <= i,
    ensures
        pair_scan(s, i, depth) matches Ok(p) ==> i <= p < s.len() - 1 && s[p] == ',',
    decreases s.len() - i,
{
    if i < s.len() - 1 && !(s[i] == ',' && depth == 0) {
        lemma_pair_scan_bounds(
            s,
            i + 1,
            depth + if s[i] == '<' {
                1int
            } else if s[i] == '>' {
                -1int
            } else {
                0int
            },
        );
    }
}

/// The first type argument of `s` from index `p` on: up to the `,` that
/// separates two arguments, else up to the closing `>`. (In `Box<T, A>` the
/// allocator `A` is dropped.)
pub open spec fn maybe_pair_spec(s: Seq<char>, p: int) -> Seq<char> {
    let t = s.subrange(p, s.len() as int);
    match pair_pivot(t) {
        Ok(q) => t.subrange(0, q),
        Err(_) => t.subrange(0, t.len() - 1),
    }
}

/// The type that a plain name stands for.
pub open spec fn named_type(s: Seq<char>) -> SType {
    if s == "()"@ {
        SType::Unit
    } else if s == "bool"@ {
        SType::bool
    } else if s == "char"@ {
        SType::char
    } else if s == "u8"@ {
        SType::u8
    } else if s == "i8"@ {
        SType::i8
    } else if s == "u16"@ {
        SType::u16
    } else if s == "i16"@ {
        SType::i16
    } else if s == "u32"@ {
        SType::u32
    } else if s == "i32"@ {
        SType::i32
    } else if s == "u64"@ {
        SType::u64
    } else if s == "i64"@ {
        SType::i64
    } else if s == "u128"@ {
        SType::u128
    } else if s == "i128"@ {
        SType::i128
    } else if s == "f32"@ {
        SType::float32
    } else if s == "f64"@ {
        SType::float64
    } else if s == "usize"@ {
        SType::usize
    } else if s == "isize"@ {
        SType::isize
    } else if s == "str"@ {
        SType::str
    } else {
        SType::Other(s)
    }
}

/// Applies `f` to a parsed type.
pub open spec fn map_ok(r: Option<Result<SType, Seq<char>>>, f: spec_fn(SType) -> SType) -> Option<
    Result<SType, Seq<char>>,
> {
    match r {
        Some(Ok(t)) => Some(Ok(f(t))),
        _ => r,
    }
}

/// Wraps a parsed type whose name was checked to end with `>`.
pub open spec fn after_gt(
    s: Seq<char>,
    r: Option<Result<SType, Seq<char>>>,
    f: spec_fn(SType) -> SType,
) -> Option<Result<SType, Seq<char>>> {
    if ends_with(s, ">"@) {
        map_ok(r, f)
    } else {
        Some(Err("missing closing >"@))
    }
}

pub proof fn lemma_trim_len(s: Seq<char>)
    ensures
        trim(s).len() <= s.len(),
{
    lemma_trim_start_len(s);
    lemma_trim_end_len(crate::text::trim_start(s));
}

pub proof fn lemma_trim_start_len(s: Seq<char>)
    ensures
        crate::text::trim_start(s).len() <= s.len(),
    decreases s.len(),
{
    if s.len() > 0 {
        lemma_trim_start_len(s.drop_first());
    }
}

pub proof fn lemma_trim_end_len(s: Seq<char>)
    ensures
        crate::text::trim_end(s).len() <= s.len(),
    decreases s.len(),
{
    if s.len() > 0 {
        lemma_trim_end_len(s.drop_last());
    }
}

pub proof fn lemma_rfind_bounds(h: Seq<char>, p: Seq<char>, upto: int)
    ensures
        crate::text::rfind_upto(h, p, upto) matches Some(i) ==> 0 <= i <= upto && i + p.len()
            <= h.len(),
    decreases upto + 1,
{
    if upto >= 0 && !crate::text::occurs_at(h, upto, p) {
        lemma_rfind_bounds(h, p, upto - 1);
    }
}

/// Parsing a type name, as `FromStr` does: the type, or the reason why the
/// name was refused; `None` where parsing panics (a name `&dyn` with nothing
/// after it). Positions are counted in characters.
pub open spec fn parse_type(s: Seq<char>) -> Option<Result<SType, Seq<char>>>
    decreases s.len(), 2int,
{
    let n = s.len() as int;
    if starts_with(s, "&dyn"@) {
        if n < 5 {
            None
        } else {
            map_ok(parse_type(s.subrange(5, n)), |t: SType| SType::DynRef(Box::new(t)))
        }
    } else if starts_with(s, "&["@) && ends_with(s, "]"@) && !contains(s, "; "@) {
        if n < 3 {
            None
        } else {
            map_ok(parse_type(s.subrange(2, n - 1)), |t: SType| SType::Slice(Box::new(t)))
        }
    } else if starts_with(s, "&"@) {
        proof {
            reveal_strlit("&");
        }
        map_ok(parse_type(s.subrange(1, n)), |t: SType| SType::Reference(Box::new(t)))
    } else if starts_with(s, "core::option::Option<"@) {
        if n < 22 {
            Some(Err("missing closing >"@))
        } else {
            after_gt(
                s,
                parse_type(s.subrange(21, n - 1)),
                |t: SType| SType::Option(Box::new(t)),
            )
        }
    } else if starts_with(s, "alloc::boxed::Box<dyn "@) {
        after_gt(s, parse_maybe_pair(s, 18), |t: SType| SType::DynRef(Box::new(t)))
    } else if starts_with(s, "alloc::boxed::Box<"@) {
        after_gt(s, parse_maybe_pair(s, 18), |t: SType| SType::Reference(Box::new(t)))
    } else if starts_with(s, "alloc::rc::Rc<dyn "@) {
        after_gt(s, parse_maybe_pair(s, 14), |t: SType| SType::DynRef(Box::new(t)))
    } else if starts_with(s, "alloc::rc::Rc<"@) {
        after_gt(s, parse_maybe_pair(s, 14), |t: SType| SType::Reference(Box::new(t)))
    } else if starts_with(s, "alloc::sync::Arc<dyn "@) {
        after_gt(s, parse_maybe_pair(s, 17), |t: SType| SType::DynRef(Box::new(t)))
    } else if starts_with(s, "alloc::sync::Arc<"@) {
        after_gt(s, parse_maybe_pair(s, 17), |t: SType| SType::Reference(Box::new(t)))
    } else if starts_with(s, "core::ptr::non_null::NonNull<"@) {
        if n < 30 {
            Some(Err("missing closing >"@))
        } else {
            after_gt(
                s,
                parse_type(s.subrange(29, n - 1)),
                |t: SType| SType::Reference(Box::new(t)),
            )
        }
    } else if starts_with(s, "core::result::Result<"@) && ends_with(s, ">"@) && n >= 22 {
        parse_result_spec(s)
    } else if starts_with(s, "["@) && ends_with(s, "]"@) && contains(s, "; "@) && n >= 2 {
        parse_array_spec(s)
    } else {
        Some(Ok(named_type(s)))
    }
}

/// Parsing the first type argument of `s` from index `p` on.
pub open spec fn parse_maybe_pair(s: Seq<char>, p: int) -> Option<Result<SType, Seq<char>>>
    decreases s.len(), 1int,
{
    if 0 < p < s.len() {
        let t = s.subrange(p, s.len() as int);
        proof {
            lemma_pair_scan_bounds(t, 0, 0);
        }
        let m = maybe_pair_spec(s, p);
        if m.len() < s.len() {
            parse_type(m)
        } else {
            None
        }
    } else {
        None
    }
}


proof fn lemma_prefix_char(h: Seq<char>, p: Seq<char>, i: int)
    requires
        starts_with(h, p),
        0 <= i < p.len(),
    ensures
        h[i] == p[i],
{
    assert(h.subrange(0, p.len() as int)[i] == h[i]);
}

/// The index of the `,` that separates the two type arguments in `s`, the
/// arguments of a generic type followed by its closing `>`.
pub fn parse_pair(s: &str) -> (r: Result<usize, &'static str>)
    requires
        s@.len() >= 1,
    ensures
        match r {
            Ok(i) => pair_pivot(s@) == Ok::<int, Seq<char>>(i as int),
            Err(e) => pair_pivot(s@) == Err::<int, Seq<char>>(e@),
        },
{
    let cs = crate::text::chars_of(s);
    let n = cs.len();
    let mut depth: i128 = 0;
    let mut i: usize = 0;
    while i < n - 1
        invariant
            n == s@.len(),
            n >= 1,
            cs@ == s@,
            i <= n - 1,
            -(i as int) <= depth <= i,
            pair_pivot(s@) == pair_scan(s@, i as int, depth as int),
        decreases n - i,
    {
        let c = cs[i];
        if c == ',' && depth == 0 {
            return Ok(i);
        }
        if c == '<' {
            depth = depth + 1;
        }
        if c == '>' {
            depth = depth - 1;
        }
        i = i + 1;
    }
    if depth != 0 {
        return Err("unmatched < >");
    }
    Err("cannot find ,")
}

/// The first type argument of `s` from index `p` on (the allocator of
/// `Box<T, A>` is dropped).
pub fn maybe_pair<'a>(s: &'a str, p: usize) -> (r: &'a str)
    requires
        p < s@.len(),
    ensures
        r@ == maybe_pair_spec(s@, p as int),
{
    let n = s.unicode_len();
    let t = substring(s, p, n);
    proof {
        lemma_pair_scan_bounds(t@, 0, 0);
    }
    let tn = t.unicode_len();
    match parse_pair(t) {
        Ok(q) => substring(t, 0, q),
        Err(_) => substring(t, 0, tn - 1),
    }
}

/// `Ok` where the name ends with `>`.
pub fn ends_with_gt(s: &str) -> (r: Result<(), &'static str>)
    ensures
        r is Ok <==> ends_with(s@, ">"@),
        r matches Err(e) ==> e@ == "missing closing >"@,
{
    if str_ends_with(s, ">") {
        Ok(())
    } else {
        Err("missing closing >")
    }
}

fn named_type_exec(s: &str) -> (r: ValueType)
    ensures
        r@ == named_type(s@),
{
    if str_eq(s, "()") {
        ValueType::Unit
    } else if str_eq(s, "bool") {
        ValueType::bool
    } else if str_eq(s, "char") {
        ValueType::char
    } else if str_eq(s, "u8") {
        ValueType::u8
    } else if str_eq(s, "i8") {
        ValueType::i8
    } else if str_eq(s, "u16") {
        ValueType::u16
    } else if str_eq(s, "i16") {
        ValueType::i16
    } else if str_eq(s, "u32") {
        ValueType::u32
    } else if str_eq(s, "i32") {
        ValueType::i32
    } else if str_eq(s, "u64") {
        ValueType::u64
    } else if str_eq(s, "i64") {
        ValueType::i64
    } else if str_eq(s, "u128") {
        ValueType::u128
    } else if str_eq(s, "i128") {
        ValueType::i128
    } else if str_eq(s, "f32") {
        ValueType::float32
    } else if str_eq(s, "f64") {
        ValueType::float64
    } else if str_eq(s, "usize") {
        ValueType::usize
    } else if str_eq(s, "isize") {
        ValueType::isize
    } else if str_eq(s, "str") {
        ValueType::str
    } else {
        ValueType::Other(crate::text::to_owned_string(s))
    }
}

/// What parsing gives, as the content of the result.
pub open spec fn parsed_view(r: Option<Result<ValueType, &'static str>>) -> Option<
    Result<SType, Seq<char>>,
> {
    match r {
        Some(Ok(t)) => Some(Ok(t@)),
        Some(Err(e)) => Some(Err(e@)),
        None => None,
    }
}

fn boxed(r: Option<Result<ValueType, &'static str>>, kind: u8) -> (out: Option<
    Result<ValueType, &'static str>,
>)
    requires
        kind < 5,
    ensures
        parsed_view(out) == map_ok(
            parsed_view(r),
            |t: SType|
                if kind == 0 {
                    SType::DynRef(Box::new(t))
                } else if kind == 1 {
                    SType::Slice(Box::new(t))
                } else if kind == 2 {
                    SType::Reference(Box::new(t))
                } else {
                    SType::Option(Box::new(t))
                },
        ),
{
    match r {
        Some(Ok(t)) => {
            let b = Rc::new(t);
            Some(
                Ok(
                    if kind == 0 {
                        ValueType::DynRef(b)
                    } else if kind == 1 {
                        ValueType::Slice(b)
                    } else if kind == 2 {
                        ValueType::Reference(b)
                    } else {
                        ValueType::Option(b)
                    },
                ),
            )
        },
        _ => r,
    }
}


/// Parses a type name as `FromStr` does; `None` where parsing panics (a
/// name `&dyn` with nothing after it).
pub fn parse_value_type(s: &str) -> (r: Option<Result<ValueType, &'static str>>)
    ensures
        parsed_view(r) == parse_type(s@),
    decreases s@.len(), 2int,
{
    let n = s.unicode_len();
    proof {
        reveal_strlit("&dyn");
        reveal_strlit("&[");
        reveal_strlit("]");
        reveal_strlit("&");
        reveal_strlit(">");
        reveal_strlit("[");
        reveal_strlit("core::option::Option<");
        reveal_strlit("alloc::boxed::Box<dyn ");
        reveal_strlit("alloc::boxed::Box<");
        reveal_strlit("alloc::rc::Rc<dyn ");
        reveal_strlit("alloc::rc::Rc<");
        reveal_strlit("alloc::sync::Arc<dyn ");
        reveal_strlit("alloc::sync::Arc<");
        reveal_strlit("core::ptr::non_null::NonNull<");
        reveal_strlit("core::result::Result<");
    }
    if str_starts_with(s, "&dyn") {
        if n < 5 {
            return None;
        }
        let inner = parse_value_type(substring(s, 5, n));
        return boxed(inner, 0);
    } else if str_starts_with(s, "&[") && str_ends_with(s, "]") && !str_contains(s, "; ") {
        if n < 3 {
            return None;
        }
        let inner = parse_value_type(substring(s, 2, n - 1));
        return boxed(inner, 1);
    } else if str_starts_with(s, "&") {
        let inner = parse_value_type(substring(s, 1, n));
        return boxed(inner, 2);
    } else if str_starts_with(s, "core::option::Option<") {
        if n < 22 {
            return Some(Err("missing closing >"));
        }
        if ends_with_gt(s).is_err() {
            return Some(Err("missing closing >"));
        }
        let inner = parse_value_type(substring(s, 21, n - 1));
        return boxed(inner, 3);
    } else if str_starts_with(s, "alloc::boxed::Box<dyn ") {
        proof {
            lemma_prefix_char(s@, "alloc::boxed::Box<dyn "@, 17);
        }
        return parse_generic(s, 18, 0);
    } else if str_starts_with(s, "alloc::boxed::Box<") {
        proof {
            lemma_prefix_char(s@, "alloc::boxed::Box<"@, 17);
        }
        return parse_generic(s, 18, 2);
    } else if str_starts_with(s, "alloc::rc::Rc<dyn ") {
        proof {
            lemma_prefix_char(s@, "alloc::rc::Rc<dyn "@, 13);
        }
        return parse_generic(s, 14, 0);
    } else if str_starts_with(s, "alloc::rc::Rc<") {
        proof {
            lemma_prefix_char(s@, "alloc::rc::Rc<"@, 13);
        }
        return parse_generic(s, 14, 2);
    } else if str_starts_with(s, "alloc::sync::Arc<dyn ") {
        proof {
            lemma_prefix_char(s@, "alloc::sync::Arc<dyn "@, 16);
        }
        return parse_generic(s, 17, 0);
    } else if str_starts_with(s, "alloc::sync::Arc<") {
        proof {
            lemma_prefix_char(s@, "alloc::sync::Arc<"@, 16);
        }
        return parse_generic(s, 17, 2);
    } else if str_starts_with(s, "core::ptr::non_null::NonNull<") {
        if n < 30 {
            return Some(Err("missing closing >"));
        }
        if ends_with_gt(s).is_err() {
            return Some(Err("missing closing >"));
        }
        let inner = parse_value_type(substring(s, 29, n - 1));
        return boxed(inner, 2);
    } else if str_starts_with(s, "core::result::Result<") && str_ends_with(s, ">") && n >= 22 {
        return parse_result(s);
    } else if str_starts_with(s, "[") && str_ends_with(s, "]") && str_contains(s, "; ") && n >= 2 {
        return parse_array(s);
    }
    Some(Ok(named_type_exec(s)))
}

/// The type that parsing `core::result::Result<A, B>` gives.
pub open spec fn parse_result_spec(s: Seq<char>) -> Option<Result<SType, Seq<char>>>
    decreases s.len(), 1int,
{
    let n = s.len() as int;
    let s2 = s.subrange(21, n);
    match pair_pivot(s2) {
        Err(e) => Some(Err(e)),
        Ok(p) => if 21 <= n && 0 <= p < s2.len() - 1 {
            let a = trim(s2.subrange(0, p));
            let b = trim(s2.subrange(p + 1, s2.len() - 1));
            proof {
                lemma_trim_len(s2.subrange(0, p));
                lemma_trim_len(s2.subrange(p + 1, s2.len() - 1));
            }
            match parse_type(a) {
                Some(Ok(ta)) => map_ok(
                    parse_type(b),
                    |tb: SType| SType::Result(Box::new(ta), Box::new(tb)),
                ),
                other => other,
            }
        } else {
            None
        },
    }
}

/// The type that parsing `[T; N]` gives.
pub open spec fn parse_array_spec(s: Seq<char>) -> Option<Result<SType, Seq<char>>>
    decreases s.len(), 1int,
{
    let n = s.len() as int;
    let inner = s.subrange(1, n - 1);
    match rsplit_once(inner, "; "@) {
        None => Some(Err("array def with type and length"@)),
        Some((ty, len)) => if ty.len() < n {
            match parse_type(ty) {
                Some(Ok(t)) => match parse_uint(len, usize::MAX as nat) {
                    Some(k) => Some(Ok(SType::Array(Box::new(t), k as usize))),
                    None => Some(Err("Fail to parse array length"@)),
                },
                other => other,
            }
        } else {
            None
        },
    }
}

fn parse_result(s: &str) -> (r: Option<Result<ValueType, &'static str>>)
    requires
        s@.len() >= 22,
    ensures
        parsed_view(r) == parse_result_spec(s@),
    decreases s@.len(), 1int,
{
    let n = s.unicode_len();
    let s2 = substring(s, 21, n);
    let n2 = s2.unicode_len();
    proof {
        lemma_pair_scan_bounds(s2@, 0, 0);
    }
    let p = match parse_pair(s2) {
        Ok(p) => p,
        Err(e) => {
            return Some(Err(e));
        },
    };
    let a = str_trim(substring(s2, 0, p));
    let b = str_trim(substring(s2, p + 1, n2 - 1));
    proof {
        lemma_trim_len(s2@.subrange(0, p as int));
        lemma_trim_len(s2@.subrange(p + 1, n2 - 1));
    }
    let ta = match parse_value_type(a) {
        Some(Ok(t)) => t,
        other => {
            return other;
        },
    };
    let tb = match parse_value_type(b) {
        Some(Ok(t)) => t,
        other => {
            return other;
        },
    };
    Some(Ok(ValueType::Result(Rc::new(ta), Rc::new(tb))))
}

fn parse_array(s: &str) -> (r: Option<Result<ValueType, &'static str>>)
    requires
        s@.len() >= 2,
    ensures
        parsed_view(r) == parse_array_spec(s@),
    decreases s@.len(), 1int,
{
    let n = s.unicode_len();
    let inner = substring(s, 1, n - 1);
    match str_rsplit_once(inner, "; ") {
        None => Some(Err("array def with type and length")),
        Some((ty, len)) => {
            proof {
                reveal_strlit("; ");
                lemma_rfind_bounds(inner@, "; "@, inner@.len() - "; "@.len());
            }
            let t = match parse_value_type(ty) {
                Some(Ok(t)) => t,
                other => {
                    return other;
                },
            };
            match crate::decimal::parse_uint_str(len, usize::MAX as u64) {
                Some(k) => Some(Ok(ValueType::Array(Rc::new(t), k as usize))),
                None => Some(Err("Fail to parse array length")),
            }
        },
    }
}

/// Parses the first type argument of a pointer type `s` whose arguments start
/// at `p`, and wraps it: `kind` 0 for a trait object pointer, 2 for a
/// reference.
fn parse_generic(s: &str, p: usize, kind: u8) -> (r: Option<Result<ValueType, &'static str>>)
    requires
        kind == 0 || kind == 2,
        0 < p <= s@.len(),
        s@[p - 1] == '<',
    ensures
        parsed_view(r) == after_gt(
            s@,
            parse_maybe_pair(s@, p as int),
            |t: SType|
                if kind == 0 {
                    SType::DynRef(Box::new(t))
                } else {
                    SType::Reference(Box::new(t))
                },
        ),
    decreases s@.len(), 1int,
{
    if ends_with_gt(s).is_err() {
        return Some(Err("missing closing >"));
    }
    proof {
        reveal_strlit(">");
        assert(s@.subrange(s@.len() - 1, s@.len() as int)[0] == s@[s@.len() - 1]);
        assert(s@[s@.len() - 1] == '>');
    }
    assert(p < s@.len());
    let m = maybe_pair(s, p);
    proof {
        lemma_pair_scan_bounds(s@.subrange(p as int, s@.len() as int), 0, 0);
    }
    let inner = parse_value_type(m);
    boxed(inner, kind)
}


/// The change of nesting depth that a character makes: `<` opens, `>`
/// closes.
pub open spec fn angle_step(c: char) -> int {
    if c == '<' {
        1int
    } else if c == '>' {
        -1int
    } else {
        0int
    }
}

/// The nesting depth that `s` adds.
pub open spec fn net_depth(s: Seq<char>) -> int
    decreases s.len(),
{
    if s.len() == 0 {
        0
    } else {
        angle_step(s[0]) + net_depth(s.drop_first())
    }
}

/// Read from depth `d` on, `s` never closes more than it opened and holds
/// no `,` at depth zero.
pub open spec fn nested_from(s: Seq<char>, d: int) -> bool
    decreases s.len(),
{
    if s.len() == 0 {
        true
    } else {
        d >= 0 && !(s[0] == ',' && d == 0) && nested_from(s.drop_first(), d + angle_step(s[0]))
    }
}

proof fn lemma_nested_concat(a: Seq<char>, b: Seq<char>, d: int)
    requires
        nested_from(a, d),
        nested_from(b, d + net_depth(a)),
    ensures
        nested_from(a + b, d),
        net_depth(a + b) == net_depth(a) + net_depth(b),
    decreases a.len(),
{
    if a.len() == 0 {
        assert(a + b =~= b);
    } else {
        lemma_nested_concat(a.drop_first(), b, d + angle_step(a[0]));
        assert((a + b).drop_first() =~= a.drop_first() + b);
        assert((a + b)[0] == a[0]);
    }
}

proof fn lemma_nested_deeper(s: Seq<char>, d: int, k: int)
    requires
        nested_from(s, d),
        k >= 0,
    ensures
        nested_from(s, d + k),
    decreases s.len(),
{
    if s.len() > 0 {
        lemma_nested_deeper(s.drop_first(), d + angle_step(s[0]), k);
    }
}

/// No character of `s` is `,`, `<` or `>`.
pub open spec fn plain_text(s: Seq<char>) -> bool {
    forall|k: int| 0 <= k < s.len() ==> #[trigger] s[k] != ',' && s[k] != '<' && s[k] != '>'
}

/// Text without `,`, `<` or `>` is nested at every depth and adds none.
proof fn lemma_nested_plain(s: Seq<char>, d: int)
    requires
        d >= 0,
        plain_text(s),
    ensures
        nested_from(s, d),
        net_depth(s) == 0,
    decreases s.len(),
{
    if s.len() > 0 {
        assert(s[0] != ',');
        assert forall|k: int| 0 <= k < s.drop_first().len() implies #[trigger] s.drop_first()[k]
            != ',' && s.drop_first()[k] != '<' && s.drop_first()[k] != '>' by {
            assert(s.drop_first()[k] == s[k + 1]);
        }
        lemma_nested_plain(s.drop_first(), d);
    }
}

/// Plain text followed by `<` opens one level.
proof fn lemma_nested_opening(p: Seq<char>, d: int)
    requires
        d >= 0,
        p.len() >= 1,
        p.last() == '<',
        plain_text(p.drop_last()),
    ensures
        nested_from(p, d),
        net_depth(p) == 1,
{
    lemma_nested_plain(p.drop_last(), d);
    let q = seq!['<'];
    assert(q.drop_first() =~= Seq::<char>::empty());
    assert(net_depth(q.drop_first()) == 0);
    assert(q[0] == '<');
    assert(angle_step(q[0]) == 1);
    assert(net_depth(q) == 1);
    assert(nested_from(q.drop_first(), d + 1));
    assert(nested_from(q, d));
    lemma_nested_concat(p.drop_last(), q, d);
    assert(p =~= p.drop_last() + q);
}

/// Scanning over a nested stretch of `s` goes on after it at the depth it
/// leaves.
proof fn lemma_pair_scan_skip(s: Seq<char>, i: int, j: int, d: int)
    requires
        0 <= i <= j <= s.len() - 1,
        nested_from(s.subrange(i, j), d),
    ensures
        pair_scan(s, i, d) == pair_scan(s, j, d + net_depth(s.subrange(i, j))),
    decreases j - i,
{
    if i < j {
        let sub = s.subrange(i, j);
        assert(sub[0] == s[i]);
        assert(sub.drop_first() =~= s.subrange(i + 1, j));
        lemma_pair_scan_skip(s, i + 1, j, d + angle_step(s[i]));
    } else {
        assert(s.subrange(i, j) =~= Seq::<char>::empty());
    }
}

/// A type whose written name names it alone: one built of primitives,
/// `str`, `Option`, `Result`, references, trait object pointers, arrays and
/// slices, where no slice has an array in its element type (the name of a
/// slice of arrays holds `; ` and reads as an array). The names of the
/// program's own types are left out.
pub open spec fn reparsable(t: SType) -> bool
    decreases t,
{
    match t {
        SType::Other(_) => false,
        SType::Result(a, b) => reparsable(*a) && reparsable(*b),
        SType::Array(a, _) => reparsable(*a),
        SType::Option(a) => reparsable(*a),
        SType::Reference(a) => reparsable(*a),
        SType::DynRef(a) => reparsable(*a),
        SType::Slice(a) => reparsable(*a) && array_free(*a),
        _ => true,
    }
}

/// `>` closes one level.
proof fn lemma_nested_closing(d: int)
    requires
        d >= 1,
    ensures
        nested_from(">"@, d),
        net_depth(">"@) == -1,
{
    reveal_strlit(">");
    let q = ">"@;
    assert(q[0] == '>');
    assert(q.drop_first() =~= Seq::<char>::empty());
    assert(net_depth(q.drop_first()) == 0);
    assert(angle_step(q[0]) == -1);
    assert(nested_from(q.drop_first(), d + angle_step(q[0])));
}

/// `, ` below the top level.
proof fn lemma_nested_comma(d: int)
    requires
        d >= 1,
    ensures
        nested_from(", "@, d),
        net_depth(", "@) == 0,
{
    reveal_strlit(", ");
    let q = ", "@;
    assert(q.drop_first() =~= seq![' ']);
    lemma_nested_plain(q.drop_first(), d);
    assert(angle_step(q[0]) == 0);
}

/// An opening literal: plain text and then `<`.
proof fn lemma_opening_literals(d: int)
    requires
        d >= 0,
    ensures
        nested_from("core::option::Option<"@, d),
        net_depth("core::option::Option<"@) == 1,
        nested_from("core::result::Result<"@, d),
        net_depth("core::result::Result<"@) == 1,
{
    reveal_strlit("core::option::Option<");
    reveal_strlit("core::result::Result<");
    let p = "core::option::Option<"@;
    assert(plain_text(p.drop_last())) by {
        assert forall|k: int| 0 <= k < p.drop_last().len() implies #[trigger] p.drop_last()[k]
            != ',' && p.drop_last()[k] != '<' && p.drop_last()[k] != '>' by {
            assert(p.drop_last()[k] == p[k]);
        }
    }
    lemma_nested_opening(p, d);
    let r = "core::result::Result<"@;
    assert(plain_text(r.drop_last())) by {
        assert forall|k: int| 0 <= k < r.drop_last().len() implies #[trigger] r.drop_last()[k]
            != ',' && r.drop_last()[k] != '<' && r.drop_last()[k] != '>' by {
            assert(r.drop_last()[k] == r[k]);
        }
    }
    lemma_nested_opening(r, d);
}

/// The written name of such a type is nested: its `<` and `>` match, and
/// each `,` stands inside them. It neither starts nor ends with whitespace.
proof fn lemma_text_nested(t: SType)
    requires
        reparsable(t),
    ensures
        nested_from(type_text(t), 0),
        net_depth(type_text(t)) == 0,
        type_text(t).len() >= 1,
        !crate::text::is_whitespace(type_text(t)[0]),
        !crate::text::is_whitespace(type_text(t).last()),
    decreases t,
{
    reveal_strlit("()");
    reveal_strlit("bool");
    reveal_strlit("char");
    reveal_strlit("u8");
    reveal_strlit("i8");
    reveal_strlit("u16");
    reveal_strlit("i16");
    reveal_strlit("u32");
    reveal_strlit("i32");
    reveal_strlit("u64");
    reveal_strlit("i64");
    reveal_strlit("u128");
    reveal_strlit("i128");
    reveal_strlit("f32");
    reveal_strlit("f64");
    reveal_strlit("usize");
    reveal_strlit("isize");
    reveal_strlit("str");
    reveal_strlit("core::option::Option<");
    reveal_strlit("core::result::Result<");
    reveal_strlit(">");
    reveal_strlit("&");
    reveal_strlit("&dyn ");
    reveal_strlit("&[");
    reveal_strlit("]");
    reveal_strlit(", ");
    lemma_opening_literals(0);
    match t {
        SType::Option(a) => {
            lemma_text_nested(*a);
            let ta = type_text(*a);
            let p = "core::option::Option<"@;
            lemma_nested_deeper(ta, 0, 1);
            lemma_nested_concat(p, ta, 0);
            lemma_nested_closing(1);
            lemma_nested_concat(p + ta, ">"@, 0);
            assert((p + ta + ">"@)[0] == p[0]);
            assert((p + ta + ">"@).last() == '>');
        },
        SType::Result(a, b) => {
            lemma_text_nested(*a);
            lemma_text_nested(*b);
            let ta = type_text(*a);
            let tb = type_text(*b);
            let p = "core::result::Result<"@;
            lemma_nested_deeper(ta, 0, 1);
            lemma_nested_deeper(tb, 0, 1);
            lemma_nested_concat(p, ta, 0);
            lemma_nested_comma(1);
            lemma_nested_concat(p + ta, ", "@, 0);
            lemma_nested_concat(p + ta + ", "@, tb, 0);
            lemma_nested_closing(1);
            lemma_nested_concat(p + ta + ", "@ + tb, ">"@, 0);
            assert((p + ta + ", "@ + tb + ">"@)[0] == p[0]);
            assert((p + ta + ", "@ + tb + ">"@).last() == '>');
        },
        SType::Reference(a) => {
            lemma_text_nested(*a);
            let ta = type_text(*a);
            assert(plain_text("&"@));
            lemma_nested_plain("&"@, 0);
            lemma_nested_concat("&"@, ta, 0);
            assert(("&"@ + ta)[0] == '&');
            assert(("&"@ + ta).last() == ta.last());
        },
        SType::DynRef(a) => {
            lemma_text_nested(*a);
            let ta = type_text(*a);
            let p = "&dyn "@;
            assert(plain_text(p));
            lemma_nested_plain(p, 0);
            lemma_nested_concat(p, ta, 0);
            assert((p + ta)[0] == '&');
            assert((p + ta).last() == ta.last());
        },
        SType::Slice(a) => {
            lemma_text_nested(*a);
            let ta = type_text(*a);
            let p = "&["@;
            assert(plain_text(p));
            assert(plain_text("]"@));
            lemma_nested_plain(p, 0);
            lemma_nested_plain("]"@, 0);
            lemma_nested_concat(p, ta, 0);
            lemma_nested_concat(p + ta, "]"@, 0);
            assert((p + ta + "]"@)[0] == '&');
            assert((p + ta + "]"@).last() == ']');
        },
        SType::Array(a, n) => {
            lemma_text_nested(*a);
            reveal_strlit("[");
            reveal_strlit("; ");
            let ta = type_text(*a);
            let d = decimal_text(n as nat);
            lemma_decimal_text_digits(n as nat);
            assert(plain_text(d)) by {
                assert forall|k: int| 0 <= k < d.len() implies #[trigger] d[k] != ',' && d[k]
                    != '<' && d[k] != '>' by {
                    assert(crate::decimal::is_digit_char(d[k]));
                }
            }
            assert(plain_text("["@));
            assert(plain_text("; "@));
            assert(plain_text("]"@));
            lemma_nested_plain("["@, 0);
            lemma_nested_plain("; "@, 0);
            lemma_nested_plain(d, 0);
            lemma_nested_plain("]"@, 0);
            lemma_nested_concat("["@, ta, 0);
            lemma_nested_concat("["@ + ta, "; "@, 0);
            lemma_nested_concat("["@ + ta + "; "@, d, 0);
            lemma_nested_concat("["@ + ta + "; "@ + d, "]"@, 0);
            assert(("["@ + ta + "; "@ + d + "]"@)[0] == '[');
            assert(("["@ + ta + "; "@ + d + "]"@).last() == ']');
        },
        _ => {
            let x = type_text(t);
            assert(plain_text(x));
            lemma_nested_plain(x, 0);
        },
    }
}

proof fn lemma_no_char_concat(a: Seq<char>, b: Seq<char>, c: char)
    requires
        !a.contains(c),
        !b.contains(c),
    ensures
        !(a + b).contains(c),
{
    assert forall|k: int| 0 <= k < (a + b).len() implies (a + b)[k] != c by {
        if k < a.len() {
            assert((a + b)[k] == a[k]);
        } else {
            assert((a + b)[k] == b[k - a.len()]);
        }
    }
}

/// No `Array` stands anywhere in `t`.
pub open spec fn array_free(t: SType) -> bool
    decreases t,
{
    match t {
        SType::Array(_, _) => false,
        SType::Option(a) => array_free(*a),
        SType::Reference(a) => array_free(*a),
        SType::DynRef(a) => array_free(*a),
        SType::Slice(a) => array_free(*a),
        SType::Result(a, b) => array_free(*a) && array_free(*b),
        _ => true,
    }
}

/// No character of `s` is `;`.
proof fn lemma_no_semicolon(s: Seq<char>)
    requires
        forall|k: int| 0 <= k < s.len() ==> #[trigger] s[k] != ';',
    ensures
        !s.contains(';'),
{
}

/// The written name of such a type is not empty and does not start with
/// `d`; it starts with `[` only for an array, and it holds no `;` where no
/// array stands in the type.
proof fn lemma_text_shape(t: SType)
    requires
        reparsable(t),
    ensures
        type_text(t).len() >= 1,
        type_text(t)[0] != 'd',
        type_text(t)[0] == '[' ==> t is Array,
        array_free(t) ==> !type_text(t).contains(';'),
    decreases t,
{
    reveal_strlit("()");
    reveal_strlit("bool");
    reveal_strlit("char");
    reveal_strlit("u8");
    reveal_strlit("i8");
    reveal_strlit("u16");
    reveal_strlit("i16");
    reveal_strlit("u32");
    reveal_strlit("i32");
    reveal_strlit("u64");
    reveal_strlit("i64");
    reveal_strlit("u128");
    reveal_strlit("i128");
    reveal_strlit("f32");
    reveal_strlit("f64");
    reveal_strlit("usize");
    reveal_strlit("isize");
    reveal_strlit("str");
    reveal_strlit("core::option::Option<");
    reveal_strlit(">");
    reveal_strlit("&");
    reveal_strlit("&dyn ");
    reveal_strlit("&[");
    reveal_strlit("[");
    reveal_strlit("]");
    reveal_strlit("; ");
    reveal_strlit("core::result::Result<");
    reveal_strlit(", ");
    let gt = ">"@;
    let close = "]"@;
    lemma_no_semicolon(gt);
    lemma_no_semicolon(close);
    match t {
        SType::Result(a, b) => {
            lemma_text_shape(*a);
            lemma_text_shape(*b);
            let p = "core::result::Result<"@;
            lemma_no_semicolon(p);
            lemma_no_semicolon(", "@);
            if array_free(t) {
                lemma_no_char_concat(p, type_text(*a), ';');
                lemma_no_char_concat(p + type_text(*a), ", "@, ';');
                lemma_no_char_concat(p + type_text(*a) + ", "@, type_text(*b), ';');
                lemma_no_char_concat(p + type_text(*a) + ", "@ + type_text(*b), gt, ';');
            }
            assert((p + type_text(*a) + ", "@ + type_text(*b) + gt)[0] == p[0]);
        },
        SType::Option(a) => {
            lemma_text_shape(*a);
            let p = "core::option::Option<"@;
            lemma_no_semicolon(p);
            if array_free(t) {
                lemma_no_char_concat(p, type_text(*a), ';');
                lemma_no_char_concat(p + type_text(*a), gt, ';');
            }
            assert((p + type_text(*a) + gt)[0] == p[0]);
        },
        SType::Reference(a) => {
            lemma_text_shape(*a);
            lemma_no_semicolon("&"@);
            if array_free(t) {
                lemma_no_char_concat("&"@, type_text(*a), ';');
            }
            assert(("&"@ + type_text(*a))[0] == '&');
        },
        SType::DynRef(a) => {
            lemma_text_shape(*a);
            let p = "&dyn "@;
            lemma_no_semicolon(p);
            if array_free(t) {
                lemma_no_char_concat(p, type_text(*a), ';');
            }
            assert((p + type_text(*a))[0] == '&');
        },
        SType::Slice(a) => {
            lemma_text_shape(*a);
            let p = "&["@;
            lemma_no_semicolon(p);
            lemma_no_char_concat(p, type_text(*a), ';');
            lemma_no_char_concat(p + type_text(*a), close, ';');
            assert((p + type_text(*a) + close)[0] == '&');
        },
        SType::Array(a, n) => {
            let x = "["@ + type_text(*a) + "; "@ + decimal_text(n as nat) + close;
            assert(x[0] == '[');
        },
        _ => {
            let x = type_text(t);
            lemma_no_semicolon(x);
        },
    }
}

proof fn lemma_not_starts(s: Seq<char>, p: Seq<char>, k: int)
    requires
        0 <= k < p.len(),
        k < s.len() ==> s[k] != p[k],
    ensures
        !starts_with(s, p),
{
    if starts_with(s, p) {
        assert(s.subrange(0, p.len() as int)[k] == s[k]);
    }
}

proof fn lemma_reveal_prefixes()
    ensures
        "&dyn"@ == seq!['&', 'd', 'y', 'n'],
        "&["@ == seq!['&', '['],
        "&"@ == seq!['&'],
        "["@ == seq!['['],
        "]"@ == seq![']'],
        ">"@ == seq!['>'],
        "; "@ == seq![';', ' '],
        "core::option::Option<"@.len() == 21 && "core::option::Option<"@[0] == 'c'
            && "core::option::Option<"@[1] == 'o' && "core::option::Option<"@[20] == '<',
        "core::ptr::non_null::NonNull<"@.len() == 29 && "core::ptr::non_null::NonNull<"@[0] == 'c'
            && "core::ptr::non_null::NonNull<"@[1] == 'o' && "core::ptr::non_null::NonNull<"@[6] == 'p',
        "core::result::Result<"@.len() == 21 && "core::result::Result<"@[0] == 'c'
            && "core::result::Result<"@[1] == 'o' && "core::result::Result<"@[6] == 'r',
        "alloc::boxed::Box<dyn "@.len() > 0 && "alloc::boxed::Box<dyn "@[0] == 'a',
        "alloc::boxed::Box<"@.len() > 0 && "alloc::boxed::Box<"@[0] == 'a',
        "alloc::rc::Rc<dyn "@.len() > 0 && "alloc::rc::Rc<dyn "@[0] == 'a',
        "alloc::rc::Rc<"@.len() > 0 && "alloc::rc::Rc<"@[0] == 'a',
        "alloc::sync::Arc<dyn "@.len() > 0 && "alloc::sync::Arc<dyn "@[0] == 'a',
        "alloc::sync::Arc<"@.len() > 0 && "alloc::sync::Arc<"@[0] == 'a',
{
    reveal_strlit("&dyn");
    reveal_strlit("&[");
    reveal_strlit("&");
    reveal_strlit("[");
    reveal_strlit("]");
    reveal_strlit(">");
    reveal_strlit("; ");
    reveal_strlit("core::option::Option<");
    reveal_strlit("core::ptr::non_null::NonNull<");
    reveal_strlit("core::result::Result<");
    reveal_strlit("alloc::boxed::Box<dyn ");
    reveal_strlit("alloc::boxed::Box<");
    reveal_strlit("alloc::rc::Rc<dyn ");
    reveal_strlit("alloc::rc::Rc<");
    reveal_strlit("alloc::sync::Arc<dyn ");
    reveal_strlit("alloc::sync::Arc<");
}

/// A name that starts with neither `&`, `[`, `a`, nor `co` parses by its
/// name alone.
proof fn lemma_plain_name(s: Seq<char>)
    requires
        s.len() >= 2,
        s[0] != '&',
        s[0] != '[',
        s[0] != 'a',
        s[0] != 'c' || s[1] != 'o',
    ensures
        parse_type(s) == Some(Ok::<SType, Seq<char>>(named_type(s))),
{
    lemma_reveal_prefixes();
    lemma_not_starts(s, "&dyn"@, 0);
    lemma_not_starts(s, "&["@, 0);
    lemma_not_starts(s, "&"@, 0);
    let k: int = if s[0] == 'c' { 1 } else { 0 };
    lemma_not_starts(s, "core::option::Option<"@, k);
    lemma_not_starts(s, "alloc::boxed::Box<dyn "@, 0);
    lemma_not_starts(s, "alloc::boxed::Box<"@, 0);
    lemma_not_starts(s, "alloc::rc::Rc<dyn "@, 0);
    lemma_not_starts(s, "alloc::rc::Rc<"@, 0);
    lemma_not_starts(s, "alloc::sync::Arc<dyn "@, 0);
    lemma_not_starts(s, "alloc::sync::Arc<"@, 0);
    lemma_not_starts(s, "core::ptr::non_null::NonNull<"@, k);
    lemma_not_starts(s, "core::result::Result<"@, k);
    lemma_not_starts(s, "["@, 0);
}

/// Parsing the written name of a primitive type, or of `str`, gives the
/// type back.
pub proof fn law_primitive_name_parses(t: SType)
    requires
        prim_name(t) is Some || t is str,
    ensures
        parse_type(type_text(t)) == Some(Ok::<SType, Seq<char>>(t)),
{
    reveal_strlit("()");
    reveal_strlit("bool");
    reveal_strlit("char");
    reveal_strlit("u8");
    reveal_strlit("i8");
    reveal_strlit("u16");
    reveal_strlit("i16");
    reveal_strlit("u32");
    reveal_strlit("i32");
    reveal_strlit("u64");
    reveal_strlit("i64");
    reveal_strlit("u128");
    reveal_strlit("i128");
    reveal_strlit("f32");
    reveal_strlit("f64");
    reveal_strlit("usize");
    reveal_strlit("isize");
    reveal_strlit("str");
    let s = type_text(t);
    lemma_plain_name(s);
    assert("char"@ != "bool"@) by {
        assert("char"@[0] != "bool"@[0]);
    }
    assert("u8"@ != "()"@) by {
        assert("u8"@[0] != "()"@[0]);
    }
    assert("i8"@ != "()"@) by {
        assert("i8"@[0] != "()"@[0]);
    }
    assert("i8"@ != "u8"@) by {
        assert("i8"@[0] != "u8"@[0]);
    }
    assert("i16"@ != "u16"@) by {
        assert("i16"@[0] != "u16"@[0]);
    }
    assert("u32"@ != "u16"@) by {
        assert("u32"@[1] != "u16"@[1]);
    }
    assert("u32"@ != "i16"@) by {
        assert("u32"@[0] != "i16"@[0]);
    }
    assert("i32"@ != "u16"@) by {
        assert("i32"@[0] != "u16"@[0]);
    }
    assert("i32"@ != "i16"@) by {
        assert("i32"@[1] != "i16"@[1]);
    }
    assert("i32"@ != "u32"@) by {
        assert("i32"@[0] != "u32"@[0]);
    }
    assert("u64"@ != "u16"@) by {
        assert("u64"@[1] != "u16"@[1]);
    }
    assert("u64"@ != "i16"@) by {
        assert("u64"@[0] != "i16"@[0]);
    }
    assert("u64"@ != "u32"@) by {
        assert("u64"@[1] != "u32"@[1]);
    }
    assert("u64"@ != "i32"@) by {
        assert("u64"@[0] != "i32"@[0]);
    }
    assert("i64"@ != "u16"@) by {
        assert("i64"@[0] != "u16"@[0]);
    }
    assert("i64"@ != "i16"@) by {
        assert("i64"@[1] != "i16"@[1]);
    }
    assert("i64"@ != "u32"@) by {
        assert("i64"@[0] != "u32"@[0]);
    }
    assert("i64"@ != "i32"@) by {
        assert("i64"@[1] != "i32"@[1]);
    }
    assert("i64"@ != "u64"@) by {
        assert("i64"@[0] != "u64"@[0]);
    }
    assert("u128"@ != "bool"@) by {
        assert("u128"@[0] != "bool"@[0]);
    }
    assert("u128"@ != "char"@) by {
        assert("u128"@[0] != "char"@[0]);
    }
    assert("i128"@ != "bool"@) by {
        assert("i128"@[0] != "bool"@[0]);
    }
    assert("i128"@ != "char"@) by {
        assert("i128"@[0] != "char"@[0]);
    }
    assert("i128"@ != "u128"@) by {
        assert("i128"@[0] != "u128"@[0]);
    }
    assert("f32"@ != "u16"@) by {
        assert("f32"@[0] != "u16"@[0]);
    }
    assert("f32"@ != "i16"@) by {
        assert("f32"@[0] != "i16"@[0]);
    }
    assert("f32"@ != "u32"@) by {
        assert("f32"@[0] != "u32"@[0]);
    }
    assert("f32"@ != "i32"@) by {
        assert("f32"@[0] != "i32"@[0]);
    }
    assert("f32"@ != "u64"@) by {
        assert("f32"@[0] != "u64"@[0]);
    }
    assert("f32"@ != "i64"@) by {
        assert("f32"@[0] != "i64"@[0]);
    }
    assert("f64"@ != "u16"@) by {
        assert("f64"@[0] != "u16"@[0]);
    }
    assert("f64"@ != "i16"@) by {
        assert("f64"@[0] != "i16"@[0]);
    }
    assert("f64"@ != "u32"@) by {
        assert("f64"@[0] != "u32"@[0]);
    }
    assert("f64"@ != "i32"@) by {
        assert("f64"@[0] != "i32"@[0]);
    }
    assert("f64"@ != "u64"@) by {
        assert("f64"@[0] != "u64"@[0]);
    }
    assert("f64"@ != "i64"@) by {
        assert("f64"@[0] != "i64"@[0]);
    }
    assert("f64"@ != "f32"@) by {
        assert("f64"@[1] != "f32"@[1]);
    }
    assert("isize"@ != "usize"@) by {
        assert("isize"@[0] != "usize"@[0]);
    }
    assert("str"@ != "u16"@) by {
        assert("str"@[0] != "u16"@[0]);
    }
    assert("str"@ != "i16"@) by {
        assert("str"@[0] != "i16"@[0]);
    }
    assert("str"@ != "u32"@) by {
        assert("str"@[0] != "u32"@[0]);
    }
    assert("str"@ != "i32"@) by {
        assert("str"@[0] != "i32"@[0]);
    }
    assert("str"@ != "u64"@) by {
        assert("str"@[0] != "u64"@[0]);
    }
    assert("str"@ != "i64"@) by {
        assert("str"@[0] != "i64"@[0]);
    }
    assert("str"@ != "f32"@) by {
        assert("str"@[0] != "f32"@[0]);
    }
    assert("str"@ != "f64"@) by {
        assert("str"@[0] != "f64"@[0]);
    }
    assert(named_type(s) == t);
}

proof fn lemma_trim_unchanged(x: Seq<char>)
    requires
        x.len() >= 1,
        !crate::text::is_whitespace(x[0]),
        !crate::text::is_whitespace(x.last()),
    ensures
        trim(x) == x,
        trim(seq![' '] + x) == x,
{
    let y = seq![' '] + x;
    assert(y[0] == ' ');
    assert(y.drop_first() =~= x);
    assert(crate::text::trim_start(y) == crate::text::trim_start(x));
}

/// The step of the law for `Result`: its name parses back where the names
/// of its two sides do.
proof fn lemma_result_name_parses(a: SType, b: SType)
    requires
        reparsable(a),
        reparsable(b),
        parse_type(type_text(a)) == Some(Ok::<SType, Seq<char>>(a)),
        parse_type(type_text(b)) == Some(Ok::<SType, Seq<char>>(b)),
    ensures
        parse_type(type_text(SType::Result(Box::new(a), Box::new(b)))) == Some(
            Ok::<SType, Seq<char>>(SType::Result(Box::new(a), Box::new(b))),
        ),
{
    lemma_reveal_prefixes();
    let t = SType::Result(Box::new(a), Box::new(b));
    lemma_text_nested(a);
    lemma_text_nested(b);
    reveal_strlit("core::option::Option<");
    reveal_strlit(", ");
    let ta = type_text(a);
    let tb = type_text(b);
    let p = "core::result::Result<"@;
    let s = type_text(t);
    assert(s == p + ta + ", "@ + tb + ">"@);
    let n = s.len() as int;
    assert(s[0] == 'c' && s[1] == 'o' && s[6] == 'r');
    lemma_not_starts(s, "&dyn"@, 0);
    lemma_not_starts(s, "&["@, 0);
    lemma_not_starts(s, "&"@, 0);
    lemma_not_starts(s, "core::option::Option<"@, 6);
    lemma_not_starts(s, "alloc::boxed::Box<dyn "@, 0);
    lemma_not_starts(s, "alloc::boxed::Box<"@, 0);
    lemma_not_starts(s, "alloc::rc::Rc<dyn "@, 0);
    lemma_not_starts(s, "alloc::rc::Rc<"@, 0);
    lemma_not_starts(s, "alloc::sync::Arc<dyn "@, 0);
    lemma_not_starts(s, "alloc::sync::Arc<"@, 0);
    lemma_not_starts(s, "core::ptr::non_null::NonNull<"@, 6);
    assert(s.subrange(0, 21) =~= p);
    assert(s.subrange(n - 1, n) =~= ">"@);
    let s2 = s.subrange(21, n);
    assert(s2 =~= ta + ", "@ + tb + ">"@);
    let la = ta.len() as int;
    assert(s2.subrange(0, la) =~= ta);
    lemma_pair_scan_skip(s2, 0, la, 0);
    assert(s2[la] == ',');
    assert(pair_pivot(s2) == Ok::<int, Seq<char>>(la));
    lemma_trim_unchanged(ta);
    lemma_trim_unchanged(tb);
    assert(s2.subrange(la + 1, s2.len() - 1) =~= seq![' '] + tb);
    assert(trim(s2.subrange(0, la)) == ta);
    assert(trim(s2.subrange(la + 1, s2.len() - 1)) == tb);
    assert(starts_with(s, "core::result::Result<"@));
    assert(ends_with(s, ">"@));
    assert(n >= 22);
    assert(parse_result_spec(s) == Some(Ok::<SType, Seq<char>>(t)));
    assert(parse_type(s) == parse_result_spec(s));
}

proof fn lemma_find_reaches(h: Seq<char>, p: Seq<char>, from: int, k: int)
    requires
        0 <= from <= k,
        occurs_at(h, k, p),
    ensures
        find_from_is_some(h, p, from),
    decreases k - from,
{
    if !crate::text::occurs_at(h, from, p) {
        lemma_find_reaches(h, p, from + 1, k);
    }
}

pub open spec fn find_from_is_some(h: Seq<char>, p: Seq<char>, from: int) -> bool {
    crate::text::find_from(h, p, from) is Some
}

proof fn lemma_rfind_at(h: Seq<char>, p: Seq<char>, j: int, upto: int)
    requires
        0 <= j <= upto,
        occurs_at(h, j, p),
        forall|k: int| j < k <= upto ==> !#[trigger] occurs_at(h, k, p),
    ensures
        crate::text::rfind_upto(h, p, upto) == Some(j),
    decreases upto - j,
{
    if upto > j {
        lemma_rfind_at(h, p, j, upto - 1);
    }
}

/// The step of the law for arrays: the name of an array parses back where
/// the name of its element type does.
proof fn lemma_array_name_parses(e: SType, n: usize)
    requires
        reparsable(e),
        parse_type(type_text(e)) == Some(Ok::<SType, Seq<char>>(e)),
    ensures
        parse_type(type_text(SType::Array(Box::new(e), n))) == Some(
            Ok::<SType, Seq<char>>(SType::Array(Box::new(e), n)),
        ),
        occurs_at(type_text(SType::Array(Box::new(e), n)), type_text(e).len() + 1int, "; "@),
{
    lemma_reveal_prefixes();
    let t = SType::Array(Box::new(e), n);
    let te = type_text(e);
    let d = decimal_text(n as nat);
    lemma_decimal_text_digits(n as nat);
    let s = type_text(t);
    assert(s == "["@ + te + "; "@ + d + "]"@);
    let len = s.len() as int;
    let le = te.len() as int;
    assert(s[0] == '[');
    lemma_not_starts(s, "&dyn"@, 0);
    lemma_not_starts(s, "&["@, 0);
    lemma_not_starts(s, "&"@, 0);
    lemma_not_starts(s, "core::option::Option<"@, 0);
    lemma_not_starts(s, "alloc::boxed::Box<dyn "@, 0);
    lemma_not_starts(s, "alloc::boxed::Box<"@, 0);
    lemma_not_starts(s, "alloc::rc::Rc<dyn "@, 0);
    lemma_not_starts(s, "alloc::rc::Rc<"@, 0);
    lemma_not_starts(s, "alloc::sync::Arc<dyn "@, 0);
    lemma_not_starts(s, "alloc::sync::Arc<"@, 0);
    lemma_not_starts(s, "core::ptr::non_null::NonNull<"@, 0);
    lemma_not_starts(s, "core::result::Result<"@, 0);
    assert(s.subrange(0, 1) =~= "["@);
    assert(s.subrange(len - 1, len) =~= "]"@);
    assert(s.subrange(le + 1, le + 3) =~= "; "@);
    lemma_find_reaches(s, "; "@, 0, le + 1);
    assert(contains(s, "; "@));
    let inner = s.subrange(1, len - 1);
    assert(inner =~= te + "; "@ + d);
    assert(inner.subrange(le, le + 2) =~= "; "@);
    assert forall|k: int| le < k <= inner.len() - 2 implies !#[trigger] occurs_at(
        inner,
        k,
        "; "@,
    ) by {
        if occurs_at(inner, k, "; "@) {
            assert(inner.subrange(k, k + 2)[0] == inner[k]);
            if k == le + 1 {
                assert(inner[k] == ' ');
            } else {
                assert(inner[k] == d[k - le - 2]);
                assert(crate::decimal::is_digit_char(d[k - le - 2]));
            }
        }
    }
    lemma_rfind_at(inner, "; "@, le, inner.len() - 2);
    assert(inner.subrange(0, le) =~= te);
    assert(inner.subrange(le + 2, inner.len() as int) =~= d);
    assert(d[0] != '+') by {
        assert(crate::decimal::is_digit_char(d[0]));
    }
    assert(parse_uint(d, usize::MAX as nat) == Some(n as nat));
    assert(parse_array_spec(s) == Some(Ok::<SType, Seq<char>>(t)));
}

/// Parsing the written name of a type gives the type back, for every type
/// built of primitives, `str`, `Option`, `Result`, references, trait object
/// pointers, arrays and slices whose elements hold no array.
pub proof fn law_type_name_parses(t: SType)
    requires
        reparsable(t),
    ensures
        parse_type(type_text(t)) == Some(Ok::<SType, Seq<char>>(t)),
    decreases t,
{
    lemma_reveal_prefixes();
    reveal_strlit("&dyn ");
    assert("&dyn "@ == seq!['&', 'd', 'y', 'n', ' ']);
    match t {
        SType::Option(a) => {
            law_type_name_parses(*a);
            lemma_text_shape(*a);
            let ta = type_text(*a);
            let p = "core::option::Option<"@;
            let s = type_text(t);
            assert(s == p + ta + ">"@);
            let n = s.len() as int;
            assert(s[0] == 'c' && s[1] == 'o');
            lemma_not_starts(s, "&dyn"@, 0);
            lemma_not_starts(s, "&["@, 0);
            lemma_not_starts(s, "&"@, 0);
            assert(s.subrange(0, 21) =~= p);
            assert(s.subrange(n - 1, n) =~= ">"@);
            assert(s.subrange(21, n - 1) =~= ta);
        },
        SType::Reference(a) => {
            law_type_name_parses(*a);
            lemma_text_shape(*a);
            let ta = type_text(*a);
            let s = type_text(t);
            assert(s == "&"@ + ta);
            let n = s.len() as int;
            assert(s[1] == ta[0]);
            lemma_not_starts(s, "&dyn"@, 1);
            match *a {
                SType::Array(e, k) => {
                    assert(reparsable(*a));
                    assert(reparsable(*e));
                    law_type_name_parses(*e);
                    lemma_array_name_parses(*e, k);
                    let j: int = type_text(*e).len() + 1int;
                    assert(s.subrange(j + 1, j + 3) =~= ta.subrange(j, j + 2));
                    lemma_find_reaches(s, "; "@, 0, j + 1);
                },
                _ => {
                    lemma_not_starts(s, "&["@, 1);
                },
            }
            assert(s.subrange(0, 1) =~= "&"@);
            assert(s.subrange(1, n) =~= ta);
        },
        SType::DynRef(a) => {
            law_type_name_parses(*a);
            let ta = type_text(*a);
            let s = type_text(t);
            assert(s == "&dyn "@ + ta);
            let n = s.len() as int;
            assert(s.subrange(0, 4) =~= "&dyn"@);
            assert(s.subrange(5, n) =~= ta);
        },
        SType::Slice(a) => {
            law_type_name_parses(*a);
            lemma_text_shape(*a);
            lemma_text_shape(t);
            let ta = type_text(*a);
            let s = type_text(t);
            assert(s == "&["@ + ta + "]"@);
            let n = s.len() as int;
            lemma_not_starts(s, "&dyn"@, 1);
            assert(s.subrange(0, 2) =~= "&["@);
            assert(s.subrange(n - 1, n) =~= "]"@);
            crate::text::lemma_find_from_bounds(s, "; "@, 0);
            if contains(s, "; "@) {
                let i = crate::text::find_from(s, "; "@, 0)->0;
                assert(s.subrange(i, i + 2)[0] == s[i]);
                assert(s.contains(';'));
            }
            assert(s.subrange(2, n - 1) =~= ta);
        },
        SType::Result(a, b) => {
            law_type_name_parses(*a);
            law_type_name_parses(*b);
            lemma_result_name_parses(*a, *b);
        },
        SType::Array(e, k) => {
            law_type_name_parses(*e);
            lemma_array_name_parses(*e, k);
        },
        _ => {
            law_primitive_name_parses(t);
        },
    }
}

/// A name of a pointer to a trait object: `&dyn ..`, or a `Box`, `Rc` or
/// `Arc` of a `dyn ..`.
pub open spec fn dyn_pointer_name(s: Seq<char>) -> bool {
    ||| starts_with(s, "&dyn"@)
    ||| starts_with(s, "alloc::boxed::Box<dyn "@)
    ||| starts_with(s, "alloc::rc::Rc<dyn "@)
    ||| starts_with(s, "alloc::sync::Arc<dyn "@)
}

/// The name of a pointer to a trait object parses, where it parses, to a
/// trait object pointer: a fat pointer of two pointers' size.
pub proof fn law_dyn_pointer_parses(s: Seq<char>)
    requires
        dyn_pointer_name(s),
    ensures
        parse_type(s) matches Some(Ok(t)) ==> t is DynRef && size_spec(t) == Some(2 * ptr_size()),
{
    lemma_reveal_prefixes();
    reveal_strlit("alloc::boxed::Box<dyn ");
    reveal_strlit("alloc::boxed::Box<");
    reveal_strlit("alloc::rc::Rc<dyn ");
    reveal_strlit("alloc::rc::Rc<");
    reveal_strlit("alloc::sync::Arc<dyn ");
    reveal_strlit("core::option::Option<");
    if starts_with(s, "&dyn"@) {
    } else {
        let b = "alloc::boxed::Box<dyn "@;
        let r = "alloc::rc::Rc<dyn "@;
        let a = "alloc::sync::Arc<dyn "@;
        assert(b[0] == 'a' && b[7] == 'b');
        assert(r[0] == 'a' && r[7] == 'r');
        assert(a[0] == 'a' && a[7] == 's');
        assert(s[0] == 'a' && (s[7] == 'b' || s[7] == 'r' || s[7] == 's')) by {
            if starts_with(s, b) {
                lemma_prefix_char(s, b, 0);
                lemma_prefix_char(s, b, 7);
            } else if starts_with(s, r) {
                lemma_prefix_char(s, r, 0);
                lemma_prefix_char(s, r, 7);
            } else {
                lemma_prefix_char(s, a, 0);
                lemma_prefix_char(s, a, 7);
            }
        }
        lemma_not_starts(s, "&dyn"@, 0);
        lemma_not_starts(s, "&["@, 0);
        lemma_not_starts(s, "&"@, 0);
        lemma_not_starts(s, "core::option::Option<"@, 0);
        if !starts_with(s, b) {
            if starts_with(s, r) {
                lemma_prefix_char(s, r, 7);
            } else {
                lemma_prefix_char(s, a, 7);
            }
            assert("alloc::boxed::Box<"@[7] == 'b');
            lemma_not_starts(s, b, 7);
            lemma_not_starts(s, "alloc::boxed::Box<"@, 7);
            if !starts_with(s, r) {
                lemma_prefix_char(s, a, 7);
                assert("alloc::rc::Rc<"@[7] == 'r');
                lemma_not_starts(s, r, 7);
                lemma_not_starts(s, "alloc::rc::Rc<"@, 7);
            }
        }
    }
}

/// The name of a `Box`, `Rc`, `Arc` or `NonNull` of a type that is not a
/// trait object parses, where it parses, to a reference.
pub proof fn law_smart_pointer_parses(s: Seq<char>)
    requires
        starts_with(s, "alloc::boxed::Box<"@) || starts_with(s, "alloc::rc::Rc<"@) || starts_with(
            s,
            "alloc::sync::Arc<"@,
        ) || starts_with(s, "core::ptr::non_null::NonNull<"@),
        !dyn_pointer_name(s),
    ensures
        parse_type(s) matches Some(Ok(t)) ==> t is Reference,
{
    lemma_reveal_prefixes();
    reveal_strlit("alloc::boxed::Box<");
    reveal_strlit("alloc::rc::Rc<");
    reveal_strlit("alloc::sync::Arc<");
    reveal_strlit("core::ptr::non_null::NonNull<");
    reveal_strlit("core::option::Option<");
    let b = "alloc::boxed::Box<"@;
    let r = "alloc::rc::Rc<"@;
    let a = "alloc::sync::Arc<"@;
    let nn = "core::ptr::non_null::NonNull<"@;
    assert(b[0] == 'a' && b[7] == 'b');
    assert(r[0] == 'a' && r[7] == 'r');
    assert(a[0] == 'a' && a[7] == 's');
    assert(nn[0] == 'c' && nn[6] == 'p');
    if starts_with(s, b) {
        lemma_prefix_char(s, b, 0);
    } else if starts_with(s, r) {
        lemma_prefix_char(s, r, 0);
    } else if starts_with(s, a) {
        lemma_prefix_char(s, a, 0);
    } else {
        lemma_prefix_char(s, nn, 0);
    }
    lemma_not_starts(s, "&dyn"@, 0);
    lemma_not_starts(s, "&["@, 0);
    lemma_not_starts(s, "&"@, 0);
    if starts_with(s, nn) {
        lemma_prefix_char(s, nn, 0);
        lemma_prefix_char(s, nn, 6);
        assert("core::option::Option<"@[6] == 'o');
        lemma_not_starts(s, "core::option::Option<"@, 6);
        lemma_not_starts(s, "alloc::boxed::Box<dyn "@, 0);
        lemma_not_starts(s, b, 0);
        lemma_not_starts(s, "alloc::rc::Rc<dyn "@, 0);
        lemma_not_starts(s, r, 0);
        lemma_not_starts(s, "alloc::sync::Arc<dyn "@, 0);
        lemma_not_starts(s, a, 0);
    } else {
        lemma_not_starts(s, "core::option::Option<"@, 0);
        if !starts_with(s, b) {
            if starts_with(s, r) {
                lemma_prefix_char(s, r, 7);
            } else {
                lemma_prefix_char(s, a, 7);
            }
            reveal_strlit("alloc::boxed::Box<dyn ");
            assert("alloc::boxed::Box<dyn "@[7] == 'b');
            lemma_not_starts(s, "alloc::boxed::Box<dyn "@, 7);
            lemma_not_starts(s, b, 7);
            if !starts_with(s, r) {
                reveal_strlit("alloc::rc::Rc<dyn ");
                assert("alloc::rc::Rc<dyn "@[7] == 'r');
                lemma_not_starts(s, "alloc::rc::Rc<dyn "@, 7);
                lemma_not_starts(s, r, 7);
            }
        }
    }
}

/// A reference to a slice, to `str` or to a trait object is a fat pointer:
/// an address and a length or vtable, two `usize`s. Any other reference is
/// one `usize`, as is `usize` itself.
pub proof fn law_pointer_sizes(e: SType)
    ensures
        size_spec(SType::Slice(Box::new(e))) == Some(2 * vstd::layout::size_of::<usize>()),
        size_spec(SType::DynRef(Box::new(e))) == Some(2 * vstd::layout::size_of::<usize>()),
        size_spec(SType::Reference(Box::new(SType::str))) == Some(
            2 * vstd::layout::size_of::<usize>(),
        ),
        e != SType::str ==> size_spec(SType::Reference(Box::new(e))) == Some(
            vstd::layout::size_of::<usize>(),
        ),
        size_spec(SType::usize) == Some(vstd::layout::size_of::<usize>()),
        size_spec(SType::isize) == Some(vstd::layout::size_of::<usize>()),
{
    broadcast use vstd::layout::layout_of_primitives;
    assert(vstd::layout::size_of::<usize>() * 8 == usize::BITS);
    assert(usize::BITS == 32 || usize::BITS == 64);
    assert(ptr_size() == vstd::layout::size_of::<usize>());
}

/// An array of no element takes no room, and one more element adds the
/// element's size; an array's size is known exactly where its element's is.
pub proof fn law_array_size(a: SType, n: usize)
    ensures
        size_spec(SType::Array(Box::new(a), n)) is Some <==> size_spec(a) is Some,
        size_spec(a) is Some ==> size_spec(SType::Array(Box::new(a), 0)) == Some(0nat),
        size_spec(a) is Some && n < usize::MAX ==> size_spec(SType::Array(Box::new(a), (n + 1) as usize))->0
            == size_spec(SType::Array(Box::new(a), n))->0 + size_spec(a)->0,
{
    if size_spec(a) is Some {
        let e = size_spec(a)->0;
        if n < usize::MAX {
            let k: nat = (n + 1) as usize as nat;
            assert(k == n as nat + 1);
            assert(e * k == e * (n as nat) + e) by (nonlinear_arith)
                requires
                    k == n as nat + 1,
            ;
        }
        assert(e * (0usize as nat) == 0) by (nonlinear_arith);
    }
}

/// The size of each primitive is its size in memory.
pub proof fn law_primitive_sizes()
    ensures
        size_spec(SType::Unit) == Some(vstd::layout::size_of::<()>()),
        size_spec(SType::bool) == Some(vstd::layout::size_of::<bool>()),
        size_spec(SType::char) == Some(vstd::layout::size_of::<char>()),
        size_spec(SType::u8) == Some(vstd::layout::size_of::<u8>()),
        size_spec(SType::i8) == Some(vstd::layout::size_of::<i8>()),
        size_spec(SType::u16) == Some(vstd::layout::size_of::<u16>()),
        size_spec(SType::i16) == Some(vstd::layout::size_of::<i16>()),
        size_spec(SType::u32) == Some(vstd::layout::size_of::<u32>()),
        size_spec(SType::i32) == Some(vstd::layout::size_of::<i32>()),
        size_spec(SType::u64) == Some(vstd::layout::size_of::<u64>()),
        size_spec(SType::i64) == Some(vstd::layout::size_of::<i64>()),
        size_spec(SType::u128) == Some(vstd::layout::size_of::<u128>()),
        size_spec(SType::i128) == Some(vstd::layout::size_of::<i128>()),
        size_spec(SType::usize) == Some(vstd::layout::size_of::<usize>()),
        size_spec(SType::isize) == Some(vstd::layout::size_of::<isize>()),
{
    broadcast use vstd::layout::layout_of_primitives, vstd::layout::layout_of_unit_tuple;
    assert(vstd::layout::size_of::<usize>() * 8 == usize::BITS);
    assert(usize::BITS == 32 || usize::BITS == 64);
    assert(vstd::layout::size_of::<u128>() == 16);
}

impl std::str::FromStr for ValueType {
    type Err = &'static str;

    /// Parses a type name; see [`parse_value_type`], whose `None` (a name
    /// `&dyn` with nothing after it) is reported as an error here.
    fn from_str(s: &str) -> (r: Result<Self, Self::Err>)
        ensures
            match r {
                Ok(t) => parse_type(s@) == Some(Ok::<SType, Seq<char>>(t@)),
                Err(e) => parse_type(s@) == Some(Err::<SType, Seq<char>>(e@)) || (parse_type(s@)
                    is None && e@ == "missing trait name after &dyn"@),
            },
    {
        match parse_value_type(s) {
            Some(r) => r,
            None => Err("missing trait name after &dyn"),
        }
    }
}

} // verus!
