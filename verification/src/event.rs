//! Events of the debuggee, as the debugger writes them to the event stream
//! and as they are read back.
//!
//! An event is one message: a letter for its kind (`B` a breakpoint was hit,
//! `F` a function was called, `R` a function returned), then integer and
//! string tokens for its header, then the values it carries.
use vstd::prelude::*;
use crate::bytes::{Bytes, int_token, str_token};
use crate::reader::{Reader, Step, SToken, next_token_at, run, start_state, named_values, reads_well};
use crate::value::{RValue, SValue, rv, rv_fields};

verus! {

/// The id of a breakpoint.
#[derive(Debug, Copy, Clone, PartialEq, Eq, Structural)]
pub struct BpId(pub u32);

/// The id of a function of the debuggee.
#[derive(Debug, Copy, Clone, PartialEq, Eq, Structural)]
pub struct SBFunctionId(pub usize);

/// Why the debuggee stopped at a breakpoint.
#[derive(Debug, Copy, Clone, PartialEq, Eq, Structural)]
pub enum Reason {
    Breakpoint,
    Panic,
    FutureEnter,
    FutureExit,
}

/// An event read from the stream.
#[derive(Debug, PartialEq)]
pub enum Event {
    Breakpoint {
        breakpoint_id: u32,
        thread_id: u64,
        frame_id: u64,
        reason: Reason,
        locals: Vec<(String, RValue)>,
    },
    FunctionCall {
        breakpoint_id: u32,
        thread_id: u64,
        frame_id: u64,
        stack_pointer: u64,
        function_name: String,
        arguments: Vec<(String, RValue)>,
    },
    FunctionReturn {
        breakpoint_id: u32,
        thread_id: u64,
        frame_id: u64,
        function_name: String,
        return_value: RValue,
    },
}

/// The content of an [`Event`].
pub enum SEvent {
    Breakpoint {
        breakpoint_id: u32,
        thread_id: u64,
        frame_id: u64,
        reason: Reason,
        locals: Seq<(Seq<char>, SValue)>,
    },
    FunctionCall {
        breakpoint_id: u32,
        thread_id: u64,
        frame_id: u64,
        stack_pointer: u64,
        function_name: Seq<char>,
        arguments: Seq<(Seq<char>, SValue)>,
    },
    FunctionReturn {
        breakpoint_id: u32,
        thread_id: u64,
        frame_id: u64,
        function_name: Seq<char>,
        return_value: SValue,
    },
}

impl View for Event {
    type V = SEvent;

    open spec fn view(&self) -> SEvent {
        match self {
            Event::Breakpoint { breakpoint_id, thread_id, frame_id, reason, locals } =>
                SEvent::Breakpoint {
                breakpoint_id: *breakpoint_id,
                thread_id: *thread_id,
                frame_id: *frame_id,
                reason: *reason,
                locals: rv_fields(locals@),
            },
            Event::FunctionCall {
                breakpoint_id,
                thread_id,
                frame_id,
                stack_pointer,
                function_name,
                arguments,
            } => SEvent::FunctionCall {
                breakpoint_id: *breakpoint_id,
                thread_id: *thread_id,
                frame_id: *frame_id,
                stack_pointer: *stack_pointer,
                function_name: function_name@,
                arguments: rv_fields(arguments@),
            },
            Event::FunctionReturn {
                breakpoint_id,
                thread_id,
                frame_id,
                function_name,
                return_value,
            } => SEvent::FunctionReturn {
                breakpoint_id: *breakpoint_id,
                thread_id: *thread_id,
                frame_id: *frame_id,
                function_name: function_name@,
                return_value: rv(*return_value),
            },
        }
    }
}

/// The current stack frame.
#[derive(Debug)]
pub struct ActiveFrame {
    pub frame_id: u64,
    /// Aka SP
    pub stack_pointer: u64,
    /// Aka PC
    pub program_counter: u64,
    pub function_name: String,
    pub function_id: SBFunctionId,
}

/// The event stream.
#[derive(Debug)]
pub struct EventStream {}

/// The reason of a breakpoint event, and the position after it; `None`
/// where the bytes after `B` name no reason.
pub open spec fn reason_at(src: Seq<u8>) -> Option<(Reason, int)> {
    if src.len() < 2 {
        None
    } else if src[1] == 66u8 {
        Some((Reason::Breakpoint, 2))
    } else if src[1] == 80u8 {
        Some((Reason::Panic, 2))
    } else if src[1] == 70u8 && src.len() >= 3 {
        if src[2] == 123u8 {
            Some((Reason::FutureEnter, 3))
        } else if src[2] == 125u8 {
            Some((Reason::FutureExit, 3))
        } else {
            None
        }
    } else {
        None
    }
}

/// The integer token at `pos`, and the position after it.
pub open spec fn int_at(src: Seq<u8>, pos: int) -> Option<(u64, int)> {
    match next_token_at(src, pos) {
        Step::Next(SToken::Int(n), c) => Some((n, c)),
        _ => None,
    }
}

/// The string token at `pos`, and the position after it.
pub open spec fn str_at(src: Seq<u8>, pos: int) -> Option<(Seq<char>, int)> {
    match next_token_at(src, pos) {
        Step::Next(SToken::Str(s), c) => Some((s, c)),
        _ => None,
    }
}

/// The `n` integer tokens from `pos` on, and the position after them.
pub open spec fn ints_at(src: Seq<u8>, pos: int, n: nat) -> Option<(Seq<u64>, int)>
    decreases n,
{
    if n == 0 {
        Some((Seq::empty(), pos))
    } else {
        match int_at(src, pos) {
            Some((x, p)) => match ints_at(src, p, (n - 1) as nat) {
                Some((xs, q)) => Some((seq![x] + xs, q)),
                None => None,
            },
            None => None,
        }
    }
}

/// The values of the `n` integer tokens from `pos` on.
pub open spec fn ints_values(src: Seq<u8>, pos: int, n: nat) -> Seq<u64> {
    match ints_at(src, pos, n) {
        Some((v, _)) => v,
        None => Seq::empty(),
    }
}

/// The position after the `n` integer tokens from `pos` on.
pub open spec fn ints_end(src: Seq<u8>, pos: int, n: nat) -> int {
    match ints_at(src, pos, n) {
        Some((_, p)) => p,
        None => pos,
    }
}

pub proof fn lemma_ints_len(src: Seq<u8>, pos: int, n: nat)
    ensures
        ints_at(src, pos, n) is Some ==> ints_values(src, pos, n).len() == n,
    decreases n,
{
    if n > 0 {
        match int_at(src, pos) {
            Some((x, p)) => lemma_ints_len(src, p, (n - 1) as nat),
            None => {},
        }
    }
}

/// The named values from `pos` to the end, read with an empty environment.
pub open spec fn values_at(src: Seq<u8>, pos: int) -> Option<Seq<(Seq<char>, SValue)>> {
    if reads_well(src, pos, Map::empty()) {
        Some(named_values(run(src, pos, start_state(Map::empty()))->0))
    } else {
        None
    }
}

/// The named values after a prefix are those of the rest read on its own.
pub proof fn lemma_values_at_shift(pre: Seq<u8>, rest: Seq<u8>)
    ensures
        values_at(pre + rest, pre.len() as int) == values_at(rest, 0),
{
    crate::reader::lemma_run_shift(pre, rest, 0, start_state(Map::empty()));
}

/// The event that the bytes hold; `None` where reading them fails.
pub open spec fn event_spec(src: Seq<u8>) -> Option<SEvent> {
    if src.len() == 0 {
        None
    } else if src[0] == 66u8 {
        match reason_at(src) {
            Some((reason, i)) => match ints_at(src, i, 3) {
                Some((ns, p)) => match values_at(src, p) {
                    Some(locals) => Some(
                        SEvent::Breakpoint {
                            breakpoint_id: ns[0] as u32,
                            thread_id: ns[1],
                            frame_id: ns[2],
                            reason,
                            locals,
                        },
                    ),
                    None => None,
                },
                None => None,
            },
            None => None,
        }
    } else if src[0] == 70u8 {
        match ints_at(src, 1, 4) {
            Some((ns, p)) => match str_at(src, p) {
                Some((name, q)) => match values_at(src, q) {
                    Some(arguments) => Some(
                        SEvent::FunctionCall {
                            breakpoint_id: ns[0] as u32,
                            thread_id: ns[1],
                            frame_id: ns[2],
                            stack_pointer: ns[3],
                            function_name: name,
                            arguments,
                        },
                    ),
                    None => None,
                },
                None => None,
            },
            None => None,
        }
    } else if src[0] == 82u8 {
        match ints_at(src, 1, 3) {
            Some((ns, p)) => match str_at(src, p) {
                Some((name, q)) => match values_at(src, q) {
                    Some(values) => if values.len() > 0 && values[0].0 == "return_value"@ {
                        Some(
                            SEvent::FunctionReturn {
                                breakpoint_id: ns[0] as u32,
                                thread_id: ns[1],
                                frame_id: ns[2],
                                function_name: name,
                                return_value: values[0].1,
                            },
                        )
                    } else {
                        None
                    },
                    None => None,
                },
                None => None,
            },
            None => None,
        }
    } else {
        None
    }
}

/// The bytes that open a breakpoint event with this reason.
pub open spec fn reason_bytes(reason: Reason) -> Seq<u8> {
    match reason {
        Reason::Breakpoint => seq![66u8, 66u8],
        Reason::Panic => seq![66u8, 80u8],
        Reason::FutureEnter => seq![66u8, 70u8, 123u8],
        Reason::FutureExit => seq![66u8, 70u8, 125u8],
    }
}

/// The header of a breakpoint event.
pub open spec fn breakpoint_bytes(bp: u32, thread_id: u64, frame_id: u64, reason: Reason) -> Seq<u8> {
    reason_bytes(reason) + int_token(bp as nat) + int_token(thread_id as nat) + int_token(
        frame_id as nat,
    )
}

/// The header of a function call event.
pub open spec fn function_call_bytes(
    bp: u32,
    thread_id: u64,
    frame_id: u64,
    stack_pointer: u64,
    name: Seq<char>,
) -> Seq<u8> {
    seq![70u8] + int_token(bp as nat) + int_token(thread_id as nat) + int_token(frame_id as nat)
        + int_token(stack_pointer as nat) + str_token(name)
}

/// The header of a function return event.
pub open spec fn function_return_bytes(bp: u32, thread_id: u64, frame_id: u64, name: Seq<char>) -> Seq<
    u8,
> {
    seq![82u8] + int_token(bp as nat) + int_token(thread_id as nat) + int_token(frame_id as nat)
        + str_token(name)
}

impl EventStream {
    /// Reads `count` integer tokens.
    fn read_ints(reader: &mut Reader, count: usize) -> (r: Vec<u64>)
        requires
            old(reader).src().len() < usize::MAX,
            ints_at(old(reader).src(), old(reader).pos(), count as nat) is Some,
        ensures
            final(reader).src() == old(reader).src(),
            final(reader).env() == old(reader).env(),
            r@ == ints_values(old(reader).src(), old(reader).pos(), count as nat),
            final(reader).pos() == ints_end(old(reader).src(), old(reader).pos(), count as nat),
    {
        let ghost src = reader.src();
        let ghost p0 = reader.pos();
        let mut out: Vec<u64> = Vec::new();
        let mut k: usize = 0;
        while k < count
            invariant
                k <= count,
                reader.src() == src,
                reader.env() == old(reader).env(),
                src.len() < usize::MAX,
                ints_at(src, p0, count as nat) is Some,
                ints_at(src, reader.pos(), (count - k) as nat) is Some,
                ints_values(src, p0, count as nat) == out@ + ints_values(
                    src,
                    reader.pos(),
                    (count - k) as nat,
                ),
                ints_end(src, p0, count as nat) == ints_end(src, reader.pos(), (count - k) as nat),
            decreases count - k,
        {
            let ghost before = ints_values(src, reader.pos(), (count - k) as nat);
            let x = reader.read_int();
            let x = match x {
                Some(v) => v,
                None => {
                    assert(false);
                    0
                },
            };
            let ghost after = ints_values(src, reader.pos(), (count - k - 1) as nat);
            assert(before == seq![x] + after);
            out.push(x);
            assert(out@ + after =~= (out@.drop_last() + seq![x]) + after);
            assert(out@.drop_last() + before =~= out@ + after);
            k = k + 1;
        }
        assert(out@ + Seq::<u64>::empty() =~= out@);
        out
    }

    /// Reads an event from its bytes.
    pub fn read_from(source: Bytes) -> (r: Event)
        requires
            event_spec(source@) is Some,
            source@.len() < usize::MAX,
        ensures
            r@ == event_spec(source@)->0,
    {
        let kind = source.get(0);
        if kind == 66u8 {
            Self::read_breakpoint(source)
        } else if kind == 70u8 {
            Self::read_function_call(source)
        } else {
            Self::read_function_return(source)
        }
    }

    fn read_breakpoint(source: Bytes) -> (r: Event)
        requires
            source@.len() > 0,
            source@[0] == 66u8,
            event_spec(source@) is Some,
            source@.len() < usize::MAX,
        ensures
            r@ == event_spec(source@)->0,
    {
        let ghost src = source@;
        let mut reader = Reader::new();
        let mut i: usize = 1;
        let b = source.get(i);
        let reason = if b == 66u8 {
            Reason::Breakpoint
        } else if b == 80u8 {
            Reason::Panic
        } else {
            i = i + 1;
            if source.get(i) == 123u8 {
                Reason::FutureEnter
            } else {
                Reason::FutureExit
            }
        };
        i = i + 1;
        assert(reason_at(src) == Some((reason, i as int)));
        reader.set_source(source, i);
        proof {
            lemma_ints_len(src, i as int, 3);
        }
        let ns = Self::read_ints(&mut reader, 3);
        let locals = reader.read_values();
        Event::Breakpoint {
            breakpoint_id: ns[0] as u32,
            thread_id: ns[1],
            frame_id: ns[2],
            reason,
            locals,
        }
    }

    fn read_function_call(source: Bytes) -> (r: Event)
        requires
            source@.len() > 0,
            source@[0] == 70u8,
            event_spec(source@) is Some,
            source@.len() < usize::MAX,
        ensures
            r@ == event_spec(source@)->0,
    {
        let ghost src = source@;
        let mut reader = Reader::new();
        reader.set_source(source, 1);
        proof {
            lemma_ints_len(src, 1, 4);
        }
        let ns = Self::read_ints(&mut reader, 4);
        let function_name = match reader.read_string() {
            Some(s) => s,
            None => {
                assert(false);
                String::new()
            },
        };
        let arguments = reader.read_values();
        Event::FunctionCall {
            breakpoint_id: ns[0] as u32,
            thread_id: ns[1],
            frame_id: ns[2],
            stack_pointer: ns[3],
            function_name,
            arguments,
        }
    }

    fn read_function_return(source: Bytes) -> (r: Event)
        requires
            source@.len() > 0,
            source@[0] == 82u8,
            event_spec(source@) is Some,
            source@.len() < usize::MAX,
        ensures
            r@ == event_spec(source@)->0,
    {
        let ghost src = source@;
        let mut reader = Reader::new();
        reader.set_source(source, 1);
        proof {
            lemma_ints_len(src, 1, 3);
        }
        let ns = Self::read_ints(&mut reader, 3);
        let function_name = match reader.read_string() {
            Some(s) => s,
            None => {
                assert(false);
                String::new()
            },
        };
        let mut values = reader.read_values();
        proof {
            crate::value::lemma_rv_fields_len(values@);
        }
        let (_, return_value) = values.remove(0);
        Event::FunctionReturn {
            breakpoint_id: ns[0] as u32,
            thread_id: ns[1],
            frame_id: ns[2],
            function_name,
            return_value,
        }
    }

    /// The header of a breakpoint event.
    pub fn breakpoint(bp_id: BpId, thread_id: u64, frame_id: u64, reason: Reason) -> (r: Bytes)
        ensures
            r@ == breakpoint_bytes(bp_id.0, thread_id, frame_id, reason),
    {
        let mut bytes = Bytes::new();
        bytes.push_byte(66u8);
        bytes.push_byte(
            match reason {
                Reason::Breakpoint => 66u8,
                Reason::Panic => 80u8,
                Reason::FutureEnter => 70u8,
                Reason::FutureExit => 70u8,
            },
        );
        match reason {
            Reason::FutureEnter => bytes.push_byte(123u8),
            Reason::FutureExit => bytes.push_byte(125u8),
            _ => {},
        }
        assert(bytes@ =~= reason_bytes(reason));
        bytes.integer(bp_id.0);
        bytes.integer(thread_id);
        bytes.integer(frame_id);
        assert(bytes@ =~= breakpoint_bytes(bp_id.0, thread_id, frame_id, reason));
        bytes
    }

    /// The header of a function call event. The function's name must not hold a `"`.
    pub fn function_call(bp_id: BpId, thread_id: u64, active_frame: &ActiveFrame) -> (r: Bytes)
        requires
            !active_frame.function_name@.contains('"'),
        ensures
            r@ == function_call_bytes(
                bp_id.0,
                thread_id,
                active_frame.frame_id,
                active_frame.stack_pointer,
                active_frame.function_name@,
            ),
    {
        let mut bytes = Bytes::new();
        bytes.push_byte(70u8);
        bytes.integer(bp_id.0);
        bytes.integer(thread_id);
        bytes.integer(active_frame.frame_id);
        bytes.integer(active_frame.stack_pointer);
        bytes.identifier(active_frame.function_name.as_str());
        assert(bytes@ =~= function_call_bytes(
            bp_id.0,
            thread_id,
            active_frame.frame_id,
            active_frame.stack_pointer,
            active_frame.function_name@,
        ));
        bytes
    }

    /// The header of a function return event. The function's name must not hold a `"`.
    pub fn function_return(bp_id: BpId, thread_id: u64, active_frame: &ActiveFrame) -> (r: Bytes)
        requires
            !active_frame.function_name@.contains('"'),
        ensures
            r@ == function_return_bytes(
                bp_id.0,
                thread_id,
                active_frame.frame_id,
                active_frame.function_name@,
            ),
    {
        let mut bytes = Bytes::new();
        bytes.push_byte(82u8);
        bytes.integer(bp_id.0);
        bytes.integer(thread_id);
        bytes.integer(active_frame.frame_id);
        bytes.identifier(active_frame.function_name.as_str());
        assert(bytes@ =~= function_return_bytes(
            bp_id.0,
            thread_id,
            active_frame.frame_id,
            active_frame.function_name@,
        ));
        bytes
    }
}


/// Three integer tokens in a row read back as their integers.
proof fn lemma_read_three_ints(src: Seq<u8>, pos: int, a: u64, b: u64, c: u64)
    requires
        0 <= pos,
        pos + int_token(a as nat).len() + int_token(b as nat).len() + int_token(c as nat).len()
            <= src.len(),
        src.subrange(
            pos,
            pos + int_token(a as nat).len() + int_token(b as nat).len() + int_token(c as nat).len(),
        ) == int_token(a as nat) + int_token(b as nat) + int_token(c as nat),
    ensures
        ints_at(src, pos, 3) == Some(
            (
                seq![a, b, c],
                pos + int_token(a as nat).len() + int_token(b as nat).len() + int_token(
                    c as nat,
                ).len(),
            ),
        ),
{
    let ta = int_token(a as nat);
    let tb = int_token(b as nat);
    let tc = int_token(c as nat);
    let all = ta + tb + tc;
    let p1 = pos + ta.len();
    let p2 = p1 + tb.len();
    let p3 = p2 + tc.len();
    assert forall|i: int| pos <= i < p3 implies src[i] == all[i - pos] by {
        assert(src.subrange(pos, p3)[i - pos] == src[i]);
    }
    assert(src.subrange(pos, p1) =~= ta) by {
        assert forall|i: int| 0 <= i < ta.len() implies src.subrange(pos, p1)[i] == ta[i] by {
            assert(all[i] == ta[i]);
        }
    }
    assert(src.subrange(p1, p2) =~= tb) by {
        assert forall|i: int| 0 <= i < tb.len() implies src.subrange(p1, p2)[i] == tb[i] by {
            assert(all[ta.len() + i] == tb[i]);
        }
    }
    assert(src.subrange(p2, p3) =~= tc) by {
        assert forall|i: int| 0 <= i < tc.len() implies src.subrange(p2, p3)[i] == tc[i] by {
            assert(all[ta.len() + tb.len() + i] == tc[i]);
        }
    }
    crate::reader::lemma_read_int_token(src, pos, a);
    crate::reader::lemma_read_int_token(src, p1, b);
    crate::reader::lemma_read_int_token(src, p2, c);
    assert(ints_at(src, p3, 0) == Some((Seq::<u64>::empty(), p3)));
    assert(ints_at(src, p2, 1) == Some((seq![c], p3)));
    assert(ints_at(src, p1, 2) == Some((seq![b, c], p3)));
    assert(seq![a] + seq![b, c] =~= seq![a, b, c]);
}

/// Reading back a breakpoint event gives the header it was written with:
/// its breakpoint id, thread id, frame id and reason. The locals are what
/// the bytes after the header read as on their own, and reading fails exactly where
/// reading those fails.
#[verifier::spinoff_prover]
pub proof fn law_breakpoint_roundtrip(
    bp: u32,
    thread_id: u64,
    frame_id: u64,
    reason: Reason,
    rest: Seq<u8>,
)
    ensures
        ({
            let h = breakpoint_bytes(bp, thread_id, frame_id, reason);
            let src = h + rest;
            event_spec(src) == match values_at(rest, 0) {
                Some(locals) => Some(
                    SEvent::Breakpoint { breakpoint_id: bp, thread_id, frame_id, reason, locals },
                ),
                None => None,
            }
        }),
{
    lemma_values_at_shift(
        breakpoint_bytes(bp, thread_id, frame_id, reason),
        rest,
    );
    let h = breakpoint_bytes(bp, thread_id, frame_id, reason);
    let src = h + rest;
    lemma_breakpoint_header(bp, thread_id, frame_id, reason, rest);
    assert(src[0] == 66u8);
    assert((bp as u64) as u32 == bp);
    let ns = seq![bp as u64, thread_id, frame_id];
    assert(ns[0] as u32 == bp);
}

#[verifier::spinoff_prover]
proof fn lemma_breakpoint_header(bp: u32, thread_id: u64, frame_id: u64, reason: Reason, rest: Seq<u8>)
    ensures
        ({
            let h = breakpoint_bytes(bp, thread_id, frame_id, reason);
            let src = h + rest;
            &&& src[0] == 66u8
            &&& reason_at(src) == Some((reason, reason_bytes(reason).len() as int))
            &&& ints_at(src, reason_bytes(reason).len() as int, 3) == Some(
                (seq![bp as u64, thread_id, frame_id], h.len() as int),
            )
        }),
{
    let rb = reason_bytes(reason);
    let h = breakpoint_bytes(bp, thread_id, frame_id, reason);
    let src = h + rest;
    let ints = int_token(bp as nat) + int_token(thread_id as nat) + int_token(frame_id as nat);
    assert(h =~= rb + ints);
    assert(src[0] == 66u8);
    assert(reason_at(src) == Some((reason, rb.len() as int)));
    assert(src.subrange(rb.len() as int, (rb.len() + ints.len()) as int) =~= ints);
    lemma_read_three_ints(src, rb.len() as int, bp as u64, thread_id, frame_id);
}


/// The integer tokens of the numbers, one after the other.
pub open spec fn ints_bytes(xs: Seq<u64>) -> Seq<u8>
    decreases xs.len(),
{
    if xs.len() == 0 {
        Seq::empty()
    } else {
        int_token(xs[0] as nat) + ints_bytes(xs.drop_first())
    }
}

/// Integer tokens read back as their integers.
proof fn lemma_read_ints(src: Seq<u8>, pos: int, xs: Seq<u64>)
    requires
        0 <= pos,
        pos + ints_bytes(xs).len() <= src.len(),
        src.subrange(pos, pos + ints_bytes(xs).len()) == ints_bytes(xs),
    ensures
        ints_at(src, pos, xs.len()) == Some((xs, pos + ints_bytes(xs).len())),
    decreases xs.len(),
{
    if xs.len() > 0 {
        let t = int_token(xs[0] as nat);
        let r = ints_bytes(xs.drop_first());
        lemma_split_at(src, pos, t, r);
        crate::reader::lemma_read_int_token(src, pos, xs[0]);
        lemma_read_ints(src, pos + t.len(), xs.drop_first());
        assert(seq![xs[0]] + xs.drop_first() =~= xs);
    } else {
        assert(xs =~= Seq::<u64>::empty());
    }
}

/// A run of bytes made of two parts holds each part.
proof fn lemma_split_at(src: Seq<u8>, a: int, x: Seq<u8>, y: Seq<u8>)
    requires
        0 <= a,
        a + x.len() + y.len() <= src.len(),
        src.subrange(a, a + x.len() + y.len()) == x + y,
    ensures
        src.subrange(a, a + x.len()) == x,
        src.subrange(a + x.len(), a + x.len() + y.len()) == y,
{
    let b = a + x.len() + y.len();
    assert forall|i: int| 0 <= i < x.len() implies src.subrange(a, a + x.len())[i] == x[i] by {
        assert(src.subrange(a, b)[i] == (x + y)[i]);
    }
    assert forall|i: int| 0 <= i < y.len() implies src.subrange(a + x.len(), b)[i] == y[i] by {
        assert(src.subrange(a, b)[x.len() + i] == (x + y)[x.len() + i]);
    }
    assert(src.subrange(a, a + x.len()) =~= x);
    assert(src.subrange(a + x.len(), b) =~= y);
}

/// Reading back a function call event gives the header it was written
/// with: its breakpoint id, thread id, frame id, stack pointer and function
/// name. The arguments are what the bytes after the header read as on their own, and
/// reading fails exactly where reading those fails.
#[verifier::spinoff_prover]
pub proof fn law_function_call_roundtrip(
    bp: u32,
    thread_id: u64,
    frame_id: u64,
    stack_pointer: u64,
    name: Seq<char>,
    rest: Seq<u8>,
)
    requires
        !name.contains('"'),
    ensures
        ({
            let h = function_call_bytes(bp, thread_id, frame_id, stack_pointer, name);
            let src = h + rest;
            event_spec(src) == match values_at(rest, 0) {
                Some(arguments) => Some(
                    SEvent::FunctionCall {
                        breakpoint_id: bp,
                        thread_id,
                        frame_id,
                        stack_pointer,
                        function_name: name,
                        arguments,
                    },
                ),
                None => None,
            }
        }),
{
    lemma_values_at_shift(
        function_call_bytes(bp, thread_id, frame_id, stack_pointer, name),
        rest,
    );
    let h = function_call_bytes(bp, thread_id, frame_id, stack_pointer, name);
    let src = h + rest;
    let p4 = lemma_call_header(bp, thread_id, frame_id, stack_pointer, name, rest);
    assert(src[0] == 70u8);
    assert((bp as u64) as u32 == bp);
    let ns = seq![bp as u64, thread_id, frame_id, stack_pointer];
    assert(ns[0] as u32 == bp);
}

#[verifier::spinoff_prover]
proof fn lemma_call_header(
    bp: u32,
    thread_id: u64,
    frame_id: u64,
    stack_pointer: u64,
    name: Seq<char>,
    rest: Seq<u8>,
) -> (p4: int)
    requires
        !name.contains('"'),
    ensures
        ({
            let h = function_call_bytes(bp, thread_id, frame_id, stack_pointer, name);
            let src = h + rest;
            &&& ints_at(src, 1, 4) == Some((seq![bp as u64, thread_id, frame_id, stack_pointer], p4))
            &&& str_at(src, p4) == Some((name, h.len() as int))
        }),
{
    let h = function_call_bytes(bp, thread_id, frame_id, stack_pointer, name);
    let src = h + rest;
    let xs = seq![bp as u64, thread_id, frame_id, stack_pointer];
    let ib = ints_bytes(xs);
    let ts = str_token(name);
    assert(ib =~= int_token(bp as nat) + int_token(thread_id as nat) + int_token(frame_id as nat)
        + int_token(stack_pointer as nat)) by {
        reveal_with_fuel(ints_bytes, 5);
        assert(xs.drop_first() =~= seq![thread_id, frame_id, stack_pointer]);
        assert(xs.drop_first().drop_first() =~= seq![frame_id, stack_pointer]);
        assert(xs.drop_first().drop_first().drop_first() =~= seq![stack_pointer]);
        assert(xs.drop_first().drop_first().drop_first().drop_first() =~= Seq::<u64>::empty());
    }
    assert(h =~= seq![70u8] + (ib + ts));
    assert(src.subrange(1, h.len() as int) =~= ib + ts);
    lemma_split_at(src, 1, ib, ts);
    lemma_read_ints(src, 1, xs);
    let p4 = 1 + ib.len() as int;
    crate::reader::lemma_read_str_token(src, p4, name);
    p4
}

/// Reading back a function return event gives the header it was written
/// with: its breakpoint id, thread id, frame id and function name. The
/// returned value is the first value that the bytes after the header, read on their own,
/// give; reading fails where reading those fails or where the first of them
/// is not named `return_value`.
#[verifier::spinoff_prover]
pub proof fn law_function_return_roundtrip(
    bp: u32,
    thread_id: u64,
    frame_id: u64,
    name: Seq<char>,
    rest: Seq<u8>,
)
    requires
        !name.contains('"'),
    ensures
        ({
            let h = function_return_bytes(bp, thread_id, frame_id, name);
            let src = h + rest;
            event_spec(src) == match values_at(rest, 0) {
                Some(values) => if values.len() > 0 && values[0].0 == "return_value"@ {
                    Some(
                        SEvent::FunctionReturn {
                            breakpoint_id: bp,
                            thread_id,
                            frame_id,
                            function_name: name,
                            return_value: values[0].1,
                        },
                    )
                } else {
                    None
                },
                None => None,
            }
        }),
{
    lemma_values_at_shift(
        function_return_bytes(bp, thread_id, frame_id, name),
        rest,
    );
    let h = function_return_bytes(bp, thread_id, frame_id, name);
    let src = h + rest;
    lemma_return_header(bp, thread_id, frame_id, name, rest);
    assert(src[0] == 82u8);
    assert((bp as u64) as u32 == bp);
    let ns = seq![bp as u64, thread_id, frame_id];
    assert(ns[0] as u32 == bp);
}

#[verifier::spinoff_prover]
proof fn lemma_return_header(bp: u32, thread_id: u64, frame_id: u64, name: Seq<char>, rest: Seq<u8>)
    requires
        !name.contains('"'),
    ensures
        ({
            let h = function_return_bytes(bp, thread_id, frame_id, name);
            let src = h + rest;
            let p3 = (1 + int_token(bp as nat).len() + int_token(thread_id as nat).len()
                + int_token(frame_id as nat).len()) as int;
            &&& src[0] == 82u8
            &&& ints_at(src, 1, 3) == Some((seq![bp as u64, thread_id, frame_id], p3))
            &&& str_at(src, p3) == Some((name, h.len() as int))
        }),
{
    let h = function_return_bytes(bp, thread_id, frame_id, name);
    let src = h + rest;
    let ints = int_token(bp as nat) + int_token(thread_id as nat) + int_token(frame_id as nat);
    let ts = str_token(name);
    assert(h =~= seq![82u8] + (ints + ts));
    assert(src.subrange(1, h.len() as int) =~= ints + ts);
    lemma_split_at(src, 1, ints, ts);
    lemma_read_three_ints(src, 1, bp as u64, thread_id, frame_id);
    let p3 = (1 + ints.len()) as int;
    crate::reader::lemma_read_str_token(src, p3, name);
}

} // verus!
