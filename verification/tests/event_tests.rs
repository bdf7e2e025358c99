use firedbg_rust_debugger::event::{ActiveFrame, BpId, Event, EventStream, Reason, SBFunctionId};
use firedbg_rust_debugger::value::{PValue, RValue};
use firedbg_rust_debugger::Bytes;

/// A `u32` named `name`, written as the value stream writes it.
fn push_u32(bytes: &mut Bytes, name: &str, v: u32) {
    bytes.identifier("u32");
    bytes.blob_slice(&v.to_ne_bytes());
    bytes.space();
    bytes.push_str("prim ");
    bytes.identifier(name);
    bytes.push_str("name ");
}

#[test]
fn breakpoint_header_bytes() {
    let b = EventStream::breakpoint(BpId(7), 42, 3, Reason::Breakpoint);
    assert_eq!(b.as_bytes(), b"BB7 42 3 ");
    let b = EventStream::breakpoint(BpId(1), 2, 3, Reason::FutureEnter);
    assert_eq!(b.as_bytes(), b"BF{1 2 3 ");
    let b = EventStream::breakpoint(BpId(1), 2, 3, Reason::FutureExit);
    assert_eq!(b.as_bytes(), b"BF}1 2 3 ");
    let b = EventStream::breakpoint(BpId(0), 0, 0, Reason::Panic);
    assert_eq!(b.as_bytes(), b"BP0 0 0 ");
}

#[test]
fn breakpoint_round_trip() {
    for reason in [Reason::Breakpoint, Reason::Panic, Reason::FutureEnter, Reason::FutureExit] {
        let mut b = EventStream::breakpoint(BpId(7), 42, 3, reason);
        push_u32(&mut b, "x", 5);
        match EventStream::read_from(b) {
            Event::Breakpoint { breakpoint_id, thread_id, frame_id, reason: r, locals } => {
                assert_eq!((breakpoint_id, thread_id, frame_id, r), (7, 42, 3, reason));
                assert_eq!(locals, vec![("x".to_owned(), RValue::Prim(PValue::u32(5)))]);
            }
            other => panic!("unexpected {other:?}"),
        }
    }
}

#[test]
fn function_call_round_trip() {
    let frame = ActiveFrame {
        frame_id: 9,
        stack_pointer: 0x7ff0,
        program_counter: 0x1000,
        function_name: "main::add".to_owned(),
        function_id: SBFunctionId(1),
    };
    let mut b = EventStream::function_call(BpId(2), 1, &frame);
    assert_eq!(b.as_bytes(), b"F2 1 9 32752 \" main::add\"");
    push_u32(&mut b, "a", 1);
    push_u32(&mut b, "b", 2);
    let e = EventStream::read_from(b);
    assert_eq!(
        e,
        Event::FunctionCall {
            breakpoint_id: 2,
            thread_id: 1,
            frame_id: 9,
            stack_pointer: 32752,
            function_name: "main::add".to_owned(),
            arguments: vec![
                ("a".to_owned(), RValue::Prim(PValue::u32(1))),
                ("b".to_owned(), RValue::Prim(PValue::u32(2))),
            ],
        }
    );
}

#[test]
fn function_return_round_trip() {
    let frame = ActiveFrame {
        frame_id: 4,
        stack_pointer: 0,
        program_counter: 0,
        function_name: "f".to_owned(),
        function_id: SBFunctionId(0),
    };
    let mut b = EventStream::function_return(BpId(3), 8, &frame);
    assert_eq!(b.as_bytes(), b"R3 8 4 \" f\"");
    push_u32(&mut b, "return_value", 33);
    let e = EventStream::read_from(b);
    assert_eq!(
        e,
        Event::FunctionReturn {
            breakpoint_id: 3,
            thread_id: 8,
            frame_id: 4,
            function_name: "f".to_owned(),
            return_value: RValue::Prim(PValue::u32(33)),
        }
    );
}

#[test]
fn breakpoint_id_truncates_to_u32() {
    let mut b = Bytes::new();
    b.push_str("BB4294967297 1 2 ");
    match EventStream::read_from(b) {
        Event::Breakpoint { breakpoint_id, locals, .. } => {
            assert_eq!(breakpoint_id, 1);
            assert!(locals.is_empty());
        }
        other => panic!("unexpected {other:?}"),
    }
}
