use leo_passes::errors::{BufferEmitter, Emitter, ErrBuffer, Handler, LeoError};

fn err(message: &str, code: i32) -> LeoError {
    LeoError::new(message.to_string(), code)
}

#[test]
fn err_buffer_push_and_into_inner() {
    let mut buf = ErrBuffer::new();
    buf.push(&err("first", 1));
    buf.push(&err("second", 2));
    let inner = buf.into_inner();
    assert_eq!(inner.len(), 2);
    assert_eq!(inner[0].message, "first");
    assert_eq!(inner[1].exit_code, 2);
}

#[test]
fn err_buffer_to_string_joins_lines() {
    let mut buf = ErrBuffer::new();
    assert_eq!(buf.to_string(), "");
    buf.push(&err("a", 1));
    assert_eq!(buf.to_string(), "a");
    buf.push(&err("b", 1));
    buf.push(&err("c", 1));
    assert_eq!(buf.to_string(), "a\nb\nc");
}

#[test]
fn buffer_emitter_collects_in_order() {
    let mut emitter = BufferEmitter::new();
    emitter.emit_err(&err("x", 3));
    emitter.emit_err(&err("y", 4));
    let extracted = emitter.extract();
    assert_eq!(extracted.to_string(), "x\ny");
    // Extracting does not drain the emitter.
    assert_eq!(emitter.extract().into_inner().len(), 2);
}

#[test]
fn handler_counts_errors() {
    let mut handler = Handler::new_with_buf();
    assert_eq!(handler.err_count(), 0);
    assert!(!handler.had_errors());
    handler.emit_err(&err("one", 1));
    handler.emit_err(&err("two", 1));
    assert_eq!(handler.err_count(), 2);
    assert!(handler.had_errors());
    assert_eq!(handler.emitter().extract().to_string(), "one\ntwo");
}

#[test]
fn extend_if_error_passes_success_through() {
    let mut handler = Handler::new_with_buf();
    let r: Result<u32, ()> = handler.extend_if_error(Ok(7));
    assert_eq!(r, Ok(7));
    assert_eq!(handler.err_count(), 0);
}

#[test]
fn extend_if_error_records_failure() {
    let mut handler = Handler::new_with_buf();
    let r: Result<u32, ()> = handler.extend_if_error(Err(err("bad", 5)));
    assert_eq!(r, Err(()));
    assert_eq!(handler.err_count(), 1);
    assert_eq!(handler.emitter().extract().to_string(), "bad");
}

#[test]
fn extend_if_error_fails_success_after_errors() {
    let mut handler = Handler::new_with_buf();
    handler.emit_err(&err("earlier", 1));
    let r: Result<u32, ()> = handler.extend_if_error(Ok(7));
    assert_eq!(r, Err(()));
    assert_eq!(handler.err_count(), 1);
}

#[test]
fn with_returns_value_without_errors() {
    let r = Handler::with(|_h: &mut Handler<BufferEmitter>| Ok::<u32, LeoError>(42));
    assert_eq!(r.ok(), Some(42));
}

#[test]
fn with_two_diagnostics_and_success_fails_with_both() {
    let r = Handler::with(|h: &mut Handler<BufferEmitter>| {
        h.emit_err(&err("first diagnostic", 1));
        h.emit_err(&err("second diagnostic", 2));
        Ok::<u32, LeoError>(1)
    });
    match r {
        Ok(_) => panic!("expected a failure"),
        Err(buf) => {
            let errors = buf.into_inner();
            assert_eq!(errors.len(), 2);
            assert_eq!(errors[0].message, "first diagnostic");
            assert_eq!(errors[1].message, "second diagnostic");
        }
    }
}

#[test]
fn with_failure_appends_returned_error() {
    let r = Handler::with(|h: &mut Handler<BufferEmitter>| {
        h.emit_err(&err("warned", 1));
        Err::<u32, LeoError>(err("returned", 9))
    });
    match r {
        Ok(_) => panic!("expected a failure"),
        Err(buf) => assert_eq!(buf.to_string(), "warned\nreturned"),
    }
}

#[test]
fn leo_error_accessors() {
    let e = err("message text", 17);
    assert_eq!(e.to_string(), "message text");
    assert_eq!(e.exit_code(), 17);
    let c = e.clone();
    assert_eq!(c.message, "message text");
}

#[test]
fn err_buffer_clone_and_default() {
    let mut buf = ErrBuffer::default();
    buf.push(&err("kept", 1));
    let copy = buf.clone();
    buf.push(&err("later", 1));
    assert_eq!(copy.to_string(), "kept");
    assert_eq!(buf.to_string(), "kept\nlater");
    let emitter = BufferEmitter::default();
    assert_eq!(emitter.extract().into_inner().len(), 0);
}
