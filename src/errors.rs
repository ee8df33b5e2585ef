//! Diagnostic handling shared by the compiler passes: sinks that receive
//! errors, and a handler that counts them.

use vstd::prelude::*;

verus! {

/// A compiler diagnostic: its rendered message and the process exit status
/// that its classification calls for.
pub struct LeoError {
    pub message: String,
    pub exit_code: i32,
}

impl Clone for LeoError {
    fn clone(&self) -> (r: Self)
        ensures
            r == *self,
    {
        LeoError { message: self.message.clone(), exit_code: self.exit_code }
    }
}

impl LeoError {
    pub fn new(message: String, exit_code: i32) -> (r: Self)
        ensures
            r.message == message,
            r.exit_code == exit_code,
    {
        LeoError { message, exit_code }
    }

    /// The rendered message.
    pub fn to_string(&self) -> (r: String)
        ensures
            r@ == self.message@,
    {
        self.message.clone()
    }

    /// The exit status a fatal emission of this error ends the process with.
    pub fn exit_code(&self) -> (r: i32)
        ensures
            r == self.exit_code,
    {
        self.exit_code
    }
}

/// Types that are sinks for compiler errors.
pub trait Emitter {
    /// Whether this sink keeps the errors it receives, as `emitted` tells.
    /// A sink that passes them on and keeps nothing promises nothing more.
    open spec fn keeps_record(&self) -> bool {
        false
    }

    /// The errors this sink has kept, in order.
    open spec fn emitted(&self) -> Seq<LeoError> {
        Seq::empty()
    }

    /// Emit the error `err`.
    fn emit_err(&mut self, err: &LeoError)
        ensures
            final(self).keeps_record() == old(self).keeps_record(),
            old(self).keeps_record() ==> final(self).emitted() == old(self).emitted().push(*err),
    ;
}

/// The messages of `errs`, one per line.
pub open spec fn joined_messages(errs: Seq<LeoError>) -> Seq<char>
    decreases errs.len(),
{
    if errs.len() == 0 {
        Seq::empty()
    } else if errs.len() == 1 {
        errs[0].message@
    } else {
        joined_messages(errs.drop_last()) + seq!['\n'] + errs.last().message@
    }
}

/// A buffer of `LeoError`s.
pub struct ErrBuffer(pub Vec<LeoError>);

impl View for ErrBuffer {
    type V = Seq<LeoError>;

    open spec fn view(&self) -> Seq<LeoError> {
        self.0@
    }
}

impl ErrBuffer {
    /// An empty buffer.
    pub fn new() -> (r: Self)
        ensures
            r@ == Seq::<LeoError>::empty(),
    {
        ErrBuffer(Vec::new())
    }

    /// Push `err` to the buffer.
    pub fn push(&mut self, err: &LeoError)
        ensures
            final(self)@ == old(self)@.push(*err),
    {
        self.0.push(err.clone());
    }

    /// Extract the underlying list of errors.
    pub fn into_inner(self) -> (r: Vec<LeoError>)
        ensures
            r@ == self@,
    {
        self.0
    }

    /// A copy of this buffer.
    pub fn duplicate(&self) -> (r: Self)
        ensures
            r@ == self@,
    {
        let mut out: Vec<LeoError> = Vec::new();
        let mut i: usize = 0;
        while i < self.0.len()
            invariant
                i <= self.0.len(),
                out@ == self@.subrange(0, i as int),
            decreases self.0.len() - i,
        {
            out.push(self.0[i].clone());
            i = i + 1;
            assert(out@ =~= self@.subrange(0, i as int));
        }
        assert(out@ =~= self@);
        ErrBuffer(out)
    }

    /// Returns all errors collected, concatenated, in this emitter.
    pub fn to_string(&self) -> (r: String)
        ensures
            r@ == joined_messages(self@),
    {
        let mut out = String::new();
        let mut i: usize = 0;
        while i < self.0.len()
            invariant
                i <= self.0.len(),
                out@ == joined_messages(self@.subrange(0, i as int)),
            decreases self.0.len() - i,
        {
            let ghost prefix = self@.subrange(0, i as int);
            let ghost next = self@.subrange(0, i + 1);
            assert(next.drop_last() =~= prefix);
            if i > 0 {
                out.append("\n");
                proof {
                    reveal_strlit("\n");
                }
            }
            let msg = self.0[i].to_string();
            out.append(msg.as_str());
            i = i + 1;
            assert(out@ =~= joined_messages(next));
        }
        assert(self@.subrange(0, self@.len() as int) =~= self@);
        out
    }
}

impl Clone for ErrBuffer {
    fn clone(&self) -> (r: Self)
        ensures
            r@ == self@,
    {
        self.duplicate()
    }
}

impl Default for ErrBuffer {
    fn default() -> (r: Self)
        ensures
            r@ == Seq::<LeoError>::empty(),
    {
        ErrBuffer::new()
    }
}

impl Emitter for ErrBuffer {
    open spec fn keeps_record(&self) -> bool {
        true
    }

    open spec fn emitted(&self) -> Seq<LeoError> {
        self@
    }

    fn emit_err(&mut self, err: &LeoError) {
        self.push(err);
    }
}

/// An `Emitter` that collects into a list.
pub struct BufferEmitter(pub ErrBuffer);

impl BufferEmitter {
    /// Returns a new buffered emitter.
    pub fn new() -> (r: Self)
        ensures
            r.emitted() == Seq::<LeoError>::empty(),
    {
        BufferEmitter(ErrBuffer::new())
    }

    /// Extracts all the errors collected in this emitter.
    pub fn extract(&self) -> (r: ErrBuffer)
        ensures
            r@ == self.emitted(),
    {
        self.0.duplicate()
    }
}

impl Default for BufferEmitter {
    fn default() -> (r: Self)
        ensures
            r.emitted() == Seq::<LeoError>::empty(),
    {
        BufferEmitter::new()
    }
}

impl Emitter for BufferEmitter {
    open spec fn keeps_record(&self) -> bool {
        true
    }

    open spec fn emitted(&self) -> Seq<LeoError> {
        self.0@
    }

    fn emit_err(&mut self, err: &LeoError) {
        self.0.push(err);
    }
}

/// The error count after one more emission: it saturates at the largest `usize`.
pub open spec fn bumped(count: nat) -> nat {
    if count >= usize::MAX {
        usize::MAX as nat
    } else {
        count + 1
    }
}

/// A handler deals with errors and other compiler output: it forwards each
/// error to its emitter and keeps a saturating count of them.
pub struct Handler<E: Emitter> {
    count: usize,
    emitter: E,
}

impl<E: Emitter> Handler<E> {
    /// Number of errors emitted thus far.
    pub closed spec fn count(&self) -> nat {
        self.count as nat
    }

    /// Whether the emitter keeps the errors it receives.
    pub closed spec fn keeps_record(&self) -> bool {
        self.emitter.keeps_record()
    }

    /// The errors the emitter kept, in order.
    pub closed spec fn emitted(&self) -> Seq<LeoError> {
        self.emitter.emitted()
    }

    /// Construct a `Handler` using the given `emitter`.
    pub fn new(emitter: E) -> (r: Self)
        ensures
            r.count() == 0,
            r.keeps_record() == emitter.keeps_record(),
            r.emitted() == emitter.emitted(),
    {
        Handler { count: 0, emitter }
    }

    /// The sink this handler forwards to.
    pub fn emitter(&self) -> (r: &E)
        ensures
            r.keeps_record() == self.keeps_record(),
            r.emitted() == self.emitted(),
    {
        &self.emitter
    }

    /// Emit the error `err`.
    pub fn emit_err(&mut self, err: &LeoError)
        ensures
            final(self).keeps_record() == old(self).keeps_record(),
            old(self).keeps_record() ==> final(self).emitted() == old(self).emitted().push(*err),
            final(self).count() == bumped(old(self).count()),
    {
        self.count = self.count.saturating_add(1);
        self.emitter.emit_err(err);
    }

    /// The number of errors thus far.
    pub fn err_count(&self) -> (r: usize)
        ensures
            r == self.count(),
    {
        self.count
    }

    /// Did we have any errors thus far?
    pub fn had_errors(&self) -> (r: bool)
        ensures
            r == (self.count() > 0),
    {
        self.err_count() > 0
    }

    /// Extend handler with `error` given `res = Err(error)`; a success after
    /// errors were recorded counts as a failure.
    pub fn extend_if_error<T>(&mut self, res: Result<T, LeoError>) -> (r: Result<T, ()>)
        ensures
            final(self).keeps_record() == old(self).keeps_record(),
            match res {
                Ok(x) => {
                    &&& final(self).emitted() == old(self).emitted()
                    &&& final(self).count() == old(self).count()
                    &&& r == if old(self).count() > 0 { Err::<T, ()>(()) } else { Ok(x) }
                },
                Err(e) => {
                    &&& old(self).keeps_record() ==> final(self).emitted() == old(self).emitted().push(e)
                    &&& final(self).count() == bumped(old(self).count())
                    &&& r == Err::<T, ()>(())
                },
            },
    {
        match res {
            Ok(x) => {
                if self.had_errors() {
                    Err(())
                } else {
                    Ok(x)
                }
            },
            Err(e) => {
                self.emit_err(&e);
                Err(())
            },
        }
    }
}

impl Handler<BufferEmitter> {
    /// Construct a `Handler` that collects its errors into a buffer.
    pub fn new_with_buf() -> (r: Self)
        ensures
            r.count() == 0,
            r.keeps_record(),
            r.emitted() == Seq::<LeoError>::empty(),
    {
        Handler::new(BufferEmitter::new())
    }

    /// Runs `logic` with a fresh buffering handler. The result is the value
    /// `logic` returned when it succeeded and recorded no error; otherwise it
    /// is every error recorded, in order, with the returned one last.
    pub fn with<T, F: FnOnce(&mut Handler<BufferEmitter>) -> Result<T, LeoError>>(logic: F) -> (r:
        Result<T, ErrBuffer>)
        requires
            forall|h: &mut Handler<BufferEmitter>| logic.requires((h,)),
        ensures
            exists|h: &mut Handler<BufferEmitter>, res: Result<T, LeoError>|
                {
                    &&& h.count() == 0
                    &&& h.keeps_record()
                    &&& h.emitted() == Seq::<LeoError>::empty()
                    &&& logic.ensures((h,), res)
                    &&& match r {
                        Ok(x) => res == Ok::<T, LeoError>(x) && final(h).count() == 0,
                        Err(b) => match res {
                            Ok(_) => final(h).count() > 0 && b@ == final(h).emitted(),
                            Err(e) => b@ == final(h).emitted().push(e),
                        },
                    }
                },
    {
        let mut handler = Handler::new_with_buf();
        let res = logic(&mut handler);
        match handler.extend_if_error(res) {
            Ok(x) => Ok(x),
            Err(()) => Err(handler.emitter().extract()),
        }
    }
}

} // verus!
