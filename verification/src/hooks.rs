//! The capabilities a run can be given: somewhere to send output, somewhere to get input from,
//! someone who watches the tape, and somewhere to send the trace of a debug run.

use vstd::prelude::*;
use crate::trace::TraceRow;

verus! {

/// Receives the bytes that `.` emits.
pub trait OutputSink {
    /// Takes the bytes of one `.`, or reports the error that kept them from being written.
    fn send(&self, bytes: &[u8]) -> Result<(), std::io::Error>;
}

/// Supplies the bytes that `,` reads.
pub trait InputProvider {
    /// The next byte, `None` at the end of the input, or the error that kept it from being read.
    fn read_byte(&self) -> Result<Option<u8>, std::io::Error>;
}

/// Is shown the tape after every instruction.
pub trait TapeObserver {
    /// `window` holds the cells from index `base` on; `ptr` is the current cell.
    fn observe(&self, ptr: usize, base: usize, window: &[u8]);
}

/// Receives the rows that a debug run traces.
pub trait TraceSink {
    /// Takes the row of one completed instruction.
    fn record(&self, row: &TraceRow);
}

/// A closure as a trace sink.
pub struct FnTraceSink<F: Fn(&TraceRow)> {
    f: F,
}

impl<F: Fn(&TraceRow)> FnTraceSink<F> {
    #[verifier::type_invariant]
    spec fn callable(self) -> bool {
        forall|row: &TraceRow| call_requires(self.f, (row,))
    }

    /// The closure that the sink hands its rows to.
    pub closed spec fn closure(self) -> F {
        self.f
    }

    /// Wraps a closure that can be called on any row.
    pub fn new(f: F) -> (sink: Self)
        requires
            forall|row: &TraceRow| call_requires(f, (row,)),
        ensures
            sink.closure() == f,
    {
        FnTraceSink { f }
    }
}

impl<F: Fn(&TraceRow)> TraceSink for FnTraceSink<F> {
    /// Calls the closure on the row.
    fn record(&self, row: &TraceRow)
        ensures
            call_ensures(self.closure(), (row,), ()),
    {
        proof {
            use_type_invariant(self);
        }
        (self.f)(row)
    }
}

/// A closure as an output sink that never fails.
pub struct FnSink<F: Fn(&[u8])> {
    f: F,
}

/// A closure as an input provider that never fails.
pub struct FnProvider<F: Fn() -> Option<u8>> {
    f: F,
}

/// A closure as a tape observer.
pub struct FnObserver<F: Fn(usize, usize, &[u8])> {
    f: F,
}

impl<F: Fn(&[u8])> FnSink<F> {
    #[verifier::type_invariant]
    spec fn callable(self) -> bool {
        forall|bytes: &[u8]| call_requires(self.f, (bytes,))
    }

    /// The closure that the sink hands its bytes to.
    pub closed spec fn closure(self) -> F {
        self.f
    }

    /// Wraps a closure that can be called on any bytes.
    pub fn new(f: F) -> (sink: Self)
        requires
            forall|bytes: &[u8]| call_requires(f, (bytes,)),
        ensures
            sink.closure() == f,
    {
        FnSink { f }
    }
}

impl<F: Fn(&[u8])> OutputSink for FnSink<F> {
    /// Calls the closure on the bytes and reports success.
    fn send(&self, bytes: &[u8]) -> (res: Result<(), std::io::Error>)
        ensures
            res is Ok,
            call_ensures(self.closure(), (bytes,), ()),
    {
        proof {
            use_type_invariant(self);
        }
        (self.f)(bytes);
        Ok(())
    }
}

impl<F: Fn() -> Option<u8>> FnProvider<F> {
    #[verifier::type_invariant]
    spec fn callable(self) -> bool {
        call_requires(self.f, ())
    }

    /// The closure that the provider asks for its bytes.
    pub closed spec fn closure(self) -> F {
        self.f
    }

    /// Wraps a closure that can always be called.
    pub fn new(f: F) -> (provider: Self)
        requires
            call_requires(f, ()),
        ensures
            provider.closure() == f,
    {
        FnProvider { f }
    }
}

impl<F: Fn() -> Option<u8>> InputProvider for FnProvider<F> {
    /// Calls the closure once and hands on its answer: a byte, or the end of the input.
    fn read_byte(&self) -> (res: Result<Option<u8>, std::io::Error>)
        ensures
            res matches Ok(answer) && call_ensures(self.closure(), (), answer),
    {
        proof {
            use_type_invariant(self);
        }
        Ok((self.f)())
    }
}

impl<F: Fn(usize, usize, &[u8])> FnObserver<F> {
    #[verifier::type_invariant]
    spec fn callable(self) -> bool {
        forall|ptr: usize, base: usize, window: &[u8]| call_requires(self.f, (ptr, base, window))
    }

    /// The closure that the observer shows the tape to.
    pub closed spec fn closure(self) -> F {
        self.f
    }

    /// Wraps a closure that can be called on any pointer and window.
    pub fn new(f: F) -> (observer: Self)
        requires
            forall|ptr: usize, base: usize, window: &[u8]| call_requires(f, (ptr, base, window)),
        ensures
            observer.closure() == f,
    {
        FnObserver { f }
    }
}

impl<F: Fn(usize, usize, &[u8])> TapeObserver for FnObserver<F> {
    /// Calls the closure on the pointer, the base and the window.
    fn observe(&self, ptr: usize, base: usize, window: &[u8])
        ensures
            call_ensures(self.closure(), (ptr, base, window), ()),
    {
        proof {
            use_type_invariant(self);
        }
        (self.f)(ptr, base, window)
    }
}

} // verus!
