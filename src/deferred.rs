//! Deferred fragments: content produced by a caller-supplied function at the
//! moment it is rendered.
use vstd::prelude::*;

use crate::error::RenderError;
use crate::render::{write_bytes, Render};
use crate::sink::Sink;

verus! {

/// Writes what a fragment function returned: its bytes verbatim, or, on an
/// error of its own, nothing, passing the error on unchanged.
pub fn write_produced<W: Sink>(produced: Result<Vec<u8>, RenderError>, writer: &mut W) -> (r: Result<
    (),
    RenderError,
>)
    ensures
        produced_written(produced, *old(writer), *final(writer), r),
{
    match produced {
        Ok(bytes) => write_bytes(bytes.as_slice(), writer),
        Err(e) => Err(e),
    }
}

/// What `write_produced` does with the sink for each value the function may
/// return: bytes are one write, an error of the function writes nothing.
pub open spec fn produced_written<W: Sink>(
    produced: Result<Vec<u8>, RenderError>,
    before: W,
    after: W,
    r: Result<(), RenderError>,
) -> bool {
    &&& after.flushes() == before.flushes()
    &&& before.infallible() ==> after.infallible()
    &&& before.exhausted() ==> after.exhausted() && after.written() == before.written()
    &&& match produced {
        Ok(bytes) => {
            &&& before.exhausted() ==> r is Err
            &&& before.infallible() ==> r is Ok
            &&& r is Ok ==> after.written() == before.written() + bytes@ && after.fails()
                == before.fails() && after.last_failure() is None
            &&& r is Err ==> r->Err_0 is IoError && after.last_failure() == Some(r->Err_0->IoError_0)
                && after.written() == before.written() && after.fails() == before.fails() + 1
            &&& before.counts_writes() ==> after.counts_writes() && after.writes() == before.writes() + 1
        },
        Err(e) => {
            &&& r == Err::<(), RenderError>(e)
            &&& after == before
        },
    }
}

/// A fragment whose bytes come from a function called at render time. The
/// bytes are written verbatim; an error of the function is passed on.
pub struct DynRender<F: Fn() -> Result<Vec<u8>, RenderError>> {
    f: F,
}

impl<F: Fn() -> Result<Vec<u8>, RenderError>> DynRender<F> {
    #[verifier::type_invariant]
    spec fn well_formed(&self) -> bool {
        self.f.requires(())
    }

    /// The function that produces the bytes.
    pub closed spec fn producer(&self) -> F {
        self.f
    }
}

/// Builds a deferred fragment from a function that produces its bytes. The
/// function is not called until the fragment is rendered.
pub fn new<F: Fn() -> Result<Vec<u8>, RenderError>>(f: F) -> (r: DynRender<F>)
    requires
        f.requires(()),
    ensures
        r.producer() == f,
{
    DynRender { f }
}

impl<F: Fn() -> Result<Vec<u8>, RenderError>> Render for DynRender<F> {
    /// The bytes are known only once the function runs.
    open spec fn text(&self) -> Seq<u8> {
        Seq::empty()
    }

    open spec fn fixed(&self) -> bool {
        false
    }

    /// The function's own errors are passed on as they are.
    open spec fn sink_only(&self) -> bool {
        false
    }

    /// The function never reports an error.
    open spec fn succeeds(&self) -> bool {
        forall|r: Result<Vec<u8>, RenderError>| #[trigger] self.producer().ensures((), r) ==> r is Ok
    }

    /// The function is called once, and what it returned is written as
    /// `write_produced` writes it.
    fn render<W: Sink>(self, writer: &mut W) -> (r: Result<(), RenderError>)
        ensures
            exists|produced: Result<Vec<u8>, RenderError>|
                #[trigger] self.producer().ensures((), produced) && produced_written(
                    produced,
                    *old(writer),
                    *final(writer),
                    r,
                ),
    {
        proof {
            use_type_invariant(&self);
        }
        let produced = (self.f)();
        let ghost p = produced;
        let r = write_produced(produced, writer);
        assert(self.producer().ensures((), p));
        r
    }
}

} // verus!
