//! Output sinks: destinations that accept runs of bytes and may fail.
use vstd::prelude::*;

verus! {

#[verifier::external_type_specification]
#[verifier::external_body]
pub struct ExIoError(std::io::Error);

/// A destination for rendered bytes.
///
/// A sink is modelled by the bytes it has accepted so far. A successful
/// `write_all` appends the whole run; a failed one accepts nothing further.
pub trait Sink {
    /// The bytes accepted so far.
    spec fn written(&self) -> Seq<u8>;

    /// Whether every write to this sink succeeds.
    spec fn infallible(&self) -> bool;

    /// Whether this sink refuses every write from now on.
    spec fn exhausted(&self) -> bool;

    /// The error of the latest write, if that write failed.
    spec fn last_failure(&self) -> Option<std::io::Error>;

    /// Whether this sink keeps count of the writes made to it.
    spec fn counts_writes(&self) -> bool;

    /// How many writes were made, where the sink keeps count.
    spec fn writes(&self) -> nat;

    /// How many writes have failed.
    spec fn fails(&self) -> nat;

    /// How many flushes were asked for, where the sink keeps count.
    spec fn flushes(&self) -> nat;

    fn write_all(&mut self, bytes: &[u8]) -> (r: Result<(), std::io::Error>)
        ensures
            old(self).infallible() ==> r is Ok && final(self).infallible(),
            old(self).exhausted() ==> r is Err && final(self).exhausted(),
            r is Ok ==> final(self).written() == old(self).written() + bytes@,
            r is Err ==> final(self).written() == old(self).written(),
            r is Ok ==> final(self).last_failure() is None,
            r is Err ==> final(self).last_failure() == Some(r->Err_0),
            old(self).counts_writes() ==> final(self).counts_writes() && final(self).writes()
                == old(self).writes() + 1,
            r is Ok ==> final(self).fails() == old(self).fails(),
            r is Err ==> final(self).fails() == old(self).fails() + 1,
            final(self).flushes() == old(self).flushes(),
    ;

    /// Pushes buffered output on to its destination; the model is unchanged.
    fn flush(&mut self) -> (r: Result<(), std::io::Error>)
        ensures
            old(self).infallible() ==> r is Ok,
            final(self).written() == old(self).written(),
            final(self).infallible() == old(self).infallible(),
            final(self).exhausted() == old(self).exhausted(),
            final(self).last_failure() == old(self).last_failure(),
            final(self).counts_writes() == old(self).counts_writes(),
            final(self).writes() == old(self).writes(),
            final(self).fails() == old(self).fails(),
            old(self).counts_writes() ==> final(self).flushes() == old(self).flushes() + 1,
    ;
}

/// An in-memory buffer: it never fails.
impl Sink for Vec<u8> {
    open spec fn written(&self) -> Seq<u8> {
        self@
    }

    open spec fn infallible(&self) -> bool {
        true
    }

    open spec fn exhausted(&self) -> bool {
        false
    }

    open spec fn last_failure(&self) -> Option<std::io::Error> {
        None
    }

    open spec fn counts_writes(&self) -> bool {
        false
    }

    open spec fn writes(&self) -> nat {
        0
    }

    open spec fn fails(&self) -> nat {
        0
    }

    open spec fn flushes(&self) -> nat {
        0
    }

    fn flush(&mut self) -> (r: Result<(), std::io::Error>) {
        Ok(())
    }

    fn write_all(&mut self, bytes: &[u8]) -> (r: Result<(), std::io::Error>)
        ensures
            r is Ok,
    {
        let ghost start = self@;
        let mut i: usize = 0;
        while i < bytes.len()
            invariant
                i <= bytes@.len(),
                self@ == start + bytes@.take(i as int),
            decreases bytes@.len() - i,
        {
            self.push(bytes[i]);
            i = i + 1;
            assert(bytes@.take(i as int) == bytes@.take(i - 1) + seq![bytes@[i - 1]]);
        }
        assert(bytes@.take(bytes@.len() as int) == bytes@);
        Ok(())
    }
}

/// Relies on std::io::Error::new: it builds an error of the given kind.
#[verifier::external_body]
fn limit_reached() -> std::io::Error {
    std::io::Error::new(std::io::ErrorKind::WriteZero, "write limit reached")
}

/// An in-memory buffer with a budget of writes: it accepts that many writes
/// and refuses every later one.
pub struct Limited {
    buffer: Vec<u8>,
    writes_left: usize,
    failure: Ghost<Option<std::io::Error>>,
    attempts: Ghost<nat>,
    refusals: Ghost<nat>,
    flush_calls: Ghost<nat>,
}

impl Limited {
    /// How many more writes will be accepted.
    pub closed spec fn writes_left(&self) -> nat {
        self.writes_left as nat
    }

    pub fn new(writes: usize) -> (r: Self)
        ensures
            r.written() == Seq::<u8>::empty(),
            r.writes_left() == writes,
            r.last_failure() is None,
            r.writes() == 0,
            r.fails() == 0,
            r.flushes() == 0,
    {
        Limited {
            buffer: Vec::new(),
            writes_left: writes,
            failure: Ghost(None),
            attempts: Ghost(0),
            refusals: Ghost(0),
            flush_calls: Ghost(0),
        }
    }

    pub fn contents(&self) -> (r: &Vec<u8>)
        ensures
            r@ == self.written(),
    {
        &self.buffer
    }

    pub fn into_inner(self) -> (r: Vec<u8>)
        ensures
            r@ == self.written(),
    {
        self.buffer
    }
}

impl Sink for Limited {
    closed spec fn written(&self) -> Seq<u8> {
        self.buffer@
    }

    open spec fn infallible(&self) -> bool {
        false
    }

    open spec fn exhausted(&self) -> bool {
        self.writes_left() == 0
    }

    closed spec fn last_failure(&self) -> Option<std::io::Error> {
        self.failure@
    }

    open spec fn counts_writes(&self) -> bool {
        true
    }

    closed spec fn writes(&self) -> nat {
        self.attempts@
    }

    closed spec fn fails(&self) -> nat {
        self.refusals@
    }

    closed spec fn flushes(&self) -> nat {
        self.flush_calls@
    }

    fn flush(&mut self) -> (r: Result<(), std::io::Error>) {
        self.flush_calls = Ghost(self.flush_calls@ + 1);
        Ok(())
    }

    fn write_all(&mut self, bytes: &[u8]) -> (r: Result<(), std::io::Error>)
        ensures
            r is Ok <==> old(self).writes_left() > 0,
            r is Ok ==> final(self).writes_left() == old(self).writes_left() - 1,
            r is Err ==> final(self).writes_left() == 0,
    {
        self.attempts = Ghost(self.attempts@ + 1);
        if self.writes_left == 0 {
            let e = limit_reached();
            self.failure = Ghost(Some(e));
            self.refusals = Ghost(self.refusals@ + 1);
            return Err(e);
        }
        self.writes_left = self.writes_left - 1;
        self.failure = Ghost(None);
        let r = self.buffer.write_all(bytes);
        r
    }
}

} // verus!
