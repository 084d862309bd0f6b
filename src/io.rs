//! A byte sink for targets without `std::io`.
use vstd::prelude::*;

verus! {

/// Why writing to a sink failed.
#[derive(Clone, Copy, PartialEq, Eq, Structural, Debug)]
pub enum WriteError {
    /// The sink accepted no more bytes before the whole buffer was written.
    WriteAllEof,
}

/// A sink of bytes.
pub trait Write {
    /// Everything the sink has accepted so far.
    spec fn sink_bytes(&self) -> Seq<u8>;

    /// Writes a prefix of `buf` and says how long it was; a failed write
    /// writes nothing.
    fn write(&mut self, buf: &[u8]) -> (r: Result<usize, WriteError>)
        ensures
            r matches Ok(n) ==> n <= buf@.len() && final(self).sink_bytes() == old(
                self,
            ).sink_bytes() + buf@.take(n as int),
            r is Err ==> final(self).sink_bytes() == old(self).sink_bytes(),
    ;

    /// Writes all of `buf`, or fails having written a prefix of it.
    fn write_all(&mut self, buf: &[u8]) -> (r: Result<(), WriteError>)
        ensures
            r is Ok ==> final(self).sink_bytes() == old(self).sink_bytes() + buf@,
            r is Err ==> exists|k: int|
                0 <= k < buf@.len() && final(self).sink_bytes() == old(self).sink_bytes()
                    + buf@.take(k),
    {
        let mut rest = buf;
        let ghost done: int = 0;
        while rest.len() > 0
            invariant
                0 <= done <= buf@.len(),
                rest@ == buf@.skip(done),
                self.sink_bytes() == old(self).sink_bytes() + buf@.take(done),
            decreases rest@.len(),
        {
            match self.write(rest) {
                Ok(0) => {
                    return Err(WriteError::WriteAllEof);
                },
                Ok(n) => {
                    proof {
                        assert(buf@.take(done) + rest@.take(n as int) =~= buf@.take(done + n));
                        done = done + n;
                    }
                    let (_, tail) = rest.split_at(n);
                    rest = tail;
                    assert(rest@ =~= buf@.skip(done));
                },
                Err(e) => {
                    return Err(e);
                },
            }
        }
        assert(buf@.take(done) =~= buf@);
        Ok(())
    }
}

impl Write for Vec<u8> {
    open spec fn sink_bytes(&self) -> Seq<u8> {
        self@
    }

    /// Appends all of `buf`.
    fn write(&mut self, buf: &[u8]) -> (r: Result<usize, WriteError>) {
        let mut i: usize = 0;
        while i < buf.len()
            invariant
                i <= buf@.len(),
                self@ == old(self)@ + buf@.take(i as int),
            decreases buf@.len() - i,
        {
            self.push(buf[i]);
            i = i + 1;
            assert(self@ =~= old(self)@ + buf@.take(i as int));
        }
        assert(buf@.take(buf@.len() as int) =~= buf@);
        Ok(buf.len())
    }
}

} // verus!
