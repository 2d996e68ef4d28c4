//! The duplex byte channel that the protocol codec runs over, and a scripted
//! in-memory channel that provably meets its contract.
use vstd::prelude::*;
use crate::errors::FlashError;

verus! {

/// A duplex byte channel with a mutable read timeout, as seen by the codec:
/// a half-duplex serial link configured 8-E-1 without flow control.
///
/// The channel is modelled by the bytes written so far (`sent`), the bytes
/// the far side will deliver in time (`incoming`), and the current read
/// timeout. A read consumes the next incoming byte and fails exactly when
/// none is left: a read timeout is the only failure the model knows, and the
/// only cancellation mechanism the protocol has. A driver for a real port
/// implements this trait outside the library; everything proved here holds
/// of any implementation that meets these contracts.
pub trait Transport: Sized {
    /// The bytes written into the channel so far. A driver outside the
    /// library leaves this model function at its default; nothing is proved
    /// about such an implementation.
    open spec fn sent(&self) -> Seq<u8> {
        Seq::empty()
    }

    /// The bytes the far side will still deliver within the read timeout.
    open spec fn incoming(&self) -> Seq<u8> {
        Seq::empty()
    }

    /// The current read timeout, in milliseconds.
    open spec fn timeout_ms(&self) -> u64 {
        0
    }

    /// Writes all of `data` into the channel.
    fn write_all(&mut self, data: &[u8]) -> (r: Result<(), FlashError>)
        ensures
            r is Ok,
            final(self).sent() == old(self).sent() + data@,
            final(self).incoming() == old(self).incoming(),
            final(self).timeout_ms() == old(self).timeout_ms(),
    ;

    /// Blocks for the next byte; times out if none arrives.
    fn read_byte(&mut self) -> (r: Result<u8, FlashError>)
        ensures
            old(self).incoming().len() >= 1 ==> r == Ok::<u8, FlashError>(
                old(self).incoming()[0],
            ) && final(self).incoming() == old(self).incoming().drop_first(),
            old(self).incoming().len() == 0 ==> r == Err::<u8, FlashError>(FlashError::Timeout)
                && final(self).incoming() == old(self).incoming(),
            final(self).sent() == old(self).sent(),
            final(self).timeout_ms() == old(self).timeout_ms(),
    ;

    /// Blocks for exactly `n` bytes; times out if fewer arrive.
    fn read_exact(&mut self, n: usize) -> (r: Result<Vec<u8>, FlashError>)
        ensures
            old(self).incoming().len() >= n ==> (r matches Ok(v) && v@ == old(
                self,
            ).incoming().take(n as int) && final(self).incoming() == old(self).incoming().skip(
                n as int,
            )),
            old(self).incoming().len() < n ==> r == Err::<Vec<u8>, FlashError>(FlashError::Timeout)
                && final(self).incoming() == old(self).incoming(),
            final(self).sent() == old(self).sent(),
            final(self).timeout_ms() == old(self).timeout_ms(),
    ;

    /// Changes the read timeout.
    fn set_read_timeout(&mut self, ms: u64) -> (r: Result<(), FlashError>)
        ensures
            r is Ok,
            final(self).timeout_ms() == ms,
            final(self).sent() == old(self).sent(),
            final(self).incoming() == old(self).incoming(),
    ;

    /// Waits the fixed settle delay of the protocol's timing contract without
    /// touching the channel.
    fn pause(&mut self)
        ensures
            final(self).sent() == old(self).sent(),
            final(self).incoming() == old(self).incoming(),
            final(self).timeout_ms() == old(self).timeout_ms(),
    ;
}

/// An in-memory channel that answers reads from a fixed script and records
/// every write: the simulated target used by the tests, and the proof that
/// the `Transport` contract can be met.
pub struct SimTransport {
    /// All bytes the simulated far side will ever deliver.
    pub script: Vec<u8>,
    /// How many script bytes have been consumed.
    pub cursor: usize,
    /// Every byte written into the channel, in order.
    pub outbox: Vec<u8>,
    /// The current read timeout in milliseconds.
    pub timeout: u64,
}

impl SimTransport {
    /// A fresh channel that will deliver `script`, with the 1-second read
    /// timeout a newly opened port starts with.
    pub fn new(script: Vec<u8>) -> (t: SimTransport)
        ensures
            t.incoming() == script@,
            t.sent() == Seq::<u8>::empty(),
            t.timeout_ms() == 1000u64,
    {
        let t = SimTransport { script, cursor: 0, outbox: Vec::new(), timeout: 1000 };
        proof {
            assert(t.script@.skip(0) =~= t.script@);
        }
        t
    }
}

impl Transport for SimTransport {
    open spec fn sent(&self) -> Seq<u8> {
        self.outbox@
    }

    open spec fn incoming(&self) -> Seq<u8> {
        if self.cursor <= self.script@.len() {
            self.script@.skip(self.cursor as int)
        } else {
            Seq::empty()
        }
    }

    open spec fn timeout_ms(&self) -> u64 {
        self.timeout
    }

    fn write_all(&mut self, data: &[u8]) -> (r: Result<(), FlashError>) {
        let mut i: usize = 0;
        proof {
            assert(old(self).outbox@ + data@.take(0) =~= old(self).outbox@);
        }
        while i < data.len()
            invariant
                i <= data@.len(),
                self.outbox@ == old(self).outbox@ + data@.take(i as int),
                self.script == old(self).script,
                self.cursor == old(self).cursor,
                self.timeout == old(self).timeout,
            decreases data@.len() - i,
        {
            proof {
                assert(data@.take(i as int + 1) =~= data@.take(i as int).push(data@[i as int]));
            }
            self.outbox.push(data[i]);
            i = i + 1;
        }
        proof {
            assert(data@.take(data@.len() as int) =~= data@);
        }
        Ok(())
    }

    fn read_byte(&mut self) -> (r: Result<u8, FlashError>) {
        if self.cursor < self.script.len() {
            let b = self.script[self.cursor];
            self.cursor = self.cursor + 1;
            proof {
                assert(old(self).script@.skip(old(self).cursor as int).drop_first() =~= self.script@.skip(
                    self.cursor as int,
                ));
                assert(old(self).script@.skip(old(self).cursor as int)[0] == b);
            }
            Ok(b)
        } else {
            Err(FlashError::Timeout)
        }
    }

    fn read_exact(&mut self, n: usize) -> (r: Result<Vec<u8>, FlashError>) {
        if n == 0 {
            proof {
                assert(old(self).incoming().take(0) =~= Seq::<u8>::empty());
                assert(old(self).incoming().skip(0) =~= old(self).incoming());
            }
            return Ok(Vec::new());
        }
        if self.cursor <= self.script.len() && self.script.len() - self.cursor >= n {
            let ghost start = self.cursor as int;
            let mut out: Vec<u8> = Vec::new();
            let mut i: usize = 0;
            proof {
                assert(out@ =~= old(self).incoming().take(0));
            }
            while i < n
                invariant
                    i <= n,
                    0 <= start,
                    start + n <= self.script@.len(),
                    self.cursor as int == start + i,
                    out@ == old(self).incoming().take(i as int),
                    self.script == old(self).script,
                    self.outbox == old(self).outbox,
                    self.timeout == old(self).timeout,
                    old(self).cursor == start,
                    old(self).incoming() == self.script@.skip(start),
                decreases n - i,
            {
                proof {
                    assert(old(self).incoming().take(i as int + 1) =~= old(self).incoming().take(
                        i as int,
                    ).push(self.script@[start + i]));
                }
                let total = self.script.len();
                out.push(self.script[self.cursor]);
                assert(self.cursor < total);
                self.cursor = self.cursor + 1;
                i = i + 1;
            }
            proof {
                assert(self.script@.skip(start + n) =~= old(self).incoming().skip(n as int));
            }
            Ok(out)
        } else {
            Err(FlashError::Timeout)
        }
    }

    fn set_read_timeout(&mut self, ms: u64) -> (r: Result<(), FlashError>) {
        self.timeout = ms;
        Ok(())
    }

    fn pause(&mut self) {
    }
}

} // verus!
