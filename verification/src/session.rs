//! Opening a channel to the target: the connector, the bounded handshake
//! retry, and the reset pulse.
use vstd::prelude::*;
use crate::codec::hello;
use crate::errors::{CommandKind, FlashError};
use crate::gpio::GpioLine;
use crate::transport::{SimTransport, Transport};
use crate::wire::{ACK, HELLO_BYTE, ack_within, lemma_ack_within_found, lemma_ack_within_none};

verus! {

/// How many handshake attempts a connect makes before giving up.
pub const HANDSHAKE_ATTEMPTS: u32 = 10;

/// The read timeout, in milliseconds, that a freshly opened channel starts
/// with.
pub const INITIAL_TIMEOUT_MS: u64 = 1000;

/// The widened read timeout, in milliseconds, set once the handshake
/// succeeds, so that slow erase and write operations can complete.
pub const SESSION_TIMEOUT_MS: u64 = 20000;

/// Opens raw channels to the target with the fixed serial parameters: 8
/// data bits, even parity, one stop bit, no flow control, and the initial
/// 1-second read timeout.
///
/// The model counts how many channels have ever been opened: the erase
/// recovery of a flash run promises to reconnect exactly once, and that
/// count is what the promise is stated over. A real implementation opens a
/// serial port and lives outside the library.
pub trait Connector: Sized {
    /// The kind of channel this connector opens.
    type Port: Transport;

    /// How many channels this connector has opened or tried to open. A
    /// connector outside the library leaves this model function at its
    /// default; nothing is proved about such an implementation.
    open spec fn opens(&self) -> nat {
        0
    }

    /// Opens a fresh raw channel; no handshake has happened on it yet.
    fn open_raw(&mut self, port_name: &str, baud_rate: u32) -> (r: Result<Self::Port, FlashError>)
        ensures
            final(self).opens() == old(self).opens() + 1,
            r matches Ok(p) ==> p.sent() == Seq::<u8>::empty() && p.timeout_ms()
                == INITIAL_TIMEOUT_MS,
    ;
}

/// A connector that hands out scripted in-memory channels: the simulated
/// target of the tests. The last script in `scripts` backs the next channel
/// opened; once they run out, opening fails.
pub struct SimConnector {
    /// The scripts of the channels still to be opened, served from the end.
    pub scripts: Vec<Vec<u8>>,
    /// How many channels have been opened or tried.
    pub opened: Ghost<nat>,
}

impl SimConnector {
    /// A connector that will serve the given scripts, last first.
    pub fn new(scripts: Vec<Vec<u8>>) -> (c: SimConnector)
        ensures
            c.scripts == scripts,
            c.opens() == 0,
    {
        SimConnector { scripts, opened: Ghost(0) }
    }
}

impl Connector for SimConnector {
    type Port = SimTransport;

    open spec fn opens(&self) -> nat {
        self.opened@
    }

    fn open_raw(&mut self, port_name: &str, baud_rate: u32) -> (r: Result<
        SimTransport,
        FlashError,
    >) {
        self.opened = Ghost(self.opened@ + 1);
        match self.scripts.pop() {
            Some(script) => Ok(SimTransport::new(script)),
            None => Err(FlashError::Io),
        }
    }
}

/// Pulses the reset line: drives it high, waits the settle delay, drives it
/// low, waits again. Both attempts are recorded on the line even when one
/// fails; the pulse is complete exactly when the call succeeds.
pub fn toggle_reset<G: GpioLine>(gpio_reset: &mut G) -> (r: Result<(), FlashError>)
    ensures
        r is Ok ==> final(gpio_reset).driven() == old(gpio_reset).driven() + seq![1u8, 0u8],
        final(gpio_reset).driven() == old(gpio_reset).driven() + seq![1u8] || final(gpio_reset).driven() == old(gpio_reset).driven() + seq![1u8, 0u8],
{
    proof {
        assert(old(gpio_reset).driven().push(1u8) =~= old(gpio_reset).driven() + seq![1u8]);
        assert(old(gpio_reset).driven().push(1u8).push(0u8) =~= old(gpio_reset).driven() + seq![
            1u8,
            0u8,
        ]);
    }
    match gpio_reset.set_value(1) {
        Ok(()) => {},
        Err(e) => {
            return Err(e);
        },
    }
    gpio_reset.settle();
    match gpio_reset.set_value(0) {
        Ok(()) => {},
        Err(e) => {
            return Err(e);
        },
    }
    gpio_reset.settle();
    Ok(())
}

/// Attempts the single-byte handshake up to ten times, pausing between
/// attempts, and widens the read timeout once the target acknowledges.
///
/// Succeeds exactly when one of the first ten deliverable response bytes
/// acknowledges; if none does, the failure of the tenth attempt is
/// surfaced: the byte the tenth attempt saw, or a timeout if the target
/// went quiet before then.
pub fn handshake<T: Transport>(port: &mut T) -> (r: Result<(), FlashError>)
    ensures
        ({
            let s = old(port).incoming();
            &&& (r is Ok <==> ack_within(s, HANDSHAKE_ATTEMPTS as int))
            &&& (r is Ok ==> final(port).timeout_ms() == SESSION_TIMEOUT_MS)
            &&& (r is Ok ==> exists|k: int|
                0 <= k < HANDSHAKE_ATTEMPTS && k < s.len() && s[k] == ACK && (forall|j: int|
                    0 <= j < k ==> s[j] != ACK) && final(port).incoming() == s.skip(k + 1) && final(port).sent() == old(port).sent() + Seq::new((k + 1) as nat, |i: int| HELLO_BYTE))
            &&& (!ack_within(s, HANDSHAKE_ATTEMPTS as int) ==> final(port).timeout_ms() == old(port).timeout_ms() && final(port).sent() == old(port).sent() + Seq::new(
                HANDSHAKE_ATTEMPTS as nat,
                |i: int| HELLO_BYTE,
            ) && (s.len() >= HANDSHAKE_ATTEMPTS ==> r == Err::<(), FlashError>(
                FlashError::Protocol {
                    command: CommandKind::Hello,
                    byte: s[HANDSHAKE_ATTEMPTS - 1],
                },
            )) && (s.len() < HANDSHAKE_ATTEMPTS ==> r == Err::<(), FlashError>(
                FlashError::Timeout,
            )))
        }),
{
    let ghost s = old(port).incoming();
    let mut attempt: u32 = 0;
    let mut last_err = FlashError::Timeout;
    proof {
        assert(s.skip(0) =~= s);
        assert(old(port).sent() + Seq::new(0nat, |i: int| HELLO_BYTE) =~= old(port).sent());
    }
    while attempt < HANDSHAKE_ATTEMPTS
        invariant
            attempt <= HANDSHAKE_ATTEMPTS,
            s == old(port).incoming(),
            forall|j: int| 0 <= j < attempt && j < s.len() ==> s[j] != ACK,
            port.incoming() == s.skip(
                if attempt as int <= s.len() {
                    attempt as int
                } else {
                    s.len() as int
                },
            ),
            port.sent() == old(port).sent() + Seq::new(attempt as nat, |i: int| HELLO_BYTE),
            port.timeout_ms() == old(port).timeout_ms(),
            attempt == 0 ==> last_err == FlashError::Timeout,
            attempt > 0 ==> last_err == (if s.len() >= attempt as int {
                FlashError::Protocol { command: CommandKind::Hello, byte: s[attempt - 1] }
            } else {
                FlashError::Timeout
            }),
        decreases HANDSHAKE_ATTEMPTS - attempt,
    {
        let ghost consumed: int = if attempt as int <= s.len() {
            attempt as int
        } else {
            s.len() as int
        };
        match hello(port) {
            Ok(()) => {
                proof {
                    assert(s.skip(consumed).len() >= 1);
                    assert(consumed == attempt as int);
                    assert(s.skip(consumed)[0] == s[consumed]);
                    assert(s[attempt as int] == ACK);
                    lemma_ack_within_found(s, attempt as int, HANDSHAKE_ATTEMPTS as int);
                    assert(s.skip(attempt as int).drop_first() =~= s.skip(attempt as int + 1));
                    assert((old(port).sent() + Seq::new(attempt as nat, |i: int| HELLO_BYTE))
                        + seq![HELLO_BYTE] =~= old(port).sent() + Seq::new(
                        (attempt + 1) as nat,
                        |i: int| HELLO_BYTE,
                    ));
                }
                match port.set_read_timeout(SESSION_TIMEOUT_MS) {
                    Ok(()) => {},
                    Err(e) => {
                        return Err(e);
                    },
                }
                return Ok(());
            },
            Err(e) => {
                proof {
                    if s.skip(consumed).len() >= 1 {
                        assert(s.skip(consumed)[0] == s[consumed]);
                        assert(s.skip(consumed).drop_first() =~= s.skip(consumed + 1));
                    }
                    assert((old(port).sent() + Seq::new(attempt as nat, |i: int| HELLO_BYTE))
                        + seq![HELLO_BYTE] =~= old(port).sent() + Seq::new(
                        (attempt + 1) as nat,
                        |i: int| HELLO_BYTE,
                    ));
                }
                last_err = e;
            },
        }
        port.pause();
        attempt = attempt + 1;
    }
    proof {
        lemma_ack_within_none(s, HANDSHAKE_ATTEMPTS as int);
        assert(port.sent() =~= old(port).sent() + Seq::new(
            HANDSHAKE_ATTEMPTS as nat,
            |i: int| HELLO_BYTE,
        ));
    }
    Err(last_err)
}

/// Opens a channel with the fixed serial parameters and performs the
/// bounded handshake, widening the read timeout on success. Exactly one
/// channel is opened per call; if all handshake attempts fail, the last
/// failure is surfaced and no channel is returned.
pub fn connect_port<C: Connector>(connector: &mut C, port_name: &str, baud_rate: u32) -> (r:
    Result<C::Port, FlashError>)
    ensures
        final(connector).opens() == old(connector).opens() + 1,
        r matches Ok(p) ==> p.timeout_ms() == SESSION_TIMEOUT_MS,
{
    let mut port = match connector.open_raw(port_name, baud_rate) {
        Ok(p) => p,
        Err(e) => {
            return Err(e);
        },
    };
    match handshake(&mut port) {
        Ok(()) => Ok(port),
        Err(e) => Err(e),
    }
}

} // verus!
