//! The flasher: mode entry over two GPIO lines, a connected session,
//! chunked flashing with erase-failure recovery, and teardown that runs
//! exactly once.
use vstd::prelude::*;
use crate::codec::{
    SpecialEraseType, extended_erase_special, spec_special_code, write_memory,
};
use crate::errors::FlashError;
use crate::gpio::GpioLine;
use crate::session::{Connector, SESSION_TIMEOUT_MS, connect_port, toggle_reset};
use crate::transport::Transport;
use crate::wire::{
    ack_failure, all_acks, spec_read_memory_frame, spec_special_erase_frame, spec_write_blocks,
    spec_write_memory_frames,
};

verus! {

/// The immutable configuration of one flasher: serial path, baud rate, the
/// two pin numbers, and the target load address.
///
/// Defaults: baud 115200, boot pin 9, reset pin 8, address 0x08000000. A
/// pin number of 0 opts out of controlling that pin.
#[derive(Debug, Clone)]
pub struct FlashConfig {
    /// The path of the serial device.
    pub port: String,
    /// The baud rate of the channel.
    pub baud_rate: u32,
    /// The number of the pin held high to select bootloader mode.
    pub boot_pin: u32,
    /// The number of the pin pulsed to reset the target.
    pub reset_pin: u32,
    /// The address firmware is loaded at.
    pub address: u32,
}

impl Default for FlashConfig {
    /// The default configuration.
    fn default() -> (c: FlashConfig)
        ensures
            c.port@ == "/dev/ttyHS1"@,
            c.baud_rate == 115200,
            c.boot_pin == 9,
            c.reset_pin == 8,
            c.address == 0x08000000,
    {
        FlashConfig {
            port: "/dev/ttyHS1".to_string(),
            baud_rate: 115200,
            boot_pin: 9,
            reset_pin: 8,
            address: 0x08000000,
        }
    }
}

impl vstd::std_specs::convert::FromSpecImpl<String> for FlashConfig {
    open spec fn obeys_from_spec() -> bool {
        true
    }

    open spec fn from_spec(t: String) -> FlashConfig {
        FlashConfig { port: t, baud_rate: 115200, boot_pin: 9, reset_pin: 8, address: 0x08000000 }
    }
}

impl From<String> for FlashConfig {
    /// A configuration that differs from the default only in the serial
    /// path.
    fn from(t: String) -> (c: FlashConfig) {
        FlashConfig { port: t, baud_rate: 115200, boot_pin: 9, reset_pin: 8, address: 0x08000000 }
    }
}

/// Drives the target into bootloader mode and connects: boot line high,
/// settle, reset pulse, then one channel opened and handshaken. On success
/// the boot line carries one new high level and the reset line one full
/// pulse; exactly one channel open is attempted at most.
pub fn enter_boot_mode<C: Connector, G: GpioLine>(
    gpio_boot: &mut G,
    gpio_reset: &mut G,
    connector: &mut C,
    port_name: &str,
    baud_rate: u32,
) -> (r: Result<C::Port, FlashError>)
    ensures
        final(connector).opens() <= old(connector).opens() + 1,
        final(gpio_boot).driven() == old(gpio_boot).driven() + seq![1u8],
        final(gpio_reset).driven() == old(gpio_reset).driven() || final(gpio_reset).driven()
            == old(gpio_reset).driven() + seq![1u8] || final(gpio_reset).driven() == old(gpio_reset).driven() + seq![1u8, 0u8],
        r matches Ok(p) ==> final(gpio_reset).driven() == old(gpio_reset).driven() + seq![1u8, 0u8]
            && final(connector).opens() == old(connector).opens() + 1 && p.timeout_ms()
            == SESSION_TIMEOUT_MS,
{
    proof {
        assert(old(gpio_boot).driven().push(1u8) =~= old(gpio_boot).driven() + seq![1u8]);
    }
    match gpio_boot.set_value(1) {
        Ok(()) => {},
        Err(e) => {
            return Err(e);
        },
    }
    gpio_boot.settle();
    match toggle_reset(gpio_reset) {
        Ok(()) => {},
        Err(e) => {
            return Err(e);
        },
    }
    connect_port(connector, port_name, baud_rate)
}

/// Returns the target to run mode: attempts to lower the boot line, then to
/// pulse the reset line, whatever the outcome of the first attempt; the
/// first failure, if any, is the result. Both lines always record the
/// attempt.
pub fn leave_boot_mode<G: GpioLine>(gpio_boot: &mut G, gpio_reset: &mut G) -> (r: Result<
    (),
    FlashError,
>)
    ensures
        final(gpio_boot).driven() == old(gpio_boot).driven() + seq![0u8],
        final(gpio_reset).driven() == old(gpio_reset).driven() + seq![1u8] || final(gpio_reset).driven() == old(gpio_reset).driven() + seq![1u8, 0u8],
        r is Ok ==> final(gpio_reset).driven() == old(gpio_reset).driven() + seq![1u8, 0u8],
{
    proof {
        assert(old(gpio_boot).driven().push(0u8) =~= old(gpio_boot).driven() + seq![0u8]);
    }
    let boot_result = gpio_boot.set_value(0);
    let reset_result = toggle_reset(gpio_reset);
    match boot_result {
        Err(e) => Err(e),
        Ok(()) => reset_result,
    }
}

/// The one parameterized flash routine: a mass erase, recovery from an
/// erase failure by reconnecting once, then the chunked write and a settle
/// delay.
///
/// A mass erase can outlast the read timeout even though the device
/// completes it, so an erase failure is downgraded to recoverable: the
/// channel is discarded, the reset line pulsed, and one fresh channel
/// connected before the write proceeds. When the erase is acknowledged, no
/// reconnect happens at all.
pub fn flash_with_recovery<C: Connector, G: GpioLine>(
    port: &mut Option<C::Port>,
    connector: &mut C,
    gpio_reset: &mut G,
    port_name: &str,
    baud_rate: u32,
    address: u32,
    data: &[u8],
) -> (r: Result<(), FlashError>)
    requires
        address + data@.len() <= 0x1_0000_0000,
    ensures
        final(gpio_reset).driven() == old(gpio_reset).driven() || final(gpio_reset).driven()
            == old(gpio_reset).driven() + seq![1u8] || final(gpio_reset).driven() == old(gpio_reset).driven() + seq![1u8, 0u8],
        (*old(port)) is None ==> r == Err::<(), FlashError>(FlashError::NotConnected) && (*final(port)) is None && final(connector).opens() == old(connector).opens() && final(gpio_reset).driven() == old(gpio_reset).driven(),
        ({
            &&& (*old(port)) matches Some(p) ==> {
                let s = p.incoming();
                let nb = spec_write_blocks(address, data@).len() as int;
                &&& (all_acks(s, 2) ==> final(connector).opens() == old(connector).opens()
                    && final(gpio_reset).driven() == old(gpio_reset).driven() && (r is Ok <==>
                all_acks(s.skip(2), 3 * nb)) && (r is Ok ==> ((*final(port)) matches Some(q)
                    && q.incoming() == s.skip(2).skip(3 * nb) && q.sent() == p.sent()
                    + spec_special_erase_frame(spec_special_code(SpecialEraseType::MassErase))
                    + spec_write_memory_frames(address, data@))) && (all_acks(s, 2) && !all_acks(
                    s.skip(2),
                    3 * nb,
                ) ==> r == Err::<(), FlashError>(
                    ack_failure(s.skip(2), 3 * nb, crate::errors::CommandKind::WriteMemory),
                )))
                &&& (!all_acks(s, 2) ==> final(connector).opens() <= old(connector).opens() + 1 && (
                r is Ok ==> final(connector).opens() == old(connector).opens() + 1 && final(gpio_reset).driven() == old(gpio_reset).driven() + seq![1u8, 0u8]))
            }
        }),
{
    let erase_result = match port {
        None => {
            return Err(FlashError::NotConnected);
        },
        Some(p) => extended_erase_special(p, SpecialEraseType::MassErase),
    };
    let reconnect_needed = match erase_result {
        Ok(()) => false,
        Err(_) => true,
    };
    if reconnect_needed {
        *port = None;
        match toggle_reset(gpio_reset) {
            Ok(()) => {},
            Err(e) => {
                return Err(e);
            },
        }
        match connect_port(connector, port_name, baud_rate) {
            Ok(p2) => {
                *port = Some(p2);
            },
            Err(e) => {
                return Err(e);
            },
        }
    }
    match port {
        None => Err(FlashError::NotConnected),
        Some(p) => {
            match write_memory(p, address, data) {
                Ok(()) => {},
                Err(e) => {
                    return Err(e);
                },
            }
            p.pause();
            Ok(())
        },
    }
}

/// One flashing session: the configuration, the connector, at most one live
/// channel, the two pins, and the flag that makes teardown idempotent.
///
/// Every protocol operation needs the live channel and fails with
/// `NotConnected` without one; the channel is closed and reopened at most
/// once per flash run, as erase recovery. Teardown (`reset`) runs its pin
/// sequence exactly once however often it is invoked.
pub struct Flasher<C: Connector, G: GpioLine> {
    /// The immutable configuration of this session.
    pub config: FlashConfig,
    /// Opens channels to the target.
    pub connector: C,
    /// The live channel, if one is open.
    pub port: Option<C::Port>,
    /// The line held high to select bootloader mode.
    pub gpio_boot: G,
    /// The line pulsed to reset the target.
    pub gpio_reset: G,
    /// Whether teardown has already run.
    pub finalized: bool,
}

impl<C: Connector, G: GpioLine> Flasher<C, G> {
    /// Opens a session: drives the target into bootloader mode over the two
    /// given lines and connects through the given connector. On failure the
    /// lines and connector are released and nothing is half-acquired.
    pub fn open(config: FlashConfig, gpio_boot: G, gpio_reset: G, connector: C) -> (r: Result<
        Flasher<C, G>,
        FlashError,
    >)
        ensures
            r matches Ok(f) ==> f.config == config && !f.finalized && f.gpio_boot.driven()
                == gpio_boot.driven() + seq![1u8] && f.gpio_reset.driven() == gpio_reset.driven()
                + seq![1u8, 0u8] && f.connector.opens() == connector.opens() + 1 && f.port is Some
                && f.port->Some_0.timeout_ms() == SESSION_TIMEOUT_MS,
    {
        let mut boot = gpio_boot;
        let mut reset = gpio_reset;
        let mut cn = connector;
        let port = match enter_boot_mode(
            &mut boot,
            &mut reset,
            &mut cn,
            config.port.as_str(),
            config.baud_rate,
        ) {
            Ok(p) => p,
            Err(e) => {
                return Err(e);
            },
        };
        Ok(
            Flasher {
                config,
                connector: cn,
                port: Some(port),
                gpio_boot: boot,
                gpio_reset: reset,
                finalized: false,
            },
        )
    }

    /// Flashes `data` at the configured address, recovering from an erase
    /// failure by reconnecting exactly once before the write; the boot line
    /// is never touched. Fails with `NotConnected` when no channel is open.
    pub fn flash(&mut self, data: &[u8]) -> (r: Result<(), FlashError>)
        requires
            old(self).config.address + data@.len() <= 0x1_0000_0000,
        ensures
            final(self).config == old(self).config,
            final(self).finalized == old(self).finalized,
            final(self).gpio_boot == old(self).gpio_boot,
            final(self).gpio_reset.driven() == old(self).gpio_reset.driven() || final(self).gpio_reset.driven() == old(self).gpio_reset.driven() + seq![1u8] || final(self).gpio_reset.driven() == old(self).gpio_reset.driven() + seq![1u8, 0u8],
            old(self).port is None ==> r == Err::<(), FlashError>(FlashError::NotConnected)
                && final(self).port is None && final(self).connector.opens() == old(self).connector.opens() && final(self).gpio_reset.driven() == old(self).gpio_reset.driven(),
            ({
                &&& old(self).port matches Some(p) ==> {
                    let s = p.incoming();
                    let nb = spec_write_blocks(old(self).config.address, data@).len() as int;
                    &&& (all_acks(s, 2) ==> final(self).connector.opens() == old(self).connector.opens() && final(self).gpio_reset.driven() == old(self).gpio_reset.driven() && (r is Ok <==>
                    all_acks(s.skip(2), 3 * nb)) && (r is Ok ==> (final(self).port matches Some(q)
                        && q.incoming() == s.skip(2).skip(3 * nb) && q.sent() == p.sent()
                        + spec_special_erase_frame(spec_special_code(SpecialEraseType::MassErase))
                        + spec_write_memory_frames(old(self).config.address, data@))))
                    &&& (!all_acks(s, 2) ==> final(self).connector.opens() <= old(self).connector.opens() + 1 && (r is Ok ==> final(self).connector.opens() == old(self).connector.opens() + 1 && final(self).gpio_reset.driven() == old(self).gpio_reset.driven()
                        + seq![1u8, 0u8]))
                }
            }),
    {
        flash_with_recovery(
            &mut self.port,
            &mut self.connector,
            &mut self.gpio_reset,
            self.config.port.as_str(),
            self.config.baud_rate,
            self.config.address,
            data,
        )
    }

    /// Reads `num_bytes` bytes of target memory at `address` through the
    /// live channel; fails with `NotConnected` when none is open.
    pub fn read_memory(&mut self, address: u32, num_bytes: u8) -> (r: Result<Vec<u8>, FlashError>)
        ensures
            final(self).config == old(self).config,
            final(self).finalized == old(self).finalized,
            final(self).gpio_boot == old(self).gpio_boot,
            final(self).gpio_reset == old(self).gpio_reset,
            final(self).connector == old(self).connector,
            old(self).port is None ==> r == Err::<Vec<u8>, FlashError>(FlashError::NotConnected)
                && final(self).port is None,
            ({
                &&& old(self).port matches Some(p) ==> {
                    let s = p.incoming();
                    &&& final(self).port is Some
                    &&& (r is Ok <==> all_acks(s, 3) && s.len() >= 3 + num_bytes)
                    &&& (r matches Ok(v) ==> v@ == s.subrange(3, 3 + num_bytes as int) && final(self).port->Some_0.incoming() == s.skip(3 + num_bytes as int) && final(self).port->Some_0.sent() == p.sent() + spec_read_memory_frame(address, num_bytes))
                    &&& (!all_acks(s, 3) ==> r == Err::<Vec<u8>, FlashError>(
                        ack_failure(s, 3, crate::errors::CommandKind::ReadMemory),
                    ))
                    &&& (all_acks(s, 3) && s.len() < 3 + num_bytes ==> r == Err::<
                        Vec<u8>,
                        FlashError,
                    >(FlashError::Timeout))
                }
            }),
    {
        match &mut self.port {
            None => Err(FlashError::NotConnected),
            Some(p) => crate::codec::read_memory(p, address, num_bytes),
        }
    }

    /// Tears the session down: closes the channel, attempts to lower the
    /// boot line and to pulse the reset line even if the first attempt
    /// fails, and reports the first failure without masking it. The pin
    /// sequence runs exactly once per flasher: a second call changes
    /// nothing and succeeds.
    pub fn reset(&mut self) -> (r: Result<(), FlashError>)
        ensures
            final(self).finalized,
            final(self).config == old(self).config,
            final(self).connector == old(self).connector,
            old(self).finalized ==> r is Ok && final(self).gpio_boot == old(self).gpio_boot
                && final(self).gpio_reset == old(self).gpio_reset && final(self).port == old(self).port,
            !old(self).finalized ==> final(self).port is None && final(self).gpio_boot.driven()
                == old(self).gpio_boot.driven() + seq![0u8] && (final(self).gpio_reset.driven()
                == old(self).gpio_reset.driven() + seq![1u8] || final(self).gpio_reset.driven()
                == old(self).gpio_reset.driven() + seq![1u8, 0u8]) && (r is Ok ==> final(self).gpio_reset.driven() == old(self).gpio_reset.driven() + seq![1u8, 0u8]),
    {
        if self.finalized {
            return Ok(());
        }
        self.finalized = true;
        self.port = None;
        leave_boot_mode(&mut self.gpio_boot, &mut self.gpio_reset)
    }
}

/// The reset-line history at the end of a full run whose mode entry
/// completed: the mode-entry pulse, then at most one recovery attempt of
/// the flash stage, then the teardown attempt. An attempt whose second
/// level failed stops after its high level, so the teardown attempt is
/// recorded on every such run, complete or cut short.
pub open spec fn reset_pulses_after_run(prior: Seq<u8>, history: Seq<u8>) -> bool {
    ||| history == prior + seq![1u8, 0u8, 1u8]
    ||| history == prior + seq![1u8, 0u8, 1u8, 0u8]
    ||| history == prior + seq![1u8, 0u8, 1u8, 1u8]
    ||| history == prior + seq![1u8, 0u8, 1u8, 1u8, 0u8]
    ||| history == prior + seq![1u8, 0u8, 1u8, 0u8, 1u8]
    ||| history == prior + seq![1u8, 0u8, 1u8, 0u8, 1u8, 0u8]
}

/// One whole flashing run over borrowed resources: mode entry, connect,
/// flash with erase recovery, then guaranteed teardown. The teardown always
/// runs once the boot line was raised, and its errors never mask a flashing
/// failure.
pub fn full_process_flash<C: Connector, G: GpioLine>(
    data: &[u8],
    conf: &FlashConfig,
    gpio_boot: &mut G,
    gpio_reset: &mut G,
    connector: &mut C,
) -> (r: Result<(), FlashError>)
    requires
        conf.address + data@.len() <= 0x1_0000_0000,
    ensures
        final(connector).opens() <= old(connector).opens() + 2,
        final(gpio_boot).driven() == old(gpio_boot).driven() + seq![1u8] || final(gpio_boot).driven() == old(gpio_boot).driven() + seq![1u8, 0u8],
        final(gpio_boot).driven() == old(gpio_boot).driven() + seq![1u8] ==> r is Err && (final(gpio_reset).driven() == old(gpio_reset).driven() || final(gpio_reset).driven() == old(gpio_reset).driven() + seq![1u8] || final(gpio_reset).driven() == old(gpio_reset).driven() + seq![1u8, 0u8]),
        final(gpio_boot).driven() == old(gpio_boot).driven() + seq![1u8, 0u8]
            ==> reset_pulses_after_run(old(gpio_reset).driven(), final(gpio_reset).driven()),
        r is Ok ==> final(gpio_boot).driven() == old(gpio_boot).driven() + seq![1u8, 0u8],
        r is Ok ==> final(gpio_reset).driven() == old(gpio_reset).driven() + seq![
            1u8,
            0u8,
            1u8,
            0u8,
        ] || final(gpio_reset).driven() == old(gpio_reset).driven() + seq![
            1u8,
            0u8,
            1u8,
            0u8,
            1u8,
            0u8,
        ],
        r is Ok ==> final(connector).opens() == old(connector).opens() + 1 || final(connector).opens() == old(connector).opens() + 2,
{
    let p = match enter_boot_mode(gpio_boot, gpio_reset, connector, conf.port.as_str(), conf.baud_rate) {
        Ok(p) => p,
        Err(e) => {
            proof {
                assert((old(gpio_boot).driven() + seq![1u8]).len() == old(gpio_boot).driven().len()
                    + 1);
                assert((old(gpio_boot).driven() + seq![1u8, 0u8]).len() == old(gpio_boot).driven().len() + 2);
            }
            return Err(e);
        },
    };
    let mut port = Some(p);
    let flash_result = flash_with_recovery(
        &mut port,
        connector,
        gpio_reset,
        conf.port.as_str(),
        conf.baud_rate,
        conf.address,
        data,
    );
    let ghost reset_mid = gpio_reset.driven();
    let teardown_result = leave_boot_mode(gpio_boot, gpio_reset);
    proof {
        let d0 = old(gpio_reset).driven();
        assert((old(gpio_boot).driven() + seq![1u8]) + seq![0u8] =~= old(gpio_boot).driven()
            + seq![1u8, 0u8]);
        assert((old(gpio_boot).driven() + seq![1u8]).len() == old(gpio_boot).driven().len() + 1);
        assert((d0 + seq![1u8, 0u8]) + seq![1u8] =~= d0 + seq![1u8, 0u8, 1u8]);
        assert((d0 + seq![1u8, 0u8]) + seq![1u8, 0u8] =~= d0 + seq![1u8, 0u8, 1u8, 0u8]);
        assert(((d0 + seq![1u8, 0u8]) + seq![1u8]) + seq![1u8] =~= d0 + seq![1u8, 0u8, 1u8, 1u8]);
        assert(((d0 + seq![1u8, 0u8]) + seq![1u8]) + seq![1u8, 0u8] =~= d0 + seq![
            1u8,
            0u8,
            1u8,
            1u8,
            0u8,
        ]);
        assert(((d0 + seq![1u8, 0u8]) + seq![1u8, 0u8]) + seq![1u8] =~= d0 + seq![
            1u8,
            0u8,
            1u8,
            0u8,
            1u8,
        ]);
        assert(((d0 + seq![1u8, 0u8]) + seq![1u8, 0u8]) + seq![1u8, 0u8] =~= d0 + seq![
            1u8,
            0u8,
            1u8,
            0u8,
            1u8,
            0u8,
        ]);
    }
    match flash_result {
        Err(e) => Err(e),
        Ok(()) => teardown_result,
    }
}

} // verus!
