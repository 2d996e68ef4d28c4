//! End-to-end tests of the flasher over simulated pins, connector and
//! transport.
use stm32_firmware_loader::errors::FlashError;
use stm32_firmware_loader::flasher::{full_process_flash, FlashConfig, Flasher};
use stm32_firmware_loader::gpio::SimGpioLine;
use stm32_firmware_loader::session::SimConnector;
use stm32_firmware_loader::wire::ACK;

fn acks(n: usize) -> Vec<u8> {
    vec![ACK; n]
}

/// A script that answers one handshake attempt and then `n` more stages.
fn handshake_then(n: usize) -> Vec<u8> {
    acks(1 + n)
}

#[test]
fn default_config() {
    let c = FlashConfig::default();
    assert_eq!(c.port, "/dev/ttyHS1");
    assert_eq!(c.baud_rate, 115200);
    assert_eq!(c.boot_pin, 9);
    assert_eq!(c.reset_pin, 8);
    assert_eq!(c.address, 0x08000000);
}

#[test]
fn config_from_path_keeps_defaults() {
    let c = FlashConfig::from(String::from("/dev/ttyUSB0"));
    assert_eq!(c.port, "/dev/ttyUSB0");
    assert_eq!(c.baud_rate, 115200);
    assert_eq!(c.address, 0x08000000);
}

#[test]
fn open_drives_boot_and_reset_then_connects() {
    let connector = SimConnector::new(vec![handshake_then(0)]);
    let f = Flasher::open(
        FlashConfig::default(),
        SimGpioLine::new(),
        SimGpioLine::new(),
        connector,
    )
    .unwrap();
    assert_eq!(f.gpio_boot.history, vec![1]);
    assert_eq!(f.gpio_reset.history, vec![1, 0]);
    assert!(f.port.is_some());
    assert_eq!(f.port.as_ref().unwrap().timeout, 20000);
    assert!(!f.finalized);
}

#[test]
fn open_fails_when_handshake_never_answers() {
    let connector = SimConnector::new(vec![vec![]]);
    let r = Flasher::open(
        FlashConfig::default(),
        SimGpioLine::new(),
        SimGpioLine::new(),
        connector,
    );
    assert!(matches!(r, Err(FlashError::Timeout)));
}

#[test]
fn flash_without_channel_is_not_connected() {
    let mut f = Flasher {
        config: FlashConfig::default(),
        connector: SimConnector::new(vec![]),
        port: None,
        gpio_boot: SimGpioLine::new(),
        gpio_reset: SimGpioLine::new(),
        finalized: false,
    };
    assert_eq!(f.flash(&[1, 2, 3]), Err(FlashError::NotConnected));
}

#[test]
fn flash_300_bytes_with_acking_target() {
    // Handshake, two erase acknowledges, then six acknowledges for the two
    // block writes of a 300-byte image.
    let connector = SimConnector::new(vec![handshake_then(2 + 6)]);
    let mut f = Flasher::open(
        FlashConfig::default(),
        SimGpioLine::new(),
        SimGpioLine::new(),
        connector,
    )
    .unwrap();
    let data: Vec<u8> = (0..300u32).map(|i| (i % 256) as u8).collect();
    assert_eq!(f.flash(&data), Ok(()));
    // No reconnect happened: no script was consumed beyond the first, and
    // the reset line was not pulsed again.
    assert_eq!(f.gpio_reset.history, vec![1, 0]);
    let port = f.port.as_ref().unwrap();
    // The two block writes land at 0x08000000 and 0x08000100: the second
    // address frame starts right after the first 256-byte block frame.
    let outbox = &port.outbox;
    // hello + mass erase frame first.
    assert_eq!(&outbox[..1], &[0x7F]);
    assert_eq!(&outbox[1..6], &[0x44, 0xBB, 0xFF, 0xFF, 0x00]);
    // First block at 0x08000000.
    assert_eq!(&outbox[6..13], &[0x31, 0xCE, 0x08, 0x00, 0x00, 0x00, 0x08]);
    assert_eq!(outbox[13], 255);
    // Second block at 0x08000100, 44 bytes.
    let second = 6 + 2 + 5 + 1 + 256 + 1;
    assert_eq!(
        &outbox[second..second + 8],
        &[0x31, 0xCE, 0x08, 0x00, 0x01, 0x00, 0x09, 43]
    );
    assert_eq!(outbox.len(), second + 2 + 5 + 1 + 44 + 1);
}

#[test]
fn erase_timeout_triggers_exactly_one_reconnect() {
    // The first channel answers the handshake and then goes quiet, so the
    // mass erase times out; the flasher must pulse reset, reconnect once,
    // and then write over the fresh channel.
    let data: Vec<u8> = (0..300u32).map(|i| (i % 256) as u8).collect();
    let script_first = handshake_then(0);
    let script_reconnect = handshake_then(6);
    // Scripts are served from the end of the list.
    let connector = SimConnector::new(vec![script_reconnect, script_first]);
    let mut f = Flasher::open(
        FlashConfig::default(),
        SimGpioLine::new(),
        SimGpioLine::new(),
        connector,
    )
    .unwrap();
    assert_eq!(f.connector.scripts.len(), 1);
    assert_eq!(f.flash(&data), Ok(()));
    // Exactly one further channel was opened, and the reset line pulsed
    // exactly once more.
    assert_eq!(f.connector.scripts.len(), 0);
    assert_eq!(f.gpio_reset.history, vec![1, 0, 1, 0]);
    // The boot line was never touched by the recovery.
    assert_eq!(f.gpio_boot.history, vec![1]);
}

#[test]
fn erase_timeout_with_dead_target_fails_without_second_reconnect() {
    let script_first = handshake_then(0);
    // The reconnect channel never answers the handshake.
    let connector = SimConnector::new(vec![vec![], script_first]);
    let mut f = Flasher::open(
        FlashConfig::default(),
        SimGpioLine::new(),
        SimGpioLine::new(),
        connector,
    )
    .unwrap();
    assert_eq!(f.flash(&[1, 2, 3]), Err(FlashError::Timeout));
    assert_eq!(f.connector.scripts.len(), 0);
    assert!(f.port.is_none());
}

#[test]
fn reset_lowers_boot_and_pulses_reset_once() {
    let connector = SimConnector::new(vec![handshake_then(0)]);
    let mut f = Flasher::open(
        FlashConfig::default(),
        SimGpioLine::new(),
        SimGpioLine::new(),
        connector,
    )
    .unwrap();
    assert_eq!(f.reset(), Ok(()));
    assert!(f.finalized);
    assert!(f.port.is_none());
    assert_eq!(f.gpio_boot.history, vec![1, 0]);
    assert_eq!(f.gpio_reset.history, vec![1, 0, 1, 0]);
    // A second teardown changes nothing.
    assert_eq!(f.reset(), Ok(()));
    assert_eq!(f.gpio_boot.history, vec![1, 0]);
    assert_eq!(f.gpio_reset.history, vec![1, 0, 1, 0]);
}

#[test]
fn reset_still_pulses_reset_when_boot_line_errors() {
    // The boot line accepts its first drive (mode entry) and then fails;
    // teardown must still attempt both lines, record both attempts, and
    // report the failure without panicking.
    let connector = SimConnector::new(vec![handshake_then(0)]);
    let mut f = Flasher::open(
        FlashConfig::default(),
        SimGpioLine::failing_after(1),
        SimGpioLine::new(),
        connector,
    )
    .unwrap();
    assert_eq!(f.reset(), Err(FlashError::Gpio));
    assert!(f.finalized);
    assert_eq!(f.gpio_boot.history, vec![1, 0]);
    assert_eq!(f.gpio_reset.history, vec![1, 0, 1, 0]);
    // And it still does not run twice.
    assert_eq!(f.reset(), Ok(()));
    assert_eq!(f.gpio_boot.history, vec![1, 0]);
}

#[test]
fn flash_after_reset_is_not_connected() {
    let connector = SimConnector::new(vec![handshake_then(0)]);
    let mut f = Flasher::open(
        FlashConfig::default(),
        SimGpioLine::new(),
        SimGpioLine::new(),
        connector,
    )
    .unwrap();
    f.reset().unwrap();
    assert_eq!(f.flash(&[1]), Err(FlashError::NotConnected));
}

#[test]
fn flasher_read_memory_delegates() {
    let connector = SimConnector::new(vec![handshake_then(0)]);
    let mut f = Flasher {
        config: FlashConfig::default(),
        connector,
        port: Some(stm32_firmware_loader::transport::SimTransport::new(vec![
            ACK, ACK, ACK, 0xDE, 0xAD,
        ])),
        gpio_boot: SimGpioLine::new(),
        gpio_reset: SimGpioLine::new(),
        finalized: false,
    };
    assert_eq!(f.read_memory(0x08000000, 2), Ok(vec![0xDE, 0xAD]));
}

#[test]
fn full_process_flashes_and_tears_down() {
    let mut boot = SimGpioLine::new();
    let mut reset = SimGpioLine::new();
    let mut connector = SimConnector::new(vec![handshake_then(2 + 3)]);
    let conf = FlashConfig::default();
    assert_eq!(
        full_process_flash(&[1, 2, 3], &conf, &mut boot, &mut reset, &mut connector),
        Ok(())
    );
    assert_eq!(boot.history, vec![1, 0]);
    assert_eq!(reset.history, vec![1, 0, 1, 0]);
    assert!(connector.scripts.is_empty());
}

#[test]
fn full_process_recovers_from_erase_timeout() {
    let mut boot = SimGpioLine::new();
    let mut reset = SimGpioLine::new();
    let connectorscripts = vec![handshake_then(3), handshake_then(0)];
    let mut connector = SimConnector::new(connectorscripts);
    let conf = FlashConfig::default();
    assert_eq!(
        full_process_flash(&[1, 2, 3], &conf, &mut boot, &mut reset, &mut connector),
        Ok(())
    );
    assert_eq!(boot.history, vec![1, 0]);
    // Mode-entry pulse, recovery pulse, teardown pulse.
    assert_eq!(reset.history, vec![1, 0, 1, 0, 1, 0]);
    assert!(connector.scripts.is_empty());
}

#[test]
fn full_process_stops_and_reports_when_boot_pin_fails() {
    // The very first drive of the boot line fails: the attempt is still
    // recorded, nothing later runs, and the failure is reported.
    let mut boot = SimGpioLine::failing_after(0);
    let mut reset = SimGpioLine::new();
    let mut connector = SimConnector::new(vec![]);
    let conf = FlashConfig::default();
    let r = full_process_flash(&[1], &conf, &mut boot, &mut reset, &mut connector);
    assert_eq!(r, Err(FlashError::Gpio));
    assert_eq!(boot.history, vec![1]);
    assert!(reset.history.is_empty());
    assert!(connector.scripts.is_empty());
}

#[test]
fn full_process_tears_down_even_when_write_fails() {
    let mut boot = SimGpioLine::new();
    let mut reset = SimGpioLine::new();
    // Handshake and erase acknowledged, then the write is refused.
    let mut connector = SimConnector::new(vec![vec![ACK, ACK, ACK, 0x1F]]);
    let conf = FlashConfig::default();
    let r = full_process_flash(&[1, 2, 3], &conf, &mut boot, &mut reset, &mut connector);
    assert!(r.is_err());
    // The boot line was still lowered and the reset line still pulsed.
    assert_eq!(boot.history, vec![1, 0]);
    assert_eq!(reset.history, vec![1, 0, 1, 0]);
}
