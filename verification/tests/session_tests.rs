//! Tests of the handshake retry, the connector, and the GPIO helpers.
use stm32_firmware_loader::errors::{CommandKind, FlashError};
use stm32_firmware_loader::gpio::{select_gpio_backend, GpioBackend, SimGpioLine};
use stm32_firmware_loader::session::{connect_port, handshake, toggle_reset, SimConnector};
use stm32_firmware_loader::transport::SimTransport;
use stm32_firmware_loader::wire::{ACK, NACK};

#[test]
fn handshake_succeeds_on_tenth_attempt() {
    // Nine refusals, then an acknowledge on the tenth attempt.
    let mut script = vec![NACK; 9];
    script.push(ACK);
    let mut port = SimTransport::new(script);
    assert_eq!(handshake(&mut port), Ok(()));
    assert_eq!(port.outbox, vec![0x7F; 10]);
    assert_eq!(port.timeout, 20000);
}

#[test]
fn handshake_fails_after_exactly_ten_attempts() {
    let mut port = SimTransport::new(vec![NACK; 12]);
    assert_eq!(
        handshake(&mut port),
        Err(FlashError::Protocol { command: CommandKind::Hello, byte: NACK })
    );
    // Exactly ten synchronization bytes were sent, and only ten response
    // bytes consumed.
    assert_eq!(port.outbox, vec![0x7F; 10]);
    assert_eq!(port.cursor, 10);
    assert_eq!(port.timeout, 1000);
}

#[test]
fn handshake_surfaces_timeout_when_target_is_quiet() {
    let mut port = SimTransport::new(vec![]);
    assert_eq!(handshake(&mut port), Err(FlashError::Timeout));
    assert_eq!(port.outbox, vec![0x7F; 10]);
}

#[test]
fn handshake_succeeds_immediately_on_first_ack() {
    let mut port = SimTransport::new(vec![ACK, 0xAA]);
    assert_eq!(handshake(&mut port), Ok(()));
    assert_eq!(port.outbox, vec![0x7F]);
    // The byte after the acknowledge is left for the session.
    assert_eq!(port.cursor, 1);
}

#[test]
fn connect_port_opens_one_channel_and_widens_timeout() {
    let mut connector = SimConnector::new(vec![vec![NACK, NACK, ACK]]);
    let port = connect_port(&mut connector, "/dev/ttyHS1", 115200).unwrap();
    assert_eq!(port.timeout, 20000);
    assert!(connector.scripts.is_empty());
}

#[test]
fn connect_port_fails_when_nothing_answers() {
    let mut connector = SimConnector::new(vec![vec![]]);
    let r = connect_port(&mut connector, "/dev/ttyHS1", 115200);
    assert!(matches!(r, Err(FlashError::Timeout)));
}

#[test]
fn connect_port_surfaces_open_failure() {
    let mut connector = SimConnector::new(vec![]);
    let r = connect_port(&mut connector, "/dev/ttyHS1", 115200);
    assert!(matches!(r, Err(FlashError::Io)));
}

#[test]
fn toggle_reset_pulses_high_then_low() {
    let mut line = SimGpioLine::new();
    assert_eq!(toggle_reset(&mut line), Ok(()));
    assert_eq!(line.history, vec![1, 0]);
}

#[test]
fn toggle_reset_reports_gpio_failure() {
    let mut line = SimGpioLine::failing_after(0);
    assert_eq!(toggle_reset(&mut line), Err(FlashError::Gpio));
    assert_eq!(line.history, vec![1]);
}

#[test]
fn gpio_backend_selection() {
    // Pin 0 opts out of pin control entirely.
    assert_eq!(select_gpio_backend(0, false), GpioBackend::Inert);
    assert_eq!(select_gpio_backend(0, true), GpioBackend::Inert);
    // Otherwise the path-based backend is chosen exactly when the
    // filesystem node already exists.
    assert_eq!(select_gpio_backend(9, true), GpioBackend::PathBased);
    assert_eq!(select_gpio_backend(9, false), GpioBackend::LineRequest);
    assert_eq!(select_gpio_backend(8, true), GpioBackend::PathBased);
}
