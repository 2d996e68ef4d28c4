//! A verified driver core for the STM32 USART bootloader protocol.
//!
//! The protocol codec frames every bootloader command, computes its XOR-fold
//! checksums and validates the acknowledge bytes of each exchange; the session
//! layer drives mode entry over two GPIO lines, a bounded handshake retry, and
//! chunked flashing with erase-failure recovery. Both are verified against a
//! byte-stream model of the transport; the serial-port and GPIO drivers
//! themselves live outside the library and implement its traits.

pub mod errors;
pub mod wire;
pub mod transport;
pub mod codec;
pub mod gpio;
pub mod session;
pub mod flasher;
