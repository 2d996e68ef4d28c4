//! Error and command vocabulary of the bootloader protocol.
use vstd::prelude::*;

verus! {

/// The commands of the bootloader's wire protocol, named so that a protocol
/// failure can report which exchange went wrong. `Hello` stands for the
/// initial single-byte synchronization exchange.
#[derive(Clone, Copy, Debug, PartialEq, Eq, Structural)]
pub enum CommandKind {
    Hello,
    Get,
    GetVersion,
    GetId,
    ReadMemory,
    Go,
    WriteMemory,
    EraseMemory,
    ExtendedEraseMemory,
}

/// Everything that can go wrong while driving a target.
///
/// - `Timeout`: a read on the transport found no byte within its deadline.
/// - `Io`: the channel itself failed (open failure, read/write failure);
///   raised only by transport and connector implementations, never by the
///   verified protocol logic.
/// - `Protocol`: an acknowledge byte was expected and `byte` arrived instead,
///   during the exchange named by `command`.
/// - `Gpio`: acquiring or driving a pin failed.
/// - `NotConnected`: an operation that needs a live channel was invoked with
///   none open.
#[derive(Clone, Copy, Debug, PartialEq, Eq, Structural)]
pub enum FlashError {
    Timeout,
    Io,
    Protocol { command: CommandKind, byte: u8 },
    Gpio,
    NotConnected,
}

} // verus!
