//! The protocol codec: framing, checksums and acknowledge validation for
//! every bootloader command, verified over the transport model.
//!
//! Every operation writes a command frame and blocks for responses; each
//! contract pins down, as a function of the bytes the target will deliver,
//! exactly when the operation succeeds, what it returns, what it sent, and
//! which error it reports otherwise. Retrying is a session-level policy and
//! never happens here.
use vstd::prelude::*;
use crate::errors::{CommandKind, FlashError};
use crate::transport::Transport;
use crate::wire::{
    ACK, HELLO_BYTE, ack_failure, acked_blocks, all_acks, addr_frame, command_frame,
    counted_frame, lemma_ack_failure_mono, lemma_ack_failure_skip, lemma_acked_blocks_at,
    lemma_all_acks_split,
    lemma_blocks_frames_concat, lemma_pages_flat_push, push_all, spec_addr_frame,
    spec_command_frame, spec_counted_payload, spec_erase_frame, spec_extended_erase_frame,
    spec_global_erase_frame, spec_go_frame, spec_pages_flat, spec_read_memory_frame,
    spec_special_erase_frame, spec_u16_be, spec_write_block_frame, spec_write_blocks,
    spec_write_memory_frames, spec_blocks_frames, u16_be, xor_checksum,
};

verus! {

/// The first failure among `n` expected acknowledges, observed at position
/// `k`: a missing byte is a timeout, a wrong byte is a protocol violation.
proof fn lemma_stage_failure(s: Seq<u8>, k: int, n: int, c: CommandKind)
    requires
        0 <= k < n,
        all_acks(s, k),
        s.len() == k || (s.len() > k && s[k] != ACK),
    ensures
        !all_acks(s, n),
        s.len() == k ==> ack_failure(s, n, c) == FlashError::Timeout,
        s.len() > k ==> ack_failure(s, n, c) == (FlashError::Protocol { command: c, byte: s[k] }),
{
    let t = s.skip(k);
    assert(t.len() == s.len() - k);
    if s.len() == k {
        assert(!all_acks(t, n - k));
        assert(ack_failure(t, n - k, c) == FlashError::Timeout);
    } else {
        assert(t[0] == s[k]);
        assert(!all_acks(t, n - k)) by {
            assert(t[0] != ACK);
        }
        assert(ack_failure(t, n - k, c) == (FlashError::Protocol { command: c, byte: s[k] }));
    }
    lemma_ack_failure_skip(s, k, n, c);
}

/// Sends the synchronization byte and succeeds exactly when the target's
/// first response byte acknowledges; any other byte or a timeout fails.
pub fn hello<T: Transport>(port: &mut T) -> (r: Result<(), FlashError>)
    ensures
        final(port).timeout_ms() == old(port).timeout_ms(),
        final(port).sent() == old(port).sent() + seq![HELLO_BYTE],
        ({
            let s = old(port).incoming();
            &&& (r is Ok <==> s.len() >= 1 && s[0] == ACK)
            &&& (s.len() >= 1 ==> final(port).incoming() == s.drop_first())
            &&& (s.len() == 0 ==> r == Err::<(), FlashError>(FlashError::Timeout) && final(port).incoming() == s)
            &&& (s.len() >= 1 && s[0] != ACK ==> r == Err::<(), FlashError>(
                FlashError::Protocol { command: CommandKind::Hello, byte: s[0] },
            ))
        }),
{
    let v = vec![HELLO_BYTE];
    proof {
        assert(v@ =~= seq![HELLO_BYTE]);
    }
    match port.write_all(v.as_slice()) {
        Ok(()) => {},
        Err(e) => {
            return Err(e);
        },
    }
    let b = match port.read_byte() {
        Ok(b) => b,
        Err(e) => {
            return Err(e);
        },
    };
    if b != ACK {
        return Err(FlashError::Protocol { command: CommandKind::Hello, byte: b });
    }
    Ok(())
}

/// Queries the target's version and supported command list: expects an
/// acknowledge, a length byte, that many payload bytes, and a final
/// acknowledge, and returns the payload.
pub fn get<T: Transport>(port: &mut T) -> (r: Result<Vec<u8>, FlashError>)
    ensures
        final(port).timeout_ms() == old(port).timeout_ms(),
        final(port).sent() == old(port).sent() + spec_command_frame(CommandKind::Get),
        ({
            let s = old(port).incoming();
            &&& (r is Ok <==> s.len() >= 2 && s[0] == ACK && s.len() >= s[1] + 3 && s[s[1] + 2]
                == ACK)
            &&& (r matches Ok(v) ==> v@ == s.subrange(2, 2 + s[1] as int) && final(port).incoming() == s.skip(3 + s[1] as int))
            &&& (s.len() == 0 ==> r == Err::<Vec<u8>, FlashError>(FlashError::Timeout))
            &&& (s.len() >= 1 && s[0] != ACK ==> r == Err::<Vec<u8>, FlashError>(
                FlashError::Protocol { command: CommandKind::Get, byte: s[0] },
            ))
            &&& (s.len() >= 1 && s[0] == ACK && s.len() < s[1] + 3 ==> r == Err::<
                Vec<u8>,
                FlashError,
            >(FlashError::Timeout))
            &&& (s.len() >= 2 && s[0] == ACK && s.len() >= s[1] + 3 && s[s[1] + 2] != ACK ==> r
                == Err::<Vec<u8>, FlashError>(
                FlashError::Protocol { command: CommandKind::Get, byte: s[s[1] + 2] },
            ))
        }),
{
    let ghost s = old(port).incoming();
    let cmd = command_frame(CommandKind::Get);
    match port.write_all(cmd.as_slice()) {
        Ok(()) => {},
        Err(e) => {
            return Err(e);
        },
    }
    let b0 = match port.read_byte() {
        Ok(b) => b,
        Err(e) => {
            return Err(e);
        },
    };
    if b0 != ACK {
        return Err(FlashError::Protocol { command: CommandKind::Get, byte: b0 });
    }
    let num_bytes = match port.read_byte() {
        Ok(b) => b,
        Err(e) => {
            return Err(e);
        },
    };
    proof {
        assert(s.drop_first()[0] == s[1]);
        assert(s.drop_first().drop_first() =~= s.skip(2));
    }
    let data = match port.read_exact(num_bytes as usize) {
        Ok(d) => d,
        Err(e) => {
            return Err(e);
        },
    };
    proof {
        assert(s.skip(2).take(num_bytes as int) =~= s.subrange(2, 2 + num_bytes as int));
        assert(s.skip(2).skip(num_bytes as int) =~= s.skip(2 + num_bytes as int));
        assert(s.skip(2 + num_bytes as int).len() == s.len() - 2 - num_bytes);
    }
    let b1 = match port.read_byte() {
        Ok(b) => b,
        Err(e) => {
            return Err(e);
        },
    };
    proof {
        assert(s.skip(2 + num_bytes as int)[0] == s[s[1] + 2]);
        assert(s.skip(2 + num_bytes as int).drop_first() =~= s.skip(3 + num_bytes as int));
    }
    if b1 != ACK {
        return Err(FlashError::Protocol { command: CommandKind::Get, byte: b1 });
    }
    Ok(data)
}

/// Queries the firmware version: expects an acknowledge, exactly three bytes
/// (the version, then two command-set flag bytes), and a final acknowledge.
pub fn get_version<T: Transport>(port: &mut T) -> (r: Result<(u8, Vec<u8>), FlashError>)
    ensures
        final(port).timeout_ms() == old(port).timeout_ms(),
        final(port).sent() == old(port).sent() + spec_command_frame(CommandKind::GetVersion),
        ({
            let s = old(port).incoming();
            &&& (r is Ok <==> s.len() >= 5 && s[0] == ACK && s[4] == ACK)
            &&& (r matches Ok(v) ==> v.0 == s[1] && v.1@ == seq![s[2], s[3]] && final(port).incoming() == s.skip(5))
            &&& (s.len() == 0 ==> r == Err::<(u8, Vec<u8>), FlashError>(FlashError::Timeout))
            &&& (s.len() >= 1 && s[0] != ACK ==> r == Err::<(u8, Vec<u8>), FlashError>(
                FlashError::Protocol { command: CommandKind::GetVersion, byte: s[0] },
            ))
            &&& (1 <= s.len() < 5 && s[0] == ACK ==> r == Err::<(u8, Vec<u8>), FlashError>(
                FlashError::Timeout,
            ))
            &&& (s.len() >= 5 && s[0] == ACK && s[4] != ACK ==> r == Err::<
                (u8, Vec<u8>),
                FlashError,
            >(FlashError::Protocol { command: CommandKind::GetVersion, byte: s[4] }))
        }),
{
    let ghost s = old(port).incoming();
    let cmd = command_frame(CommandKind::GetVersion);
    match port.write_all(cmd.as_slice()) {
        Ok(()) => {},
        Err(e) => {
            return Err(e);
        },
    }
    let b0 = match port.read_byte() {
        Ok(b) => b,
        Err(e) => {
            return Err(e);
        },
    };
    if b0 != ACK {
        return Err(FlashError::Protocol { command: CommandKind::GetVersion, byte: b0 });
    }
    proof {
        assert(s.drop_first() =~= s.skip(1));
    }
    let data = match port.read_exact(3) {
        Ok(d) => d,
        Err(e) => {
            return Err(e);
        },
    };
    proof {
        assert(s.skip(1).skip(3) =~= s.skip(4));
        assert(s.skip(1).take(3)[0] == s[1]);
        assert(s.skip(1).take(3)[1] == s[2]);
        assert(s.skip(1).take(3)[2] == s[3]);
        assert(s.skip(4).len() == s.len() - 4);
    }
    let b1 = match port.read_byte() {
        Ok(b) => b,
        Err(e) => {
            return Err(e);
        },
    };
    proof {
        assert(s.skip(4)[0] == s[4]);
        assert(s.skip(4).drop_first() =~= s.skip(5));
    }
    if b1 != ACK {
        return Err(FlashError::Protocol { command: CommandKind::GetVersion, byte: b1 });
    }
    let version = data[0];
    let commands = vec![data[1], data[2]];
    proof {
        assert(commands@ =~= seq![s[2], s[3]]);
    }
    Ok((version, commands))
}

/// Queries the product identifier: expects an acknowledge, a length byte
/// (read but not interpreted), the two big-endian identifier bytes, and a
/// final acknowledge.
pub fn get_id<T: Transport>(port: &mut T) -> (r: Result<u16, FlashError>)
    ensures
        final(port).timeout_ms() == old(port).timeout_ms(),
        final(port).sent() == old(port).sent() + spec_command_frame(CommandKind::GetId),
        ({
            let s = old(port).incoming();
            &&& (r is Ok <==> s.len() >= 5 && s[0] == ACK && s[4] == ACK)
            &&& (r matches Ok(id) ==> id == s[2] * 256 + s[3] && final(port).incoming() == s.skip(
                5,
            ))
            &&& (s.len() == 0 ==> r == Err::<u16, FlashError>(FlashError::Timeout))
            &&& (s.len() >= 1 && s[0] != ACK ==> r == Err::<u16, FlashError>(
                FlashError::Protocol { command: CommandKind::GetId, byte: s[0] },
            ))
            &&& (1 <= s.len() < 5 && s[0] == ACK ==> r == Err::<u16, FlashError>(
                FlashError::Timeout,
            ))
            &&& (s.len() >= 5 && s[0] == ACK && s[4] != ACK ==> r == Err::<u16, FlashError>(
                FlashError::Protocol { command: CommandKind::GetId, byte: s[4] },
            ))
        }),
{
    let ghost s = old(port).incoming();
    let cmd = command_frame(CommandKind::GetId);
    match port.write_all(cmd.as_slice()) {
        Ok(()) => {},
        Err(e) => {
            return Err(e);
        },
    }
    let b0 = match port.read_byte() {
        Ok(b) => b,
        Err(e) => {
            return Err(e);
        },
    };
    if b0 != ACK {
        return Err(FlashError::Protocol { command: CommandKind::GetId, byte: b0 });
    }
    let _num_bytes = match port.read_byte() {
        Ok(b) => b,
        Err(e) => {
            return Err(e);
        },
    };
    proof {
        assert(s.drop_first().drop_first() =~= s.skip(2));
        assert(s.skip(2).len() == s.len() - 2);
    }
    let id_bytes = match port.read_exact(2) {
        Ok(d) => d,
        Err(e) => {
            return Err(e);
        },
    };
    proof {
        assert(s.skip(2).skip(2) =~= s.skip(4));
        assert(s.skip(2).take(2)[0] == s[2]);
        assert(s.skip(2).take(2)[1] == s[3]);
        assert(s.skip(4).len() == s.len() - 4);
    }
    let b1 = match port.read_byte() {
        Ok(b) => b,
        Err(e) => {
            return Err(e);
        },
    };
    proof {
        assert(s.skip(4)[0] == s[4]);
        assert(s.skip(4).drop_first() =~= s.skip(5));
    }
    if b1 != ACK {
        return Err(FlashError::Protocol { command: CommandKind::GetId, byte: b1 });
    }
    let id: u16 = (id_bytes[0] as u16) * 256 + (id_bytes[1] as u16);
    Ok(id)
}

/// Reads `num_bytes` bytes of target memory from `address`: three
/// acknowledged stages (command, address frame seeded 0xFF, byte count with
/// its complement), then the data; no trailing acknowledge is consumed.
pub fn read_memory<T: Transport>(port: &mut T, address: u32, num_bytes: u8) -> (r: Result<
    Vec<u8>,
    FlashError,
>)
    ensures
        final(port).timeout_ms() == old(port).timeout_ms(),
        ({
            let s = old(port).incoming();
            &&& (r is Ok <==> all_acks(s, 3) && s.len() >= 3 + num_bytes)
            &&& (r matches Ok(v) ==> v@ == s.subrange(3, 3 + num_bytes as int) && final(port).incoming() == s.skip(3 + num_bytes as int))
            &&& (!all_acks(s, 1) ==> final(port).sent() == old(port).sent() + spec_command_frame(
                CommandKind::ReadMemory,
            ))
            &&& (all_acks(s, 1) && !all_acks(s, 2) ==> final(port).sent() == old(port).sent()
                + spec_command_frame(CommandKind::ReadMemory) + spec_addr_frame(address, 0xFF))
            &&& (all_acks(s, 2) ==> final(port).sent() == old(port).sent()
                + spec_read_memory_frame(address, num_bytes))
            &&& (!all_acks(s, 3) ==> r == Err::<Vec<u8>, FlashError>(
                ack_failure(s, 3, CommandKind::ReadMemory),
            ))
            &&& (all_acks(s, 3) && s.len() < 3 + num_bytes ==> r == Err::<Vec<u8>, FlashError>(
                FlashError::Timeout,
            ))
        }),
{
    let ghost s = old(port).incoming();
    let cmd = command_frame(CommandKind::ReadMemory);
    match port.write_all(cmd.as_slice()) {
        Ok(()) => {},
        Err(e) => {
            return Err(e);
        },
    }
    let b0 = match port.read_byte() {
        Ok(b) => b,
        Err(e) => {
            proof {
                lemma_stage_failure(s, 0, 3, CommandKind::ReadMemory);
            }
            return Err(e);
        },
    };
    if b0 != ACK {
        proof {
            lemma_stage_failure(s, 0, 3, CommandKind::ReadMemory);
        }
        return Err(FlashError::Protocol { command: CommandKind::ReadMemory, byte: b0 });
    }
    proof {
        assert(s.drop_first() =~= s.skip(1));
        assert(all_acks(s, 1));
    }
    let af = addr_frame(address, 0xFF);
    match port.write_all(af.as_slice()) {
        Ok(()) => {},
        Err(e) => {
            return Err(e);
        },
    }
    let b1 = match port.read_byte() {
        Ok(b) => b,
        Err(e) => {
            proof {
                lemma_stage_failure(s, 1, 3, CommandKind::ReadMemory);
            }
            return Err(e);
        },
    };
    if b1 != ACK {
        proof {
            assert(s.skip(1)[0] == s[1]);
            lemma_stage_failure(s, 1, 3, CommandKind::ReadMemory);
        }
        return Err(FlashError::Protocol { command: CommandKind::ReadMemory, byte: b1 });
    }
    proof {
        assert(s.skip(1)[0] == s[1]);
        assert(s.skip(1).drop_first() =~= s.skip(2));
        assert(all_acks(s, 2));
    }
    let count = vec![num_bytes, num_bytes ^ 0xFF];
    proof {
        assert(count@ =~= seq![num_bytes, num_bytes ^ 0xFF]);
    }
    match port.write_all(count.as_slice()) {
        Ok(()) => {},
        Err(e) => {
            return Err(e);
        },
    }
    proof {
        assert(old(port).sent() + spec_command_frame(CommandKind::ReadMemory) + spec_addr_frame(
            address,
            0xFF,
        ) + seq![num_bytes, num_bytes ^ 0xFF] =~= old(port).sent() + spec_read_memory_frame(
            address,
            num_bytes,
        ));
    }
    let b2 = match port.read_byte() {
        Ok(b) => b,
        Err(e) => {
            proof {
                lemma_stage_failure(s, 2, 3, CommandKind::ReadMemory);
            }
            return Err(e);
        },
    };
    if b2 != ACK {
        proof {
            assert(s.skip(2)[0] == s[2]);
            lemma_stage_failure(s, 2, 3, CommandKind::ReadMemory);
        }
        return Err(FlashError::Protocol { command: CommandKind::ReadMemory, byte: b2 });
    }
    proof {
        assert(s.skip(2)[0] == s[2]);
        assert(s.skip(2).drop_first() =~= s.skip(3));
        assert(s.skip(3).len() == s.len() - 3);
        assert(all_acks(s, 3));
    }
    let data = match port.read_exact(num_bytes as usize) {
        Ok(d) => d,
        Err(e) => {
            return Err(e);
        },
    };
    proof {
        assert(s.skip(3).take(num_bytes as int) =~= s.subrange(3, 3 + num_bytes as int));
        assert(s.skip(3).skip(num_bytes as int) =~= s.skip(3 + num_bytes as int));
    }
    Ok(data)
}

/// Commands a jump to `address`: two acknowledged stages (command, then the
/// address frame seeded 0xFF).
pub fn go<T: Transport>(port: &mut T, address: u32) -> (r: Result<(), FlashError>)
    ensures
        final(port).timeout_ms() == old(port).timeout_ms(),
        ({
            let s = old(port).incoming();
            &&& (r is Ok <==> all_acks(s, 2))
            &&& (r is Ok ==> final(port).incoming() == s.skip(2))
            &&& (!all_acks(s, 1) ==> final(port).sent() == old(port).sent() + spec_command_frame(
                CommandKind::Go,
            ))
            &&& (all_acks(s, 1) ==> final(port).sent() == old(port).sent() + spec_go_frame(
                address,
            ))
            &&& (!all_acks(s, 2) ==> r == Err::<(), FlashError>(
                ack_failure(s, 2, CommandKind::Go),
            ))
        }),
{
    let ghost s = old(port).incoming();
    let cmd = command_frame(CommandKind::Go);
    match port.write_all(cmd.as_slice()) {
        Ok(()) => {},
        Err(e) => {
            return Err(e);
        },
    }
    let b0 = match port.read_byte() {
        Ok(b) => b,
        Err(e) => {
            proof {
                lemma_stage_failure(s, 0, 2, CommandKind::Go);
            }
            return Err(e);
        },
    };
    if b0 != ACK {
        proof {
            lemma_stage_failure(s, 0, 2, CommandKind::Go);
        }
        return Err(FlashError::Protocol { command: CommandKind::Go, byte: b0 });
    }
    proof {
        assert(s.drop_first() =~= s.skip(1));
        assert(all_acks(s, 1));
    }
    let af = addr_frame(address, 0xFF);
    match port.write_all(af.as_slice()) {
        Ok(()) => {},
        Err(e) => {
            return Err(e);
        },
    }
    proof {
        assert(old(port).sent() + spec_command_frame(CommandKind::Go) + spec_addr_frame(
            address,
            0xFF,
        ) =~= old(port).sent() + spec_go_frame(address));
    }
    let b1 = match port.read_byte() {
        Ok(b) => b,
        Err(e) => {
            proof {
                lemma_stage_failure(s, 1, 2, CommandKind::Go);
            }
            return Err(e);
        },
    };
    if b1 != ACK {
        proof {
            assert(s.skip(1)[0] == s[1]);
            lemma_stage_failure(s, 1, 2, CommandKind::Go);
        }
        return Err(FlashError::Protocol { command: CommandKind::Go, byte: b1 });
    }
    proof {
        assert(s.skip(1)[0] == s[1]);
        assert(all_acks(s, 2));
        assert(s.skip(1).drop_first() =~= s.skip(2));
    }
    Ok(())
}

/// Writes one block of 1 to 256 bytes at `address`: three acknowledged
/// stages (command, address frame seeded 0, then the length-prefixed data
/// payload).
pub fn write_memory_block<T: Transport>(port: &mut T, address: u32, data: &[u8]) -> (r: Result<
    (),
    FlashError,
>)
    requires
        1 <= data@.len() <= 256,
    ensures
        final(port).timeout_ms() == old(port).timeout_ms(),
        ({
            let s = old(port).incoming();
            &&& (r is Ok <==> all_acks(s, 3))
            &&& (r is Ok ==> final(port).incoming() == s.skip(3))
            &&& (!all_acks(s, 1) ==> final(port).sent() == old(port).sent() + spec_command_frame(
                CommandKind::WriteMemory,
            ))
            &&& (all_acks(s, 1) && !all_acks(s, 2) ==> final(port).sent() == old(port).sent()
                + spec_command_frame(CommandKind::WriteMemory) + spec_addr_frame(address, 0x00))
            &&& (all_acks(s, 2) ==> final(port).sent() == old(port).sent()
                + spec_write_block_frame(address, data@))
            &&& (!all_acks(s, 3) ==> r == Err::<(), FlashError>(
                ack_failure(s, 3, CommandKind::WriteMemory),
            ))
        }),
{
    let ghost s = old(port).incoming();
    let cmd = command_frame(CommandKind::WriteMemory);
    match port.write_all(cmd.as_slice()) {
        Ok(()) => {},
        Err(e) => {
            return Err(e);
        },
    }
    let b0 = match port.read_byte() {
        Ok(b) => b,
        Err(e) => {
            proof {
                lemma_stage_failure(s, 0, 3, CommandKind::WriteMemory);
            }
            return Err(e);
        },
    };
    if b0 != ACK {
        proof {
            lemma_stage_failure(s, 0, 3, CommandKind::WriteMemory);
        }
        return Err(FlashError::Protocol { command: CommandKind::WriteMemory, byte: b0 });
    }
    proof {
        assert(s.drop_first() =~= s.skip(1));
        assert(all_acks(s, 1));
    }
    let af = addr_frame(address, 0x00);
    match port.write_all(af.as_slice()) {
        Ok(()) => {},
        Err(e) => {
            return Err(e);
        },
    }
    let b1 = match port.read_byte() {
        Ok(b) => b,
        Err(e) => {
            proof {
                lemma_stage_failure(s, 1, 3, CommandKind::WriteMemory);
            }
            return Err(e);
        },
    };
    if b1 != ACK {
        proof {
            assert(s.skip(1)[0] == s[1]);
            lemma_stage_failure(s, 1, 3, CommandKind::WriteMemory);
        }
        return Err(FlashError::Protocol { command: CommandKind::WriteMemory, byte: b1 });
    }
    proof {
        assert(s.skip(1)[0] == s[1]);
        assert(s.skip(1).drop_first() =~= s.skip(2));
        assert(all_acks(s, 2));
    }
    let payload = counted_frame(data);
    match port.write_all(payload.as_slice()) {
        Ok(()) => {},
        Err(e) => {
            return Err(e);
        },
    }
    proof {
        assert(old(port).sent() + spec_command_frame(CommandKind::WriteMemory) + spec_addr_frame(
            address,
            0x00,
        ) + spec_counted_payload(data@) =~= old(port).sent() + spec_write_block_frame(
            address,
            data@,
        ));
    }
    let b2 = match port.read_byte() {
        Ok(b) => b,
        Err(e) => {
            proof {
                lemma_stage_failure(s, 2, 3, CommandKind::WriteMemory);
            }
            return Err(e);
        },
    };
    if b2 != ACK {
        proof {
            assert(s.skip(2)[0] == s[2]);
            lemma_stage_failure(s, 2, 3, CommandKind::WriteMemory);
        }
        return Err(FlashError::Protocol { command: CommandKind::WriteMemory, byte: b2 });
    }
    proof {
        assert(s.skip(2)[0] == s[2]);
        assert(all_acks(s, 3));
        assert(s.skip(2).drop_first() =~= s.skip(3));
    }
    Ok(())
}

/// Erases the listed 8-bit sectors: two acknowledged stages (command, then
/// the length-prefixed sector list).
pub fn erase_memory<T: Transport>(port: &mut T, sectors: &[u8]) -> (r: Result<(), FlashError>)
    requires
        1 <= sectors@.len() <= 256,
    ensures
        final(port).timeout_ms() == old(port).timeout_ms(),
        ({
            let s = old(port).incoming();
            &&& (r is Ok <==> all_acks(s, 2))
            &&& (r is Ok ==> final(port).incoming() == s.skip(2))
            &&& (!all_acks(s, 1) ==> final(port).sent() == old(port).sent() + spec_command_frame(
                CommandKind::EraseMemory,
            ))
            &&& (all_acks(s, 1) ==> final(port).sent() == old(port).sent() + spec_erase_frame(
                sectors@,
            ))
            &&& (!all_acks(s, 2) ==> r == Err::<(), FlashError>(
                ack_failure(s, 2, CommandKind::EraseMemory),
            ))
        }),
{
    let ghost s = old(port).incoming();
    let cmd = command_frame(CommandKind::EraseMemory);
    match port.write_all(cmd.as_slice()) {
        Ok(()) => {},
        Err(e) => {
            return Err(e);
        },
    }
    let b0 = match port.read_byte() {
        Ok(b) => b,
        Err(e) => {
            proof {
                lemma_stage_failure(s, 0, 2, CommandKind::EraseMemory);
            }
            return Err(e);
        },
    };
    if b0 != ACK {
        proof {
            lemma_stage_failure(s, 0, 2, CommandKind::EraseMemory);
        }
        return Err(FlashError::Protocol { command: CommandKind::EraseMemory, byte: b0 });
    }
    proof {
        assert(s.drop_first() =~= s.skip(1));
        assert(all_acks(s, 1));
    }
    let payload = counted_frame(sectors);
    match port.write_all(payload.as_slice()) {
        Ok(()) => {},
        Err(e) => {
            return Err(e);
        },
    }
    proof {
        assert(old(port).sent() + spec_command_frame(CommandKind::EraseMemory)
            + spec_counted_payload(sectors@) =~= old(port).sent() + spec_erase_frame(sectors@));
    }
    let b1 = match port.read_byte() {
        Ok(b) => b,
        Err(e) => {
            proof {
                lemma_stage_failure(s, 1, 2, CommandKind::EraseMemory);
            }
            return Err(e);
        },
    };
    if b1 != ACK {
        proof {
            assert(s.skip(1)[0] == s[1]);
            lemma_stage_failure(s, 1, 2, CommandKind::EraseMemory);
        }
        return Err(FlashError::Protocol { command: CommandKind::EraseMemory, byte: b1 });
    }
    proof {
        assert(s.skip(1)[0] == s[1]);
        assert(all_acks(s, 2));
        assert(s.skip(1).drop_first() =~= s.skip(2));
    }
    Ok(())
}

/// Erases everything: the erase command, then the fixed two-byte sentinel
/// 0xFF00, each stage acknowledged.
pub fn erase_memory_global<T: Transport>(port: &mut T) -> (r: Result<(), FlashError>)
    ensures
        final(port).timeout_ms() == old(port).timeout_ms(),
        ({
            let s = old(port).incoming();
            &&& (r is Ok <==> all_acks(s, 2))
            &&& (r is Ok ==> final(port).incoming() == s.skip(2))
            &&& (!all_acks(s, 1) ==> final(port).sent() == old(port).sent() + spec_command_frame(
                CommandKind::EraseMemory,
            ))
            &&& (all_acks(s, 1) ==> final(port).sent() == old(port).sent()
                + spec_global_erase_frame())
            &&& (!all_acks(s, 2) ==> r == Err::<(), FlashError>(
                ack_failure(s, 2, CommandKind::EraseMemory),
            ))
        }),
{
    let ghost s = old(port).incoming();
    let cmd = command_frame(CommandKind::EraseMemory);
    match port.write_all(cmd.as_slice()) {
        Ok(()) => {},
        Err(e) => {
            return Err(e);
        },
    }
    let b0 = match port.read_byte() {
        Ok(b) => b,
        Err(e) => {
            proof {
                lemma_stage_failure(s, 0, 2, CommandKind::EraseMemory);
            }
            return Err(e);
        },
    };
    if b0 != ACK {
        proof {
            lemma_stage_failure(s, 0, 2, CommandKind::EraseMemory);
        }
        return Err(FlashError::Protocol { command: CommandKind::EraseMemory, byte: b0 });
    }
    proof {
        assert(s.drop_first() =~= s.skip(1));
        assert(all_acks(s, 1));
    }
    let pages = vec![0xFFu8, 0x00u8];
    proof {
        assert(pages@ =~= seq![0xFFu8, 0x00u8]);
    }
    match port.write_all(pages.as_slice()) {
        Ok(()) => {},
        Err(e) => {
            return Err(e);
        },
    }
    proof {
        assert(old(port).sent() + spec_command_frame(CommandKind::EraseMemory) + seq![
            0xFFu8,
            0x00u8,
        ] =~= old(port).sent() + spec_global_erase_frame());
    }
    let b1 = match port.read_byte() {
        Ok(b) => b,
        Err(e) => {
            proof {
                lemma_stage_failure(s, 1, 2, CommandKind::EraseMemory);
            }
            return Err(e);
        },
    };
    if b1 != ACK {
        proof {
            assert(s.skip(1)[0] == s[1]);
            lemma_stage_failure(s, 1, 2, CommandKind::EraseMemory);
        }
        return Err(FlashError::Protocol { command: CommandKind::EraseMemory, byte: b1 });
    }
    proof {
        assert(s.skip(1)[0] == s[1]);
        assert(all_acks(s, 2));
        assert(s.skip(1).drop_first() =~= s.skip(2));
    }
    Ok(())
}

/// Erases the listed 16-bit pages: the extended erase command, then the
/// big-endian page count, the page indices and their checksum, each stage
/// acknowledged.
pub fn extended_erase<T: Transport>(port: &mut T, pages: &[u16]) -> (r: Result<(), FlashError>)
    requires
        pages@.len() <= 0xFFFF,
    ensures
        final(port).timeout_ms() == old(port).timeout_ms(),
        ({
            let s = old(port).incoming();
            &&& (r is Ok <==> all_acks(s, 2))
            &&& (r is Ok ==> final(port).incoming() == s.skip(2))
            &&& (!all_acks(s, 1) ==> final(port).sent() == old(port).sent() + spec_command_frame(
                CommandKind::ExtendedEraseMemory,
            ))
            &&& (all_acks(s, 1) ==> final(port).sent() == old(port).sent()
                + spec_extended_erase_frame(pages@))
            &&& (!all_acks(s, 2) ==> r == Err::<(), FlashError>(
                ack_failure(s, 2, CommandKind::ExtendedEraseMemory),
            ))
        }),
{
    let ghost s = old(port).incoming();
    let cmd = command_frame(CommandKind::ExtendedEraseMemory);
    match port.write_all(cmd.as_slice()) {
        Ok(()) => {},
        Err(e) => {
            return Err(e);
        },
    }
    let b0 = match port.read_byte() {
        Ok(b) => b,
        Err(e) => {
            proof {
                lemma_stage_failure(s, 0, 2, CommandKind::ExtendedEraseMemory);
            }
            return Err(e);
        },
    };
    if b0 != ACK {
        proof {
            lemma_stage_failure(s, 0, 2, CommandKind::ExtendedEraseMemory);
        }
        return Err(FlashError::Protocol { command: CommandKind::ExtendedEraseMemory, byte: b0 });
    }
    proof {
        assert(s.drop_first() =~= s.skip(1));
        assert(all_acks(s, 1));
    }
    let mut body = u16_be(pages.len() as u16);
    let mut i: usize = 0;
    proof {
        assert(spec_pages_flat(pages@.take(0)) == Seq::<u8>::empty()) by {
            assert(pages@.take(0) =~= Seq::<u16>::empty());
        }
        assert(body@ =~= spec_u16_be(pages@.len() as u16) + spec_pages_flat(pages@.take(0)));
    }
    while i < pages.len()
        invariant
            i <= pages@.len(),
            pages@.len() <= 0xFFFF,
            body@ == spec_u16_be(pages@.len() as u16) + spec_pages_flat(pages@.take(i as int)),
        decreases pages@.len() - i,
    {
        let pb = u16_be(pages[i]);
        push_all(&mut body, pb.as_slice());
        proof {
            assert(pages@.take(i as int + 1) =~= pages@.take(i as int).push(pages@[i as int]));
            lemma_pages_flat_push(pages@.take(i as int), pages@[i as int]);
            assert((spec_u16_be(pages@.len() as u16) + spec_pages_flat(pages@.take(i as int)))
                + spec_u16_be(pages@[i as int]) =~= spec_u16_be(pages@.len() as u16) + (
            spec_pages_flat(pages@.take(i as int)) + spec_u16_be(pages@[i as int])));
        }
        i = i + 1;
    }
    proof {
        assert(pages@.take(pages@.len() as int) =~= pages@);
    }
    let ck = xor_checksum(body.as_slice(), 0);
    body.push(ck);
    match port.write_all(body.as_slice()) {
        Ok(()) => {},
        Err(e) => {
            return Err(e);
        },
    }
    proof {
        assert(old(port).sent() + spec_command_frame(CommandKind::ExtendedEraseMemory) + (
        spec_u16_be(pages@.len() as u16) + spec_pages_flat(pages@)).push(
            crate::wire::xor_fold(spec_u16_be(pages@.len() as u16) + spec_pages_flat(pages@), 0),
        ) =~= old(port).sent() + spec_extended_erase_frame(pages@));
    }
    let b1 = match port.read_byte() {
        Ok(b) => b,
        Err(e) => {
            proof {
                lemma_stage_failure(s, 1, 2, CommandKind::ExtendedEraseMemory);
            }
            return Err(e);
        },
    };
    if b1 != ACK {
        proof {
            assert(s.skip(1)[0] == s[1]);
            lemma_stage_failure(s, 1, 2, CommandKind::ExtendedEraseMemory);
        }
        return Err(FlashError::Protocol { command: CommandKind::ExtendedEraseMemory, byte: b1 });
    }
    proof {
        assert(s.skip(1)[0] == s[1]);
        assert(all_acks(s, 2));
        assert(s.skip(1).drop_first() =~= s.skip(2));
    }
    Ok(())
}

/// The sentinel codes of the special extended-erase commands, each a fixed
/// 16-bit value distinct from any valid page index.
#[derive(Clone, Copy, Debug, PartialEq, Eq, Structural)]
pub enum SpecialEraseType {
    MassErase,
    Bank1Erase,
    Bank2Erase,
}

/// The 16-bit sentinel of each special erase code.
pub open spec fn spec_special_code(t: SpecialEraseType) -> u16 {
    match t {
        SpecialEraseType::MassErase => 0xFFFF,
        SpecialEraseType::Bank1Erase => 0xFFFE,
        SpecialEraseType::Bank2Erase => 0xFFFD,
    }
}

/// Returns the 16-bit sentinel of a special erase code.
pub fn special_code(t: SpecialEraseType) -> (c: u16)
    ensures
        c == spec_special_code(t),
{
    match t {
        SpecialEraseType::MassErase => 0xFFFF,
        SpecialEraseType::Bank1Erase => 0xFFFE,
        SpecialEraseType::Bank2Erase => 0xFFFD,
    }
}

/// Issues a special extended erase (mass or bank erase): the extended erase
/// command, then the two-byte sentinel and its checksum, each stage
/// acknowledged. A mass erase may outlast the read timeout even though the
/// device completes it; the session layer treats that timeout as
/// recoverable.
pub fn extended_erase_special<T: Transport>(port: &mut T, cmd: SpecialEraseType) -> (r: Result<
    (),
    FlashError,
>)
    ensures
        final(port).timeout_ms() == old(port).timeout_ms(),
        ({
            let s = old(port).incoming();
            &&& (r is Ok <==> all_acks(s, 2))
            &&& (r is Ok ==> final(port).incoming() == s.skip(2))
            &&& (!all_acks(s, 1) ==> final(port).sent() == old(port).sent() + spec_command_frame(
                CommandKind::ExtendedEraseMemory,
            ))
            &&& (all_acks(s, 1) ==> final(port).sent() == old(port).sent()
                + spec_special_erase_frame(spec_special_code(cmd)))
            &&& (!all_acks(s, 2) ==> r == Err::<(), FlashError>(
                ack_failure(s, 2, CommandKind::ExtendedEraseMemory),
            ))
        }),
{
    let ghost s = old(port).incoming();
    let frame = command_frame(CommandKind::ExtendedEraseMemory);
    match port.write_all(frame.as_slice()) {
        Ok(()) => {},
        Err(e) => {
            return Err(e);
        },
    }
    let b0 = match port.read_byte() {
        Ok(b) => b,
        Err(e) => {
            proof {
                lemma_stage_failure(s, 0, 2, CommandKind::ExtendedEraseMemory);
            }
            return Err(e);
        },
    };
    if b0 != ACK {
        proof {
            lemma_stage_failure(s, 0, 2, CommandKind::ExtendedEraseMemory);
        }
        return Err(FlashError::Protocol { command: CommandKind::ExtendedEraseMemory, byte: b0 });
    }
    proof {
        assert(s.drop_first() =~= s.skip(1));
        assert(all_acks(s, 1));
    }
    let mut body = u16_be(special_code(cmd));
    let ck = xor_checksum(body.as_slice(), 0);
    body.push(ck);
    match port.write_all(body.as_slice()) {
        Ok(()) => {},
        Err(e) => {
            return Err(e);
        },
    }
    proof {
        assert(old(port).sent() + spec_command_frame(CommandKind::ExtendedEraseMemory)
            + spec_u16_be(spec_special_code(cmd)).push(
            crate::wire::xor_fold(spec_u16_be(spec_special_code(cmd)), 0),
        ) =~= old(port).sent() + spec_special_erase_frame(spec_special_code(cmd)));
    }
    let b1 = match port.read_byte() {
        Ok(b) => b,
        Err(e) => {
            proof {
                lemma_stage_failure(s, 1, 2, CommandKind::ExtendedEraseMemory);
            }
            return Err(e);
        },
    };
    if b1 != ACK {
        proof {
            assert(s.skip(1)[0] == s[1]);
            lemma_stage_failure(s, 1, 2, CommandKind::ExtendedEraseMemory);
        }
        return Err(FlashError::Protocol { command: CommandKind::ExtendedEraseMemory, byte: b1 });
    }
    proof {
        assert(s.skip(1)[0] == s[1]);
        assert(all_acks(s, 2));
        assert(s.skip(1).drop_first() =~= s.skip(2));
    }
    Ok(())
}

/// Writes `data` to consecutive target memory starting at `address`, in
/// blocks of at most 256 bytes whose addresses advance by the length of
/// every prior block: the block writes exactly tile the data, in increasing
/// address order, and stop at the first block the target refuses.
pub fn write_memory<T: Transport>(port: &mut T, address: u32, data: &[u8]) -> (r: Result<
    (),
    FlashError,
>)
    requires
        address + data@.len() <= 0x1_0000_0000,
    ensures
        final(port).timeout_ms() == old(port).timeout_ms(),
        ({
            let s = old(port).incoming();
            let nb = spec_write_blocks(address, data@).len() as int;
            &&& (r is Ok <==> all_acks(s, 3 * nb))
            &&& (r is Ok ==> final(port).incoming() == s.skip(3 * nb) && final(port).sent() == old(
                port,
            ).sent() + spec_write_memory_frames(address, data@))
            &&& (!all_acks(s, 3 * nb) ==> r == Err::<(), FlashError>(
                ack_failure(s, 3 * nb, CommandKind::WriteMemory),
            ))
            &&& (!all_acks(s, 3 * nb) ==> ({
                let k = acked_blocks(s);
                let blocks = spec_write_blocks(address, data@);
                let t = s.skip(3 * k);
                &&& 0 <= k < nb
                &&& (!all_acks(t, 1) ==> final(port).sent() == old(port).sent()
                    + spec_blocks_frames(blocks.take(k)) + spec_command_frame(
                    CommandKind::WriteMemory,
                ))
                &&& (all_acks(t, 1) && !all_acks(t, 2) ==> final(port).sent() == old(port).sent()
                    + spec_blocks_frames(blocks.take(k)) + spec_command_frame(
                    CommandKind::WriteMemory,
                ) + spec_addr_frame(blocks[k].0, 0x00))
                &&& (all_acks(t, 2) ==> final(port).sent() == old(port).sent()
                    + spec_blocks_frames(blocks.take(k)) + spec_write_block_frame(
                    blocks[k].0,
                    blocks[k].1,
                ))
            }))
        }),
{
    let ghost s = old(port).incoming();
    let ghost all_blocks = spec_write_blocks(address, data@);
    let mut offset: usize = 0;
    let ghost mut done: int = 0;
    proof {
        assert(s.skip(0) =~= s);
        assert(all_blocks.take(0) =~= Seq::<(u32, Seq<u8>)>::empty());
        assert(spec_blocks_frames(Seq::<(u32, Seq<u8>)>::empty()) == Seq::<u8>::empty());
        assert(old(port).sent() + Seq::<u8>::empty() =~= old(port).sent());
        assert(all_blocks.skip(0) =~= all_blocks);
        assert(data@.skip(0) =~= data@);
    }
    while offset < data.len()
        invariant
            address + data@.len() <= 0x1_0000_0000,
            offset <= data@.len(),
            0 <= done <= all_blocks.len(),
            all_blocks == spec_write_blocks(address, data@),
            s == old(port).incoming(),
            all_acks(s, 3 * done),
            port.incoming() == s.skip(3 * done),
            port.sent() == old(port).sent() + spec_blocks_frames(all_blocks.take(done)),
            port.timeout_ms() == old(port).timeout_ms(),
            all_blocks.skip(done) == spec_write_blocks(
                (address + offset) as u32,
                data@.skip(offset as int),
            ),
        decreases data@.len() - offset,
    {
        let remaining = data.len() - offset;
        let block_size = if remaining > 256 {
            256
        } else {
            remaining
        };
        let chunk = vstd::slice::slice_subrange(data, offset, offset + block_size);
        let baddr = address + offset as u32;
        let ghost rem = data@.skip(offset as int);
        proof {
            assert(rem.len() == data@.len() - offset > 0);
            assert(all_blocks.skip(done).len() >= 1);
            assert(done < all_blocks.len());
            assert(chunk@ =~= rem.take(block_size as int));
            assert(all_blocks[done] == all_blocks.skip(done)[0]);
            assert(all_blocks.skip(done)[0] == (baddr, rem.take(block_size as int)));
        }
        match write_memory_block(port, baddr, chunk) {
            Ok(()) => {},
            Err(e) => {
                proof {
                    lemma_ack_failure_mono(
                        s.skip(3 * done),
                        3,
                        3 * all_blocks.len() as int - 3 * done,
                        CommandKind::WriteMemory,
                    );
                    lemma_ack_failure_skip(
                        s,
                        3 * done,
                        3 * all_blocks.len() as int,
                        CommandKind::WriteMemory,
                    );
                    lemma_acked_blocks_at(s, done);
                }
                return Err(e);
            },
        }
        proof {
            lemma_all_acks_split(s, 3 * done, 3 * done + 3);
            assert(s.skip(3 * done).skip(3) =~= s.skip(3 * done + 3));
            assert(all_blocks.take(done + 1) =~= all_blocks.take(done).push(all_blocks[done]));
            assert(all_blocks.take(done).push(all_blocks[done]) =~= all_blocks.take(done) + seq![
                all_blocks[done],
            ]);
            lemma_blocks_frames_concat(all_blocks.take(done), seq![all_blocks[done]]);
            assert(spec_blocks_frames(seq![all_blocks[done]]) == spec_write_block_frame(
                baddr,
                rem.take(block_size as int),
            ) + Seq::<u8>::empty()) by {
                let single = seq![all_blocks[done]];
                assert(single.first() == all_blocks[done]);
                assert(single.drop_first() =~= Seq::<(u32, Seq<u8>)>::empty());
                assert(spec_blocks_frames(Seq::<(u32, Seq<u8>)>::empty()) == Seq::<u8>::empty());
                assert(all_blocks[done].0 == baddr);
                assert(all_blocks[done].1 == rem.take(block_size as int));
                assert(spec_blocks_frames(single) == spec_write_block_frame(
                    single.first().0,
                    single.first().1,
                ) + spec_blocks_frames(single.drop_first()));
            }
            assert(spec_write_block_frame(baddr, rem.take(block_size as int)) + Seq::<u8>::empty()
                =~= spec_write_block_frame(baddr, rem.take(block_size as int)));
            assert((old(port).sent() + spec_blocks_frames(all_blocks.take(done)))
                + spec_write_block_frame(baddr, rem.take(block_size as int)) =~= old(port).sent()
                + (spec_blocks_frames(all_blocks.take(done)) + spec_write_block_frame(
                baddr,
                rem.take(block_size as int),
            )));
            assert(all_blocks.skip(done + 1) =~= all_blocks.skip(done).drop_first());
            assert(rem.skip(block_size as int) =~= data@.skip(offset as int + block_size as int));
            done = done + 1;
        }
        offset = offset + block_size;
    }
    proof {
        assert(data@.skip(offset as int).len() == 0);
        assert(data@.skip(offset as int) =~= Seq::<u8>::empty());
        assert(spec_write_blocks((address + offset) as u32, Seq::<u8>::empty()) == Seq::<
            (u32, Seq<u8>),
        >::empty());
        assert(all_blocks.skip(done).len() == 0);
        assert(done == all_blocks.len());
        assert(all_blocks.take(done) =~= all_blocks);
    }
    Ok(())
}

/// Flashes the raw contents of a firmware file, already loaded by the
/// caller: erases pages 0 and 1 (a fixed policy, not computed from the image
/// size), then writes the whole image at `address`.
pub fn flash_file<T: Transport>(port: &mut T, data: &[u8], address: u32) -> (r: Result<
    (),
    FlashError,
>)
    requires
        address + data@.len() <= 0x1_0000_0000,
    ensures
        final(port).timeout_ms() == old(port).timeout_ms(),
        ({
            let s = old(port).incoming();
            let nb = spec_write_blocks(address, data@).len() as int;
            &&& (r is Ok <==> all_acks(s, 2) && all_acks(s.skip(2), 3 * nb))
            &&& (r is Ok ==> final(port).incoming() == s.skip(2 + 3 * nb) && final(port).sent()
                == old(port).sent() + spec_extended_erase_frame(seq![0u16, 1u16])
                + spec_write_memory_frames(address, data@))
            &&& (!all_acks(s, 2) ==> r == Err::<(), FlashError>(
                ack_failure(s, 2, CommandKind::ExtendedEraseMemory),
            ))
            &&& (all_acks(s, 2) && !all_acks(s.skip(2), 3 * nb) ==> r == Err::<(), FlashError>(
                ack_failure(s.skip(2), 3 * nb, CommandKind::WriteMemory),
            ))
            &&& (!all_acks(s, 1) ==> final(port).sent() == old(port).sent() + spec_command_frame(
                CommandKind::ExtendedEraseMemory,
            ))
            &&& (all_acks(s, 1) && !all_acks(s, 2) ==> final(port).sent() == old(port).sent()
                + spec_extended_erase_frame(seq![0u16, 1u16]))
            &&& (all_acks(s, 2) && !all_acks(s.skip(2), 3 * nb) ==> ({
                let u = s.skip(2);
                let k = acked_blocks(u);
                let blocks = spec_write_blocks(address, data@);
                let t = u.skip(3 * k);
                let base = old(port).sent() + spec_extended_erase_frame(seq![0u16, 1u16]);
                &&& 0 <= k < nb
                &&& (!all_acks(t, 1) ==> final(port).sent() == base + spec_blocks_frames(
                    blocks.take(k),
                ) + spec_command_frame(CommandKind::WriteMemory))
                &&& (all_acks(t, 1) && !all_acks(t, 2) ==> final(port).sent() == base
                    + spec_blocks_frames(blocks.take(k)) + spec_command_frame(
                    CommandKind::WriteMemory,
                ) + spec_addr_frame(blocks[k].0, 0x00))
                &&& (all_acks(t, 2) ==> final(port).sent() == base + spec_blocks_frames(
                    blocks.take(k),
                ) + spec_write_block_frame(blocks[k].0, blocks[k].1))
            }))
        }),
{
    let ghost s = old(port).incoming();
    let pages = vec![0u16, 1u16];
    proof {
        assert(pages@ =~= seq![0u16, 1u16]);
    }
    match extended_erase(port, pages.as_slice()) {
        Ok(()) => {},
        Err(e) => {
            return Err(e);
        },
    }
    let r = write_memory(port, address, data);
    proof {
        if r is Ok {
            assert(s.skip(2).skip(3 * spec_write_blocks(address, data@).len() as int) =~= s.skip(
                2 + 3 * spec_write_blocks(address, data@).len() as int,
            ));
            assert((old(port).sent() + spec_extended_erase_frame(seq![0u16, 1u16]))
                + spec_write_memory_frames(address, data@) =~= old(port).sent() + (
            spec_extended_erase_frame(seq![0u16, 1u16]) + spec_write_memory_frames(
                address,
                data@,
            )));
            assert(old(port).sent() + (spec_extended_erase_frame(seq![0u16, 1u16])
                + spec_write_memory_frames(address, data@)) =~= old(port).sent()
                + spec_extended_erase_frame(seq![0u16, 1u16]) + spec_write_memory_frames(
                address,
                data@,
            ));
        }
    }
    r
}

} // verus!
