//! Tests of the protocol codec against a scripted transport.
use stm32_firmware_loader::codec::{
    erase_memory, erase_memory_global, extended_erase, extended_erase_special, flash_file, get,
    get_id, get_version, go, hello, read_memory, write_memory, write_memory_block,
    SpecialEraseType,
};
use stm32_firmware_loader::errors::{CommandKind, FlashError};
use stm32_firmware_loader::transport::SimTransport;
use stm32_firmware_loader::wire::{xor_checksum, ACK, NACK};

fn port_with(script: Vec<u8>) -> SimTransport {
    SimTransport::new(script)
}

fn xor(data: &[u8], seed: u8) -> u8 {
    data.iter().fold(seed, |acc, &b| acc ^ b)
}

#[test]
fn hello_succeeds_on_ack() {
    let mut port = port_with(vec![ACK]);
    assert_eq!(hello(&mut port), Ok(()));
    assert_eq!(port.outbox, vec![0x7F]);
}

#[test]
fn hello_fails_on_other_byte() {
    let mut port = port_with(vec![NACK]);
    assert_eq!(
        hello(&mut port),
        Err(FlashError::Protocol { command: CommandKind::Hello, byte: NACK })
    );
}

#[test]
fn hello_fails_on_timeout() {
    let mut port = port_with(vec![]);
    assert_eq!(hello(&mut port), Err(FlashError::Timeout));
    assert_eq!(port.outbox, vec![0x7F]);
}

#[test]
fn get_returns_payload() {
    let mut port = port_with(vec![ACK, 3, 0x05, 0x00, 0x44, ACK]);
    assert_eq!(get(&mut port), Ok(vec![0x05, 0x00, 0x44]));
    assert_eq!(port.outbox, vec![0x00, 0xFF]);
}

#[test]
fn get_fails_without_trailing_ack() {
    let mut port = port_with(vec![ACK, 1, 0x05, NACK]);
    assert_eq!(
        get(&mut port),
        Err(FlashError::Protocol { command: CommandKind::Get, byte: NACK })
    );
}

#[test]
fn get_version_parses_version_and_flags() {
    let mut port = port_with(vec![ACK, 0x10, 0x01, 0x02, ACK]);
    assert_eq!(get_version(&mut port), Ok((0x10, vec![0x01, 0x02])));
    assert_eq!(port.outbox, vec![0x01, 0xFE]);
}

#[test]
fn get_version_fails_on_short_response() {
    let mut port = port_with(vec![ACK, 0x10]);
    assert_eq!(get_version(&mut port), Err(FlashError::Timeout));
}

#[test]
fn get_id_is_big_endian() {
    let mut port = port_with(vec![ACK, 1, 0x04, 0x12, ACK]);
    assert_eq!(get_id(&mut port), Ok(0x0412));
    assert_eq!(port.outbox, vec![0x02, 0xFD]);
}

#[test]
fn read_memory_frames_and_returns_data() {
    let mut port = port_with(vec![ACK, ACK, ACK, 1, 2, 3, 4]);
    assert_eq!(read_memory(&mut port, 0x08000000, 4), Ok(vec![1, 2, 3, 4]));
    // Command, address with checksum seeded 0xFF, count with complement;
    // no trailing acknowledge is consumed after the data.
    assert_eq!(
        port.outbox,
        vec![0x11, 0xEE, 0x08, 0x00, 0x00, 0x00, 0xF7, 4, 4 ^ 0xFF]
    );
}

#[test]
fn read_memory_times_out_when_data_is_short() {
    let mut port = port_with(vec![ACK, ACK, ACK, 1, 2]);
    assert_eq!(read_memory(&mut port, 0x08000000, 4), Err(FlashError::Timeout));
}

#[test]
fn go_frames_address_with_ff_seed() {
    let mut port = port_with(vec![ACK, ACK]);
    assert_eq!(go(&mut port, 0x08000000), Ok(()));
    assert_eq!(port.outbox, vec![0x21, 0xDE, 0x08, 0x00, 0x00, 0x00, 0xF7]);
}

#[test]
fn write_memory_block_frames_address_with_zero_seed() {
    let mut port = port_with(vec![ACK, ACK, ACK]);
    assert_eq!(write_memory_block(&mut port, 0x08000000, &[1, 2, 3]), Ok(()));
    // Address checksum is the XOR of the four raw address bytes (seed 0);
    // the payload checksum folds the length byte and the data.
    assert_eq!(
        port.outbox,
        vec![0x31, 0xCE, 0x08, 0x00, 0x00, 0x00, 0x08, 2, 1, 2, 3, 2 ^ 1 ^ 2 ^ 3]
    );
}

#[test]
fn address_checksum_seeds_differ_by_ff() {
    // The same address, framed by a write block (seed 0) and by a read
    // (seed 0xFF): the two checksum bytes differ by exactly 0xFF.
    let address = 0x08001234u32;
    let mut wport = port_with(vec![ACK, ACK, ACK]);
    write_memory_block(&mut wport, address, &[0x55]).unwrap();
    let mut rport = port_with(vec![ACK, ACK, ACK, 0x00]);
    read_memory(&mut rport, address, 1).unwrap();
    let write_ck = wport.outbox[6];
    let read_ck = rport.outbox[6];
    assert_eq!(write_ck ^ read_ck, 0xFF);
    assert_eq!(write_ck, xor(&address.to_be_bytes(), 0x00));
    assert_eq!(read_ck, xor(&address.to_be_bytes(), 0xFF));
}

#[test]
fn write_memory_block_rejected_by_target() {
    let mut port = port_with(vec![ACK, NACK]);
    assert_eq!(
        write_memory_block(&mut port, 0x08000000, &[9]),
        Err(FlashError::Protocol { command: CommandKind::WriteMemory, byte: NACK })
    );
}

#[test]
fn erase_memory_length_and_checksum() {
    let mut port = port_with(vec![ACK, ACK]);
    assert_eq!(erase_memory(&mut port, &[1, 2, 3]), Ok(()));
    // Length byte is the sector count minus one; the checksum folds it
    // with every sector index.
    assert_eq!(port.outbox, vec![0x43, 0xBC, 2, 1, 2, 3, 2 ^ 1 ^ 2 ^ 3]);
}

#[test]
fn erase_memory_refused_sends_only_command() {
    // A refusal of the command stage: nothing beyond the two command bytes
    // is ever written.
    let mut port = port_with(vec![NACK]);
    assert_eq!(
        erase_memory(&mut port, &[1, 2, 3]),
        Err(FlashError::Protocol { command: CommandKind::EraseMemory, byte: NACK })
    );
    assert_eq!(port.outbox, vec![0x43, 0xBC]);
}

#[test]
fn write_memory_block_payload_sent_despite_refused_final_ack() {
    // Once command and address are acknowledged the payload goes out,
    // whatever the final response byte is.
    let mut port = port_with(vec![ACK, ACK, NACK]);
    assert_eq!(
        write_memory_block(&mut port, 0x08000000, &[9]),
        Err(FlashError::Protocol { command: CommandKind::WriteMemory, byte: NACK })
    );
    assert_eq!(
        port.outbox,
        vec![0x31, 0xCE, 0x08, 0x00, 0x00, 0x00, 0x08, 0, 9, 9]
    );
}

#[test]
fn extended_erase_payload_sent_despite_refused_final_ack() {
    let mut port = port_with(vec![ACK, NACK]);
    assert_eq!(
        extended_erase(&mut port, &[0, 1]),
        Err(FlashError::Protocol { command: CommandKind::ExtendedEraseMemory, byte: NACK })
    );
    assert_eq!(
        port.outbox,
        vec![0x44, 0xBB, 0x00, 0x02, 0x00, 0x00, 0x00, 0x01, 0x03]
    );
}

#[test]
fn erase_memory_single_sector() {
    let mut port = port_with(vec![ACK, ACK]);
    assert_eq!(erase_memory(&mut port, &[7]), Ok(()));
    assert_eq!(port.outbox, vec![0x43, 0xBC, 0, 7, 7]);
}

#[test]
fn erase_memory_global_sends_sentinel_without_checksum() {
    let mut port = port_with(vec![ACK, ACK]);
    assert_eq!(erase_memory_global(&mut port), Ok(()));
    assert_eq!(port.outbox, vec![0x43, 0xBC, 0xFF, 0x00]);
}

#[test]
fn extended_erase_counts_and_checksums_pages() {
    let mut port = port_with(vec![ACK, ACK]);
    assert_eq!(extended_erase(&mut port, &[0, 1]), Ok(()));
    assert_eq!(
        port.outbox,
        vec![0x44, 0xBB, 0x00, 0x02, 0x00, 0x00, 0x00, 0x01, 0x03]
    );
}

#[test]
fn extended_erase_special_mass_erase_frame() {
    let mut port = port_with(vec![ACK, ACK]);
    assert_eq!(extended_erase_special(&mut port, SpecialEraseType::MassErase), Ok(()));
    assert_eq!(port.outbox, vec![0x44, 0xBB, 0xFF, 0xFF, 0x00]);
}

#[test]
fn extended_erase_special_bank_codes() {
    let mut port = port_with(vec![ACK, ACK]);
    extended_erase_special(&mut port, SpecialEraseType::Bank1Erase).unwrap();
    assert_eq!(&port.outbox[2..], &[0xFF, 0xFE, 0x01]);
    let mut port = port_with(vec![ACK, ACK]);
    extended_erase_special(&mut port, SpecialEraseType::Bank2Erase).unwrap();
    assert_eq!(&port.outbox[2..], &[0xFF, 0xFD, 0x02]);
}

fn expected_block_frame(address: u32, data: &[u8]) -> Vec<u8> {
    let mut frame = vec![0x31, 0xCE];
    let addr = address.to_be_bytes();
    frame.extend_from_slice(&addr);
    frame.push(xor(&addr, 0x00));
    let length = (data.len() - 1) as u8;
    frame.push(length);
    frame.extend_from_slice(data);
    frame.push(xor(data, length));
    frame
}

#[test]
fn write_memory_tiles_300_bytes_into_two_blocks() {
    // 300 bytes at 0x08000000: exactly two block writes, 256 bytes at
    // 0x08000000 and 44 bytes at 0x08000100, in increasing address order.
    let data: Vec<u8> = (0..300u32).map(|i| (i % 256) as u8).collect();
    let mut port = port_with(vec![ACK; 6]);
    assert_eq!(write_memory(&mut port, 0x08000000, &data), Ok(()));
    let mut expected = expected_block_frame(0x08000000, &data[..256]);
    expected.extend_from_slice(&expected_block_frame(0x08000100, &data[256..]));
    assert_eq!(port.outbox, expected);
    assert_eq!(port.cursor, 6);
}

#[test]
fn write_memory_of_nothing_writes_nothing() {
    let mut port = port_with(vec![]);
    assert_eq!(write_memory(&mut port, 0x08000000, &[]), Ok(()));
    assert!(port.outbox.is_empty());
}

#[test]
fn write_memory_stops_at_first_refused_block() {
    let data: Vec<u8> = vec![0xAB; 300];
    // First block acknowledged fully, second refused at its first stage.
    let mut port = port_with(vec![ACK, ACK, ACK, NACK]);
    assert_eq!(
        write_memory(&mut port, 0x08000000, &data),
        Err(FlashError::Protocol { command: CommandKind::WriteMemory, byte: NACK })
    );
    // The first block's full frame went out, then only the second block's
    // command bytes: no later block data ever reaches the port.
    let mut expected = expected_block_frame(0x08000000, &data[..256]);
    expected.extend_from_slice(&[0x31, 0xCE]);
    assert_eq!(port.outbox, expected);
}

#[test]
fn flash_file_erases_first_two_pages_then_writes() {
    let data = vec![1u8, 2, 3, 4, 5];
    let mut port = port_with(vec![ACK; 5]);
    assert_eq!(flash_file(&mut port, &data, 0x08000000), Ok(()));
    let mut expected = vec![0x44, 0xBB, 0x00, 0x02, 0x00, 0x00, 0x00, 0x01, 0x03];
    expected.extend_from_slice(&expected_block_frame(0x08000000, &data));
    assert_eq!(port.outbox, expected);
}

#[test]
fn xor_checksum_folds_from_seed() {
    assert_eq!(xor_checksum(&[], 0xFF), 0xFF);
    assert_eq!(xor_checksum(&[0x08, 0x00, 0x00, 0x00], 0xFF), 0xF7);
    assert_eq!(xor_checksum(&[1, 2, 3], 0), 0);
}
