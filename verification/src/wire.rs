//! The byte-level vocabulary of the bootloader protocol: checksums, big-endian
//! encodings, command frames, and the shape of acknowledge sequences.
use vstd::prelude::*;
use crate::errors::{CommandKind, FlashError};

verus! {

/// The single byte that acknowledges a protocol stage.
pub const ACK: u8 = 0x79;
/// The explicit negative acknowledge byte.
pub const NACK: u8 = 0x1F;
/// The synchronization byte that opens a session.
pub const HELLO_BYTE: u8 = 0x7F;

/// XOR-fold of a byte sequence, starting from `seed`.
pub open spec fn xor_fold(s: Seq<u8>, seed: u8) -> u8
    decreases s.len(),
{
    if s.len() == 0 {
        seed
    } else {
        xor_fold(s.drop_first(), seed ^ s.first())
    }
}

/// The seed factors out of an XOR-fold.
pub proof fn lemma_xor_fold_seed(s: Seq<u8>, seed: u8)
    ensures
        xor_fold(s, seed) == seed ^ xor_fold(s, 0),
    decreases s.len(),
{
    if s.len() == 0 {
        assert(seed ^ 0u8 == seed) by (bit_vector);
    } else {
        let b = s.first();
        lemma_xor_fold_seed(s.drop_first(), seed ^ b);
        lemma_xor_fold_seed(s.drop_first(), 0u8 ^ b);
        let t = xor_fold(s.drop_first(), 0);
        assert((seed ^ b) ^ t == seed ^ ((0u8 ^ b) ^ t)) by (bit_vector);
    }
}

/// The four bytes of a 32-bit value, most significant first.
pub open spec fn spec_u32_be(a: u32) -> Seq<u8> {
    seq![
        ((a >> 24) & 0xFF) as u8,
        ((a >> 16) & 0xFF) as u8,
        ((a >> 8) & 0xFF) as u8,
        (a & 0xFF) as u8,
    ]
}

/// The two bytes of a 16-bit value, most significant first.
pub open spec fn spec_u16_be(a: u16) -> Seq<u8> {
    seq![((a >> 8) & 0xFF) as u8, (a & 0xFF) as u8]
}

/// Opcode of each command; for `Hello` it is the synchronization byte itself.
pub open spec fn spec_opcode(c: CommandKind) -> u8 {
    match c {
        CommandKind::Hello => HELLO_BYTE,
        CommandKind::Get => 0x00,
        CommandKind::GetVersion => 0x01,
        CommandKind::GetId => 0x02,
        CommandKind::ReadMemory => 0x11,
        CommandKind::Go => 0x21,
        CommandKind::WriteMemory => 0x31,
        CommandKind::EraseMemory => 0x43,
        CommandKind::ExtendedEraseMemory => 0x44,
    }
}

/// A command frame: the opcode followed by its complement.
pub open spec fn spec_command_frame(c: CommandKind) -> Seq<u8> {
    seq![spec_opcode(c), spec_opcode(c) ^ 0xFF]
}

/// An address frame: four big-endian address bytes followed by their
/// XOR-fold from `seed`.
pub open spec fn spec_addr_frame(address: u32, seed: u8) -> Seq<u8> {
    spec_u32_be(address).push(xor_fold(spec_u32_be(address), seed))
}

/// A length-prefixed payload: the item count minus one, the items, and the
/// XOR-fold of the items seeded with that length byte.
pub open spec fn spec_counted_payload(items: Seq<u8>) -> Seq<u8>
    recommends
        1 <= items.len() <= 256,
{
    let len_byte = (items.len() - 1) as u8;
    seq![len_byte] + items + seq![xor_fold(items, len_byte)]
}

/// The full frame of one memory-write block: command, address frame seeded
/// with 0, and the length-prefixed data payload.
pub open spec fn spec_write_block_frame(address: u32, data: Seq<u8>) -> Seq<u8>
    recommends
        1 <= data.len() <= 256,
{
    spec_command_frame(CommandKind::WriteMemory) + spec_addr_frame(address, 0x00)
        + spec_counted_payload(data)
}

/// The full frame of a sector erase: command and length-prefixed sector list.
pub open spec fn spec_erase_frame(sectors: Seq<u8>) -> Seq<u8>
    recommends
        1 <= sectors.len() <= 256,
{
    spec_command_frame(CommandKind::EraseMemory) + spec_counted_payload(sectors)
}

/// The full frame of a global erase: the erase command and the fixed
/// two-byte sentinel 0xFF00, with no checksum.
pub open spec fn spec_global_erase_frame() -> Seq<u8> {
    spec_command_frame(CommandKind::EraseMemory) + seq![0xFFu8, 0x00u8]
}

/// The page indices of an extended erase, flattened to big-endian bytes.
pub open spec fn spec_pages_flat(pages: Seq<u16>) -> Seq<u8>
    decreases pages.len(),
{
    if pages.len() == 0 {
        Seq::empty()
    } else {
        spec_u16_be(pages.first()) + spec_pages_flat(pages.drop_first())
    }
}

/// The full frame of an extended erase: command, big-endian page count, the
/// page indices, and the XOR-fold of count and indices seeded with 0.
pub open spec fn spec_extended_erase_frame(pages: Seq<u16>) -> Seq<u8>
    recommends
        pages.len() <= 0xFFFF,
{
    let body = spec_u16_be(pages.len() as u16) + spec_pages_flat(pages);
    spec_command_frame(CommandKind::ExtendedEraseMemory) + body.push(xor_fold(body, 0))
}

/// The full frame of a special extended erase: command, the two-byte
/// sentinel code, and the XOR-fold of those two bytes seeded with 0.
pub open spec fn spec_special_erase_frame(code: u16) -> Seq<u8> {
    let body = spec_u16_be(code);
    spec_command_frame(CommandKind::ExtendedEraseMemory) + body.push(xor_fold(body, 0))
}

/// The full frame of a jump command: command and address frame seeded 0xFF.
pub open spec fn spec_go_frame(address: u32) -> Seq<u8> {
    spec_command_frame(CommandKind::Go) + spec_addr_frame(address, 0xFF)
}

/// Everything a memory read sends: command, address frame seeded 0xFF, then
/// the byte count and its complement.
pub open spec fn spec_read_memory_frame(address: u32, num_bytes: u8) -> Seq<u8> {
    spec_command_frame(CommandKind::ReadMemory) + spec_addr_frame(address, 0xFF)
        + seq![num_bytes, num_bytes ^ 0xFF]
}

/// The block writes a chunked memory write performs: each entry is the
/// address and data of one block of at most 256 bytes, in increasing address
/// order, together exactly tiling `data` from `address` on.
pub open spec fn spec_write_blocks(address: u32, data: Seq<u8>) -> Seq<(u32, Seq<u8>)>
    recommends
        address + data.len() <= 0x1_0000_0000,
    decreases data.len(),
{
    if data.len() == 0 {
        Seq::empty()
    } else {
        let n = if data.len() > 256 {
            256int
        } else {
            data.len() as int
        };
        seq![(address, data.take(n))] + spec_write_blocks((address + n) as u32, data.skip(n))
    }
}

/// The concatenated frames of a list of block writes.
pub open spec fn spec_blocks_frames(blocks: Seq<(u32, Seq<u8>)>) -> Seq<u8>
    decreases blocks.len(),
{
    if blocks.len() == 0 {
        Seq::empty()
    } else {
        spec_write_block_frame(blocks.first().0, blocks.first().1) + spec_blocks_frames(
            blocks.drop_first(),
        )
    }
}

/// Everything a chunked memory write sends when every block is acknowledged.
pub open spec fn spec_write_memory_frames(address: u32, data: Seq<u8>) -> Seq<u8> {
    spec_blocks_frames(spec_write_blocks(address, data))
}

/// The first `n` incoming bytes are present and all acknowledge.
pub open spec fn all_acks(s: Seq<u8>, n: int) -> bool {
    &&& s.len() >= n
    &&& forall|i: int| 0 <= i < n ==> s[i] == ACK
}

/// The error produced by the first of `n` expected acknowledge bytes that is
/// missing (`Timeout`) or is not `ACK` (`Protocol`).
pub open spec fn ack_failure(s: Seq<u8>, n: int, c: CommandKind) -> FlashError
    recommends
        !all_acks(s, n),
    decreases n,
{
    if n <= 0 || s.len() == 0 {
        FlashError::Timeout
    } else if s[0] != ACK {
        FlashError::Protocol { command: c, byte: s[0] }
    } else {
        ack_failure(s.drop_first(), n - 1, c)
    }
}

/// Some of the first `n` available bytes acknowledges; the bytes before it do
/// not. This is what a bounded handshake retry can observe.
pub open spec fn ack_within(s: Seq<u8>, n: int) -> bool
    decreases n,
{
    if n <= 0 || s.len() == 0 {
        false
    } else if s[0] == ACK {
        true
    } else {
        ack_within(s.drop_first(), n - 1)
    }
}

/// Splitting an acknowledge run: the first `n` bytes all acknowledge exactly
/// when the first `m` do and the `n - m` after them do.
/// How many leading groups of three acknowledges the incoming bytes hold:
/// the number of block writes a chunked memory write completes before one
/// fails.
pub open spec fn acked_blocks(s: Seq<u8>) -> int
    decreases s.len(),
{
    if !all_acks(s, 3) {
        0
    } else {
        1 + acked_blocks(s.skip(3))
    }
}

/// `acked_blocks` finds the index of the failing block: the one whose three
/// expected acknowledges follow `k` fully acknowledged blocks and are not
/// all there.
pub proof fn lemma_acked_blocks_at(s: Seq<u8>, k: int)
    requires
        0 <= k,
        all_acks(s, 3 * k),
        !all_acks(s.skip(3 * k), 3),
    ensures
        acked_blocks(s) == k,
    decreases k,
{
    if k == 0 {
        assert(s.skip(0) =~= s);
    } else {
        lemma_all_acks_split(s, 3, 3 * k);
        assert(s.skip(3).skip(3 * (k - 1)) =~= s.skip(3 * k));
        lemma_acked_blocks_at(s.skip(3), k - 1);
    }
}

pub proof fn lemma_all_acks_split(s: Seq<u8>, m: int, n: int)
    requires
        0 <= m <= n,
    ensures
        all_acks(s, n) <==> (all_acks(s, m) && all_acks(s.skip(m), n - m)),
{
    if s.len() >= m {
        assert(s.skip(m).len() == s.len() - m);
        if all_acks(s, m) && all_acks(s.skip(m), n - m) {
            assert forall|i: int| 0 <= i < n implies s[i] == ACK by {
                if i >= m {
                    assert(s.skip(m)[i - m] == ACK);
                    assert(s.skip(m)[i - m] == s[i]);
                }
            }
        }
        if all_acks(s, n) {
            assert forall|i: int| 0 <= i < n - m implies s.skip(m)[i] == ACK by {
                assert(s.skip(m)[i] == s[m + i]);
                assert(s[m + i] == ACK);
            }
        }
    }
}

/// After `m` acknowledged bytes, a failure among the next `n - m` expected
/// acknowledges is the failure of the whole run of `n`.
pub proof fn lemma_ack_failure_skip(s: Seq<u8>, m: int, n: int, c: CommandKind)
    requires
        0 <= m <= n,
        all_acks(s, m),
        !all_acks(s.skip(m), n - m),
    ensures
        !all_acks(s, n),
        ack_failure(s, n, c) == ack_failure(s.skip(m), n - m, c),
    decreases m,
{
    lemma_all_acks_split(s, m, n);
    if m == 0 {
        assert(s.skip(0) =~= s);
    } else {
        assert(s[0] == ACK);
        assert(s.drop_first() =~= s.skip(1));
        assert forall|i: int| 0 <= i < m - 1 implies s.skip(1)[i] == ACK by {
            assert(s[1 + i] == ACK);
        }
        assert(s.skip(1).skip(m - 1) =~= s.skip(m));
        lemma_ack_failure_skip(s.skip(1), m - 1, n - 1, c);
        assert(n >= 1 && s.len() >= 1 && s[0] == ACK);
        assert(ack_failure(s, n, c) == ack_failure(s.drop_first(), n - 1, c));
    }
}

/// A failure among the first `n1` expected acknowledges is the same failure
/// for any longer run.
pub proof fn lemma_ack_failure_mono(s: Seq<u8>, n1: int, n2: int, c: CommandKind)
    requires
        1 <= n1 <= n2,
        !all_acks(s, n1),
    ensures
        !all_acks(s, n2),
        ack_failure(s, n2, c) == ack_failure(s, n1, c),
    decreases n1,
{
    if s.len() == 0 {
    } else if s[0] != ACK {
    } else {
        assert(s.drop_first() =~= s.skip(1));
        assert(!all_acks(s.skip(1), n1 - 1)) by {
            if all_acks(s.skip(1), n1 - 1) {
                assert forall|i: int| 0 <= i < n1 implies s[i] == ACK by {
                    if i >= 1 {
                        assert(s.skip(1)[i - 1] == ACK);
                        assert(s.skip(1)[i - 1] == s[i]);
                    }
                }
            }
        }
        lemma_ack_failure_mono(s.skip(1), n1 - 1, n2 - 1, c);
        assert forall|m: int| n1 <= m implies !all_acks(s, m) by {
            if all_acks(s, m) {
                assert forall|i: int| 0 <= i < n1 implies s[i] == ACK by {}
            }
        }
    }
}

/// An acknowledge found at position `k` among the first `n` bytes, with
/// nothing but refusals before it, witnesses `ack_within`.
pub proof fn lemma_ack_within_found(s: Seq<u8>, k: int, n: int)
    requires
        0 <= k < n,
        k < s.len(),
        s[k] == ACK,
        forall|j: int| 0 <= j < k ==> s[j] != ACK,
    ensures
        ack_within(s, n),
    decreases k,
{
    if k == 0 {
    } else {
        assert(s.drop_first() =~= s.skip(1));
        assert(s.skip(1)[k - 1] == s[k]);
        assert forall|j: int| 0 <= j < k - 1 implies s.skip(1)[j] != ACK by {
            assert(s.skip(1)[j] == s[j + 1]);
        }
        lemma_ack_within_found(s.skip(1), k - 1, n - 1);
    }
}

/// If none of the first `n` available bytes acknowledges, `ack_within` is
/// false.
pub proof fn lemma_ack_within_none(s: Seq<u8>, n: int)
    requires
        forall|j: int| 0 <= j < n && j < s.len() ==> s[j] != ACK,
    ensures
        !ack_within(s, n),
    decreases n,
{
    if n <= 0 || s.len() == 0 {
    } else {
        assert(s[0] != ACK);
        assert(s.drop_first() =~= s.skip(1));
        assert forall|j: int| 0 <= j < n - 1 && j < s.skip(1).len() implies s.skip(1)[j] != ACK by {
            assert(s.skip(1)[j] == s[j + 1]);
        }
        lemma_ack_within_none(s.skip(1), n - 1);
    }
}

/// Flattening one more page appends its two big-endian bytes.
pub proof fn lemma_pages_flat_push(pages: Seq<u16>, x: u16)
    ensures
        spec_pages_flat(pages.push(x)) == spec_pages_flat(pages) + spec_u16_be(x),
    decreases pages.len(),
{
    if pages.len() == 0 {
        assert(pages.push(x).drop_first() =~= Seq::<u16>::empty());
        assert(pages.push(x).first() == x);
        assert(spec_pages_flat(Seq::<u16>::empty()) == Seq::<u8>::empty());
        assert(spec_pages_flat(pages.push(x)) == spec_u16_be(x) + Seq::<u8>::empty());
        assert(spec_u16_be(x) + Seq::<u8>::empty() =~= Seq::<u8>::empty() + spec_u16_be(x));
    } else {
        assert(pages.push(x).first() == pages.first());
        assert(pages.push(x).drop_first() =~= pages.drop_first().push(x));
        lemma_pages_flat_push(pages.drop_first(), x);
        assert(spec_u16_be(pages.first()) + (spec_pages_flat(pages.drop_first()) + spec_u16_be(x))
            =~= (spec_u16_be(pages.first()) + spec_pages_flat(pages.drop_first())) + spec_u16_be(
            x,
        ));
    }
}

/// The frames of concatenated block lists concatenate.
pub proof fn lemma_blocks_frames_concat(a: Seq<(u32, Seq<u8>)>, b: Seq<(u32, Seq<u8>)>)
    ensures
        spec_blocks_frames(a + b) == spec_blocks_frames(a) + spec_blocks_frames(b),
    decreases a.len(),
{
    if a.len() == 0 {
        assert(a + b =~= b);
        assert(spec_blocks_frames(a) + spec_blocks_frames(b) =~= spec_blocks_frames(b));
    } else {
        assert((a + b).first() == a.first());
        assert((a + b).drop_first() =~= a.drop_first() + b);
        lemma_blocks_frames_concat(a.drop_first(), b);
        let f = spec_write_block_frame(a.first().0, a.first().1);
        assert(f + (spec_blocks_frames(a.drop_first()) + spec_blocks_frames(b)) =~= (f
            + spec_blocks_frames(a.drop_first())) + spec_blocks_frames(b));
    }
}

/// How a chunked memory write tiles its data: one block per 256 bytes begun,
/// each block between 1 and 256 bytes long, block `i` at `address + 256 * i`,
/// and the blocks cut exactly consecutive ranges out of the data.
pub proof fn lemma_write_blocks_tile(address: u32, data: Seq<u8>)
    requires
        address + data.len() <= 0x1_0000_0000,
    ensures
        ({
            let blocks = spec_write_blocks(address, data);
            &&& blocks.len() == (data.len() + 255) / 256
            &&& forall|i: int|
                0 <= i < blocks.len() ==> 1 <= (#[trigger] blocks[i]).1.len() <= 256
            &&& forall|i: int|
                0 <= i < blocks.len() ==> (#[trigger] blocks[i]).0 == address + 256 * i
            &&& forall|i: int|
                0 <= i < blocks.len() ==> (#[trigger] blocks[i]).1 == data.subrange(
                    256 * i,
                    if 256 * (i + 1) <= data.len() {
                        256 * (i + 1)
                    } else {
                        data.len() as int
                    },
                )
        }),
    decreases data.len(),
{
    let blocks = spec_write_blocks(address, data);
    if data.len() == 0 {
    } else {
        let n = if data.len() > 256 {
            256int
        } else {
            data.len() as int
        };
        let rest = spec_write_blocks((address + n) as u32, data.skip(n));
        lemma_write_blocks_tile((address + n) as u32, data.skip(n));
        assert(blocks == seq![(address, data.take(n))] + rest);
        if data.len() > 256 {
            assert((data.len() + 255) / 256 == 1 + (data.len() - 256 + 255) / 256);
        }
        assert(blocks[0].1 == data.take(n));
        assert(data.take(n) =~= data.subrange(0, n));
        assert forall|i: int| 1 <= i < blocks.len() implies (#[trigger] blocks[i]).0 == address
            + 256 * i && 1 <= blocks[i].1.len() <= 256 && blocks[i].1 == data.subrange(
            256 * i,
            if 256 * (i + 1) <= data.len() {
                256 * (i + 1)
            } else {
                data.len() as int
            },
        ) by {
            assert(blocks[i] == rest[i - 1]);
            assert(n == 256) by {
                assert(rest.len() >= 1);
            }
            let hi = if 256 * i <= data.skip(n).len() + n - 256 + 256 && 256 * (i - 1 + 1) <= data.skip(
                n,
            ).len() {
                256 * i
            } else {
                data.skip(n).len() as int
            };
            assert(rest[i - 1].1 == data.skip(256).subrange(
                256 * (i - 1),
                if 256 * i <= data.skip(256).len() {
                    256 * i
                } else {
                    data.skip(256).len() as int
                },
            ));
            assert(data.skip(256).subrange(
                256 * (i - 1),
                if 256 * i <= data.skip(256).len() {
                    256 * i
                } else {
                    data.skip(256).len() as int
                },
            ) =~= data.subrange(
                256 * i,
                if 256 * (i + 1) <= data.len() {
                    256 * (i + 1)
                } else {
                    data.len() as int
                },
            ));
        }
    }
}

/// The address checksums of the two frame families differ by exactly 0xFF
/// for the same address: a write block seeds the XOR-fold with 0, a memory
/// read or jump seeds it with 0xFF.
pub proof fn lemma_addr_checksum_seeds(address: u32)
    ensures
        xor_fold(spec_u32_be(address), 0xFF) == 0xFF ^ xor_fold(spec_u32_be(address), 0x00),
{
    lemma_xor_fold_seed(spec_u32_be(address), 0xFF);
}

/// Computes the XOR-fold of `data` starting from `seed`.
pub fn xor_checksum(data: &[u8], seed: u8) -> (r: u8)
    ensures
        r == xor_fold(data@, seed),
{
    let mut acc = seed;
    let mut i: usize = 0;
    proof {
        assert(data@.skip(0) =~= data@);
    }
    while i < data.len()
        invariant
            i <= data@.len(),
            xor_fold(data@, seed) == xor_fold(data@.skip(i as int), acc),
        decreases data@.len() - i,
    {
        proof {
            assert(data@.skip(i as int).first() == data@[i as int]);
            assert(data@.skip(i as int).drop_first() =~= data@.skip(i as int + 1));
        }
        acc = acc ^ data[i];
        i = i + 1;
    }
    proof {
        assert(data@.skip(data@.len() as int) =~= Seq::<u8>::empty());
    }
    acc
}

/// Returns the opcode of a command.
pub fn opcode(c: CommandKind) -> (b: u8)
    ensures
        b == spec_opcode(c),
{
    match c {
        CommandKind::Hello => HELLO_BYTE,
        CommandKind::Get => 0x00,
        CommandKind::GetVersion => 0x01,
        CommandKind::GetId => 0x02,
        CommandKind::ReadMemory => 0x11,
        CommandKind::Go => 0x21,
        CommandKind::WriteMemory => 0x31,
        CommandKind::EraseMemory => 0x43,
        CommandKind::ExtendedEraseMemory => 0x44,
    }
}

/// Builds the two-byte frame of a command.
pub fn command_frame(c: CommandKind) -> (v: Vec<u8>)
    ensures
        v@ == spec_command_frame(c),
{
    let op = opcode(c);
    let v = vec![op, op ^ 0xFF];
    proof {
        assert(v@ =~= spec_command_frame(c));
    }
    v
}

/// Splits a 32-bit value into its four big-endian bytes.
pub fn u32_be(a: u32) -> (v: Vec<u8>)
    ensures
        v@ == spec_u32_be(a),
{
    let v = vec![
        ((a >> 24) & 0xFF) as u8,
        ((a >> 16) & 0xFF) as u8,
        ((a >> 8) & 0xFF) as u8,
        (a & 0xFF) as u8,
    ];
    proof {
        assert(v@ =~= spec_u32_be(a));
    }
    v
}

/// Splits a 16-bit value into its two big-endian bytes.
pub fn u16_be(a: u16) -> (v: Vec<u8>)
    ensures
        v@ == spec_u16_be(a),
{
    let v = vec![((a >> 8) & 0xFF) as u8, (a & 0xFF) as u8];
    proof {
        assert(v@ =~= spec_u16_be(a));
    }
    v
}

/// Appends every byte of `src` to `dst`.
pub fn push_all(dst: &mut Vec<u8>, src: &[u8])
    ensures
        final(dst)@ == old(dst)@ + src@,
{
    let mut i: usize = 0;
    proof {
        assert(old(dst)@ + src@.take(0) =~= old(dst)@);
    }
    while i < src.len()
        invariant
            i <= src@.len(),
            dst@ == old(dst)@ + src@.take(i as int),
        decreases src@.len() - i,
    {
        proof {
            assert(src@.take(i as int + 1) =~= src@.take(i as int).push(src@[i as int]));
        }
        dst.push(src[i]);
        i = i + 1;
    }
    proof {
        assert(src@.take(src@.len() as int) =~= src@);
    }
}

/// Builds a length-prefixed payload: the item count minus one, the items,
/// and the XOR-fold of the items seeded with that length byte.
pub fn counted_frame(items: &[u8]) -> (v: Vec<u8>)
    requires
        1 <= items@.len() <= 256,
    ensures
        v@ == spec_counted_payload(items@),
{
    let length: u8 = (items.len() - 1) as u8;
    let ck = xor_checksum(items, length);
    let mut v: Vec<u8> = Vec::new();
    v.push(length);
    push_all(&mut v, items);
    v.push(ck);
    proof {
        assert(v@ =~= spec_counted_payload(items@));
    }
    v
}

/// Builds an address frame: the big-endian address bytes and their XOR-fold
/// from `seed`.
pub fn addr_frame(address: u32, seed: u8) -> (v: Vec<u8>)
    ensures
        v@ == spec_addr_frame(address, seed),
{
    let mut v = u32_be(address);
    let ck = xor_checksum(v.as_slice(), seed);
    v.push(ck);
    v
}

} // verus!
