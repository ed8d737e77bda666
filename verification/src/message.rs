//! Gossip messages on the wire.
//!
//! A message is a fixed header followed by a payload of node entries. The
//! header is, in order: protocol version, message type, flags, compression
//! algorithm code, sender id (u64), sender incarnation (u32), sequence
//! number (u32) and payload length (u16), integers in little endian. The
//! payload is the concatenation of the entries, LZ4-compressed with its size
//! prepended when the header's `COMPRESSED` flag is set.

pub mod capabilities;
pub mod flags;

use vstd::prelude::*;

use crate::compression::{
    lz4_decompress_size_prepended, lz4_max_output, CompressionAlgo, Compressor,
};
use crate::wire::{
    push_u16_le, push_u32_le, push_u64_le, read_u16_le, read_u32_le, read_u64_le, u16_le,
    u16_of_le, u32_le, u32_of_le, u64_le, u64_of_le, lemma_u16_le_roundtrip,
    lemma_u32_le_roundtrip, lemma_u64_le_roundtrip,
};

verus! {

broadcast use vstd::array::group_array_axioms;

/// The protocol version this crate speaks.
pub const PROTOCOL_VERSION: u8 = 1;

/// Length of the message header.
pub const HEADER_LEN: usize = 22;

/// Offset of the message type in the header.
pub const OFF_TYPE: usize = 1;

/// Offset of the flag byte in the header.
pub const OFF_FLAGS: usize = 2;

/// Offset of the compression algorithm code in the header.
pub const OFF_COMPRESSION: usize = 3;

/// Length of one node entry on the wire.
pub const ENTRY_LEN: usize = 24;

/// Largest encoded message: one datagram.
pub const MAX_MESSAGE_LEN: usize = 1400;

/// Largest payload before compression.
pub const MAX_PAYLOAD_LEN: usize = 65535;

/// Address family code of an IPv4 address.
pub const ADDR_FAMILY_IPV4: u8 = 4;

/// Message type codes.
pub const MSG_GOSSIP: u8 = 1;

pub const MSG_PING: u8 = 2;

pub const MSG_ACK: u8 = 3;

pub const MSG_LEAVE: u8 = 4;

/// An IPv4 socket address.
#[derive(Debug, Clone, Copy, PartialEq, Eq)]
pub struct NodeAddr {
    pub ip: [u8; 4],
    pub port: u16,
}

/// What a message says of one cluster member.
#[derive(Debug, Clone, Copy, PartialEq, Eq)]
pub struct WireNodeEntry {
    pub node_id: u64,
    pub heartbeat: u32,
    pub incarnation: u32,
    pub status: u8,
    pub addr: NodeAddr,
}

/// What a message carries.
#[derive(Debug, Clone)]
pub enum MessagePayload {
    Gossip(Vec<WireNodeEntry>),
    Ping(Vec<WireNodeEntry>),
    Ack(Vec<WireNodeEntry>),
    Leave,
}

/// A gossip protocol message.
#[derive(Debug, Clone)]
pub struct Message {
    pub sender_id: u64,
    pub incarnation: u32,
    pub sequence: u32,
    /// Code of the compression algorithm requested for the payload.
    pub compression: u8,
    pub payload: MessagePayload,
}

/// Why a message could not be encoded.
#[derive(Debug, Clone, Copy, PartialEq, Eq, Structural)]
pub enum EncodeError {
    /// The payload or the encoded message exceeds its limit.
    TooLarge,
}

/// Why bytes could not be decoded as a message.
#[derive(Debug, Clone, Copy, PartialEq, Eq, Structural)]
pub enum DecodeError {
    /// Shorter than a header.
    Truncated,
    /// Another protocol version.
    BadVersion,
    /// Not a known message type.
    UnknownType,
    /// The header's payload length is not the length of the rest.
    LengthMismatch,
    /// Flags and compression code do not describe a known encoding.
    BadFlags,
    /// The compressed payload announces more than `MAX_PAYLOAD_LEN` bytes.
    PayloadTooLarge,
    /// The compressed payload does not decompress.
    Decompress,
    /// The payload is not a sequence of well-formed entries.
    BadEntries,
    /// A leave message carries entries.
    UnexpectedPayload,
}

/// The abstract content of a message: the type code and its entries (none
/// for a leave message).
pub struct MessageView {
    pub sender_id: u64,
    pub incarnation: u32,
    pub sequence: u32,
    pub compression: u8,
    pub kind: u8,
    pub entries: Seq<WireNodeEntry>,
}

impl MessagePayload {
    /// The message type code of this payload.
    pub open spec fn kind_spec(&self) -> u8 {
        match self {
            MessagePayload::Gossip(_) => MSG_GOSSIP,
            MessagePayload::Ping(_) => MSG_PING,
            MessagePayload::Ack(_) => MSG_ACK,
            MessagePayload::Leave => MSG_LEAVE,
        }
    }

    /// The entries this payload carries.
    pub open spec fn entries_spec(&self) -> Seq<WireNodeEntry> {
        match self {
            MessagePayload::Gossip(v) => v@,
            MessagePayload::Ping(v) => v@,
            MessagePayload::Ack(v) => v@,
            MessagePayload::Leave => Seq::empty(),
        }
    }
}

impl View for Message {
    type V = MessageView;

    open spec fn view(&self) -> MessageView {
        MessageView {
            sender_id: self.sender_id,
            incarnation: self.incarnation,
            sequence: self.sequence,
            compression: self.compression,
            kind: self.payload.kind_spec(),
            entries: self.payload.entries_spec(),
        }
    }
}

/// A view that some message has: a known type, and no entries in a leave
/// message.
pub open spec fn well_formed(m: MessageView) -> bool {
    &&& MSG_GOSSIP <= m.kind <= MSG_LEAVE
    &&& m.kind == MSG_LEAVE ==> m.entries.len() == 0
}

/// One entry on the wire.
pub open spec fn entry_bytes(e: WireNodeEntry) -> Seq<u8> {
    u64_le(e.node_id) + u32_le(e.heartbeat) + u32_le(e.incarnation) + seq![
        e.status,
        ADDR_FAMILY_IPV4,
    ] + e.addr.ip@ + u16_le(e.addr.port)
}

/// Entries on the wire, one after the other.
pub open spec fn entries_bytes(es: Seq<WireNodeEntry>) -> Seq<u8>
    decreases es.len(),
{
    if es.len() == 0 {
        Seq::empty()
    } else {
        entries_bytes(es.drop_last()) + entry_bytes(es.last())
    }
}

/// The entry that the first `ENTRY_LEN` bytes of `c` hold, if they hold one.
pub open spec fn parse_entry(c: Seq<u8>) -> Option<WireNodeEntry> {
    if c[17] != ADDR_FAMILY_IPV4 {
        None
    } else {
        Some(
            WireNodeEntry {
                node_id: u64_of_le(c.subrange(0, 8)),
                heartbeat: u32_of_le(c.subrange(8, 12)),
                incarnation: u32_of_le(c.subrange(12, 16)),
                status: c[16],
                addr: NodeAddr { ip: [c[18], c[19], c[20], c[21]], port: u16_of_le(c[22], c[23]) },
            },
        )
    }
}

/// The entries that `b` holds, if it is a sequence of well-formed entries.
pub open spec fn parse_entries(b: Seq<u8>) -> Option<Seq<WireNodeEntry>>
    decreases b.len(),
{
    if b.len() == 0 {
        Some(Seq::empty())
    } else if b.len() < ENTRY_LEN {
        None
    } else {
        match parse_entries(b.take(b.len() - ENTRY_LEN)) {
            None => None,
            Some(es) => match parse_entry(b.skip(b.len() - ENTRY_LEN)) {
                None => None,
                Some(e) => Some(es.push(e)),
            },
        }
    }
}

/// An entry reads back from its own bytes.
pub proof fn lemma_entry_roundtrip(e: WireNodeEntry)
    ensures
        entry_bytes(e).len() == ENTRY_LEN,
        parse_entry(entry_bytes(e)) == Some(e),
{
    let c = entry_bytes(e);
    assert(c.subrange(0, 8) =~= u64_le(e.node_id));
    assert(c.subrange(8, 12) =~= u32_le(e.heartbeat));
    assert(c.subrange(12, 16) =~= u32_le(e.incarnation));
    lemma_u64_le_roundtrip(e.node_id);
    lemma_u32_le_roundtrip(e.heartbeat);
    lemma_u32_le_roundtrip(e.incarnation);
    lemma_u16_le_roundtrip(e.addr.port);
    let ip: [u8; 4] = [c[18], c[19], c[20], c[21]];
    assert(ip@ =~= e.addr.ip@);
    assert(ip == e.addr.ip);
}

/// Entries take `ENTRY_LEN` bytes each.
pub proof fn lemma_entries_bytes_len(es: Seq<WireNodeEntry>)
    ensures
        entries_bytes(es).len() == ENTRY_LEN * es.len(),
    decreases es.len(),
{
    if es.len() > 0 {
        lemma_entries_bytes_len(es.drop_last());
        lemma_entry_roundtrip(es.last());
    }
}

/// Entries read back from their own bytes.
pub proof fn lemma_entries_roundtrip(es: Seq<WireNodeEntry>)
    ensures
        parse_entries(entries_bytes(es)) == Some(es),
    decreases es.len(),
{
    let b = entries_bytes(es);
    lemma_entries_bytes_len(es);
    if es.len() > 0 {
        let prefix = es.drop_last();
        lemma_entries_roundtrip(prefix);
        lemma_entries_bytes_len(prefix);
        lemma_entry_roundtrip(es.last());
        assert(b.take(b.len() - ENTRY_LEN) =~= entries_bytes(prefix));
        assert(b.skip(b.len() - ENTRY_LEN) =~= entry_bytes(es.last()));
        assert(prefix.push(es.last()) =~= es);
    } else {
        assert(es =~= Seq::empty());
    }
}

/// Whether encoding `m` compresses its payload: LZ4 was requested and the
/// message is not a leave message (which has no payload).
pub open spec fn compresses(m: MessageView) -> bool {
    m.kind != MSG_LEAVE && CompressionAlgo::from_code(m.compression) == CompressionAlgo::Lz4
}

/// Whether `p` is a payload that may carry `m` on the wire: the entry
/// bytes themselves, or, when `m` compresses, bytes that start with the
/// entry bytes' length, stay within the compressor's bound and decompress
/// to the entry bytes.
pub open spec fn payload_ok(m: MessageView, p: Seq<u8>) -> bool {
    let raw = entries_bytes(m.entries);
    if compresses(m) {
        &&& 4 <= p.len() <= lz4_max_output(raw.len())
        &&& p.take(4) == u32_le(raw.len() as u32)
        &&& lz4_decompress_size_prepended(p) == Some(raw)
    } else {
        p == raw
    }
}

/// The header of a message.
pub open spec fn header_bytes(
    kind: u8,
    flag_bits: u8,
    compression: u8,
    sender_id: u64,
    incarnation: u32,
    sequence: u32,
    payload_len: u16,
) -> Seq<u8> {
    seq![PROTOCOL_VERSION, kind, flag_bits, compression] + u64_le(sender_id) + u32_le(incarnation)
        + u32_le(sequence) + u16_le(payload_len)
}

/// `m` on the wire with payload `p`: the header, whose flags and
/// compression code say whether `m` compresses, then `p`.
pub open spec fn framed(m: MessageView, p: Seq<u8>) -> Seq<u8> {
    let c = compresses(m);
    header_bytes(
        m.kind,
        if c { flags::COMPRESSED } else { 0 },
        if c { 1 } else { 0 },
        m.sender_id,
        m.incarnation,
        m.sequence,
        p.len() as u16,
    ) + p
}

/// Whether the entries of `m` fit the payload limit and, sent as they are,
/// the message limit.
pub open spec fn fits_plain(m: MessageView) -> bool {
    let raw = entries_bytes(m.entries);
    raw.len() <= MAX_PAYLOAD_LEN && HEADER_LEN + raw.len() <= MAX_MESSAGE_LEN
}

/// Whether the entries of `m` fit the payload limit and, compressed to the
/// compressor's largest output, the message limit.
pub open spec fn fits_compressed(m: MessageView) -> bool {
    let raw = entries_bytes(m.entries);
    raw.len() <= MAX_PAYLOAD_LEN && HEADER_LEN + lz4_max_output(raw.len()) <= MAX_MESSAGE_LEN
}

/// The entry bytes that a payload holds: itself when not compressed, else
/// what it decompresses to.
pub open spec fn raw_payload(payload: Seq<u8>, compressed: bool) -> Result<Seq<u8>, DecodeError> {
    if !compressed {
        Ok(payload)
    } else if payload.len() < 4 {
        Err(DecodeError::Decompress)
    } else if u32_of_le(payload.subrange(0, 4)) > MAX_PAYLOAD_LEN {
        Err(DecodeError::PayloadTooLarge)
    } else {
        match lz4_decompress_size_prepended(payload) {
            None => Err(DecodeError::Decompress),
            Some(raw) => Ok(raw),
        }
    }
}

/// The message that `b` encodes, or why it does not decode.
pub open spec fn decode_spec(b: Seq<u8>) -> Result<MessageView, DecodeError> {
    if b.len() < HEADER_LEN {
        Err(DecodeError::Truncated)
    } else if b[0] != PROTOCOL_VERSION {
        Err(DecodeError::BadVersion)
    } else if b[1] < MSG_GOSSIP || b[1] > MSG_LEAVE {
        Err(DecodeError::UnknownType)
    } else if u16_of_le(b[20], b[21]) != b.len() - HEADER_LEN {
        Err(DecodeError::LengthMismatch)
    } else {
        let kind = b[1];
        let compressed = b[2] == flags::COMPRESSED && b[3] == 1 && kind != MSG_LEAVE;
        if !compressed && !(b[2] == 0 && b[3] == 0) {
            Err(DecodeError::BadFlags)
        } else {
            match raw_payload(b.skip(HEADER_LEN as int), compressed) {
                Err(e) => Err(e),
                Ok(raw) => match parse_entries(raw) {
                    None => Err(DecodeError::BadEntries),
                    Some(es) => if kind == MSG_LEAVE && es.len() != 0 {
                        Err(DecodeError::UnexpectedPayload)
                    } else {
                        Ok(
                            MessageView {
                                sender_id: u64_of_le(b.subrange(4, 12)),
                                incarnation: u32_of_le(b.subrange(12, 16)),
                                sequence: u32_of_le(b.subrange(16, 20)),
                                compression: b[3],
                                kind,
                                entries: es,
                            },
                        )
                    },
                },
            }
        }
    }
}

/// `m` as decoding gives it back: the compression code is that of the
/// encoding used.
pub open spec fn normalized(m: MessageView) -> MessageView {
    MessageView { compression: if compresses(m) { 1 } else { 0 }, ..m }
}

/// Decoding a message framed with a payload that may carry it gives the
/// message back.
pub proof fn lemma_decode_framed(m: MessageView, p: Seq<u8>)
    requires
        well_formed(m),
        payload_ok(m, p),
        entries_bytes(m.entries).len() <= MAX_PAYLOAD_LEN,
        HEADER_LEN + p.len() <= MAX_MESSAGE_LEN,
    ensures
        decode_spec(framed(m, p)) == Ok::<MessageView, DecodeError>(normalized(m)),
{
    let c = compresses(m);
    let raw = entries_bytes(m.entries);
    let b = framed(m, p);
    assert(b.subrange(4, 12) =~= u64_le(m.sender_id));
    assert(b.subrange(12, 16) =~= u32_le(m.incarnation));
    assert(b.subrange(16, 20) =~= u32_le(m.sequence));
    assert(b[20] == u16_le(p.len() as u16)[0]);
    assert(b[21] == u16_le(p.len() as u16)[1]);
    lemma_u64_le_roundtrip(m.sender_id);
    lemma_u32_le_roundtrip(m.incarnation);
    lemma_u32_le_roundtrip(m.sequence);
    lemma_u16_le_roundtrip(p.len() as u16);
    assert(b.skip(HEADER_LEN as int) =~= p);
    lemma_entries_roundtrip(m.entries);
    lemma_entries_bytes_len(m.entries);
    if c {
        assert(p.subrange(0, 4) =~= p.take(4));
        lemma_u32_le_roundtrip(raw.len() as u32);
    }
}

impl MessagePayload {
    /// The message type code of this payload.
    pub fn kind(&self) -> (r: u8)
        ensures
            r == self.kind_spec(),
    {
        match self {
            MessagePayload::Gossip(_) => MSG_GOSSIP,
            MessagePayload::Ping(_) => MSG_PING,
            MessagePayload::Ack(_) => MSG_ACK,
            MessagePayload::Leave => MSG_LEAVE,
        }
    }

    /// The number of entries this payload carries.
    pub fn entry_count(&self) -> (r: usize)
        ensures
            r == self.entries_spec().len(),
    {
        match self {
            MessagePayload::Gossip(v) => v.len(),
            MessagePayload::Ping(v) => v.len(),
            MessagePayload::Ack(v) => v.len(),
            MessagePayload::Leave => 0,
        }
    }

    /// Appends the entries of this payload on the wire.
    fn write_entries(&self, out: &mut Vec<u8>)
        ensures
            final(out)@ == old(out)@ + entries_bytes(self.entries_spec()),
    {
        match self {
            MessagePayload::Gossip(v) => write_entry_list(v, out),
            MessagePayload::Ping(v) => write_entry_list(v, out),
            MessagePayload::Ack(v) => write_entry_list(v, out),
            MessagePayload::Leave => {
                assert(old(out)@ + entries_bytes(Seq::empty()) =~= old(out)@);
            },
        }
    }
}

/// Appends one entry on the wire.
fn write_entry(out: &mut Vec<u8>, e: &WireNodeEntry)
    ensures
        final(out)@ == old(out)@ + entry_bytes(*e),
{
    let ghost start = out@;
    push_u64_le(out, e.node_id);
    push_u32_le(out, e.heartbeat);
    push_u32_le(out, e.incarnation);
    out.push(e.status);
    out.push(ADDR_FAMILY_IPV4);
    out.push(e.addr.ip[0]);
    out.push(e.addr.ip[1]);
    out.push(e.addr.ip[2]);
    out.push(e.addr.ip[3]);
    push_u16_le(out, e.addr.port);
    assert(e.addr.ip@ =~= seq![e.addr.ip[0], e.addr.ip[1], e.addr.ip[2], e.addr.ip[3]]);
    assert(out@ =~= start + entry_bytes(*e));
}

/// Appends entries on the wire, in order.
fn write_entry_list(es: &Vec<WireNodeEntry>, out: &mut Vec<u8>)
    ensures
        final(out)@ == old(out)@ + entries_bytes(es@),
{
    let ghost start = out@;
    let mut i: usize = 0;
    assert(es@.take(0) =~= Seq::<WireNodeEntry>::empty());
    assert(start + entries_bytes(Seq::empty()) =~= start);
    while i < es.len()
        invariant
            i <= es@.len(),
            out@ == start + entries_bytes(es@.take(i as int)),
        decreases es@.len() - i,
    {
        write_entry(out, &es[i]);
        assert(es@.take(i + 1).drop_last() =~= es@.take(i as int));
        assert(start + entries_bytes(es@.take(i as int)) + entry_bytes(es@[i as int]) =~= start
            + entries_bytes(es@.take(i + 1)));
        i = i + 1;
    }
    assert(es@.take(es@.len() as int) =~= es@);
}

/// Reads the entry at `pos`, if the bytes there hold one.
fn read_entry(b: &[u8], pos: usize) -> (r: Option<WireNodeEntry>)
    requires
        pos + ENTRY_LEN <= b@.len(),
    ensures
        r == parse_entry(b@.subrange(pos as int, pos + ENTRY_LEN)),
{
    let ghost c = b@.subrange(pos as int, pos + ENTRY_LEN);
    let len = b.len();
    assert(pos + ENTRY_LEN <= len);
    if b[pos + 17] != ADDR_FAMILY_IPV4 {
        return None;
    }
    let node_id = read_u64_le(b, pos);
    let heartbeat = read_u32_le(b, pos + 8);
    let incarnation = read_u32_le(b, pos + 12);
    let port = read_u16_le(b, pos + 22);
    assert(c.subrange(0, 8) =~= b@.subrange(pos as int, pos + 8));
    assert(c.subrange(8, 12) =~= b@.subrange(pos + 8, pos + 12));
    assert(c.subrange(12, 16) =~= b@.subrange(pos + 12, pos + 16));
    Some(
        WireNodeEntry {
            node_id,
            heartbeat,
            incarnation,
            status: b[pos + 16],
            addr: NodeAddr { ip: [b[pos + 18], b[pos + 19], b[pos + 20], b[pos + 21]], port },
        },
    )
}

/// Bytes whose length is not a multiple of `ENTRY_LEN` hold no entries.
proof fn lemma_parse_entries_misaligned(b: Seq<u8>)
    requires
        b.len() % (ENTRY_LEN as nat) != 0,
    ensures
        parse_entries(b) is None,
    decreases b.len(),
{
    if b.len() >= ENTRY_LEN {
        lemma_parse_entries_misaligned(b.take(b.len() - ENTRY_LEN));
    }
}

/// Parsing one more entry extends what the bytes before it hold.
proof fn lemma_parse_entries_extend(b: Seq<u8>, pos: int)
    requires
        0 <= pos,
        pos + ENTRY_LEN <= b.len(),
    ensures
        parse_entries(b.take(pos + ENTRY_LEN)) == match parse_entries(b.take(pos)) {
            None => None,
            Some(es) => match parse_entry(b.subrange(pos, pos + ENTRY_LEN)) {
                None => None,
                Some(e) => Some(es.push(e)),
            },
        },
{
    let next = b.take(pos + ENTRY_LEN);
    assert(next.take(next.len() - ENTRY_LEN) =~= b.take(pos));
    assert(next.skip(next.len() - ENTRY_LEN) =~= b.subrange(pos, pos + ENTRY_LEN));
}

/// Where a whole number of leading entries is malformed, so are the bytes.
proof fn lemma_parse_entries_bad_prefix(b: Seq<u8>, n: int)
    requires
        0 <= n <= b.len(),
        n % (ENTRY_LEN as int) == 0,
        b.len() % (ENTRY_LEN as nat) == 0,
        parse_entries(b.take(n)) is None,
    ensures
        parse_entries(b) is None,
    decreases b.len(),
{
    if n == b.len() {
        assert(b.take(n) =~= b);
    } else {
        let front = b.take(b.len() - ENTRY_LEN);
        assert(front.take(n) =~= b.take(n));
        lemma_parse_entries_bad_prefix(front, n);
    }
}

/// The entries that `b` holds.
fn read_entries(b: &[u8]) -> (r: Result<Vec<WireNodeEntry>, DecodeError>)
    ensures
        match r {
            Ok(v) => parse_entries(b@) == Some(v@),
            Err(e) => parse_entries(b@) is None && e == DecodeError::BadEntries,
        },
{
    if b.len() % ENTRY_LEN != 0 {
        proof {
            lemma_parse_entries_misaligned(b@);
        }
        return Err(DecodeError::BadEntries);
    }
    let len = b.len();
    let n = len / ENTRY_LEN;
    let mut v: Vec<WireNodeEntry> = Vec::new();
    let mut i: usize = 0;
    assert(b@.take(0) =~= Seq::<u8>::empty());
    while i < n
        invariant
            n * ENTRY_LEN == b@.len(),
            b@.len() == len,
            i <= n,
            parse_entries(b@.take(i * ENTRY_LEN)) == Some(v@),
        decreases n - i,
    {
        let pos = i * ENTRY_LEN;
        proof {
            lemma_parse_entries_extend(b@, pos as int);
        }
        match read_entry(b, pos) {
            Some(e) => {
                v.push(e);
            },
            None => {
                proof {
                    lemma_parse_entries_bad_prefix(b@, pos + ENTRY_LEN);
                }
                return Err(DecodeError::BadEntries);
            },
        }
        i = i + 1;
    }
    assert(b@.take(n * ENTRY_LEN) =~= b@);
    Ok(v)
}

/// A gossip message carrying `entries`, uncompressed.
pub fn build_gossip(sender_id: u64, incarnation: u32, sequence: u32, entries: Vec<WireNodeEntry>) -> (m: Message)
    ensures
        m@ == (MessageView {
            sender_id,
            incarnation,
            sequence,
            compression: 0,
            kind: MSG_GOSSIP,
            entries: entries@,
        }),
{
    Message { sender_id, incarnation, sequence, compression: 0, payload: MessagePayload::Gossip(entries) }
}

/// A ping carrying `entries`, uncompressed.
pub fn build_ping(sender_id: u64, incarnation: u32, sequence: u32, entries: Vec<WireNodeEntry>) -> (m: Message)
    ensures
        m@ == (MessageView {
            sender_id,
            incarnation,
            sequence,
            compression: 0,
            kind: MSG_PING,
            entries: entries@,
        }),
{
    Message { sender_id, incarnation, sequence, compression: 0, payload: MessagePayload::Ping(entries) }
}

/// An acknowledgement carrying `entries`, uncompressed.
pub fn build_ack(sender_id: u64, incarnation: u32, sequence: u32, entries: Vec<WireNodeEntry>) -> (m: Message)
    ensures
        m@ == (MessageView {
            sender_id,
            incarnation,
            sequence,
            compression: 0,
            kind: MSG_ACK,
            entries: entries@,
        }),
{
    Message { sender_id, incarnation, sequence, compression: 0, payload: MessagePayload::Ack(entries) }
}

/// A leave announcement; it has no payload.
pub fn build_leave(sender_id: u64, incarnation: u32, sequence: u32) -> (m: Message)
    ensures
        m@ == (MessageView {
            sender_id,
            incarnation,
            sequence,
            compression: 0,
            kind: MSG_LEAVE,
            entries: Seq::empty(),
        }),
{
    Message { sender_id, incarnation, sequence, compression: 0, payload: MessagePayload::Leave }
}

impl Message {
    /// The same message with compression algorithm code `algo` requested.
    pub fn with_compression(self, algo: u8) -> (r: Self)
        ensures
            r@ == (MessageView { compression: algo, ..self@ }),
    {
        let mut m = self;
        m.compression = algo;
        m
    }

    /// Whether the payload is compressed on the wire.
    pub fn is_compressed(&self) -> (r: bool)
        ensures
            r == compresses(self@),
            r == (self@.kind != MSG_LEAVE && self.compression == 1),
    {
        self.payload.kind() != MSG_LEAVE && CompressionAlgo::from_u8(self.compression)
            == CompressionAlgo::Lz4
    }

    /// The compression algorithm code.
    pub fn compression_algo(&self) -> (r: u8)
        ensures
            r == self.compression,
    {
        self.compression
    }

    /// Frames `payload` as the payload of this message: the header, whose
    /// flags and compression code say whether the message compresses, then
    /// the payload; refused where the message would exceed its limit.
    pub fn frame(&self, payload: &[u8]) -> (r: Result<Vec<u8>, EncodeError>)
        ensures
            r is Ok <==> HEADER_LEN + payload@.len() <= MAX_MESSAGE_LEN,
            r matches Ok(v) ==> v@ == framed(self@, payload@),
            r matches Err(e) ==> e == EncodeError::TooLarge,
    {
        if payload.len() > MAX_MESSAGE_LEN - HEADER_LEN {
            return Err(EncodeError::TooLarge);
        }
        let compress = self.is_compressed();
        let flag_bits = if compress { flags::COMPRESSED } else { 0u8 };
        let code = if compress { 1u8 } else { 0u8 };
        let mut out: Vec<u8> = Vec::new();
        out.push(PROTOCOL_VERSION);
        out.push(self.payload.kind());
        out.push(flag_bits);
        out.push(code);
        push_u64_le(&mut out, self.sender_id);
        push_u32_le(&mut out, self.incarnation);
        push_u32_le(&mut out, self.sequence);
        push_u16_le(&mut out, payload.len() as u16);
        let ghost h = out@;
        out.extend_from_slice(payload);
        assert(out@ =~= h + payload@);
        Ok(out)
    }

    /// Encodes the message; decoding the result gives the message back.
    /// Plain messages are refused exactly when they exceed a limit;
    /// compressed ones are accepted at least where the compressor's largest
    /// output fits, and refused at most where it might not.
    #[verifier::rlimit(40)]
    pub fn encode(&self) -> (r: Result<Vec<u8>, EncodeError>)
        ensures
            r matches Ok(v) ==> HEADER_LEN <= v@.len() <= MAX_MESSAGE_LEN && payload_ok(
                self@,
                v@.skip(HEADER_LEN as int),
            ) && v@ == framed(self@, v@.skip(HEADER_LEN as int)),
            r matches Ok(v) ==> decode_spec(v@) == Ok::<MessageView, DecodeError>(normalized(self@)),
            r matches Err(e) ==> e == EncodeError::TooLarge,
            !compresses(self@) ==> (r is Ok <==> fits_plain(self@)),
            compresses(self@) && fits_compressed(self@) ==> r is Ok,
            entries_bytes(self@.entries).len() > MAX_PAYLOAD_LEN ==> r is Err,
    {
        let n = self.payload.entry_count();
        proof {
            lemma_entries_bytes_len(self@.entries);
        }
        if n > MAX_PAYLOAD_LEN / ENTRY_LEN {
            return Err(EncodeError::TooLarge);
        }
        let mut raw: Vec<u8> = Vec::new();
        self.payload.write_entries(&mut raw);
        assert(raw@ =~= entries_bytes(self@.entries));
        let payload = if self.is_compressed() {
            let c = Compressor::new(CompressionAlgo::Lz4).with_min_size(0);
            match c.compress(raw.as_slice()) {
                Some(z) => z,
                None => {
                    return Err(EncodeError::TooLarge);
                },
            }
        } else {
            raw
        };
        assert(payload_ok(self@, payload@));
        let r = self.frame(payload.as_slice());
        proof {
            if r is Ok {
                assert(r->Ok_0@.skip(HEADER_LEN as int) =~= payload@);
                lemma_decode_framed(self@, payload@);
            }
        }
        r
    }

    /// Decodes a message.
    pub fn decode(bytes: &[u8]) -> (r: Result<Message, DecodeError>)
        ensures
            match r {
                Ok(m) => decode_spec(bytes@) == Ok::<MessageView, DecodeError>(m@),
                Err(e) => decode_spec(bytes@) == Err::<MessageView, DecodeError>(e),
            },
    {
        if bytes.len() < HEADER_LEN {
            return Err(DecodeError::Truncated);
        }
        if bytes[0] != PROTOCOL_VERSION {
            return Err(DecodeError::BadVersion);
        }
        let kind = bytes[OFF_TYPE];
        if kind < MSG_GOSSIP || kind > MSG_LEAVE {
            return Err(DecodeError::UnknownType);
        }
        let payload_len = read_u16_le(bytes, 20);
        if payload_len as usize != bytes.len() - HEADER_LEN {
            return Err(DecodeError::LengthMismatch);
        }
        let flag_bits = bytes[OFF_FLAGS];
        let code = bytes[OFF_COMPRESSION];
        let compressed = flag_bits == flags::COMPRESSED && code == 1 && kind != MSG_LEAVE;
        if !compressed && !(flag_bits == 0 && code == 0) {
            return Err(DecodeError::BadFlags);
        }
        let payload = vstd::slice::slice_subrange(bytes, HEADER_LEN, bytes.len());
        assert(payload@ =~= bytes@.skip(HEADER_LEN as int));
        let raw: Vec<u8> = if compressed {
            if payload.len() < 4 {
                return Err(DecodeError::Decompress);
            }
            let announced = read_u32_le(payload, 0);
            if announced as usize > MAX_PAYLOAD_LEN {
                return Err(DecodeError::PayloadTooLarge);
            }
            let c = Compressor::new(CompressionAlgo::Lz4);
            match c.decompress(payload) {
                Some(v) => v,
                None => {
                    return Err(DecodeError::Decompress);
                },
            }
        } else {
            vstd::slice::slice_to_vec(payload)
        };
        assert(raw_payload(payload@, compressed) == Ok::<Seq<u8>, DecodeError>(raw@));
        let entries = match read_entries(raw.as_slice()) {
            Ok(v) => v,
            Err(e) => {
                return Err(e);
            },
        };
        if kind == MSG_LEAVE && entries.len() != 0 {
            return Err(DecodeError::UnexpectedPayload);
        }
        let sender_id = read_u64_le(bytes, 4);
        let incarnation = read_u32_le(bytes, 12);
        let sequence = read_u32_le(bytes, 16);
        let payload = if kind == MSG_GOSSIP {
            MessagePayload::Gossip(entries)
        } else if kind == MSG_PING {
            MessagePayload::Ping(entries)
        } else if kind == MSG_ACK {
            MessagePayload::Ack(entries)
        } else {
            MessagePayload::Leave
        };
        Ok(Message { sender_id, incarnation, sequence, compression: code, payload })
    }
}

} // verus!
