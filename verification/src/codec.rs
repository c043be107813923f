//! The wire codec: how each packet variant is laid out as bytes, and the
//! decoder that inverts it.
//!
//! Layout of a datagram: a 2-byte big-endian opcode, an optional 1-byte
//! compression flag (only when the session allows compression and the packet
//! is not part of the handshake), the variant's body, and a CRC tail of
//! `crc_length` bytes keyed by the session's seed.  A `MultiPacket` body is a
//! sequence of length-prefixed sub-packets, each holding a bare
//! opcode-plus-body encoding.

use vstd::prelude::*;

use crate::crc::{spec_crc32, spec_crc_tail, crc32, write_crc_tail};
use crate::packets::{
    DisconnectReason,
    Packet,
    PendingPacket,
    PacketModel,
    ProtocolOpCode,
    Session,
    spec_is_handshake,
    spec_op_code_from_value,
    spec_op_code_value,
    spec_packet_op_code,
    spec_reason_from_value,
    spec_reason_value,
    spec_session_wf,
};
use crate::wire::{
    read_u16_be,
    read_u32_be,
    read_u64_be,
    spec_u16_be,
    spec_u16_from_be,
    spec_u32_be,
    spec_u32_from_be,
    spec_u64_be,
    spec_u64_from_be,
    write_u16_be,
    write_u32_be,
    write_u64_be,
};
use vstd::utf8::{decode_utf8, encode_utf8, valid_utf8};
use vstd::string::StrSliceExecFns;

verus! {

/// Why a datagram or sub-packet could not be decoded.
#[derive(Copy, Clone, Debug, PartialEq, Eq, Structural)]
pub enum DeserializeError {
    /// The bytes end before the variant's body is complete, or the body is
    /// malformed (a bad length field, a non-boolean flag byte, text that is
    /// not UTF-8).
    TruncatedPacket,
    /// The 16-bit opcode, or a code carried in the body, is not one the
    /// protocol defines.
    UnknownOpCode,
    /// The integrity tail does not match the checksum of the preceding bytes.
    CrcError,
    /// The compression flag announces a compressed body, which this codec
    /// does not accept.
    DecompressionError,
}

/// Why a packet could not be serialized.
#[derive(Copy, Clone, Debug, PartialEq, Eq, Structural)]
pub enum SerializeError {
    /// A single packet's wire encoding exceeds the negotiated buffer size.
    PacketTooLarge,
    /// The negotiated buffer size cannot fit even one payload byte beyond
    /// the per-packet envelope.
    BufferTooSmall,
}

/// The single byte standing for a boolean.
pub open spec fn spec_bool_byte(b: bool) -> u8 {
    if b {
        1
    } else {
        0
    }
}

/// The bare opcode-plus-body encoding of a packet, without compression flag
/// or integrity tail.
#[verifier::opaque]
pub open spec fn spec_encode_body(m: PacketModel) -> Seq<u8> {
    spec_u16_be(spec_op_code_value(spec_packet_op_code(m))) + match m {
        PacketModel::SessionRequest { protocol, session_id, buffer_size, app_protocol } => {
            spec_u32_be(protocol) + spec_u32_be(session_id) + spec_u32_be(buffer_size)
                + spec_u32_be(encode_utf8(app_protocol).len() as u32) + encode_utf8(app_protocol)
        },
        PacketModel::SessionReply {
            session_id,
            crc_seed,
            crc_length,
            allow_compression,
            use_encryption,
            buffer_size,
            protocol,
        } => {
            spec_u32_be(session_id) + spec_u32_be(crc_seed) + seq![
                crc_length,
                spec_bool_byte(allow_compression),
                spec_bool_byte(use_encryption),
            ] + spec_u32_be(buffer_size) + spec_u32_be(protocol)
        },
        PacketModel::Disconnect { session_id, reason } => {
            spec_u32_be(session_id) + spec_u16_be(spec_reason_value(reason))
        },
        PacketModel::Heartbeat => Seq::<u8>::empty(),
        PacketModel::NetStatusRequest {
            client_tick,
            last_client_update,
            average_update,
            shortest_update,
            longest_update,
            last_server_update,
            packets_sent,
            packets_received,
            unknown,
        } => {
            spec_u16_be(client_tick) + spec_u32_be(last_client_update) + spec_u32_be(average_update)
                + spec_u32_be(shortest_update) + spec_u32_be(longest_update) + spec_u32_be(
                last_server_update,
            ) + spec_u64_be(packets_sent) + spec_u64_be(packets_received) + spec_u16_be(unknown)
        },
        PacketModel::NetStatusReply {
            client_tick,
            server_tick,
            client_packets_sent,
            client_packets_received,
            server_packets_sent,
            server_packets_received,
            unknown,
        } => {
            spec_u16_be(client_tick) + spec_u32_be(server_tick) + spec_u64_be(client_packets_sent)
                + spec_u64_be(client_packets_received) + spec_u64_be(server_packets_sent)
                + spec_u64_be(server_packets_received) + spec_u16_be(unknown)
        },
        PacketModel::Data { sequence, payload } => spec_u16_be(sequence) + payload,
        PacketModel::DataFragment { sequence, payload } => spec_u16_be(sequence) + payload,
        PacketModel::Ack { sequence } => spec_u16_be(sequence),
        PacketModel::AckAll { sequence } => spec_u16_be(sequence),
        PacketModel::UnknownSender => Seq::<u8>::empty(),
        PacketModel::RemapConnection { session_id, crc_seed } => {
            spec_u32_be(session_id) + spec_u32_be(crc_seed)
        },
    }
}

/// A packet whose encoding is representable: the only constraint is that the
/// application protocol name of a `SessionRequest` fits its 4-byte length
/// field.
pub open spec fn spec_packet_wf(m: PacketModel) -> bool {
    match m {
        PacketModel::SessionRequest { app_protocol, .. } => encode_utf8(app_protocol).len()
            <= 0xFFFF_FFFF,
        _ => true,
    }
}

/// Reads a 16-bit big-endian integer of `b` at `i`.
pub open spec fn spec_read_u16(b: Seq<u8>, i: int) -> u16 {
    spec_u16_from_be(b[i], b[i + 1])
}

/// Reads a 32-bit big-endian integer of `b` at `i`.
pub open spec fn spec_read_u32(b: Seq<u8>, i: int) -> u32 {
    spec_u32_from_be(b[i], b[i + 1], b[i + 2], b[i + 3])
}

/// Reads a 64-bit big-endian integer of `b` at `i`.
pub open spec fn spec_read_u64(b: Seq<u8>, i: int) -> u64 {
    spec_u64_from_be(spec_read_u32(b, i), spec_read_u32(b, i + 4))
}

/// The boolean a body byte stands for; a byte other than 0 or 1 is malformed.
pub open spec fn spec_read_bool(byte: u8) -> Option<bool> {
    if byte == 0 {
        Some(false)
    } else if byte == 1 {
        Some(true)
    } else {
        None
    }
}

/// Decodes a bare opcode-plus-body encoding.  The decoder is strict: every
/// field must be present, the body must end exactly where the variant says,
/// and codes must be known.
#[verifier::opaque]
pub open spec fn spec_decode_body(b: Seq<u8>) -> Result<PacketModel, DeserializeError> {
    if b.len() < 2 {
        Err(DeserializeError::TruncatedPacket)
    } else {
        match spec_op_code_from_value(spec_read_u16(b, 0)) {
            Option::None => Err(DeserializeError::UnknownOpCode),
            Option::Some(op) => {
                let rest = b.skip(2);
                match op {
                    ProtocolOpCode::SessionRequest => spec_decode_session_request(rest),
                    ProtocolOpCode::SessionReply => spec_decode_session_reply(rest),
                    ProtocolOpCode::MultiPacket => Err(DeserializeError::UnknownOpCode),
                    ProtocolOpCode::Disconnect => spec_decode_disconnect(rest),
                    ProtocolOpCode::Heartbeat => {
                        if rest.len() == 0 {
                            Ok(PacketModel::Heartbeat)
                        } else {
                            Err(DeserializeError::TruncatedPacket)
                        }
                    },
                    ProtocolOpCode::NetStatusRequest => spec_decode_net_status_request(rest),
                    ProtocolOpCode::NetStatusReply => spec_decode_net_status_reply(rest),
                    ProtocolOpCode::Data => {
                        if rest.len() >= 2 {
                            Ok(
                                PacketModel::Data {
                                    sequence: spec_read_u16(rest, 0),
                                    payload: rest.skip(2),
                                },
                            )
                        } else {
                            Err(DeserializeError::TruncatedPacket)
                        }
                    },
                    ProtocolOpCode::DataFragment => {
                        if rest.len() >= 2 {
                            Ok(
                                PacketModel::DataFragment {
                                    sequence: spec_read_u16(rest, 0),
                                    payload: rest.skip(2),
                                },
                            )
                        } else {
                            Err(DeserializeError::TruncatedPacket)
                        }
                    },
                    ProtocolOpCode::Ack => {
                        if rest.len() == 2 {
                            Ok(PacketModel::Ack { sequence: spec_read_u16(rest, 0) })
                        } else {
                            Err(DeserializeError::TruncatedPacket)
                        }
                    },
                    ProtocolOpCode::AckAll => {
                        if rest.len() == 2 {
                            Ok(PacketModel::AckAll { sequence: spec_read_u16(rest, 0) })
                        } else {
                            Err(DeserializeError::TruncatedPacket)
                        }
                    },
                    ProtocolOpCode::UnknownSender => {
                        if rest.len() == 0 {
                            Ok(PacketModel::UnknownSender)
                        } else {
                            Err(DeserializeError::TruncatedPacket)
                        }
                    },
                    ProtocolOpCode::RemapConnection => {
                        if rest.len() == 8 {
                            Ok(
                                PacketModel::RemapConnection {
                                    session_id: spec_read_u32(rest, 0),
                                    crc_seed: spec_read_u32(rest, 4),
                                },
                            )
                        } else {
                            Err(DeserializeError::TruncatedPacket)
                        }
                    },
                }
            },
        }
    }
}

/// Decodes the body of a `SessionRequest`.
pub open spec fn spec_decode_session_request(rest: Seq<u8>) -> Result<
    PacketModel,
    DeserializeError,
> {
    if rest.len() < 16 {
        Err(DeserializeError::TruncatedPacket)
    } else {
        let name_len = spec_read_u32(rest, 12);
        if rest.len() != 16 + name_len {
            Err(DeserializeError::TruncatedPacket)
        } else {
            let name_bytes = rest.skip(16);
            if valid_utf8(name_bytes) {
                Ok(
                    PacketModel::SessionRequest {
                        protocol: spec_read_u32(rest, 0),
                        session_id: spec_read_u32(rest, 4),
                        buffer_size: spec_read_u32(rest, 8),
                        app_protocol: decode_utf8(name_bytes),
                    },
                )
            } else {
                Err(DeserializeError::TruncatedPacket)
            }
        }
    }
}

/// Decodes the body of a `SessionReply`.
pub open spec fn spec_decode_session_reply(rest: Seq<u8>) -> Result<PacketModel, DeserializeError> {
    if rest.len() != 19 {
        Err(DeserializeError::TruncatedPacket)
    } else {
        match (spec_read_bool(rest[9]), spec_read_bool(rest[10])) {
            (Option::Some(allow_compression), Option::Some(use_encryption)) => {
                Ok(
                    PacketModel::SessionReply {
                        session_id: spec_read_u32(rest, 0),
                        crc_seed: spec_read_u32(rest, 4),
                        crc_length: rest[8],
                        allow_compression,
                        use_encryption,
                        buffer_size: spec_read_u32(rest, 11),
                        protocol: spec_read_u32(rest, 15),
                    },
                )
            },
            _ => Err(DeserializeError::TruncatedPacket),
        }
    }
}

/// Decodes the body of a `Disconnect`.
pub open spec fn spec_decode_disconnect(rest: Seq<u8>) -> Result<PacketModel, DeserializeError> {
    if rest.len() != 6 {
        Err(DeserializeError::TruncatedPacket)
    } else {
        match spec_reason_from_value(spec_read_u16(rest, 4)) {
            Option::Some(reason) => {
                Ok(PacketModel::Disconnect { session_id: spec_read_u32(rest, 0), reason })
            },
            Option::None => Err(DeserializeError::UnknownOpCode),
        }
    }
}

/// Decodes the body of a `NetStatusRequest`.
pub open spec fn spec_decode_net_status_request(rest: Seq<u8>) -> Result<
    PacketModel,
    DeserializeError,
> {
    if rest.len() != 40 {
        Err(DeserializeError::TruncatedPacket)
    } else {
        Ok(
            PacketModel::NetStatusRequest {
                client_tick: spec_read_u16(rest, 0),
                last_client_update: spec_read_u32(rest, 2),
                average_update: spec_read_u32(rest, 6),
                shortest_update: spec_read_u32(rest, 10),
                longest_update: spec_read_u32(rest, 14),
                last_server_update: spec_read_u32(rest, 18),
                packets_sent: spec_read_u64(rest, 22),
                packets_received: spec_read_u64(rest, 30),
                unknown: spec_read_u16(rest, 38),
            },
        )
    }
}

/// Decodes the body of a `NetStatusReply`.
pub open spec fn spec_decode_net_status_reply(rest: Seq<u8>) -> Result<
    PacketModel,
    DeserializeError,
> {
    if rest.len() != 40 {
        Err(DeserializeError::TruncatedPacket)
    } else {
        Ok(
            PacketModel::NetStatusReply {
                client_tick: spec_read_u16(rest, 0),
                server_tick: spec_read_u32(rest, 2),
                client_packets_sent: spec_read_u64(rest, 6),
                client_packets_received: spec_read_u64(rest, 14),
                server_packets_sent: spec_read_u64(rest, 22),
                server_packets_received: spec_read_u64(rest, 30),
                unknown: spec_read_u16(rest, 38),
            },
        )
    }
}

/// Decoding inverts encoding: a well-formed packet's bare encoding decodes
/// back to the packet.
pub proof fn lemma_body_round_trip(m: PacketModel)
    requires
        spec_packet_wf(m),
    ensures
        spec_decode_body(spec_encode_body(m)) == Ok::<PacketModel, DeserializeError>(m),
{
    reveal(spec_decode_body);
    reveal(spec_encode_body);
    let b = spec_encode_body(m);
    let opv = spec_op_code_value(spec_packet_op_code(m));
    assert(spec_read_u16(b, 0) == opv) by {
        crate::wire::lemma_u16_be_round_trip(opv);
    }
    match m {
        PacketModel::SessionRequest { .. } => lemma_rt_session_request(m),
        PacketModel::SessionReply { .. } => lemma_rt_session_reply(m),
        PacketModel::Disconnect { .. } => lemma_rt_disconnect(m),
        PacketModel::Heartbeat => {
            assert(b.skip(2).len() == 0);
        },
        PacketModel::NetStatusRequest { .. } => lemma_rt_net_status_request(m),
        PacketModel::NetStatusReply { .. } => lemma_rt_net_status_reply(m),
        PacketModel::Data { .. } => lemma_rt_data(m),
        PacketModel::DataFragment { .. } => lemma_rt_data(m),
        PacketModel::Ack { sequence } => {
            lemma_read_u16_of_concat(b.skip(2), 0, sequence);
        },
        PacketModel::AckAll { sequence } => {
            lemma_read_u16_of_concat(b.skip(2), 0, sequence);
        },
        PacketModel::UnknownSender => {
            assert(b.skip(2).len() == 0);
        },
        PacketModel::RemapConnection { session_id, crc_seed } => {
            crate::wire::lemma_u16_be_round_trip(opv);
            lemma_read_u32_of_concat(b.skip(2), 0, session_id);
            lemma_read_u32_of_concat(b.skip(2), 4, crc_seed);
        },
    }
}

proof fn lemma_rt_session_request(m: PacketModel)
    requires
        m is SessionRequest,
        spec_packet_wf(m),
    ensures
        spec_decode_body(spec_encode_body(m)) == Ok::<PacketModel, DeserializeError>(m),
{
    reveal(spec_decode_body);
    reveal(spec_encode_body);
    let b = spec_encode_body(m);
    let opv = spec_op_code_value(spec_packet_op_code(m));
    crate::wire::lemma_u16_be_round_trip(opv);
    let rest = b.skip(2);
    if let PacketModel::SessionRequest { protocol, session_id, buffer_size, app_protocol } = m {
        let name = encode_utf8(app_protocol);
        assert(rest =~= spec_u32_be(protocol) + spec_u32_be(session_id) + spec_u32_be(buffer_size)
            + spec_u32_be(name.len() as u32) + name);
        lemma_read_u32_of_concat(rest, 0, protocol);
        lemma_read_u32_of_concat(rest, 4, session_id);
        lemma_read_u32_of_concat(rest, 8, buffer_size);
        lemma_read_u32_of_concat(rest, 12, name.len() as u32);
        assert(rest.skip(16) =~= name);
        vstd::utf8::encode_utf8_valid_utf8(app_protocol);
        vstd::utf8::encode_utf8_decode_utf8(app_protocol);
    }
}

proof fn lemma_rt_session_reply(m: PacketModel)
    requires
        m is SessionReply,
    ensures
        spec_decode_body(spec_encode_body(m)) == Ok::<PacketModel, DeserializeError>(m),
{
    reveal(spec_decode_body);
    reveal(spec_encode_body);
    let b = spec_encode_body(m);
    let opv = spec_op_code_value(spec_packet_op_code(m));
    crate::wire::lemma_u16_be_round_trip(opv);
    let rest = b.skip(2);
    if let PacketModel::SessionReply {
        session_id,
        crc_seed,
        crc_length,
        allow_compression,
        use_encryption,
        buffer_size,
        protocol,
    } = m {
        lemma_read_u32_of_concat(rest, 0, session_id);
        lemma_read_u32_of_concat(rest, 4, crc_seed);
        assert(rest[8] == crc_length);
        assert(rest[9] == spec_bool_byte(allow_compression));
        assert(rest[10] == spec_bool_byte(use_encryption));
        lemma_read_u32_of_concat(rest, 11, buffer_size);
        lemma_read_u32_of_concat(rest, 15, protocol);
    }
}

proof fn lemma_rt_disconnect(m: PacketModel)
    requires
        m is Disconnect,
    ensures
        spec_decode_body(spec_encode_body(m)) == Ok::<PacketModel, DeserializeError>(m),
{
    reveal(spec_decode_body);
    reveal(spec_encode_body);
    let b = spec_encode_body(m);
    let opv = spec_op_code_value(spec_packet_op_code(m));
    crate::wire::lemma_u16_be_round_trip(opv);
    let rest = b.skip(2);
    if let PacketModel::Disconnect { session_id, reason } = m {
        lemma_read_u32_of_concat(rest, 0, session_id);
        lemma_read_u16_of_concat(rest, 4, spec_reason_value(reason));
    }
}

#[verifier::rlimit(80)]
proof fn lemma_rt_net_status_request(m: PacketModel)
    requires
        m is NetStatusRequest,
    ensures
        spec_decode_body(spec_encode_body(m)) == Ok::<PacketModel, DeserializeError>(m),
{
    reveal(spec_decode_body);
    reveal(spec_encode_body);
    let b = spec_encode_body(m);
    let opv = spec_op_code_value(spec_packet_op_code(m));
    crate::wire::lemma_u16_be_round_trip(opv);
    let rest = b.skip(2);
    if let PacketModel::NetStatusRequest {
        client_tick,
        last_client_update,
        average_update,
        shortest_update,
        longest_update,
        last_server_update,
        packets_sent,
        packets_received,
        unknown,
    } = m {
        lemma_read_u16_of_concat(rest, 0, client_tick);
        lemma_read_u32_of_concat(rest, 2, last_client_update);
        lemma_read_u32_of_concat(rest, 6, average_update);
        lemma_read_u32_of_concat(rest, 10, shortest_update);
        lemma_read_u32_of_concat(rest, 14, longest_update);
        lemma_read_u32_of_concat(rest, 18, last_server_update);
        lemma_read_u64_of_concat(rest, 22, packets_sent);
        lemma_read_u64_of_concat(rest, 30, packets_received);
        lemma_read_u16_of_concat(rest, 38, unknown);
    }
}

#[verifier::rlimit(80)]
proof fn lemma_rt_net_status_reply(m: PacketModel)
    requires
        m is NetStatusReply,
    ensures
        spec_decode_body(spec_encode_body(m)) == Ok::<PacketModel, DeserializeError>(m),
{
    reveal(spec_decode_body);
    reveal(spec_encode_body);
    let b = spec_encode_body(m);
    let opv = spec_op_code_value(spec_packet_op_code(m));
    crate::wire::lemma_u16_be_round_trip(opv);
    let rest = b.skip(2);
    if let PacketModel::NetStatusReply {
        client_tick,
        server_tick,
        client_packets_sent,
        client_packets_received,
        server_packets_sent,
        server_packets_received,
        unknown,
    } = m {
        lemma_read_u16_of_concat(rest, 0, client_tick);
        lemma_read_u32_of_concat(rest, 2, server_tick);
        lemma_read_u64_of_concat(rest, 6, client_packets_sent);
        lemma_read_u64_of_concat(rest, 14, client_packets_received);
        lemma_read_u64_of_concat(rest, 22, server_packets_sent);
        lemma_read_u64_of_concat(rest, 30, server_packets_received);
        lemma_read_u16_of_concat(rest, 38, unknown);
    }
}

proof fn lemma_rt_data(m: PacketModel)
    requires
        m is Data || m is DataFragment,
    ensures
        spec_decode_body(spec_encode_body(m)) == Ok::<PacketModel, DeserializeError>(m),
{
    reveal(spec_decode_body);
    reveal(spec_encode_body);
    let b = spec_encode_body(m);
    let opv = spec_op_code_value(spec_packet_op_code(m));
    crate::wire::lemma_u16_be_round_trip(opv);
    let rest = b.skip(2);
    match m {
        PacketModel::Data { sequence, payload } => {
            lemma_read_u16_of_concat(rest, 0, sequence);
            assert(rest.skip(2) =~= payload);
        },
        PacketModel::DataFragment { sequence, payload } => {
            lemma_read_u16_of_concat(rest, 0, sequence);
            assert(rest.skip(2) =~= payload);
        },
        _ => {},
    }
}

/// If the bytes of `b` at `i` are the big-endian encoding of `x`, reading
/// there yields `x`.
proof fn lemma_read_u16_of_concat(b: Seq<u8>, i: int, x: u16)
    requires
        0 <= i,
        i + 2 <= b.len(),
        b[i] == spec_u16_be(x)[0],
        b[i + 1] == spec_u16_be(x)[1],
    ensures
        spec_read_u16(b, i) == x,
{
    crate::wire::lemma_u16_be_round_trip(x);
}

/// If the bytes of `b` at `i` are the big-endian encoding of `x`, reading
/// there yields `x`.
proof fn lemma_read_u32_of_concat(b: Seq<u8>, i: int, x: u32)
    requires
        0 <= i,
        i + 4 <= b.len(),
        b[i] == spec_u32_be(x)[0],
        b[i + 1] == spec_u32_be(x)[1],
        b[i + 2] == spec_u32_be(x)[2],
        b[i + 3] == spec_u32_be(x)[3],
    ensures
        spec_read_u32(b, i) == x,
{
    crate::wire::lemma_u32_be_round_trip(x);
}

/// If the bytes of `b` at `i` are the big-endian encoding of `x`, reading
/// there yields `x`.
proof fn lemma_read_u64_of_concat(b: Seq<u8>, i: int, x: u64)
    requires
        0 <= i,
        i + 8 <= b.len(),
        forall|j: int| 0 <= j < 8 ==> b[i + j] == spec_u64_be(x)[j],
    ensures
        spec_read_u64(b, i) == x,
{
    let hi = (x / 0x1_0000_0000) as u32;
    let lo = (x % 0x1_0000_0000) as u32;
    assert(spec_u64_be(x) == spec_u32_be(hi) + spec_u32_be(lo));
    assert forall|j: int| 0 <= j < 4 implies b[i + j] == spec_u32_be(hi)[j] by {
        assert(b[i + j] == spec_u64_be(x)[j]);
    }
    assert forall|j: int| 0 <= j < 4 implies b[i + 4 + j] == spec_u32_be(lo)[j] by {
        assert(b[i + (4 + j)] == spec_u64_be(x)[4 + j]);
    }
    crate::wire::lemma_u32_be_round_trip(hi);
    crate::wire::lemma_u32_be_round_trip(lo);
    assert(spec_read_u32(b, i) == hi);
    assert(spec_read_u32(b, i + 4) == lo);
}

/// Copies `data[from..to]` into a fresh vector.
pub fn vec_subrange(data: &Vec<u8>, from: usize, to: usize) -> (r: Vec<u8>)
    requires
        from <= to <= data@.len(),
    ensures
        r@ == data@.subrange(from as int, to as int),
{
    let mut out: Vec<u8> = Vec::new();
    let mut i: usize = from;
    while i < to
        invariant
            from <= i <= to <= data@.len(),
            out@ == data@.subrange(from as int, i as int),
        decreases to - i,
    {
        out.push(data[i]);
        proof {
            assert(out@ =~= data@.subrange(from as int, i as int + 1));
        }
        i = i + 1;
    }
    out
}

/// Relies on `String::from_utf8`: it succeeds exactly on valid UTF-8 and
/// returns the text those bytes encode.
#[verifier::external_body]
fn bytes_to_string(b: Vec<u8>) -> (r: Option<String>)
    ensures
        r is Some <==> valid_utf8(b@),
        r matches Some(s) ==> s@ == decode_utf8(b@),
{
    String::from_utf8(b).ok()
}

/// Encodes a packet as its bare opcode-plus-body byte form.
pub fn encode_body(p: &Packet) -> (r: Vec<u8>)
    requires
        spec_packet_wf(p@),
    ensures
        r@ == spec_encode_body(p@),
{
    let mut out: Vec<u8> = Vec::new();
    write_u16_be(&mut out, p.op_code().value());
    match p {
        Packet::SessionRequest(protocol, session_id, buffer_size, app_protocol) => {
            write_u32_be(&mut out, *protocol);
            write_u32_be(&mut out, *session_id);
            write_u32_be(&mut out, *buffer_size);
            let mut name: Vec<u8> = app_protocol.as_str().as_bytes_vec();
            write_u32_be(&mut out, name.len() as u32);
            out.append(&mut name);
        },
        Packet::SessionReply(
            session_id,
            crc_seed,
            crc_length,
            allow_compression,
            use_encryption,
            buffer_size,
            protocol,
        ) => {
            write_u32_be(&mut out, *session_id);
            write_u32_be(&mut out, *crc_seed);
            out.push(*crc_length);
            out.push(if *allow_compression { 1 } else { 0 });
            out.push(if *use_encryption { 1 } else { 0 });
            write_u32_be(&mut out, *buffer_size);
            write_u32_be(&mut out, *protocol);
        },
        Packet::Disconnect(session_id, reason) => {
            write_u32_be(&mut out, *session_id);
            write_u16_be(&mut out, reason.value());
        },
        Packet::Heartbeat => {},
        Packet::NetStatusRequest(t, a, b, c, d, e, sent, received, unknown) => {
            write_u16_be(&mut out, *t);
            write_u32_be(&mut out, *a);
            write_u32_be(&mut out, *b);
            write_u32_be(&mut out, *c);
            write_u32_be(&mut out, *d);
            write_u32_be(&mut out, *e);
            write_u64_be(&mut out, *sent);
            write_u64_be(&mut out, *received);
            write_u16_be(&mut out, *unknown);
        },
        Packet::NetStatusReply(t, st, a, b, c, d, unknown) => {
            write_u16_be(&mut out, *t);
            write_u32_be(&mut out, *st);
            write_u64_be(&mut out, *a);
            write_u64_be(&mut out, *b);
            write_u64_be(&mut out, *c);
            write_u64_be(&mut out, *d);
            write_u16_be(&mut out, *unknown);
        },
        Packet::Data(sequence, payload) => {
            write_u16_be(&mut out, *sequence);
            let mut body = vec_subrange(payload, 0, payload.len());
            proof {
                assert(body@ =~= payload@);
            }
            out.append(&mut body);
        },
        Packet::DataFragment(sequence, payload) => {
            write_u16_be(&mut out, *sequence);
            let mut body = vec_subrange(payload, 0, payload.len());
            proof {
                assert(body@ =~= payload@);
            }
            out.append(&mut body);
        },
        Packet::Ack(sequence) => {
            write_u16_be(&mut out, *sequence);
        },
        Packet::AckAll(sequence) => {
            write_u16_be(&mut out, *sequence);
        },
        Packet::UnknownSender => {},
        Packet::RemapConnection(session_id, crc_seed) => {
            write_u32_be(&mut out, *session_id);
            write_u32_be(&mut out, *crc_seed);
        },
    }
    proof {
        reveal(spec_encode_body);
        assert(out@ =~= spec_encode_body(p@));
    }
    out
}

/// Decodes a bare opcode-plus-body encoding into a packet.
pub fn decode_body(data: &Vec<u8>) -> (r: Result<Packet, DeserializeError>)
    ensures
        r matches Ok(p) ==> spec_decode_body(data@) == Ok::<PacketModel, DeserializeError>(p@),
        r matches Err(e) ==> spec_decode_body(data@) == Err::<PacketModel, DeserializeError>(e),
{
    proof {
        reveal(spec_decode_body);
    }
    let n: usize = data.len();
    if n < 2 {
        return Err(DeserializeError::TruncatedPacket);
    }
    let opv = read_u16_be(data, 0);
    let op = match ProtocolOpCode::from_value(opv) {
        Some(op) => op,
        None => {
            return Err(DeserializeError::UnknownOpCode);
        },
    };
    let ghost rest = data@.skip(2);
    proof {
        assert(rest.len() == n - 2);
        assert(forall|i: int| 0 <= i < rest.len() ==> rest[i] == data@[i + 2]);
    }
    match op {
        ProtocolOpCode::SessionRequest => {
            if n < 18 {
                return Err(DeserializeError::TruncatedPacket);
            }
            let name_len = read_u32_be(data, 14);
            if n - 18 != name_len as usize {
                return Err(DeserializeError::TruncatedPacket);
            }
            let name_bytes = vec_subrange(data, 18, n);
            proof {
                assert(name_bytes@ =~= rest.skip(16));
            }
            match bytes_to_string(name_bytes) {
                Some(name) => {
                    let protocol = read_u32_be(data, 2);
                    let session_id = read_u32_be(data, 6);
                    let buffer_size = read_u32_be(data, 10);
                    Ok(Packet::SessionRequest(protocol, session_id, buffer_size, name))
                },
                None => Err(DeserializeError::TruncatedPacket),
            }
        },
        ProtocolOpCode::SessionReply => {
            if n != 21 {
                return Err(DeserializeError::TruncatedPacket);
            }
            let compression_byte = data[11];
            let encryption_byte = data[12];
            if compression_byte > 1 || encryption_byte > 1 {
                return Err(DeserializeError::TruncatedPacket);
            }
            Ok(
                Packet::SessionReply(
                    read_u32_be(data, 2),
                    read_u32_be(data, 6),
                    data[10],
                    compression_byte == 1,
                    encryption_byte == 1,
                    read_u32_be(data, 13),
                    read_u32_be(data, 17),
                ),
            )
        },
        ProtocolOpCode::MultiPacket => Err(DeserializeError::UnknownOpCode),
        ProtocolOpCode::Disconnect => {
            if n != 8 {
                return Err(DeserializeError::TruncatedPacket);
            }
            let session_id = read_u32_be(data, 2);
            match DisconnectReason::from_value(read_u16_be(data, 6)) {
                Some(reason) => Ok(Packet::Disconnect(session_id, reason)),
                None => Err(DeserializeError::UnknownOpCode),
            }
        },
        ProtocolOpCode::Heartbeat => {
            if n != 2 {
                return Err(DeserializeError::TruncatedPacket);
            }
            Ok(Packet::Heartbeat)
        },
        ProtocolOpCode::NetStatusRequest => {
            if n != 42 {
                return Err(DeserializeError::TruncatedPacket);
            }
            Ok(
                Packet::NetStatusRequest(
                    read_u16_be(data, 2),
                    read_u32_be(data, 4),
                    read_u32_be(data, 8),
                    read_u32_be(data, 12),
                    read_u32_be(data, 16),
                    read_u32_be(data, 20),
                    read_u64_be(data, 24),
                    read_u64_be(data, 32),
                    read_u16_be(data, 40),
                ),
            )
        },
        ProtocolOpCode::NetStatusReply => {
            if n != 42 {
                return Err(DeserializeError::TruncatedPacket);
            }
            Ok(
                Packet::NetStatusReply(
                    read_u16_be(data, 2),
                    read_u32_be(data, 4),
                    read_u64_be(data, 8),
                    read_u64_be(data, 16),
                    read_u64_be(data, 24),
                    read_u64_be(data, 32),
                    read_u16_be(data, 40),
                ),
            )
        },
        ProtocolOpCode::Data => {
            if n < 4 {
                return Err(DeserializeError::TruncatedPacket);
            }
            let sequence = read_u16_be(data, 2);
            let payload = vec_subrange(data, 4, n);
            proof {
                assert(payload@ =~= rest.skip(2));
            }
            Ok(Packet::Data(sequence, payload))
        },
        ProtocolOpCode::DataFragment => {
            if n < 4 {
                return Err(DeserializeError::TruncatedPacket);
            }
            let sequence = read_u16_be(data, 2);
            let payload = vec_subrange(data, 4, n);
            proof {
                assert(payload@ =~= rest.skip(2));
            }
            Ok(Packet::DataFragment(sequence, payload))
        },
        ProtocolOpCode::Ack => {
            if n != 4 {
                return Err(DeserializeError::TruncatedPacket);
            }
            Ok(Packet::Ack(read_u16_be(data, 2)))
        },
        ProtocolOpCode::AckAll => {
            if n != 4 {
                return Err(DeserializeError::TruncatedPacket);
            }
            Ok(Packet::AckAll(read_u16_be(data, 2)))
        },
        ProtocolOpCode::UnknownSender => {
            if n != 2 {
                return Err(DeserializeError::TruncatedPacket);
            }
            Ok(Packet::UnknownSender)
        },
        ProtocolOpCode::RemapConnection => {
            if n != 10 {
                return Err(DeserializeError::TruncatedPacket);
            }
            Ok(Packet::RemapConnection(read_u32_be(data, 2), read_u32_be(data, 6)))
        },
    }
}

/// Whether a packet of this opcode carries a compression flag byte under the
/// given session.
pub open spec fn spec_has_flag(op: ProtocolOpCode, session: Option<Session>) -> bool {
    match session {
        Option::Some(s) => s.allow_compression && !spec_is_handshake(op),
        Option::None => false,
    }
}

/// The length of the integrity tail under the given session.
pub open spec fn spec_session_crc_length(session: Option<Session>) -> nat {
    match session {
        Option::Some(s) => s.crc_length as nat,
        Option::None => 0,
    }
}

/// Inserts the (never set) compression flag byte between opcode and body.
pub open spec fn spec_add_flag(body: Seq<u8>, flagged: bool) -> Seq<u8> {
    if flagged {
        body.take(2) + seq![0u8] + body.skip(2)
    } else {
        body
    }
}

/// The integrity tail the given session demands for `data`.
pub open spec fn spec_wire_tail(data: Seq<u8>, session: Option<Session>) -> Seq<u8> {
    match session {
        Option::Some(s) => spec_crc_tail(spec_crc32(s.crc_seed, data), s.crc_length as nat),
        Option::None => Seq::<u8>::empty(),
    }
}

/// The full wire form of a single packet under a session: opcode, optional
/// compression flag, body, integrity tail.
pub open spec fn spec_wire_encode(m: PacketModel, session: Option<Session>) -> Seq<u8> {
    let framed = spec_add_flag(
        spec_encode_body(m),
        spec_has_flag(spec_packet_op_code(m), session),
    );
    framed + spec_wire_tail(framed, session)
}

/// Decodes the body of a multi-packet: a run of length-prefixed sub-packets.
/// A sub-length below 0xFF occupies one byte; otherwise a 0xFF marker is
/// followed by the 16-bit big-endian length.  A sub-packet that fails to
/// decode is skipped; a length that overruns the remaining bytes fails the
/// whole datagram.
pub open spec fn spec_decode_multi(rest: Seq<u8>) -> Result<Seq<PacketModel>, DeserializeError>
    decreases rest.len(),
{
    if rest.len() == 0 {
        Ok(Seq::<PacketModel>::empty())
    } else if rest[0] == 0xFF && rest.len() < 3 {
        Err(DeserializeError::TruncatedPacket)
    } else {
        let hdr: int = if rest[0] < 0xFF {
            1
        } else {
            3
        };
        let l: int = if rest[0] < 0xFF {
            rest[0] as int
        } else {
            spec_read_u16(rest, 1) as int
        };
        if rest.len() < hdr + l {
            Err(DeserializeError::TruncatedPacket)
        } else {
            let chunk = rest.subrange(hdr, hdr + l);
            match spec_decode_multi(rest.skip(hdr + l)) {
                Err(e) => Err(e),
                Ok(tail_models) => match spec_decode_body(chunk) {
                    Ok(m) => Ok(seq![m] + tail_models),
                    Err(_) => Ok(tail_models),
                },
            }
        }
    }
}

/// Decodes one datagram under a session: verifies and strips the integrity
/// tail, strips the compression flag where the session calls for one, then
/// decodes the packet, expanding a multi-packet into its sub-packets.
pub open spec fn spec_wire_decode(b: Seq<u8>, session: Option<Session>) -> Result<
    Seq<PacketModel>,
    DeserializeError,
> {
    let crc_len = spec_session_crc_length(session);
    if b.len() < crc_len + 2 {
        Err(DeserializeError::TruncatedPacket)
    } else {
        let data = b.take(b.len() - crc_len);
        let tail = b.skip(b.len() - crc_len);
        if crc_len > 0 && tail != spec_wire_tail(data, session) {
            Err(DeserializeError::CrcError)
        } else {
            match spec_op_code_from_value(spec_read_u16(data, 0)) {
                Option::None => Err(DeserializeError::UnknownOpCode),
                Option::Some(op) => {
                    let flagged = spec_has_flag(op, session);
                    if flagged && data.len() < 3 {
                        Err(DeserializeError::TruncatedPacket)
                    } else if flagged && data[2] != 0 {
                        Err(DeserializeError::DecompressionError)
                    } else {
                        let body = if flagged {
                            data.take(2) + data.skip(3)
                        } else {
                            data
                        };
                        if op == ProtocolOpCode::MultiPacket {
                            spec_decode_multi(body.skip(2))
                        } else {
                            match spec_decode_body(body) {
                                Ok(m) => Ok(seq![m]),
                                Err(e) => Err(e),
                            }
                        }
                    }
                },
            }
        }
    }
}

/// The models of a run of packets.
pub open spec fn spec_models(s: Seq<Packet>) -> Seq<PacketModel> {
    s.map_values(|p: Packet| p@)
}

/// A wire value maps back to the opcode it was taken from.
pub proof fn lemma_op_code_value_round_trip(op: ProtocolOpCode)
    ensures
        spec_op_code_from_value(spec_op_code_value(op)) == Some(op),
{
}

/// Wire round trip of one packet: decoding what was encoded under the same
/// session yields exactly that packet.
#[verifier::rlimit(100)]
pub proof fn lemma_wire_round_trip(m: PacketModel, session: Option<Session>)
    requires
        spec_packet_wf(m),
        session matches Some(s) ==> spec_session_wf(s),
    ensures
        spec_wire_decode(spec_wire_encode(m, session), session) == Ok::<
            Seq<PacketModel>,
            DeserializeError,
        >(seq![m]),
{
    let body = spec_encode_body(m);
    let op = spec_packet_op_code(m);
    let flagged = spec_has_flag(op, session);
    let framed = spec_add_flag(body, flagged);
    let b = spec_wire_encode(m, session);
    let crc_len = spec_session_crc_length(session);
    lemma_encode_body_len(m);
    assert(framed.len() >= 2);
    assert(b.len() == framed.len() + crc_len);
    assert(b.take(b.len() - crc_len) =~= framed);
    assert(b.skip(b.len() - crc_len) =~= spec_wire_tail(framed, session));
    assert(framed[0] == body[0]);
    assert(framed[1] == body[1]);
    assert(spec_read_u16(framed, 0) == spec_op_code_value(op)) by {
        crate::wire::lemma_u16_be_round_trip(spec_op_code_value(op));
    }
    lemma_op_code_value_round_trip(op);
    assert(op != ProtocolOpCode::MultiPacket);
    if flagged {
        assert(framed[2] == 0);
        assert(framed.take(2) + framed.skip(3) =~= body);
    }
    lemma_body_round_trip(m);
}

/// Whether this opcode belongs to the handshake.
pub fn is_handshake(op: ProtocolOpCode) -> (r: bool)
    ensures
        r == spec_is_handshake(op),
{
    match op {
        ProtocolOpCode::SessionRequest => true,
        ProtocolOpCode::SessionReply => true,
        _ => false,
    }
}

/// The integrity tail bytes for checksum `crc` under `crc_length`.
fn crc_tail_vec(crc: u32, crc_length: u8) -> (r: Vec<u8>)
    requires
        crc_length <= 4,
    ensures
        r@ == spec_crc_tail(crc, crc_length as nat),
{
    let mut out: Vec<u8> = Vec::new();
    write_crc_tail(&mut out, crc, crc_length);
    proof {
        assert(out@ =~= spec_crc_tail(crc, crc_length as nat));
    }
    out
}

/// Encodes one packet into its full wire form under a session.
pub fn encode_wire(p: &Packet, session: &Option<Session>) -> (r: Vec<u8>)
    requires
        spec_packet_wf(p@),
        *session matches Some(s) ==> spec_session_wf(s),
    ensures
        r@ == spec_wire_encode(p@, *session),
{
    let mut out = encode_body(p);
    let ghost body = out@;
    proof {
        lemma_encode_body_len(p@);
    }
    match session {
        Some(s) => {
            if s.allow_compression && !is_handshake(p.op_code()) {
                out.insert(2, 0u8);
                proof {
                    assert(out@ =~= body.take(2) + seq![0u8] + body.skip(2));
                }
            }
            let ghost framed = out@;
            let crc = crc32(s.crc_seed, &out);
            write_crc_tail(&mut out, crc, s.crc_length);
            proof {
                assert(out@ =~= spec_wire_encode(p@, *session));
            }
        },
        None => {
            proof {
                assert(out@ =~= spec_wire_encode(p@, *session));
            }
        },
    }
    out
}

/// Decodes one inbound datagram into the packets it carries.  A datagram
/// holding a multi-packet expands to several; a malformed datagram yields the
/// error `spec_wire_decode` assigns it, and the channel state is never
/// touched here.
pub fn deserialize_packet(data: &Vec<u8>, session: &Option<Session>) -> (r: Result<
    Vec<Packet>,
    DeserializeError,
>)
    requires
        *session matches Some(s) ==> spec_session_wf(s),
    ensures
        r matches Ok(ps) ==> spec_wire_decode(data@, *session) == Ok::<
            Seq<PacketModel>,
            DeserializeError,
        >(spec_models(ps@)),
        r matches Err(e) ==> spec_wire_decode(data@, *session) == Err::<
            Seq<PacketModel>,
            DeserializeError,
        >(e),
{
    let n: usize = data.len();
    let crc_length: u8 = match session {
        Some(s) => s.crc_length,
        None => 0,
    };
    let crc_len: usize = crc_length as usize;
    if n < 2 || n - 2 < crc_len {
        return Err(DeserializeError::TruncatedPacket);
    }
    let data_end: usize = n - crc_len;
    let ghost stripped = data@.take(data_end as int);
    if crc_len > 0 {
        let prefix = vec_subrange(data, 0, data_end);
        proof {
            assert(prefix@ =~= stripped);
        }
        let seed: u32 = match session {
            Some(s) => s.crc_seed,
            None => 0,
        };
        let crc = crc32(seed, &prefix);
        let expected = crc_tail_vec(crc, crc_length);
        let actual = vec_subrange(data, data_end, n);
        proof {
            assert(actual@ =~= data@.skip(data_end as int));
        }
        if !crate::packets::bytes_eq(&actual, &expected) {
            return Err(DeserializeError::CrcError);
        }
    }
    let opv = read_u16_be(data, 0);
    let op = match ProtocolOpCode::from_value(opv) {
        Some(op) => op,
        None => {
            proof {
                assert(spec_read_u16(stripped, 0) == opv);
            }
            return Err(DeserializeError::UnknownOpCode);
        },
    };
    proof {
        assert(spec_read_u16(stripped, 0) == opv);
    }
    let flagged: bool = match session {
        Some(s) => s.allow_compression && !is_handshake(op),
        None => false,
    };
    let body: Vec<u8>;
    if flagged {
        if data_end < 3 {
            return Err(DeserializeError::TruncatedPacket);
        }
        if data[2] != 0 {
            return Err(DeserializeError::DecompressionError);
        }
        let mut head = vec_subrange(data, 0, 2);
        let mut rest_part = vec_subrange(data, 3, data_end);
        head.append(&mut rest_part);
        body = head;
        proof {
            assert(body@ =~= stripped.take(2) + stripped.skip(3));
        }
    } else {
        body = vec_subrange(data, 0, data_end);
        proof {
            assert(body@ =~= stripped);
        }
    }
    if matches!(op, ProtocolOpCode::MultiPacket) {
        decode_multi(&body)
    } else {
        match decode_body(&body) {
            Ok(p) => {
                let mut out: Vec<Packet> = Vec::new();
                out.push(p);
                proof {
                    assert(spec_models(out@) =~= seq![p@]);
                }
                Ok(out)
            },
            Err(e) => Err(e),
        }
    }
}

/// Decodes the run of length-prefixed sub-packets that follows a
/// multi-packet opcode.  `body` holds the opcode at its head; entries start
/// at offset 2.
#[verifier::rlimit(100)]
fn decode_multi(body: &Vec<u8>) -> (r: Result<Vec<Packet>, DeserializeError>)
    requires
        body@.len() >= 2,
    ensures
        r matches Ok(ps) ==> spec_decode_multi(body@.skip(2)) == Ok::<
            Seq<PacketModel>,
            DeserializeError,
        >(spec_models(ps@)),
        r matches Err(e) ==> spec_decode_multi(body@.skip(2)) == Err::<
            Seq<PacketModel>,
            DeserializeError,
        >(e),
{
    let n: usize = body.len();
    let mut pos: usize = 2;
    let mut acc: Vec<Packet> = Vec::new();
    let ghost orig = body@.skip(2);
    while pos < n
        invariant
            2 <= pos <= n,
            n == body@.len(),
            orig == body@.skip(2),
            forall|t: Seq<PacketModel>|
                spec_decode_multi(body@.skip(pos as int)) == Ok::<
                    Seq<PacketModel>,
                    DeserializeError,
                >(t) ==> spec_decode_multi(orig) == Ok::<Seq<PacketModel>, DeserializeError>(
                    spec_models(acc@) + t,
                ),
            forall|e: DeserializeError|
                spec_decode_multi(body@.skip(pos as int)) == Err::<Seq<PacketModel>,
                DeserializeError>(e) ==> spec_decode_multi(orig) == Err::<
                    Seq<PacketModel>,
                    DeserializeError,
                >(e),
        decreases n - pos,
    {
        let ghost rest = body@.skip(pos as int);
        proof {
            assert(rest.len() == n - pos);
            assert(forall|i: int| 0 <= i < rest.len() ==> rest[i] == body@[pos + i]);
        }
        let first = body[pos];
        let hdr: usize;
        let l: usize;
        if first < 0xFF {
            hdr = 1;
            l = first as usize;
        } else {
            if n - pos < 3 {
                return Err(DeserializeError::TruncatedPacket);
            }
            hdr = 3;
            l = read_u16_be(body, pos + 1) as usize;
            proof {
                assert(spec_read_u16(rest, 1) == spec_u16_from_be(body@[pos + 1], body@[pos + 2]));
            }
        }
        if n - pos - hdr < l {
            proof {
                assert(rest.len() < hdr + l);
            }
            return Err(DeserializeError::TruncatedPacket);
        }
        let chunk = vec_subrange(body, pos + hdr, pos + hdr + l);
        proof {
            assert(chunk@ =~= rest.subrange(hdr as int, hdr as int + l as int));
            assert(body@.skip((pos + hdr + l) as int) =~= rest.skip(hdr as int + l as int));
        }
        let ghost acc_before = acc@;
        let ghost nr = rest.skip(hdr as int + l as int);
        match decode_body(&chunk) {
            Ok(p) => {
                acc.push(p);
                proof {
                    assert(spec_models(acc@) =~= spec_models(acc_before) + seq![p@]);
                    assert(spec_decode_body(chunk@) == Ok::<PacketModel, DeserializeError>(p@));
                    assert forall|t: Seq<PacketModel>|
                        spec_decode_multi(nr) == Ok::<Seq<PacketModel>, DeserializeError>(t)
                        implies spec_decode_multi(orig) == Ok::<Seq<PacketModel>, DeserializeError>(
                        spec_models(acc@) + t,
                    ) by {
                        assert(spec_decode_multi(rest) == Ok::<Seq<PacketModel>, DeserializeError>(
                            seq![p@] + t,
                        ));
                        assert(spec_models(acc_before) + (seq![p@] + t) =~= spec_models(acc@) + t);
                    }
                }
            },
            Err(_) => {
                proof {
                    assert(spec_decode_body(chunk@) is Err);
                    assert forall|t: Seq<PacketModel>|
                        spec_decode_multi(nr) == Ok::<Seq<PacketModel>, DeserializeError>(t)
                        implies spec_decode_multi(orig) == Ok::<Seq<PacketModel>, DeserializeError>(
                        spec_models(acc@) + t,
                    ) by {
                        assert(spec_decode_multi(rest) == Ok::<Seq<PacketModel>, DeserializeError>(
                            t,
                        ));
                    }
                }
            },
        }
        proof {
            assert forall|e: DeserializeError|
                spec_decode_multi(nr) == Err::<Seq<PacketModel>, DeserializeError>(e)
                implies spec_decode_multi(orig) == Err::<Seq<PacketModel>, DeserializeError>(e) by {
                assert(spec_decode_multi(rest) == Err::<Seq<PacketModel>, DeserializeError>(e));
            }
            assert(body@.skip((pos + hdr + l) as int) =~= nr);
        }
        pos = pos + hdr + l;
    }
    proof {
        assert(body@.skip(n as int) =~= Seq::<u8>::empty());
        assert(spec_models(acc@) + Seq::<PacketModel>::empty() =~= spec_models(acc@));
    }
    Ok(acc)
}

/// A bare encoding always starts with the 2-byte opcode.
pub proof fn lemma_encode_body_len(m: PacketModel)
    ensures
        spec_encode_body(m).len() >= 2,
        spec_encode_body(m)[0] == spec_u16_be(spec_op_code_value(spec_packet_op_code(m)))[0],
        spec_encode_body(m)[1] == spec_u16_be(spec_op_code_value(spec_packet_op_code(m)))[1],
{
    reveal(spec_encode_body);
}

/// The 1-or-3-byte length prefix of a multi-packet entry.
pub open spec fn spec_varlen(l: int) -> Seq<u8>
    recommends
        0 <= l <= 0xFFFF,
{
    if l < 0xFF {
        seq![l as u8]
    } else {
        seq![0xFFu8] + spec_u16_be(l as u16)
    }
}

/// The concatenated length-prefixed entries of a multi-packet.
pub open spec fn spec_multi_entries(ms: Seq<PacketModel>) -> Seq<u8>
    decreases ms.len(),
{
    if ms.len() == 0 {
        Seq::<u8>::empty()
    } else {
        spec_varlen(spec_encode_body(ms[0]).len() as int) + spec_encode_body(ms[0])
            + spec_multi_entries(ms.skip(1))
    }
}

/// The bare multi-packet body: the multi-packet opcode, then the entries.
pub open spec fn spec_multi_body(ms: Seq<PacketModel>) -> Seq<u8> {
    spec_u16_be(spec_op_code_value(ProtocolOpCode::MultiPacket)) + spec_multi_entries(ms)
}

/// The full wire form of a group of packets coalesced into one multi-packet.
pub open spec fn spec_wire_encode_multi(ms: Seq<PacketModel>, session: Option<Session>) -> Seq<
    u8,
> {
    let framed = spec_add_flag(
        spec_multi_body(ms),
        spec_has_flag(ProtocolOpCode::MultiPacket, session),
    );
    framed + spec_wire_tail(framed, session)
}

/// A group fit for coalescing: every member is well formed and its bare
/// encoding fits the 16-bit entry length.
pub open spec fn spec_multi_group_wf(ms: Seq<PacketModel>) -> bool {
    forall|k: int|
        0 <= k < ms.len() ==> spec_packet_wf(#[trigger] ms[k]) && spec_encode_body(ms[k]).len()
            <= 0xFFFF
}

/// Appending a packet to a group appends its entry to the entry run.
#[verifier::rlimit(100)]
pub proof fn lemma_multi_entries_push(ms: Seq<PacketModel>, m: PacketModel)
    ensures
        spec_multi_entries(ms.push(m)) == spec_multi_entries(ms) + spec_varlen(
            spec_encode_body(m).len() as int,
        ) + spec_encode_body(m),
    decreases ms.len(),
{
    if ms.len() == 0 {
        assert(ms.push(m)[0] == m);
        assert(ms.push(m).skip(1).len() == 0);
        assert(spec_multi_entries(ms.push(m).skip(1)) == Seq::<u8>::empty());
        assert(spec_multi_entries(ms.push(m)) == spec_varlen(spec_encode_body(m).len() as int)
            + spec_encode_body(m) + Seq::<u8>::empty());
        assert(spec_multi_entries(ms).len() == 0);
        assert(spec_multi_entries(ms.push(m)) =~= spec_multi_entries(ms) + spec_varlen(
            spec_encode_body(m).len() as int,
        ) + spec_encode_body(m));
    } else {
        assert(ms.push(m).skip(1) =~= ms.skip(1).push(m));
        assert(ms.push(m)[0] == ms[0]);
        lemma_multi_entries_push(ms.skip(1), m);
        assert(spec_multi_entries(ms.push(m)) =~= spec_multi_entries(ms) + spec_varlen(
            spec_encode_body(m).len() as int,
        ) + spec_encode_body(m));
    }
}

/// The entry run of a fit group decodes back to the group.
pub proof fn lemma_multi_entries_decode(ms: Seq<PacketModel>)
    requires
        spec_multi_group_wf(ms),
    ensures
        spec_decode_multi(spec_multi_entries(ms)) == Ok::<Seq<PacketModel>, DeserializeError>(ms),
    decreases ms.len(),
{
    if ms.len() == 0 {
        assert(spec_multi_entries(ms).len() == 0);
        assert(ms =~= Seq::<PacketModel>::empty());
    } else {
        let body0 = spec_encode_body(ms[0]);
        let l = body0.len() as int;
        let entries = spec_multi_entries(ms);
        let hdr: int = if l < 0xFF {
            1
        } else {
            3
        };
        lemma_encode_body_len(ms[0]);
        if l < 0xFF {
            assert(entries[0] == l as u8);
        } else {
            assert(entries[0] == 0xFFu8);
            assert(entries.len() >= 3);
            assert(entries[1] == spec_u16_be(l as u16)[0]);
            assert(entries[2] == spec_u16_be(l as u16)[1]);
            assert(spec_read_u16(entries, 1) == l as u16) by {
                crate::wire::lemma_u16_be_round_trip(l as u16);
            }
        }
        assert(entries.len() >= hdr + l);
        assert(entries.subrange(hdr, hdr + l) =~= body0);
        assert(entries.skip(hdr + l) =~= spec_multi_entries(ms.skip(1)));
        assert(spec_multi_group_wf(ms.skip(1))) by {
            assert(forall|k: int| 0 <= k < ms.skip(1).len() ==> ms.skip(1)[k] == ms[k + 1]);
        }
        lemma_multi_entries_decode(ms.skip(1));
        lemma_body_round_trip(ms[0]);
        assert(seq![ms[0]] + ms.skip(1) =~= ms);
    }
}

/// Wire round trip of a coalesced group: decoding the multi-packet datagram
/// yields the group's packets in order.
#[verifier::rlimit(100)]
pub proof fn lemma_multi_wire_round_trip(ms: Seq<PacketModel>, session: Option<Session>)
    requires
        spec_multi_group_wf(ms),
        session matches Some(s) ==> spec_session_wf(s),
    ensures
        spec_wire_decode(spec_wire_encode_multi(ms, session), session) == Ok::<
            Seq<PacketModel>,
            DeserializeError,
        >(ms),
{
    let body = spec_multi_body(ms);
    let op = ProtocolOpCode::MultiPacket;
    let flagged = spec_has_flag(op, session);
    let framed = spec_add_flag(body, flagged);
    let b = spec_wire_encode_multi(ms, session);
    let crc_len = spec_session_crc_length(session);
    assert(body.len() >= 2);
    assert(framed.len() >= 2);
    assert(b.len() == framed.len() + crc_len);
    assert(b.take(b.len() - crc_len) =~= framed);
    assert(b.skip(b.len() - crc_len) =~= spec_wire_tail(framed, session));
    assert(framed[0] == body[0]);
    assert(framed[1] == body[1]);
    assert(spec_read_u16(framed, 0) == spec_op_code_value(op)) by {
        crate::wire::lemma_u16_be_round_trip(spec_op_code_value(op));
    }
    lemma_op_code_value_round_trip(op);
    if flagged {
        assert(framed[2] == 0);
        assert(framed.take(2) + framed.skip(3) =~= body);
    }
    assert(body.skip(2) =~= spec_multi_entries(ms));
    lemma_multi_entries_decode(ms);
}

/// The packets a run of pending entries holds.
pub open spec fn spec_pending_models(q: Seq<PendingPacket>) -> Seq<PacketModel> {
    q.map_values(|pp: PendingPacket| pp.packet@)
}

/// The concatenation of what each datagram of a run decodes to; a datagram
/// that does not decode contributes nothing.
pub open spec fn spec_decoded_concat(ds: Seq<Seq<u8>>, session: Option<Session>) -> Seq<
    PacketModel,
>
    decreases ds.len(),
{
    if ds.len() == 0 {
        Seq::<PacketModel>::empty()
    } else {
        (match spec_wire_decode(ds[0], session) {
            Ok(t) => t,
            Err(_) => Seq::<PacketModel>::empty(),
        }) + spec_decoded_concat(ds.skip(1), session)
    }
}

/// Appending a datagram appends what it decodes to.
pub proof fn lemma_decoded_concat_push(ds: Seq<Seq<u8>>, d: Seq<u8>, session: Option<Session>)
    ensures
        spec_decoded_concat(ds.push(d), session) == spec_decoded_concat(ds, session) + (
        match spec_wire_decode(d, session) {
            Ok(t) => t,
            Err(_) => Seq::<PacketModel>::empty(),
        }),
    decreases ds.len(),
{
    let tail = match spec_wire_decode(d, session) {
        Ok(t) => t,
        Err(_) => Seq::<PacketModel>::empty(),
    };
    if ds.len() == 0 {
        assert(ds.push(d)[0] == d);
        assert(ds.push(d).skip(1).len() == 0);
        assert(spec_decoded_concat(ds.push(d).skip(1), session) == Seq::<PacketModel>::empty());
        assert(spec_decoded_concat(ds.push(d), session) == tail + Seq::<PacketModel>::empty());
        assert(tail + Seq::<PacketModel>::empty() =~= tail);
        assert(spec_decoded_concat(ds, session) + tail =~= tail);
    } else {
        assert(ds.push(d)[0] == ds[0]);
        assert(ds.push(d).skip(1) =~= ds.skip(1).push(d));
        lemma_decoded_concat_push(ds.skip(1), d, session);
        assert(spec_decoded_concat(ds.push(d), session) =~= spec_decoded_concat(ds, session)
            + tail);
    }
}

/// The views of a run of datagrams.
pub open spec fn spec_datagram_views(ds: Seq<Vec<u8>>) -> Seq<Seq<u8>> {
    ds.map_values(|d: Vec<u8>| d@)
}

/// Whether a packet of this opcode carries a compression flag byte under the
/// given session.
pub fn packet_flagged(op: ProtocolOpCode, session: &Option<Session>) -> (r: bool)
    ensures
        r == spec_has_flag(op, *session),
{
    match session {
        Some(s) => s.allow_compression && !is_handshake(op),
        None => false,
    }
}

/// The wire length of a single packet: its bare body, plus one flag byte
/// where the session calls for one, plus the integrity tail.
pub proof fn lemma_wire_encode_len(m: PacketModel, session: Option<Session>)
    requires
        session matches Some(s) ==> spec_session_wf(s),
    ensures
        spec_wire_encode(m, session).len() == spec_encode_body(m).len() + (
        if spec_has_flag(spec_packet_op_code(m), session) {
            1int
        } else {
            0
        }) + spec_session_crc_length(session),
{
    lemma_encode_body_len(m);
}

/// The wire length of a coalesced group: opcode, optional flag, the entry
/// run, and the integrity tail.
pub proof fn lemma_wire_encode_multi_len(ms: Seq<PacketModel>, session: Option<Session>)
    requires
        session matches Some(s) ==> spec_session_wf(s),
    ensures
        spec_wire_encode_multi(ms, session).len() == 2 + spec_multi_entries(ms).len() + (
        if spec_has_flag(ProtocolOpCode::MultiPacket, session) {
            1int
        } else {
            0
        }) + spec_session_crc_length(session),
{
    let body = spec_multi_body(ms);
    assert(body.len() >= 2);
}

/// Encodes the packets of `queue[from..to]` as one multi-packet datagram.
fn encode_multi_group(
    queue: &Vec<PendingPacket>,
    from: usize,
    to: usize,
    session: &Option<Session>,
) -> (r: Vec<u8>)
    requires
        from <= to <= queue@.len(),
        *session matches Some(s) ==> spec_session_wf(s),
        spec_multi_group_wf(spec_pending_models(queue@.subrange(from as int, to as int))),
    ensures
        r@ == spec_wire_encode_multi(
            spec_pending_models(queue@.subrange(from as int, to as int)),
            *session,
        ),
{
    let ghost group = spec_pending_models(queue@.subrange(from as int, to as int));
    let mut out: Vec<u8> = Vec::new();
    write_u16_be(&mut out, ProtocolOpCode::MultiPacket.value());
    let mut k: usize = from;
    proof {
        assert(queue@.subrange(from as int, from as int).len() == 0);
        assert(spec_multi_entries(spec_pending_models(queue@.subrange(from as int, from as int)))
            == Seq::<u8>::empty());
        assert(out@ =~= spec_u16_be(spec_op_code_value(ProtocolOpCode::MultiPacket)));
    }
    while k < to
        invariant
            from <= k <= to <= queue@.len(),
            *session matches Some(s) ==> spec_session_wf(s),
            group == spec_pending_models(queue@.subrange(from as int, to as int)),
            spec_multi_group_wf(group),
            out@ == spec_u16_be(spec_op_code_value(ProtocolOpCode::MultiPacket))
                + spec_multi_entries(
                spec_pending_models(queue@.subrange(from as int, k as int)),
            ),
        decreases to - k,
    {
        let ghost sofar = spec_pending_models(queue@.subrange(from as int, k as int));
        proof {
            assert(group[k - from] == queue@[k as int].packet@);
            assert(spec_packet_wf(queue@[k as int].packet@));
            assert(spec_encode_body(queue@[k as int].packet@).len() <= 0xFFFF);
        }
        let mut body = encode_body(&queue[k].packet);
        let blen: usize = body.len();
        if blen < 0xFF {
            out.push(blen as u8);
            proof {
                assert(spec_varlen(blen as int) =~= seq![blen as u8]);
            }
        } else {
            out.push(0xFF);
            write_u16_be(&mut out, blen as u16);
            proof {
                assert(spec_varlen(blen as int) =~= seq![0xFFu8] + spec_u16_be(blen as u16));
            }
        }
        out.append(&mut body);
        proof {
            assert(queue@.subrange(from as int, k as int + 1) =~= queue@.subrange(
                from as int,
                k as int,
            ).push(queue@[k as int]));
            assert(spec_pending_models(queue@.subrange(from as int, k as int + 1)) =~= sofar.push(
                queue@[k as int].packet@,
            ));
            lemma_multi_entries_push(sofar, queue@[k as int].packet@);
            assert(out@ =~= spec_u16_be(spec_op_code_value(ProtocolOpCode::MultiPacket))
                + spec_multi_entries(
                spec_pending_models(queue@.subrange(from as int, k as int + 1)),
            ));
        }
        k = k + 1;
    }
    proof {
        assert(out@ =~= spec_multi_body(group));
    }
    let ghost multibody = out@;
    match session {
        Some(s) => {
            if s.allow_compression {
                out.insert(2, 0u8);
                proof {
                    assert(out@ =~= multibody.take(2) + seq![0u8] + multibody.skip(2));
                }
            }
            let crc = crc32(s.crc_seed, &out);
            write_crc_tail(&mut out, crc, s.crc_length);
            proof {
                assert(out@ =~= spec_wire_encode_multi(group, *session));
            }
        },
        None => {
            proof {
                assert(out@ =~= spec_wire_encode_multi(group, *session));
            }
        },
    }
    out
}

/// Serializes the packets of `queue[0..count]` into outbound datagrams,
/// coalescing consecutive packets into a multi-packet while the coalesced
/// datagram stays within the buffer size.  Whatever the grouping, decoding
/// the datagrams in order yields exactly those packets in order; it fails
/// precisely when some packet cannot fit a datagram by itself.
#[verifier::rlimit(100)]
pub fn serialize_packets(
    queue: &Vec<PendingPacket>,
    count: usize,
    buffer_size: u32,
    session: &Option<Session>,
) -> (r: Result<Vec<Vec<u8>>, SerializeError>)
    requires
        count <= queue@.len(),
        *session matches Some(s) ==> spec_session_wf(s),
        forall|k: int| 0 <= k < count ==> spec_packet_wf(#[trigger] queue@[k].packet@),
    ensures
        r matches Ok(out) ==> {
            &&& forall|k: int|
                0 <= k < out@.len() ==> spec_wire_decode(#[trigger] out@[k]@, *session) is Ok
            &&& spec_decoded_concat(spec_datagram_views(out@), *session) == spec_pending_models(
                queue@.take(count as int),
            )
            &&& forall|k: int| 0 <= k < out@.len() ==> (#[trigger] out@[k]@).len() <= buffer_size
        },
        r is Err <==> exists|k: int|
            0 <= k < count && (#[trigger] spec_wire_encode(queue@[k].packet@, *session)).len()
                > buffer_size,
{
    let crc_length: u8 = match session {
        Some(s) => s.crc_length,
        None => 0,
    };
    let crc_len: u64 = crc_length as u64;
    let multi_flag: bool = packet_flagged(ProtocolOpCode::MultiPacket, session);
    let multi_flag_len: u64 = if multi_flag {
        1
    } else {
        0
    };
    let mut out: Vec<Vec<u8>> = Vec::new();
    let mut i: usize = 0;
    proof {
        assert(queue@.take(0).len() == 0);
        assert(spec_decoded_concat(spec_datagram_views(out@), *session) =~= spec_pending_models(
            queue@.take(0),
        ));
    }
    while i < count
        invariant
            i <= count <= queue@.len(),
            *session matches Some(s) ==> spec_session_wf(s),
            forall|k: int| 0 <= k < count ==> spec_packet_wf(#[trigger] queue@[k].packet@),
            crc_length as nat == spec_session_crc_length(*session),
            crc_len == crc_length as u64,
            multi_flag == spec_has_flag(ProtocolOpCode::MultiPacket, *session),
            multi_flag_len == (if multi_flag {
                1u64
            } else {
                0u64
            }),
            forall|k: int|
                0 <= k < out@.len() ==> spec_wire_decode(#[trigger] out@[k]@, *session) is Ok,
            spec_decoded_concat(spec_datagram_views(out@), *session) == spec_pending_models(
                queue@.take(i as int),
            ),
            forall|k: int| 0 <= k < out@.len() ==> (#[trigger] out@[k]@).len() <= buffer_size,
            forall|k: int|
                0 <= k < i ==> (#[trigger] spec_wire_encode(queue@[k].packet@, *session)).len()
                    <= buffer_size,
        decreases count - i,
    {
        let head_body = encode_body(&queue[i].packet);
        let head_blen: u64 = head_body.len() as u64;
        proof {
            lemma_wire_encode_len(queue@[i as int].packet@, *session);
        }
        if head_blen > u32::MAX as u64 {
            return Err(SerializeError::PacketTooLarge);
        }
        let head_flag: bool = packet_flagged(queue[i].packet.op_code(), session);
        let head_flag_len: u64 = if head_flag {
            1
        } else {
            0
        };
        let head_single: u64 = head_blen + head_flag_len + crc_len;
        if head_single > buffer_size as u64 {
            return Err(SerializeError::PacketTooLarge);
        }
        // Extend the group greedily while the coalesced datagram still fits.
        let mut j: usize = i + 1;
        let head_cost: u64 = if head_blen < 0xFF {
            1 + head_blen
        } else {
            3 + head_blen
        };
        let mut gsize: u64 = 2 + multi_flag_len + crc_len + head_cost;
        let group_start_ok: bool = head_blen <= 0xFFFF && gsize <= buffer_size as u64;
        proof {
            if group_start_ok {
                assert(queue@.subrange(i as int, j as int) =~= Seq::<
                    PendingPacket,
                >::empty().push(queue@[i as int]));
                assert(spec_pending_models(queue@.subrange(i as int, j as int)) =~= Seq::<
                    PacketModel,
                >::empty().push(queue@[i as int].packet@));
                lemma_multi_entries_push(Seq::<PacketModel>::empty(), queue@[i as int].packet@);
                assert(spec_multi_entries(Seq::<PacketModel>::empty()) == Seq::<u8>::empty());
                assert(spec_multi_entries(
                    spec_pending_models(queue@.subrange(i as int, j as int)),
                ).len() == head_cost);
            }
        }
        if group_start_ok {
            while j < count
                invariant_except_break
                    i < j <= count <= queue@.len(),
                    *session matches Some(s) ==> spec_session_wf(s),
                    forall|k: int| 0 <= k < count ==> spec_packet_wf(#[trigger] queue@[k].packet@),
                    crc_length as nat == spec_session_crc_length(*session),
                    crc_len == crc_length as u64,
                    multi_flag == spec_has_flag(ProtocolOpCode::MultiPacket, *session),
                    multi_flag_len == (if multi_flag {
                        1u64
                    } else {
                        0u64
                    }),
                    spec_multi_group_wf(spec_pending_models(queue@.subrange(i as int, j as int))),
                    gsize == 2 + multi_flag_len + crc_len + spec_multi_entries(
                        spec_pending_models(queue@.subrange(i as int, j as int)),
                    ).len(),
                    gsize <= buffer_size as u64,
                    forall|k: int|
                        i < k < j ==> (#[trigger] spec_wire_encode(
                            queue@[k].packet@,
                            *session,
                        )).len() <= buffer_size,
                ensures
                    i < j <= count,
                    spec_multi_group_wf(spec_pending_models(queue@.subrange(i as int, j as int))),
                    gsize == 2 + multi_flag_len + crc_len + spec_multi_entries(
                        spec_pending_models(queue@.subrange(i as int, j as int)),
                    ).len(),
                    gsize <= buffer_size as u64,
                    forall|k: int|
                        i < k < j ==> (#[trigger] spec_wire_encode(
                            queue@[k].packet@,
                            *session,
                        )).len() <= buffer_size,
                decreases count - j,
            {
                let next_body = encode_body(&queue[j].packet);
                let next_blen: u64 = next_body.len() as u64;
                if next_blen > 0xFFFF {
                    break ;
                }
                let next_cost: u64 = if next_blen < 0xFF {
                    1 + next_blen
                } else {
                    3 + next_blen
                };
                if gsize + next_cost > buffer_size as u64 {
                    break ;
                }
                proof {
                    let sofar = spec_pending_models(queue@.subrange(i as int, j as int));
                    assert(queue@.subrange(i as int, j as int + 1) =~= queue@.subrange(
                        i as int,
                        j as int,
                    ).push(queue@[j as int]));
                    assert(spec_pending_models(queue@.subrange(i as int, j as int + 1))
                        =~= sofar.push(queue@[j as int].packet@));
                    lemma_multi_entries_push(sofar, queue@[j as int].packet@);
                    lemma_wire_encode_len(queue@[j as int].packet@, *session);
                }
                gsize = gsize + next_cost;
                j = j + 1;
            }
        }
        let ghost prev_views = spec_datagram_views(out@);
        let ghost prev_concat = spec_decoded_concat(prev_views, *session);
        if group_start_ok && j > i + 1 {
            let d = encode_multi_group(queue, i, j, session);
            proof {
                let group = spec_pending_models(queue@.subrange(i as int, j as int));
                lemma_multi_wire_round_trip(group, *session);
                lemma_wire_encode_multi_len(group, *session);
            }
            out.push(d);
            proof {
                let group = spec_pending_models(queue@.subrange(i as int, j as int));
                assert(spec_datagram_views(out@) =~= prev_views.push(
                    spec_wire_encode_multi(group, *session),
                ));
                lemma_decoded_concat_push(
                    prev_views,
                    spec_wire_encode_multi(group, *session),
                    *session,
                );
                assert(queue@.take(j as int) =~= queue@.take(i as int) + queue@.subrange(
                    i as int,
                    j as int,
                ));
                assert(spec_pending_models(queue@.take(j as int)) =~= spec_pending_models(
                    queue@.take(i as int),
                ) + group);
            }
            i = j;
        } else {
            let d = encode_wire(&queue[i].packet, session);
            proof {
                lemma_wire_round_trip(queue@[i as int].packet@, *session);
            }
            out.push(d);
            proof {
                assert(spec_datagram_views(out@) =~= prev_views.push(
                    spec_wire_encode(queue@[i as int].packet@, *session),
                ));
                lemma_decoded_concat_push(
                    prev_views,
                    spec_wire_encode(queue@[i as int].packet@, *session),
                    *session,
                );
                assert(queue@.take(i as int + 1) =~= queue@.take(i as int).push(
                    queue@[i as int],
                ));
                assert(spec_pending_models(queue@.take(i as int + 1)) =~= spec_pending_models(
                    queue@.take(i as int),
                ).push(queue@[i as int].packet@));
                assert(spec_pending_models(queue@.take(i as int)) + seq![
                    queue@[i as int].packet@,
                ] =~= spec_pending_models(queue@.take(i as int + 1)));
            }
            i = i + 1;
        }
    }
    proof {
        assert(queue@.take(count as int) == queue@.take(count as int));
    }
    Ok(out)
}

/// A decoded packet is always well formed: the one constraint, the length of
/// a `SessionRequest` name, is enforced by its 4-byte length field.
proof fn lemma_decode_body_wf(b: Seq<u8>)
    ensures
        spec_decode_body(b) matches Ok(m) ==> spec_packet_wf(m),
{
    reveal(spec_decode_body);
    if b.len() >= 2 {
        match spec_op_code_from_value(spec_read_u16(b, 0)) {
            Option::Some(ProtocolOpCode::SessionRequest) => {
                let rest = b.skip(2);
                if rest.len() >= 16 && rest.len() == 16 + spec_read_u32(rest, 12) {
                    let name_bytes = rest.skip(16);
                    if valid_utf8(name_bytes) {
                        vstd::utf8::decode_utf8_encode_utf8(name_bytes);
                        assert(encode_utf8(decode_utf8(name_bytes)) == name_bytes);
                    }
                }
            },
            _ => {},
        }
    }
}

/// Every packet a multi-packet entry run decodes to is well formed.
proof fn lemma_decode_multi_wf(rest: Seq<u8>)
    ensures
        spec_decode_multi(rest) matches Ok(ps) ==> forall|i: int|
            0 <= i < ps.len() ==> spec_packet_wf(#[trigger] ps[i]),
    decreases rest.len(),
{
    if rest.len() == 0 {
    } else if rest[0] == 0xFF && rest.len() < 3 {
    } else {
        let hdr: int = if rest[0] < 0xFF {
            1
        } else {
            3
        };
        let l: int = if rest[0] < 0xFF {
            rest[0] as int
        } else {
            spec_read_u16(rest, 1) as int
        };
        if rest.len() >= hdr + l {
            lemma_decode_multi_wf(rest.skip(hdr + l));
            lemma_decode_body_wf(rest.subrange(hdr, hdr + l));
        }
    }
}

/// Every packet a datagram decodes to is well formed.
pub proof fn lemma_wire_decode_wf(b: Seq<u8>, session: Option<Session>)
    ensures
        spec_wire_decode(b, session) matches Ok(ps) ==> forall|i: int|
            0 <= i < ps.len() ==> spec_packet_wf(#[trigger] ps[i]),
{
    let crc_len = spec_session_crc_length(session);
    if b.len() >= crc_len + 2 {
        let data = b.take(b.len() - crc_len);
        match spec_op_code_from_value(spec_read_u16(data, 0)) {
            Option::Some(op) => {
                let flagged = spec_has_flag(op, session);
                if !(flagged && data.len() < 3) && !(flagged && data[2] != 0) {
                    let body = if flagged {
                        data.take(2) + data.skip(3)
                    } else {
                        data
                    };
                    if op == ProtocolOpCode::MultiPacket {
                        lemma_decode_multi_wf(body.skip(2));
                    } else {
                        lemma_decode_body_wf(body);
                    }
                }
            },
            Option::None => {},
        }
    }
}

/// A multi-packet entry run never decodes to more packets than it has bytes.
proof fn lemma_decode_multi_count(rest: Seq<u8>)
    ensures
        spec_decode_multi(rest) matches Ok(ps) ==> ps.len() <= rest.len(),
    decreases rest.len(),
{
    if rest.len() == 0 {
    } else if rest[0] == 0xFF && rest.len() < 3 {
    } else {
        let hdr: int = if rest[0] < 0xFF {
            1
        } else {
            3
        };
        let l: int = if rest[0] < 0xFF {
            rest[0] as int
        } else {
            spec_read_u16(rest, 1) as int
        };
        if rest.len() >= hdr + l {
            lemma_decode_multi_count(rest.skip(hdr + l));
        }
    }
}

/// A datagram never decodes to more packets than it has bytes.
pub proof fn lemma_wire_decode_count(b: Seq<u8>, session: Option<Session>)
    ensures
        spec_wire_decode(b, session) matches Ok(ps) ==> ps.len() <= b.len(),
{
    let crc_len = spec_session_crc_length(session);
    if b.len() >= crc_len + 2 {
        let data = b.take(b.len() - crc_len);
        match spec_op_code_from_value(spec_read_u16(data, 0)) {
            Option::Some(op) => {
                let flagged = spec_has_flag(op, session);
                if !(flagged && data.len() < 3) && !(flagged && data[2] != 0) {
                    let body = if flagged {
                        data.take(2) + data.skip(3)
                    } else {
                        data
                    };
                    if op == ProtocolOpCode::MultiPacket {
                        lemma_decode_multi_count(body.skip(2));
                    }
                }
            },
            Option::None => {},
        }
    }
}

} // verus!
