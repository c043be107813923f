//! The wire packet vocabulary: opcodes, disconnect reasons, the `Packet`
//! variants, and the negotiated `Session` parameters.

use vstd::prelude::*;

verus! {

pub type SequenceNumber = u16;

pub type SoeProtocolVersion = u32;

pub type SessionId = u32;

pub type BufferSize = u32;

pub type ApplicationProtocol = String;

pub type CrcSeed = u32;

pub type CrcSize = u8;

pub type ClientTick = u16;

pub type ServerTick = u32;

pub type Timestamp = u32;

pub type PacketCount = u64;

/// The 16-bit opcode that prefixes every wire packet.
#[derive(Copy, Clone, Debug, PartialEq, Eq, Structural)]
pub enum ProtocolOpCode {
    SessionRequest,
    SessionReply,
    MultiPacket,
    Disconnect,
    Heartbeat,
    NetStatusRequest,
    NetStatusReply,
    Data,
    DataFragment,
    Ack,
    AckAll,
    UnknownSender,
    RemapConnection,
}

/// The wire value of each opcode.
pub open spec fn spec_op_code_value(op: ProtocolOpCode) -> u16 {
    match op {
        ProtocolOpCode::SessionRequest => 0x01,
        ProtocolOpCode::SessionReply => 0x02,
        ProtocolOpCode::MultiPacket => 0x03,
        ProtocolOpCode::Disconnect => 0x05,
        ProtocolOpCode::Heartbeat => 0x06,
        ProtocolOpCode::NetStatusRequest => 0x07,
        ProtocolOpCode::NetStatusReply => 0x08,
        ProtocolOpCode::Data => 0x09,
        ProtocolOpCode::DataFragment => 0x0D,
        ProtocolOpCode::Ack => 0x11,
        ProtocolOpCode::AckAll => 0x15,
        ProtocolOpCode::UnknownSender => 0x1D,
        ProtocolOpCode::RemapConnection => 0x1E,
    }
}

/// The opcode a 16-bit wire value stands for, if any.
pub open spec fn spec_op_code_from_value(value: u16) -> Option<ProtocolOpCode> {
    match value {
        0x01 => Some(ProtocolOpCode::SessionRequest),
        0x02 => Some(ProtocolOpCode::SessionReply),
        0x03 => Some(ProtocolOpCode::MultiPacket),
        0x05 => Some(ProtocolOpCode::Disconnect),
        0x06 => Some(ProtocolOpCode::Heartbeat),
        0x07 => Some(ProtocolOpCode::NetStatusRequest),
        0x08 => Some(ProtocolOpCode::NetStatusReply),
        0x09 => Some(ProtocolOpCode::Data),
        0x0D => Some(ProtocolOpCode::DataFragment),
        0x11 => Some(ProtocolOpCode::Ack),
        0x15 => Some(ProtocolOpCode::AckAll),
        0x1D => Some(ProtocolOpCode::UnknownSender),
        0x1E => Some(ProtocolOpCode::RemapConnection),
        _ => None,
    }
}

/// Whether packets with this opcode may only be handled once a session is
/// established.
pub open spec fn spec_requires_session(op: ProtocolOpCode) -> bool {
    match op {
        ProtocolOpCode::SessionRequest => false,
        ProtocolOpCode::SessionReply => false,
        ProtocolOpCode::MultiPacket => true,
        ProtocolOpCode::Disconnect => true,
        ProtocolOpCode::Heartbeat => true,
        ProtocolOpCode::NetStatusRequest => false,
        ProtocolOpCode::NetStatusReply => false,
        ProtocolOpCode::Data => true,
        ProtocolOpCode::DataFragment => true,
        ProtocolOpCode::Ack => true,
        ProtocolOpCode::AckAll => true,
        ProtocolOpCode::UnknownSender => false,
        ProtocolOpCode::RemapConnection => false,
    }
}

/// Whether this opcode belongs to the handshake itself; handshake packets
/// never carry a compression flag.
pub open spec fn spec_is_handshake(op: ProtocolOpCode) -> bool {
    op == ProtocolOpCode::SessionRequest || op == ProtocolOpCode::SessionReply
}

impl ProtocolOpCode {
    /// The 16-bit value written on the wire for this opcode.
    pub fn value(&self) -> (r: u16)
        ensures
            r == spec_op_code_value(*self),
    {
        match self {
            ProtocolOpCode::SessionRequest => 0x01,
            ProtocolOpCode::SessionReply => 0x02,
            ProtocolOpCode::MultiPacket => 0x03,
            ProtocolOpCode::Disconnect => 0x05,
            ProtocolOpCode::Heartbeat => 0x06,
            ProtocolOpCode::NetStatusRequest => 0x07,
            ProtocolOpCode::NetStatusReply => 0x08,
            ProtocolOpCode::Data => 0x09,
            ProtocolOpCode::DataFragment => 0x0D,
            ProtocolOpCode::Ack => 0x11,
            ProtocolOpCode::AckAll => 0x15,
            ProtocolOpCode::UnknownSender => 0x1D,
            ProtocolOpCode::RemapConnection => 0x1E,
        }
    }

    /// The opcode a wire value stands for, or `None` for an unknown value.
    pub fn from_value(value: u16) -> (r: Option<ProtocolOpCode>)
        ensures
            r == spec_op_code_from_value(value),
    {
        match value {
            0x01 => Some(ProtocolOpCode::SessionRequest),
            0x02 => Some(ProtocolOpCode::SessionReply),
            0x03 => Some(ProtocolOpCode::MultiPacket),
            0x05 => Some(ProtocolOpCode::Disconnect),
            0x06 => Some(ProtocolOpCode::Heartbeat),
            0x07 => Some(ProtocolOpCode::NetStatusRequest),
            0x08 => Some(ProtocolOpCode::NetStatusReply),
            0x09 => Some(ProtocolOpCode::Data),
            0x0D => Some(ProtocolOpCode::DataFragment),
            0x11 => Some(ProtocolOpCode::Ack),
            0x15 => Some(ProtocolOpCode::AckAll),
            0x1D => Some(ProtocolOpCode::UnknownSender),
            0x1E => Some(ProtocolOpCode::RemapConnection),
            _ => None,
        }
    }

    /// Whether packets with this opcode may only be handled once a session is
    /// established.
    pub fn requires_session(&self) -> (r: bool)
        ensures
            r == spec_requires_session(*self),
    {
        match self {
            ProtocolOpCode::SessionRequest => false,
            ProtocolOpCode::SessionReply => false,
            ProtocolOpCode::MultiPacket => true,
            ProtocolOpCode::Disconnect => true,
            ProtocolOpCode::Heartbeat => true,
            ProtocolOpCode::NetStatusRequest => false,
            ProtocolOpCode::NetStatusReply => false,
            ProtocolOpCode::Data => true,
            ProtocolOpCode::DataFragment => true,
            ProtocolOpCode::Ack => true,
            ProtocolOpCode::AckAll => true,
            ProtocolOpCode::UnknownSender => false,
            ProtocolOpCode::RemapConnection => false,
        }
    }
}

/// The reason carried by a `Disconnect` packet.
#[derive(Copy, Clone, Debug, PartialEq, Eq, Structural)]
pub enum DisconnectReason {
    Unknown,
    IcmpError,
    Timeout,
    OtherSideTerminated,
    ManagerDeleted,
    ConnectFail,
    Application,
    UnreachableConnection,
    UnacknowledgedTimeout,
    NewConnectionAttempt,
    ConnectionRefused,
    ConnectError,
    ConnectingToSelf,
    ReliableOverflow,
    ApplicationReleased,
    CorruptPacket,
    ProtocolMismatch,
}

/// The 16-bit wire value of each disconnect reason.
pub open spec fn spec_reason_value(reason: DisconnectReason) -> u16 {
    match reason {
        DisconnectReason::Unknown => 0,
        DisconnectReason::IcmpError => 1,
        DisconnectReason::Timeout => 2,
        DisconnectReason::OtherSideTerminated => 3,
        DisconnectReason::ManagerDeleted => 4,
        DisconnectReason::ConnectFail => 5,
        DisconnectReason::Application => 6,
        DisconnectReason::UnreachableConnection => 7,
        DisconnectReason::UnacknowledgedTimeout => 8,
        DisconnectReason::NewConnectionAttempt => 9,
        DisconnectReason::ConnectionRefused => 10,
        DisconnectReason::ConnectError => 11,
        DisconnectReason::ConnectingToSelf => 12,
        DisconnectReason::ReliableOverflow => 13,
        DisconnectReason::ApplicationReleased => 14,
        DisconnectReason::CorruptPacket => 15,
        DisconnectReason::ProtocolMismatch => 16,
    }
}

/// The disconnect reason a 16-bit wire value stands for, if any.
pub open spec fn spec_reason_from_value(value: u16) -> Option<DisconnectReason> {
    match value {
        0 => Some(DisconnectReason::Unknown),
        1 => Some(DisconnectReason::IcmpError),
        2 => Some(DisconnectReason::Timeout),
        3 => Some(DisconnectReason::OtherSideTerminated),
        4 => Some(DisconnectReason::ManagerDeleted),
        5 => Some(DisconnectReason::ConnectFail),
        6 => Some(DisconnectReason::Application),
        7 => Some(DisconnectReason::UnreachableConnection),
        8 => Some(DisconnectReason::UnacknowledgedTimeout),
        9 => Some(DisconnectReason::NewConnectionAttempt),
        10 => Some(DisconnectReason::ConnectionRefused),
        11 => Some(DisconnectReason::ConnectError),
        12 => Some(DisconnectReason::ConnectingToSelf),
        13 => Some(DisconnectReason::ReliableOverflow),
        14 => Some(DisconnectReason::ApplicationReleased),
        15 => Some(DisconnectReason::CorruptPacket),
        16 => Some(DisconnectReason::ProtocolMismatch),
        _ => None,
    }
}

impl DisconnectReason {
    /// The 16-bit value written on the wire for this reason.
    pub fn value(&self) -> (r: u16)
        ensures
            r == spec_reason_value(*self),
    {
        match self {
            DisconnectReason::Unknown => 0,
            DisconnectReason::IcmpError => 1,
            DisconnectReason::Timeout => 2,
            DisconnectReason::OtherSideTerminated => 3,
            DisconnectReason::ManagerDeleted => 4,
            DisconnectReason::ConnectFail => 5,
            DisconnectReason::Application => 6,
            DisconnectReason::UnreachableConnection => 7,
            DisconnectReason::UnacknowledgedTimeout => 8,
            DisconnectReason::NewConnectionAttempt => 9,
            DisconnectReason::ConnectionRefused => 10,
            DisconnectReason::ConnectError => 11,
            DisconnectReason::ConnectingToSelf => 12,
            DisconnectReason::ReliableOverflow => 13,
            DisconnectReason::ApplicationReleased => 14,
            DisconnectReason::CorruptPacket => 15,
            DisconnectReason::ProtocolMismatch => 16,
        }
    }

    /// The disconnect reason a wire value stands for, or `None`.
    pub fn from_value(value: u16) -> (r: Option<DisconnectReason>)
        ensures
            r == spec_reason_from_value(value),
    {
        match value {
            0 => Some(DisconnectReason::Unknown),
            1 => Some(DisconnectReason::IcmpError),
            2 => Some(DisconnectReason::Timeout),
            3 => Some(DisconnectReason::OtherSideTerminated),
            4 => Some(DisconnectReason::ManagerDeleted),
            5 => Some(DisconnectReason::ConnectFail),
            6 => Some(DisconnectReason::Application),
            7 => Some(DisconnectReason::UnreachableConnection),
            8 => Some(DisconnectReason::UnacknowledgedTimeout),
            9 => Some(DisconnectReason::NewConnectionAttempt),
            10 => Some(DisconnectReason::ConnectionRefused),
            11 => Some(DisconnectReason::ConnectError),
            12 => Some(DisconnectReason::ConnectingToSelf),
            13 => Some(DisconnectReason::ReliableOverflow),
            14 => Some(DisconnectReason::ApplicationReleased),
            15 => Some(DisconnectReason::CorruptPacket),
            16 => Some(DisconnectReason::ProtocolMismatch),
            _ => None,
        }
    }
}

/// A parsed wire packet.  `MultiPacket` never appears here: the codec expands
/// a multi-packet into the sub-packets it carries.
#[derive(Debug, Clone)]
pub enum Packet {
    SessionRequest(SoeProtocolVersion, SessionId, BufferSize, ApplicationProtocol),
    SessionReply(SessionId, CrcSeed, CrcSize, bool, bool, BufferSize, SoeProtocolVersion),
    Disconnect(SessionId, DisconnectReason),
    Heartbeat,
    NetStatusRequest(
        ClientTick,
        Timestamp,
        Timestamp,
        Timestamp,
        Timestamp,
        Timestamp,
        PacketCount,
        PacketCount,
        u16,
    ),
    NetStatusReply(ClientTick, ServerTick, PacketCount, PacketCount, PacketCount, PacketCount, u16),
    Data(SequenceNumber, Vec<u8>),
    DataFragment(SequenceNumber, Vec<u8>),
    Ack(SequenceNumber),
    AckAll(SequenceNumber),
    UnknownSender,
    RemapConnection(SessionId, CrcSeed),
}

/// The mathematical model of a packet: the same variants with sequences in
/// place of vectors and strings.
pub enum PacketModel {
    SessionRequest { protocol: u32, session_id: u32, buffer_size: u32, app_protocol: Seq<char> },
    SessionReply {
        session_id: u32,
        crc_seed: u32,
        crc_length: u8,
        allow_compression: bool,
        use_encryption: bool,
        buffer_size: u32,
        protocol: u32,
    },
    Disconnect { session_id: u32, reason: DisconnectReason },
    Heartbeat,
    NetStatusRequest {
        client_tick: u16,
        last_client_update: u32,
        average_update: u32,
        shortest_update: u32,
        longest_update: u32,
        last_server_update: u32,
        packets_sent: u64,
        packets_received: u64,
        unknown: u16,
    },
    NetStatusReply {
        client_tick: u16,
        server_tick: u32,
        client_packets_sent: u64,
        client_packets_received: u64,
        server_packets_sent: u64,
        server_packets_received: u64,
        unknown: u16,
    },
    Data { sequence: u16, payload: Seq<u8> },
    DataFragment { sequence: u16, payload: Seq<u8> },
    Ack { sequence: u16 },
    AckAll { sequence: u16 },
    UnknownSender,
    RemapConnection { session_id: u32, crc_seed: u32 },
}

impl View for Packet {
    type V = PacketModel;

    open spec fn view(&self) -> PacketModel {
        match self {
            Packet::SessionRequest(protocol, session_id, buffer_size, app_protocol) => {
                PacketModel::SessionRequest {
                    protocol: *protocol,
                    session_id: *session_id,
                    buffer_size: *buffer_size,
                    app_protocol: app_protocol@,
                }
            },
            Packet::SessionReply(
                session_id,
                crc_seed,
                crc_length,
                allow_compression,
                use_encryption,
                buffer_size,
                protocol,
            ) => {
                PacketModel::SessionReply {
                    session_id: *session_id,
                    crc_seed: *crc_seed,
                    crc_length: *crc_length,
                    allow_compression: *allow_compression,
                    use_encryption: *use_encryption,
                    buffer_size: *buffer_size,
                    protocol: *protocol,
                }
            },
            Packet::Disconnect(session_id, reason) => {
                PacketModel::Disconnect { session_id: *session_id, reason: *reason }
            },
            Packet::Heartbeat => PacketModel::Heartbeat,
            Packet::NetStatusRequest(t, a, b, c, d, e, sent, received, unknown) => {
                PacketModel::NetStatusRequest {
                    client_tick: *t,
                    last_client_update: *a,
                    average_update: *b,
                    shortest_update: *c,
                    longest_update: *d,
                    last_server_update: *e,
                    packets_sent: *sent,
                    packets_received: *received,
                    unknown: *unknown,
                }
            },
            Packet::NetStatusReply(t, s, a, b, c, d, unknown) => {
                PacketModel::NetStatusReply {
                    client_tick: *t,
                    server_tick: *s,
                    client_packets_sent: *a,
                    client_packets_received: *b,
                    server_packets_sent: *c,
                    server_packets_received: *d,
                    unknown: *unknown,
                }
            },
            Packet::Data(sequence, payload) => {
                PacketModel::Data { sequence: *sequence, payload: payload@ }
            },
            Packet::DataFragment(sequence, payload) => {
                PacketModel::DataFragment { sequence: *sequence, payload: payload@ }
            },
            Packet::Ack(sequence) => PacketModel::Ack { sequence: *sequence },
            Packet::AckAll(sequence) => PacketModel::AckAll { sequence: *sequence },
            Packet::UnknownSender => PacketModel::UnknownSender,
            Packet::RemapConnection(session_id, crc_seed) => {
                PacketModel::RemapConnection { session_id: *session_id, crc_seed: *crc_seed }
            },
        }
    }
}

/// The sequence number a packet model carries, if its kind is sequenced.
pub open spec fn spec_sequence_number(m: PacketModel) -> Option<u16> {
    match m {
        PacketModel::Data { sequence, .. } => Some(sequence),
        PacketModel::DataFragment { sequence, .. } => Some(sequence),
        _ => None,
    }
}

/// The opcode of a packet model.
pub open spec fn spec_packet_op_code(m: PacketModel) -> ProtocolOpCode {
    match m {
        PacketModel::SessionRequest { .. } => ProtocolOpCode::SessionRequest,
        PacketModel::SessionReply { .. } => ProtocolOpCode::SessionReply,
        PacketModel::Disconnect { .. } => ProtocolOpCode::Disconnect,
        PacketModel::Heartbeat => ProtocolOpCode::Heartbeat,
        PacketModel::NetStatusRequest { .. } => ProtocolOpCode::NetStatusRequest,
        PacketModel::NetStatusReply { .. } => ProtocolOpCode::NetStatusReply,
        PacketModel::Data { .. } => ProtocolOpCode::Data,
        PacketModel::DataFragment { .. } => ProtocolOpCode::DataFragment,
        PacketModel::Ack { .. } => ProtocolOpCode::Ack,
        PacketModel::AckAll { .. } => ProtocolOpCode::AckAll,
        PacketModel::UnknownSender => ProtocolOpCode::UnknownSender,
        PacketModel::RemapConnection { .. } => ProtocolOpCode::RemapConnection,
    }
}

impl Packet {
    /// The sequence number of a `Data` or `DataFragment` packet.
    pub fn sequence_number(&self) -> (r: Option<SequenceNumber>)
        ensures
            r == spec_sequence_number(self@),
    {
        match self {
            Packet::Data(n, _) => Some(*n),
            Packet::DataFragment(n, _) => Some(*n),
            _ => None,
        }
    }

    /// The opcode of this packet.
    pub fn op_code(&self) -> (r: ProtocolOpCode)
        ensures
            r == spec_packet_op_code(self@),
    {
        match self {
            Packet::SessionRequest(..) => ProtocolOpCode::SessionRequest,
            Packet::SessionReply(..) => ProtocolOpCode::SessionReply,
            Packet::Disconnect(..) => ProtocolOpCode::Disconnect,
            Packet::Heartbeat => ProtocolOpCode::Heartbeat,
            Packet::NetStatusRequest(..) => ProtocolOpCode::NetStatusRequest,
            Packet::NetStatusReply(..) => ProtocolOpCode::NetStatusReply,
            Packet::Data(..) => ProtocolOpCode::Data,
            Packet::DataFragment(..) => ProtocolOpCode::DataFragment,
            Packet::Ack(..) => ProtocolOpCode::Ack,
            Packet::AckAll(..) => ProtocolOpCode::AckAll,
            Packet::UnknownSender => ProtocolOpCode::UnknownSender,
            Packet::RemapConnection(..) => ProtocolOpCode::RemapConnection,
        }
    }
}

/// Structural equality of two packets, field by field.
pub fn packet_eq(a: &Packet, b: &Packet) -> (r: bool)
    ensures
        r == (a@ == b@),
{
    match (a, b) {
        (Packet::SessionRequest(p1, s1, b1, a1), Packet::SessionRequest(p2, s2, b2, a2)) => {
            *p1 == *p2 && *s1 == *s2 && *b1 == *b2 && *a1 == *a2
        },
        (
            Packet::SessionReply(s1, seed1, len1, comp1, enc1, buf1, p1),
            Packet::SessionReply(s2, seed2, len2, comp2, enc2, buf2, p2),
        ) => {
            *s1 == *s2 && *seed1 == *seed2 && *len1 == *len2 && *comp1 == *comp2 && *enc1 == *enc2
                && *buf1 == *buf2 && *p1 == *p2
        },
        (Packet::Disconnect(s1, r1), Packet::Disconnect(s2, r2)) => *s1 == *s2 && *r1 == *r2,
        (Packet::Heartbeat, Packet::Heartbeat) => true,
        (
            Packet::NetStatusRequest(t1, a1, b1, c1, d1, e1, sent1, recv1, u1),
            Packet::NetStatusRequest(t2, a2, b2, c2, d2, e2, sent2, recv2, u2),
        ) => {
            *t1 == *t2 && *a1 == *a2 && *b1 == *b2 && *c1 == *c2 && *d1 == *d2 && *e1 == *e2
                && *sent1 == *sent2 && *recv1 == *recv2 && *u1 == *u2
        },
        (
            Packet::NetStatusReply(t1, s1, a1, b1, c1, d1, u1),
            Packet::NetStatusReply(t2, s2, a2, b2, c2, d2, u2),
        ) => {
            *t1 == *t2 && *s1 == *s2 && *a1 == *a2 && *b1 == *b2 && *c1 == *c2 && *d1 == *d2 && *u1
                == *u2
        },
        (Packet::Data(n1, d1), Packet::Data(n2, d2)) => *n1 == *n2 && bytes_eq(d1, d2),
        (Packet::DataFragment(n1, d1), Packet::DataFragment(n2, d2)) => *n1 == *n2 && bytes_eq(
            d1,
            d2,
        ),
        (Packet::Ack(n1), Packet::Ack(n2)) => *n1 == *n2,
        (Packet::AckAll(n1), Packet::AckAll(n2)) => *n1 == *n2,
        (Packet::UnknownSender, Packet::UnknownSender) => true,
        (Packet::RemapConnection(s1, seed1), Packet::RemapConnection(s2, seed2)) => {
            *s1 == *s2 && *seed1 == *seed2
        },
        _ => false,
    }
}

/// Element-wise equality of two byte vectors.
pub fn bytes_eq(a: &Vec<u8>, b: &Vec<u8>) -> (r: bool)
    ensures
        r == (a@ == b@),
{
    let n: usize = a.len();
    if n != b.len() {
        proof {
            assert(a@.len() != b@.len());
        }
        return false;
    }
    let mut i: usize = 0;
    while i < n
        invariant
            i <= n,
            n == a@.len(),
            n == b@.len(),
            forall|j: int| 0 <= j < i ==> a@[j] == b@[j],
        decreases n - i,
    {
        if a[i] != b[i] {
            return false;
        }
        i = i + 1;
    }
    proof {
        assert(a@ =~= b@);
    }
    true
}

/// The parameters negotiated by the handshake.
#[derive(Copy, Clone, Debug, PartialEq, Eq, Structural)]
pub struct Session {
    pub session_id: SessionId,
    pub crc_length: CrcSize,
    pub crc_seed: CrcSeed,
    pub allow_compression: bool,
    pub use_encryption: bool,
}

/// A session is well formed when its integrity tail fits in a CRC-32.
pub open spec fn spec_session_wf(s: Session) -> bool {
    s.crc_length <= 4
}

/// An entry of the send queue: a packet and whether it still awaits dispatch.
#[derive(Debug, Clone)]
pub struct PendingPacket {
    pub needs_send: bool,
    pub packet: Packet,
}

impl PendingPacket {
    /// A freshly queued packet always needs to be sent.
    pub fn new(packet: Packet) -> (r: PendingPacket)
        ensures
            r.needs_send,
            r.packet@ == packet@,
    {
        PendingPacket { needs_send: true, packet }
    }
}

} // verus!
