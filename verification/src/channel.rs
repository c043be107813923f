//! The per-session channel: the state machine that orders inbound sequenced
//! packets inside a bounded reorder window, emits and consumes
//! acknowledgements, reassembles fragment runs, unbundles data payloads,
//! fragments outbound payloads, and drives the handshake.

use vstd::prelude::*;

use crate::codec::{
    deserialize_packet,
    serialize_packets,
    spec_datagram_views,
    spec_decoded_concat,
    spec_models,
    spec_packet_wf,
    spec_pending_models,
    spec_wire_decode,
    DeserializeError,
    SerializeError,
};
use crate::packets::{
    BufferSize,
    Packet,
    PacketModel,
    PendingPacket,
    SequenceNumber,
    Session,
    SessionId,
    SoeProtocolVersion,
    spec_packet_op_code,
    spec_requires_session,
    spec_sequence_number,
    spec_session_wf,
};
use crate::reliable_data::{
    fragment_data,
    spec_unbundle,
    spec_fragment_add,
    spec_fragment_data,
    spec_fragment_overhead,
    spec_fragment_state_wf,
    DataPacket,
    DataPacketModel,
    FragmentError,
    FragmentModel,
    FragmentState,
};

verus! {

/// Addition modulo 2^16, the wrap arithmetic of sequence numbers.
pub open spec fn wrap_add(a: u16, b: u16) -> u16 {
    ((a + b) % 0x10000) as u16
}

/// Subtraction modulo 2^16.
pub open spec fn wrap_sub(a: u16, b: u16) -> u16 {
    ((a + 0x10000 - b) % 0x10000) as u16
}

/// The recency window: a sequence number `s` is recent relative to the next
/// expected number `next` and the window size `limit` when it lies in the
/// half-open wrap interval `(next, next + limit]`.
pub open spec fn spec_recent(next: u16, limit: u16, s: u16) -> bool {
    1 <= wrap_sub(s, next) <= limit
}

/// Whether an acknowledged sequence number `pending` is accepted relative to
/// the next outbound sequence number and the window: with
/// `min = next_server - limit`, the acceptance interval is `[min, max]` under
/// wrap arithmetic.
pub open spec fn spec_should_client_ack(
    recency_limit: u16,
    next_server_sequence: u16,
    max: u16,
    pending: u16,
) -> bool {
    let min = wrap_sub(next_server_sequence, recency_limit);
    if min < max {
        min <= pending <= max
    } else {
        min <= pending || pending <= max
    }
}

/// The model of a pending send-queue entry.
pub struct PendingModel {
    pub needs_send: bool,
    pub packet: PacketModel,
}

impl View for PendingPacket {
    type V = PendingModel;

    open spec fn view(&self) -> PendingModel {
        PendingModel { needs_send: self.needs_send, packet: self.packet@ }
    }
}

/// The models of a run of pending entries.
pub open spec fn spec_pending_views(q: Seq<PendingPacket>) -> Seq<PendingModel> {
    q.map_values(|pp: PendingPacket| pp@)
}

/// The models of a run of packets.
pub open spec fn spec_packet_views(q: Seq<Packet>) -> Seq<PacketModel> {
    q.map_values(|p: Packet| p@)
}

/// The models of the reorder buffer's entries.
pub open spec fn spec_reorder_views(q: Seq<(u16, Packet)>) -> Seq<(u16, PacketModel)> {
    q.map_values(|e: (u16, Packet)| (e.0, e.1@))
}

/// The mathematical model of a channel.
#[verifier::ext_equal]
pub struct ChannelModel {
    pub session: Option<Session>,
    pub buffer_size: u32,
    pub recency_limit: u16,
    pub fragment: FragmentModel,
    pub send_queue: Seq<PendingModel>,
    pub receive_queue: Seq<PacketModel>,
    pub reordered: Seq<(u16, PacketModel)>,
    pub next_client_sequence: u16,
    pub next_server_sequence: u16,
    pub last_client_ack: u16,
    pub last_server_ack: u16,
}

/// The per-session channel state.
pub struct Channel {
    pub session: Option<Session>,
    pub buffer_size: BufferSize,
    pub recency_limit: SequenceNumber,
    pub fragment_state: FragmentState,
    pub send_queue: Vec<PendingPacket>,
    pub receive_queue: Vec<Packet>,
    pub reordered_packets: Vec<(u16, Packet)>,
    pub next_client_sequence: SequenceNumber,
    pub next_server_sequence: SequenceNumber,
    pub last_client_ack: SequenceNumber,
    pub last_server_ack: SequenceNumber,
}

impl View for Channel {
    type V = ChannelModel;

    open spec fn view(&self) -> ChannelModel {
        ChannelModel {
            session: self.session,
            buffer_size: self.buffer_size,
            recency_limit: self.recency_limit,
            fragment: self.fragment_state@,
            send_queue: spec_pending_views(self.send_queue@),
            receive_queue: spec_packet_views(self.receive_queue@),
            reordered: spec_reorder_views(self.reordered_packets@),
            next_client_sequence: self.next_client_sequence,
            next_server_sequence: self.next_server_sequence,
            last_client_ack: self.last_client_ack,
            last_server_ack: self.last_server_ack,
        }
    }
}

/// The channel invariant, kept between public calls: a well-formed session,
/// a usable window size, a well-formed reassembly state, well-formed packets
/// everywhere, and a reorder buffer keyed by distinct, recent sequence
/// numbers that carries each packet under its own sequence number.
pub open spec fn spec_channel_wf(c: ChannelModel) -> bool {
    &&& (c.session matches Some(s) ==> spec_session_wf(s))
    &&& 1 <= c.recency_limit < 0x8000
    &&& spec_fragment_state_wf(c.fragment)
    &&& (forall|i: int|
        0 <= i < c.send_queue.len() ==> spec_packet_wf(#[trigger] c.send_queue[i].packet))
    &&& (forall|i: int|
        0 <= i < c.receive_queue.len() ==> spec_packet_wf(#[trigger] c.receive_queue[i]))
    &&& (forall|i: int|
        0 <= i < c.reordered.len() ==> spec_packet_wf((#[trigger] c.reordered[i]).1)
            && spec_sequence_number(c.reordered[i].1) == Some(c.reordered[i].0) && spec_recent(
            c.next_client_sequence,
            c.recency_limit,
            c.reordered[i].0,
        ))
    &&& (forall|i: int, j: int|
        0 <= i < c.reordered.len() && 0 <= j < c.reordered.len() && i != j ==> (
        #[trigger] c.reordered[i]).0 != (#[trigger] c.reordered[j]).0)
}

/// The channel invariant as a fatal reassembly error leaves it: the reorder
/// buffer may still hold the entry for the next expected number, which a
/// completed batch would have drained.  A channel in this state is meant to
/// be torn down.
pub open spec fn spec_channel_wf_relaxed(c: ChannelModel) -> bool {
    &&& (c.session matches Some(s) ==> spec_session_wf(s))
    &&& 1 <= c.recency_limit < 0x8000
    &&& spec_fragment_state_wf(c.fragment)
    &&& (forall|i: int|
        0 <= i < c.send_queue.len() ==> spec_packet_wf(#[trigger] c.send_queue[i].packet))
    &&& (forall|i: int|
        0 <= i < c.receive_queue.len() ==> spec_packet_wf(#[trigger] c.receive_queue[i]))
    &&& (forall|i: int|
        0 <= i < c.reordered.len() ==> spec_packet_wf((#[trigger] c.reordered[i]).1)
            && spec_sequence_number(c.reordered[i].1) == Some(c.reordered[i].0) && (spec_recent(
            c.next_client_sequence,
            c.recency_limit,
            c.reordered[i].0,
        ) || c.reordered[i].0 == c.next_client_sequence))
    &&& (forall|i: int, j: int|
        0 <= i < c.reordered.len() && 0 <= j < c.reordered.len() && i != j ==> (
        #[trigger] c.reordered[i]).0 != (#[trigger] c.reordered[j]).0)
}

impl Channel {
    /// A fresh channel awaiting its handshake.  The window size must leave
    /// the wrap window unambiguous, so it stays below 2^15, and a window of
    /// zero would buffer nothing, so it is excluded as well.
    pub fn new(initial_buffer_size: BufferSize, recency_limit: SequenceNumber) -> (r: Channel)
        requires
            1 <= recency_limit < 0x8000,
        ensures
            spec_channel_wf(r@),
            r@.session is None,
            r@.buffer_size == initial_buffer_size,
            r@.recency_limit == recency_limit,
            r@.fragment is Idle,
            r@.send_queue.len() == 0,
            r@.receive_queue.len() == 0,
            r@.reordered.len() == 0,
            r@.next_client_sequence == 0,
            r@.next_server_sequence == 0,
            r@.last_client_ack == 0,
            r@.last_server_ack == 0,
    {
        let r = Channel {
            session: None,
            buffer_size: initial_buffer_size,
            recency_limit,
            fragment_state: FragmentState::new(),
            send_queue: Vec::new(),
            receive_queue: Vec::new(),
            reordered_packets: Vec::new(),
            next_client_sequence: 0,
            next_server_sequence: 0,
            last_client_ack: 0,
            last_server_ack: 0,
        };
        proof {
            assert(spec_pending_views(r.send_queue@) =~= Seq::<PendingModel>::empty());
            assert(spec_packet_views(r.receive_queue@) =~= Seq::<PacketModel>::empty());
            assert(spec_reorder_views(r.reordered_packets@) =~= Seq::<(u16, PacketModel)>::empty());
        }
        r
    }

    /// Whether an out-of-order sequence number is worth buffering: exactly
    /// when it falls in the recency window.
    fn save_for_reorder(&self, sequence_number: SequenceNumber) -> (r: bool)
        requires
            1 <= self.recency_limit,
        ensures
            r == spec_recent(self.next_client_sequence, self.recency_limit, sequence_number),
    {
        let max_sequence_number = self.next_client_sequence.wrapping_add(self.recency_limit);
        if max_sequence_number > self.next_client_sequence {
            sequence_number <= max_sequence_number && sequence_number > self.next_client_sequence
        } else {
            sequence_number > self.next_client_sequence || sequence_number <= max_sequence_number
        }
    }

    /// Whether an acknowledged sequence number is accepted, as
    /// `spec_should_client_ack` says.
    fn should_client_ack(
        recency_limit: SequenceNumber,
        next_server_sequence: SequenceNumber,
        max: SequenceNumber,
        pending: SequenceNumber,
    ) -> (r: bool)
        ensures
            r == spec_should_client_ack(recency_limit, next_server_sequence, max, pending),
    {
        let min_sequence_number = next_server_sequence.wrapping_sub(recency_limit);
        if min_sequence_number < max {
            min_sequence_number <= pending && pending <= max
        } else {
            min_sequence_number <= pending || pending <= max
        }
    }
}

/// The packets of a decoded run that the channel admits: all of them once a
/// session exists; before the handshake, only those whose opcode does not
/// require a session.
pub open spec fn spec_admit(ps: Seq<PacketModel>, has_session: bool) -> Seq<PacketModel>
    decreases ps.len(),
{
    if ps.len() == 0 {
        Seq::<PacketModel>::empty()
    } else {
        (if has_session || !spec_requires_session(spec_packet_op_code(ps[0])) {
            seq![ps[0]]
        } else {
            Seq::<PacketModel>::empty()
        }) + spec_admit(ps.skip(1), has_session)
    }
}

/// Admission looks at each packet alone, and never grows the run.
proof fn lemma_admit_push(ps: Seq<PacketModel>, x: PacketModel, has_session: bool)
    ensures
        spec_admit(ps.push(x), has_session) == spec_admit(ps, has_session) + (
        if has_session || !spec_requires_session(spec_packet_op_code(x)) {
            seq![x]
        } else {
            Seq::<PacketModel>::empty()
        }),
        spec_admit(ps, has_session).len() <= ps.len(),
    decreases ps.len(),
{
    let kept = if has_session || !spec_requires_session(spec_packet_op_code(x)) {
        seq![x]
    } else {
        Seq::<PacketModel>::empty()
    };
    if ps.len() == 0 {
        assert(ps.push(x)[0] == x);
        assert(ps.push(x).skip(1).len() == 0);
        assert(spec_admit(ps.push(x).skip(1), has_session) == Seq::<PacketModel>::empty());
        assert(spec_admit(ps.push(x), has_session) =~= kept);
        assert(spec_admit(ps, has_session).len() == 0);
        assert(spec_admit(ps, has_session) + kept =~= kept);
    } else {
        assert(ps.push(x)[0] == ps[0]);
        assert(ps.push(x).skip(1) =~= ps.skip(1).push(x));
        lemma_admit_push(ps.skip(1), x, has_session);
        assert(spec_admit(ps.push(x), has_session) =~= spec_admit(ps, has_session) + kept);
    }
}

/// Admission keeps only packets of the run, so it preserves any property
/// that holds of each of them.
proof fn lemma_admit_wf(ps: Seq<PacketModel>, has_session: bool)
    requires
        forall|i: int| 0 <= i < ps.len() ==> spec_packet_wf(#[trigger] ps[i]),
    ensures
        forall|i: int|
            0 <= i < spec_admit(ps, has_session).len() ==> spec_packet_wf(
                #[trigger] spec_admit(ps, has_session)[i],
            ),
    decreases ps.len(),
{
    if ps.len() == 0 {
    } else {
        assert(forall|i: int| 0 <= i < ps.skip(1).len() ==> ps.skip(1)[i] == ps[i + 1]);
        lemma_admit_wf(ps.skip(1), has_session);
        let kept = if has_session || !spec_requires_session(spec_packet_op_code(ps[0])) {
            seq![ps[0]]
        } else {
            Seq::<PacketModel>::empty()
        };
        assert(spec_admit(ps, has_session) == kept + spec_admit(ps.skip(1), has_session));
        assert forall|i: int| 0 <= i < spec_admit(ps, has_session).len() implies spec_packet_wf(
            spec_admit(ps, has_session)[i],
        ) by {
            if i < kept.len() {
                assert(spec_admit(ps, has_session)[i] == ps[0]);
            } else {
                assert(spec_admit(ps, has_session)[i] == spec_admit(ps.skip(1), has_session)[i
                    - kept.len()]);
            }
        }
    }
}

impl Channel {
    /// Decodes an inbound datagram and appends the packets it carries to the
    /// receive queue, dropping a packet whose opcode requires a session while
    /// none is established.  Returns how many packets were admitted.  On a
    /// decode error the channel is untouched.
    pub fn receive(&mut self, data: &[u8]) -> (r: Result<u32, DeserializeError>)
        requires
            spec_channel_wf(old(self)@),
            data@.len() <= 0xFFFF_FFFF,
        ensures
            spec_channel_wf(final(self)@),
            (r matches Ok(count) ==> ({
                &&& spec_wire_decode(data@, old(self)@.session) matches Ok(ps) && final(self)@
                    == (ChannelModel {
                    receive_queue: old(self)@.receive_queue + spec_admit(
                        ps,
                        old(self)@.session is Some,
                    ),
                    ..old(self)@
                }) && count == spec_admit(ps, old(self)@.session is Some).len()
            })),
            (r matches Err(e) ==> spec_wire_decode(data@, old(self)@.session) == Err::<
                Seq<PacketModel>,
                DeserializeError,
            >(e) && final(self)@ == old(self)@),
    {
        let owned: Vec<u8> = vstd::slice::slice_to_vec(data);
        let mut packets = match deserialize_packet(&owned, &self.session) {
            Ok(ps) => ps,
            Err(e) => {
                return Err(e);
            },
        };
        proof {
            crate::codec::lemma_wire_decode_wf(owned@, self@.session);
            crate::codec::lemma_wire_decode_count(owned@, self@.session);
        }
        let ghost orig = spec_models(packets@);
        let ghost old_rq = self@.receive_queue;
        let has_session = self.session.is_some();
        let mut count: u32 = 0;
        let n: usize = packets.len();
        let mut j: usize = 0;
        proof {
            assert(spec_admit(orig.take(0), has_session) == Seq::<PacketModel>::empty());
            assert(old_rq + spec_admit(orig.take(0), has_session) =~= old_rq);
            assert(orig.skip(0) =~= orig);
            assert(forall|i: int| 0 <= i < orig.len() ==> orig[i] == #[trigger] packets@[i]@);
        }
        while j < n
            invariant
                j <= n == orig.len(),
                orig.len() <= 0xFFFF_FFFF,
                packets@.len() == n - j,
                spec_models(packets@) == orig.skip(j as int),
                has_session == (self.session is Some),
                self@.receive_queue == old_rq + spec_admit(orig.take(j as int), has_session),
                count == spec_admit(orig.take(j as int), has_session).len(),
                count <= j,
                self@ == (ChannelModel { receive_queue: self@.receive_queue, ..old(self)@ }),
                spec_channel_wf(old(self)@),
                forall|i: int| 0 <= i < orig.len() ==> spec_packet_wf(#[trigger] orig[i]),
            decreases n - j,
        {
            let ghost before = spec_admit(orig.take(j as int), has_session);
            let ghost packets_before = packets@;
            let ghost rq_before = spec_packet_views(self.receive_queue@);
            let p = packets.remove(0);
            proof {
                assert(spec_models(packets_before)[0] == packets_before[0]@);
                assert(p@ == orig[j as int]);
                assert forall|i: int| 0 <= i < spec_models(packets@).len() implies spec_models(
                    packets@,
                )[i] == orig.skip(j as int + 1)[i] by {
                    assert(packets@[i] == packets_before[i + 1]);
                    assert(spec_models(packets@)[i] == packets@[i]@);
                    assert(spec_models(packets_before)[i + 1] == packets_before[i + 1]@);
                    assert(orig.skip(j as int)[i + 1] == orig[j + 1 + i]);
                }
                assert(spec_models(packets@) =~= orig.skip(j as int + 1));
                assert(orig.take(j as int).push(p@) =~= orig.take(j as int + 1));
                lemma_admit_push(orig.take(j as int), p@, has_session);
            }
            let keep = has_session || !p.op_code().requires_session();
            if keep {
                let ghost pm = p@;
                self.receive_queue.push(p);
                proof {
                    assert forall|i: int|
                        0 <= i < spec_packet_views(self.receive_queue@).len() implies
                        spec_packet_views(self.receive_queue@)[i] == rq_before.push(pm)[i] by {
                        if i < rq_before.len() {
                            assert(spec_packet_views(self.receive_queue@)[i]
                                == self.receive_queue@[i]@);
                        } else {
                            assert(self.receive_queue@[i] == p);
                        }
                    }
                    assert(spec_packet_views(self.receive_queue@) =~= rq_before.push(pm));
                    assert(self@.receive_queue =~= old_rq + spec_admit(
                        orig.take(j as int + 1),
                        has_session,
                    ));
                }
                count = count + 1;
            } else {
                proof {
                    assert(spec_admit(orig.take(j as int + 1), has_session) =~= before);
                }
            }
            j = j + 1;
        }
        proof {
            assert(orig.take(n as int) =~= orig);
            lemma_admit_wf(orig, has_session);
        }
        Ok(count)
    }
}

/// The send queue with every entry whose packet carries sequence number `s`
/// marked as no longer needing dispatch.
pub open spec fn spec_mark_acked_one(q: Seq<PendingModel>, s: u16) -> Seq<PendingModel> {
    Seq::new(
        q.len(),
        |i: int|
            if spec_sequence_number(q[i].packet) == Some(s) {
                PendingModel { needs_send: false, packet: q[i].packet }
            } else {
                q[i]
            },
    )
}

/// The send queue with every entry whose sequence number the wrap-safe
/// acceptance predicate admits (with upper bound `max`) marked as no longer
/// needing dispatch.
pub open spec fn spec_mark_acked_all(
    q: Seq<PendingModel>,
    recency_limit: u16,
    next_server_sequence: u16,
    max: u16,
) -> Seq<PendingModel> {
    Seq::new(
        q.len(),
        |i: int|
            if (spec_sequence_number(q[i].packet) matches Some(p) && spec_should_client_ack(
                recency_limit,
                next_server_sequence,
                max,
                p,
            )) {
                PendingModel { needs_send: false, packet: q[i].packet }
            } else {
                q[i]
            },
    )
}

/// What handling one parsed packet inside the protocol does to the channel.
/// A `SessionRequest` of the negotiated protocol version opens the session
/// with a fresh seed and queues the reply; one of any other version queues a
/// `Disconnect` naming the mismatch and leaves the session closed.  A
/// `Heartbeat` queues a heartbeat back; `Ack` and `AckAll` retire queued
/// packets; every other packet changes nothing.
pub open spec fn spec_process_packet(st: ChannelModel, m: PacketModel, seed: u32) -> ChannelModel {
    match m {
        PacketModel::SessionRequest { protocol, session_id, buffer_size, .. } => {
            if protocol != 3 {
                ChannelModel {
                    send_queue: st.send_queue.push(
                        PendingModel {
                            needs_send: true,
                            packet: PacketModel::Disconnect {
                                session_id,
                                reason: crate::packets::DisconnectReason::ProtocolMismatch,
                            },
                        },
                    ),
                    ..st
                }
            } else {
                let session = Session {
                    session_id,
                    crc_length: 3,
                    crc_seed: seed,
                    allow_compression: false,
                    use_encryption: false,
                };
                ChannelModel {
                    session: Some(session),
                    buffer_size,
                    send_queue: st.send_queue.push(
                        PendingModel {
                            needs_send: true,
                            packet: PacketModel::SessionReply {
                                session_id,
                                crc_seed: seed,
                                crc_length: 3,
                                allow_compression: false,
                                use_encryption: false,
                                buffer_size: 512,
                                protocol: 3,
                            },
                        },
                    ),
                    ..st
                }
            }
        },
        PacketModel::Heartbeat => {
            ChannelModel {
                send_queue: st.send_queue.push(
                    PendingModel { needs_send: true, packet: PacketModel::Heartbeat },
                ),
                ..st
            }
        },
        PacketModel::Ack { sequence } => {
            if spec_should_client_ack(
                st.recency_limit,
                st.next_server_sequence,
                wrap_sub(st.next_server_sequence, 1),
                sequence,
            ) {
                ChannelModel { send_queue: spec_mark_acked_one(st.send_queue, sequence), ..st }
            } else {
                st
            }
        },
        PacketModel::AckAll { sequence } => {
            ChannelModel {
                send_queue: spec_mark_acked_all(
                    st.send_queue,
                    st.recency_limit,
                    st.next_server_sequence,
                    sequence,
                ),
                ..st
            }
        },
        _ => st,
    }
}

/// Relies on `rand::random`: a process-wide source of uniformly random
/// integers, used only to key each session's integrity checksum.  Nothing is
/// assumed of the value drawn.
#[verifier::external_body]
fn fresh_crc_seed() -> u32 {
    rand::random::<u32>()
}

impl Channel {
    /// Queues an `Ack` for one received sequence number.
    fn acknowledge_one(&mut self, sequence_number: SequenceNumber)
        ensures
            final(self)@ == (ChannelModel {
                send_queue: old(self)@.send_queue.push(
                    PendingModel {
                        needs_send: true,
                        packet: PacketModel::Ack { sequence: sequence_number },
                    },
                ),
                ..old(self)@
            }),
    {
        let ghost before = spec_pending_views(self.send_queue@);
        self.send_queue.push(PendingPacket::new(Packet::Ack(sequence_number)));
        proof {
            assert(spec_pending_views(self.send_queue@) =~= before.push(
                PendingModel {
                    needs_send: true,
                    packet: PacketModel::Ack { sequence: sequence_number },
                },
            ));
        }
    }

    /// Queues an `AckAll` for everything delivered up to a sequence number.
    fn acknowledge_all(&mut self, sequence_number: SequenceNumber)
        ensures
            final(self)@ == (ChannelModel {
                send_queue: old(self)@.send_queue.push(
                    PendingModel {
                        needs_send: true,
                        packet: PacketModel::AckAll { sequence: sequence_number },
                    },
                ),
                ..old(self)@
            }),
    {
        let ghost before = spec_pending_views(self.send_queue@);
        self.send_queue.push(PendingPacket::new(Packet::AckAll(sequence_number)));
        proof {
            assert(spec_pending_views(self.send_queue@) =~= before.push(
                PendingModel {
                    needs_send: true,
                    packet: PacketModel::AckAll { sequence: sequence_number },
                },
            ));
        }
    }

    /// Replies to a heartbeat with a heartbeat.
    fn process_heartbeat(&mut self)
        ensures
            final(self)@ == (ChannelModel {
                send_queue: old(self)@.send_queue.push(
                    PendingModel { needs_send: true, packet: PacketModel::Heartbeat },
                ),
                ..old(self)@
            }),
    {
        let ghost before = spec_pending_views(self.send_queue@);
        self.send_queue.push(PendingPacket::new(Packet::Heartbeat));
        proof {
            assert(spec_pending_views(self.send_queue@) =~= before.push(
                PendingModel { needs_send: true, packet: PacketModel::Heartbeat },
            ));
        }
    }

    /// Retires the one queued packet the acknowledged sequence number names,
    /// when that number passes the acceptance window ending just before the
    /// next outbound sequence number.
    fn process_ack(&mut self, acked_sequence: SequenceNumber)
        ensures
            final(self)@ == spec_process_packet(
                old(self)@,
                PacketModel::Ack { sequence: acked_sequence },
                0,
            ),
    {
        let upper = self.next_server_sequence.wrapping_sub(1);
        if Channel::should_client_ack(
            self.recency_limit,
            self.next_server_sequence,
            upper,
            acked_sequence,
        ) {
            let ghost target = spec_mark_acked_one(self@.send_queue, acked_sequence);
            let n: usize = self.send_queue.len();
            let mut i: usize = 0;
            while i < n
                invariant
                    i <= n,
                    n == self.send_queue@.len(),
                    n == old(self)@.send_queue.len(),
                    target == spec_mark_acked_one(old(self)@.send_queue, acked_sequence),
                    self@ == (ChannelModel { send_queue: self@.send_queue, ..old(self)@ }),
                    forall|j: int| 0 <= j < i ==> self@.send_queue[j] == target[j],
                    forall|j: int|
                        i <= j < n ==> self@.send_queue[j] == old(self)@.send_queue[j],
                decreases n - i,
            {
                let ghost qprev = self@.send_queue;
                let matches_ack = match self.send_queue[i].packet.sequence_number() {
                    Some(pending_sequence) => pending_sequence == acked_sequence,
                    None => false,
                };
                if matches_ack {
                    let entry = &mut self.send_queue[i];
                    entry.needs_send = false;
                }
                proof {
                    let cur = self@.send_queue;
                    assert(cur.len() == n);
                    if !matches_ack {
                        assert(cur == qprev);
                    }
                    assert forall|j: int| 0 <= j < n && j != i implies cur[j] == qprev[j] by {
                        assert(cur[j] == self.send_queue@[j]@);
                    }
                    assert(cur[i as int] == self.send_queue@[i as int]@);
                    assert(cur[i as int].packet == qprev[i as int].packet);
                    if matches_ack {
                        assert(cur[i as int].needs_send == false);
                        assert(spec_sequence_number(old(self)@.send_queue[i as int].packet)
                            == Some(acked_sequence));
                        assert(target[i as int] == (PendingModel {
                            needs_send: false,
                            packet: old(self)@.send_queue[i as int].packet,
                        }));
                        assert(cur[i as int] == target[i as int]);
                    } else {
                        assert(cur[i as int] == qprev[i as int]);
                        assert(target[i as int] == old(self)@.send_queue[i as int]);
                    }
                }
                i = i + 1;
            }
            proof {
                assert(self@.send_queue =~= target);
            }
        }
    }

    /// Retires every queued packet whose sequence number the acceptance
    /// window up to the acknowledged number admits.
    fn process_ack_all(&mut self, acked_sequence: SequenceNumber)
        ensures
            final(self)@ == spec_process_packet(
                old(self)@,
                PacketModel::AckAll { sequence: acked_sequence },
                0,
            ),
    {
        let ghost target = spec_mark_acked_all(
            self@.send_queue,
            self@.recency_limit,
            self@.next_server_sequence,
            acked_sequence,
        );
        let n: usize = self.send_queue.len();
        let mut i: usize = 0;
        while i < n
            invariant
                i <= n,
                n == self.send_queue@.len(),
                n == old(self)@.send_queue.len(),
                target == spec_mark_acked_all(
                    old(self)@.send_queue,
                    old(self)@.recency_limit,
                    old(self)@.next_server_sequence,
                    acked_sequence,
                ),
                self@ == (ChannelModel { send_queue: self@.send_queue, ..old(self)@ }),
                forall|j: int| 0 <= j < i ==> self@.send_queue[j] == target[j],
                forall|j: int| i <= j < n ==> self@.send_queue[j] == old(self)@.send_queue[j],
            decreases n - i,
        {
            let ghost qprev = self@.send_queue;
            let should_retire = match self.send_queue[i].packet.sequence_number() {
                Some(pending_sequence) => Channel::should_client_ack(
                    self.recency_limit,
                    self.next_server_sequence,
                    acked_sequence,
                    pending_sequence,
                ),
                None => false,
            };
            if should_retire {
                let entry = &mut self.send_queue[i];
                entry.needs_send = false;
            }
            proof {
                let cur = self@.send_queue;
                assert forall|j: int| 0 <= j < n implies cur[j] == (if j == i {
                    target[j]
                } else {
                    qprev[j]
                }) by {
                    assert(cur[j] == self.send_queue@[j]@);
                }
            }
            i = i + 1;
        }
        proof {
            assert(self@.send_queue =~= target);
        }
    }

    /// Opens the session: stores the negotiated parameters with a fresh
    /// random checksum seed, adopts the requested buffer size, and queues the
    /// `SessionReply` echoing the seed and the protocol constants.  A request
    /// of a mismatched protocol version queues a `Disconnect` instead, and
    /// the session stays closed.
    fn process_session_request(
        &mut self,
        protocol_version: SoeProtocolVersion,
        session_id: SessionId,
        buffer_size: BufferSize,
    ) -> (seed: Ghost<u32>)
        ensures
            final(self)@ == spec_process_packet(
                old(self)@,
                PacketModel::SessionRequest {
                    protocol: protocol_version,
                    session_id,
                    buffer_size,
                    app_protocol: Seq::<char>::empty(),
                },
                seed@,
            ),
    {
        if protocol_version != 3 {
            let ghost before = spec_pending_views(self.send_queue@);
            self.send_queue.push(
                PendingPacket::new(
                    Packet::Disconnect(
                        session_id,
                        crate::packets::DisconnectReason::ProtocolMismatch,
                    ),
                ),
            );
            proof {
                assert(spec_pending_views(self.send_queue@) =~= before.push(
                    PendingModel {
                        needs_send: true,
                        packet: PacketModel::Disconnect {
                            session_id,
                            reason: crate::packets::DisconnectReason::ProtocolMismatch,
                        },
                    },
                ));
            }
            return Ghost(0u32);
        }
        let crc_seed = fresh_crc_seed();
        let session = Session {
            session_id,
            crc_length: 3,
            crc_seed,
            allow_compression: false,
            use_encryption: false,
        };
        self.buffer_size = buffer_size;
        let ghost before = spec_pending_views(self.send_queue@);
        self.send_queue.push(
            PendingPacket::new(
                Packet::SessionReply(
                    session_id,
                    session.crc_seed,
                    session.crc_length,
                    session.allow_compression,
                    session.use_encryption,
                    512,
                    3,
                ),
            ),
        );
        self.session = Some(session);
        proof {
            assert(spec_pending_views(self.send_queue@) =~= before.push(
                PendingModel {
                    needs_send: true,
                    packet: PacketModel::SessionReply {
                        session_id,
                        crc_seed,
                        crc_length: 3,
                        allow_compression: false,
                        use_encryption: false,
                        buffer_size: 512,
                        protocol: 3,
                    },
                },
            ));
        }
        Ghost(crc_seed)
    }

    /// Handles one parsed packet inside the protocol, as
    /// `spec_process_packet` says.  The ghost result is the seed drawn for a
    /// `SessionRequest`; every other packet leaves it unused.
    fn process_packet(&mut self, packet: &Packet) -> (seed: Ghost<u32>)
        ensures
            final(self)@ == spec_process_packet(old(self)@, packet@, seed@),
    {
        match packet {
            Packet::SessionRequest(protocol_version, session_id, buffer_size, _app_protocol) => {
                self.process_session_request(*protocol_version, *session_id, *buffer_size)
            },
            Packet::Heartbeat => {
                self.process_heartbeat();
                Ghost(0u32)
            },
            Packet::Ack(acked_sequence) => {
                self.process_ack(*acked_sequence);
                Ghost(0u32)
            },
            Packet::AckAll(acked_sequence) => {
                self.process_ack_all(*acked_sequence);
                Ghost(0u32)
            },
            _ => Ghost(0u32),
        }
    }

    /// Takes the next outbound sequence number, advancing it with wrap.
    fn next_server_sequence(&mut self) -> (r: SequenceNumber)
        ensures
            r == old(self)@.next_server_sequence,
            final(self)@ == (ChannelModel {
                next_server_sequence: wrap_add(old(self)@.next_server_sequence, 1),
                ..old(self)@
            }),
    {
        let next_sequence = self.next_server_sequence;
        self.next_server_sequence = self.next_server_sequence.wrapping_add(1);
        next_sequence
    }
}

/// The pending entries that queue a run of chunks, each wrapped as a data or
/// data-fragment packet under consecutive wrap sequence numbers from `start`.
pub open spec fn spec_sequenced_pending(frags: Seq<DataPacketModel>, start: u16) -> Seq<
    PendingModel,
>
    decreases frags.len(),
{
    if frags.len() == 0 {
        Seq::<PendingModel>::empty()
    } else {
        seq![
            PendingModel {
                needs_send: true,
                packet: match frags[0] {
                    DataPacketModel::Fragment { payload } => PacketModel::DataFragment {
                        sequence: start,
                        payload,
                    },
                    DataPacketModel::Single { payload } => PacketModel::Data {
                        sequence: start,
                        payload,
                    },
                },
            },
        ] + spec_sequenced_pending(frags.skip(1), wrap_add(start, 1))
    }
}

/// Appending a chunk appends one entry, numbered `start + len` with wrap.
proof fn lemma_sequenced_pending_push(frags: Seq<DataPacketModel>, x: DataPacketModel, start: u16)
    ensures
        spec_sequenced_pending(frags.push(x), start) == spec_sequenced_pending(frags, start).push(
            PendingModel {
                needs_send: true,
                packet: match x {
                    DataPacketModel::Fragment { payload } => PacketModel::DataFragment {
                        sequence: (((start + frags.len()) % 0x10000) as u16),
                        payload,
                    },
                    DataPacketModel::Single { payload } => PacketModel::Data {
                        sequence: (((start + frags.len()) % 0x10000) as u16),
                        payload,
                    },
                },
            },
        ),
    decreases frags.len(),
{
    if frags.len() == 0 {
        assert(frags.push(x)[0] == x);
        assert(frags.push(x).skip(1).len() == 0);
        assert(spec_sequenced_pending(frags.push(x).skip(1), wrap_add(start, 1)) == Seq::<
            PendingModel,
        >::empty());
        assert(((start + 0) % 0x10000) as u16 == start);
        assert(spec_sequenced_pending(frags.push(x), start) =~= spec_sequenced_pending(
            frags,
            start,
        ).push(spec_sequenced_pending(frags.push(x), start)[0]));
    } else {
        assert(frags.push(x)[0] == frags[0]);
        assert(frags.push(x).skip(1) =~= frags.skip(1).push(x));
        lemma_sequenced_pending_push(frags.skip(1), x, wrap_add(start, 1));
        assert((wrap_add(start, 1) + frags.skip(1).len()) % 0x10000 == (start + frags.len())
            % 0x10000);
        assert(spec_sequenced_pending(frags.push(x), start) =~= spec_sequenced_pending(
            frags,
            start,
        ).push(
            PendingModel {
                needs_send: true,
                packet: match x {
                    DataPacketModel::Fragment { payload } => PacketModel::DataFragment {
                        sequence: (((start + frags.len()) % 0x10000) as u16),
                        payload,
                    },
                    DataPacketModel::Single { payload } => PacketModel::Data {
                        sequence: (((start + frags.len()) % 0x10000) as u16),
                        payload,
                    },
                },
            },
        ));
    }
}

impl Channel {
    /// Splits an outbound payload to the buffer size, assigns each chunk a
    /// fresh outbound sequence number, and queues every chunk as pending.
    /// The buffer must fit the 4-byte fragment header and one payload byte
    /// beyond the envelope.
    pub fn send_data(&mut self, data: Vec<u8>)
        requires
            spec_channel_wf(old(self)@),
            data@.len() <= 0xFFFF_FFFF,
            old(self)@.buffer_size - spec_fragment_overhead(old(self)@.session) >= 5,
        ensures
            spec_channel_wf(final(self)@),
            ({
                let frags = spec_fragment_data(
                    data@,
                    old(self)@.buffer_size - spec_fragment_overhead(old(self)@.session),
                );
                final(self)@ == (ChannelModel {
                    send_queue: old(self)@.send_queue + spec_sequenced_pending(
                        frags,
                        old(self)@.next_server_sequence,
                    ),
                    next_server_sequence: (((old(self)@.next_server_sequence + frags.len())
                        % 0x10000) as u16),
                    ..old(self)@
                })
            }),
    {
        let ghost k = self@.buffer_size - spec_fragment_overhead(self@.session);
        let ghost start = self@.next_server_sequence;
        let ghost old_sq = self@.send_queue;
        let mut packets = match fragment_data(self.buffer_size, &self.session, data) {
            Ok(ps) => ps,
            Err(_) => {
                proof {
                    assert(false);
                }
                Vec::new()
            },
        };
        let ghost frags = crate::reliable_data::spec_dp_views(packets@);
        let n: usize = packets.len();
        let mut j: usize = 0;
        proof {
            assert(spec_sequenced_pending(frags.take(0), start) == Seq::<PendingModel>::empty());
            assert(old_sq + spec_sequenced_pending(frags.take(0), start) =~= old_sq);
            assert(forall|i: int| 0 <= i < frags.len() ==> frags[i] == #[trigger] packets@[i]@);
        }
        while j < n
            invariant
                j <= n == frags.len(),
                packets@.len() == n - j,
                forall|i: int| 0 <= i < packets@.len() ==> #[trigger] packets@[i]@ == frags[j + i],
                self@.next_server_sequence == (((start + j) % 0x10000) as u16),
                self@.send_queue == old_sq + spec_sequenced_pending(frags.take(j as int), start),
                self@ == (ChannelModel {
                    send_queue: self@.send_queue,
                    next_server_sequence: self@.next_server_sequence,
                    ..old(self)@
                }),
                spec_channel_wf(old(self)@),
                old_sq == old(self)@.send_queue,
                start == old(self)@.next_server_sequence,
            decreases n - j,
        {
            let ghost packets_before = packets@;
            let ghost sq_before = self@.send_queue;
            let chunk = packets.remove(0);
            proof {
                assert(chunk@ == frags[j as int]);
                assert(forall|i: int|
                    0 <= i < packets@.len() ==> #[trigger] packets@[i] == packets_before[i + 1]);
            }
            let sequence = self.next_server_sequence();
            let sequenced_packet = match chunk {
                DataPacket::Fragment(payload) => Packet::DataFragment(sequence, payload),
                DataPacket::Single(payload) => Packet::Data(sequence, payload),
            };
            let ghost pm = sequenced_packet@;
            self.send_queue.push(PendingPacket::new(sequenced_packet));
            proof {
                assert(spec_pending_views(self.send_queue@) =~= sq_before.push(
                    PendingModel { needs_send: true, packet: pm },
                ));
                assert(frags.take(j as int).push(frags[j as int]) =~= frags.take(j as int + 1));
                lemma_sequenced_pending_push(frags.take(j as int), frags[j as int], start);
                assert(self@.send_queue =~= old_sq + spec_sequenced_pending(
                    frags.take(j as int + 1),
                    start,
                ));
            }
            j = j + 1;
        }
        proof {
            assert(frags.take(n as int) =~= frags);
            assert forall|i: int| 0 <= i < self@.send_queue.len() implies spec_packet_wf(
                self@.send_queue[i].packet,
            ) by {
                if i >= old_sq.len() {
                    let tail = spec_sequenced_pending(frags, start);
                    lemma_sequenced_pending_kinds(frags, start);
                    assert(self@.send_queue[i] == tail[i - old_sq.len()]);
                }
            }
        }
    }
}

/// Every queued chunk is a data or data-fragment packet, which is always
/// well formed.
proof fn lemma_sequenced_pending_kinds(frags: Seq<DataPacketModel>, start: u16)
    ensures
        forall|i: int|
            0 <= i < spec_sequenced_pending(frags, start).len() ==> spec_packet_wf(
                (#[trigger] spec_sequenced_pending(frags, start)[i]).packet,
            ),
    decreases frags.len(),
{
    if frags.len() == 0 {
    } else {
        lemma_sequenced_pending_kinds(frags.skip(1), wrap_add(start, 1));
        let whole = spec_sequenced_pending(frags, start);
        let tail = spec_sequenced_pending(frags.skip(1), wrap_add(start, 1));
        assert forall|i: int| 0 <= i < whole.len() implies spec_packet_wf(whole[i].packet) by {
            if i >= 1 {
                assert(whole[i] == tail[i - 1]);
            }
        }
    }
}

/// The queue with every already-acknowledged entry dropped.
pub open spec fn spec_retained(q: Seq<PendingModel>) -> Seq<PendingModel>
    decreases q.len(),
{
    if q.len() == 0 {
        Seq::<PendingModel>::empty()
    } else {
        (if q[0].needs_send {
            seq![q[0]]
        } else {
            Seq::<PendingModel>::empty()
        }) + spec_retained(q.skip(1))
    }
}

/// The queue with the first `m` non-sequenced entries marked dispatched:
/// they are sent exactly once, while sequenced entries stay queued until
/// acknowledged.
pub open spec fn spec_mark_dispatched(q: Seq<PendingModel>, m: int) -> Seq<PendingModel> {
    Seq::new(
        q.len(),
        |i: int|
            if i < m && spec_sequence_number(q[i].packet) is None {
                PendingModel { needs_send: false, packet: q[i].packet }
            } else {
                q[i]
            },
    )
}

/// The packets a run of entries holds.
pub open spec fn spec_queue_packets(q: Seq<PendingModel>) -> Seq<PacketModel> {
    q.map_values(|pp: PendingModel| pp.packet)
}

/// Dropping acknowledged entries keeps a subsequence: well-formedness of
/// every packet is preserved, and every kept entry still needs sending.
proof fn lemma_retained_props(q: Seq<PendingModel>)
    requires
        forall|i: int| 0 <= i < q.len() ==> spec_packet_wf(#[trigger] q[i].packet),
    ensures
        forall|i: int|
            0 <= i < spec_retained(q).len() ==> spec_packet_wf(
                (#[trigger] spec_retained(q)[i]).packet,
            ) && spec_retained(q)[i].needs_send,
    decreases q.len(),
{
    if q.len() == 0 {
    } else {
        assert(forall|i: int| 0 <= i < q.skip(1).len() ==> q.skip(1)[i] == q[i + 1]);
        lemma_retained_props(q.skip(1));
        let kept = if q[0].needs_send {
            seq![q[0]]
        } else {
            Seq::<PendingModel>::empty()
        };
        assert(spec_retained(q) == kept + spec_retained(q.skip(1)));
        assert forall|i: int| 0 <= i < spec_retained(q).len() implies spec_packet_wf(
            spec_retained(q)[i].packet,
        ) && spec_retained(q)[i].needs_send by {
            if i < kept.len() {
                assert(spec_retained(q)[i] == q[0]);
            } else {
                assert(spec_retained(q)[i] == spec_retained(q.skip(1))[i - kept.len()]);
            }
        }
    }
}

impl Channel {
    /// Drops every entry already retired by an acknowledgement.
    fn drop_acked(&mut self)
        ensures
            final(self)@ == (ChannelModel {
                send_queue: spec_retained(old(self)@.send_queue),
                ..old(self)@
            }),
    {
        let ghost target = spec_retained(self@.send_queue);
        let mut kept: Vec<PendingPacket> = Vec::new();
        proof {
            assert(spec_pending_views(kept@) =~= Seq::<PendingModel>::empty());
            assert(spec_pending_views(kept@) + spec_retained(self@.send_queue) =~= target);
        }
        while self.send_queue.len() > 0
            invariant
                target == spec_retained(old(self)@.send_queue),
                spec_pending_views(kept@) + spec_retained(self@.send_queue) == target,
                self@ == (ChannelModel { send_queue: self@.send_queue, ..old(self)@ }),
            decreases self.send_queue@.len(),
        {
            let ghost rem = self@.send_queue;
            let ghost kept_before = spec_pending_views(kept@);
            let ghost q_before = self.send_queue@;
            let entry = self.send_queue.remove(0);
            proof {
                assert(entry@ == rem[0]);
                assert forall|i: int| 0 <= i < self@.send_queue.len() implies self@.send_queue[i]
                    == rem[i + 1] by {
                    assert(self@.send_queue[i] == self.send_queue@[i]@);
                    assert(self.send_queue@[i] == q_before[i + 1]);
                }
                assert(self@.send_queue =~= rem.skip(1));
            }
            if entry.needs_send {
                let ghost e = entry@;
                kept.push(entry);
                proof {
                    assert(spec_pending_views(kept@) =~= kept_before.push(e));
                    assert(kept_before + (seq![e] + spec_retained(rem.skip(1)))
                        =~= spec_pending_views(kept@) + spec_retained(rem.skip(1)));
                }
            }
        }
        proof {
            assert(self@.send_queue.len() == 0);
            assert(spec_retained(self@.send_queue) == Seq::<PendingModel>::empty());
            assert(spec_pending_views(kept@) =~= target);
        }
        core::mem::swap(&mut self.send_queue, &mut kept);
    }

    /// Serializes up to `count` queued packets into outbound datagrams,
    /// dropping acknowledged entries first.  Non-sequenced packets are
    /// marked dispatched, so they go out exactly once; sequenced packets
    /// stay queued until acknowledged, and a later call sends them again.
    /// Consecutive small packets may be coalesced into one multi-packet;
    /// whatever the grouping, the datagrams decode, in order, to exactly the
    /// packets taken from the queue.
    pub fn send_next(&mut self, count: u8) -> (r: Result<Vec<Vec<u8>>, SerializeError>)
        requires
            spec_channel_wf(old(self)@),
        ensures
            spec_channel_wf(final(self)@),
            ({
                let kept = spec_retained(old(self)@.send_queue);
                let m = if count as int <= kept.len() {
                    count as int
                } else {
                    kept.len() as int
                };
                &&& final(self)@ == (ChannelModel {
                    send_queue: spec_mark_dispatched(kept, m),
                    ..old(self)@
                })
                &&& (r matches Ok(out) ==> {
                    &&& forall|k: int|
                        0 <= k < out@.len() ==> spec_wire_decode(
                            (#[trigger] out@[k])@,
                            old(self)@.session,
                        ) is Ok
                    &&& spec_decoded_concat(spec_datagram_views(out@), old(self)@.session)
                        == spec_queue_packets(kept.take(m))
                    &&& forall|k: int|
                        0 <= k < out@.len() ==> (#[trigger] out@[k])@.len() <= old(
                            self,
                        )@.buffer_size
                })
                &&& (r is Err <==> exists|k: int|
                    0 <= k < m && (#[trigger] crate::codec::spec_wire_encode(
                        kept[k].packet,
                        old(self)@.session,
                    )).len() > old(self)@.buffer_size)
            }),
    {
        self.drop_acked();
        let ghost kept = self@.send_queue;
        proof {
            lemma_retained_props(old(self)@.send_queue);
        }
        let queue_len: usize = self.send_queue.len();
        let m: usize = if count as usize <= queue_len {
            count as usize
        } else {
            queue_len
        };
        let ghost target = spec_mark_dispatched(kept, m as int);
        let mut i: usize = 0;
        while i < m
            invariant
                i <= m <= self.send_queue@.len(),
                self.send_queue@.len() == kept.len(),
                target == spec_mark_dispatched(kept, m as int),
                self@ == (ChannelModel { send_queue: self@.send_queue, ..old(self)@ }),
                forall|j: int| 0 <= j < i ==> self@.send_queue[j] == target[j],
                forall|j: int|
                    i <= j < kept.len() ==> self@.send_queue[j] == kept[j],
            decreases m - i,
        {
            let ghost qprev = self@.send_queue;
            let one_shot = self.send_queue[i].packet.sequence_number().is_none();
            if one_shot {
                let entry = &mut self.send_queue[i];
                entry.needs_send = false;
            }
            proof {
                let cur = self@.send_queue;
                assert forall|j: int| 0 <= j < kept.len() implies cur[j] == (if j == i {
                    target[j]
                } else {
                    qprev[j]
                }) by {
                    assert(cur[j] == self.send_queue@[j]@);
                }
            }
            i = i + 1;
        }
        proof {
            assert(self@.send_queue =~= target);
            assert forall|j: int| 0 <= j < self.send_queue@.len() implies spec_packet_wf(
                #[trigger] self.send_queue@[j].packet@,
            ) by {
                assert(self.send_queue@[j]@ == spec_pending_views(self.send_queue@)[j]);
                assert(spec_pending_views(self.send_queue@)[j] == target[j]);
                assert(target[j].packet == kept[j].packet);
                assert(self.send_queue@[j].packet@ == self.send_queue@[j]@.packet);
            }
        }
        let result = serialize_packets(&self.send_queue, m, self.buffer_size, &self.session);
        proof {
            if result is Ok {
                assert forall|j: int| 0 <= j < m implies #[trigger] spec_pending_models(
                    self.send_queue@.take(m as int),
                )[j] == spec_queue_packets(kept.take(m as int))[j] by {
                    assert(spec_pending_models(self.send_queue@.take(m as int))[j]
                        == self.send_queue@[j]@.packet);
                    assert(self.send_queue@[j]@ == target[j]);
                }
                assert(spec_pending_models(self.send_queue@.take(m as int)) =~= spec_queue_packets(
                    kept.take(m as int),
                ));
            }
            assert forall|k: int| 0 <= k < m implies (#[trigger] spec_pending_views(
                self.send_queue@,
            )[k]).packet == kept[k].packet by {
                assert(spec_pending_views(self.send_queue@)[k] == target[k]);
            }
            assert forall|k: int| 0 <= k < m implies #[trigger] crate::codec::spec_wire_encode(
                self.send_queue@[k].packet@,
                old(self)@.session,
            ) == crate::codec::spec_wire_encode(kept[k].packet, old(self)@.session) by {
                assert(self.send_queue@[k]@ == target[k]);
                assert(self.send_queue@[k].packet@ == self.send_queue@[k]@.packet);
                assert(target[k].packet == kept[k].packet);
            }
            if result is Err {
                let k = choose|k: int|
                    0 <= k < m && (#[trigger] crate::codec::spec_wire_encode(
                        self.send_queue@[k].packet@,
                        self.session,
                    )).len() > self.buffer_size;
                assert(crate::codec::spec_wire_encode(kept[k].packet, old(self)@.session).len()
                    > old(self)@.buffer_size);
            }
            if exists|k: int|
                0 <= k < m && (#[trigger] crate::codec::spec_wire_encode(
                    kept[k].packet,
                    old(self)@.session,
                )).len() > old(self)@.buffer_size {
                let k = choose|k: int|
                    0 <= k < m && (#[trigger] crate::codec::spec_wire_encode(
                        kept[k].packet,
                        old(self)@.session,
                    )).len() > old(self)@.buffer_size;
                assert(crate::codec::spec_wire_encode(self.send_queue@[k].packet@, self.session)
                    .len() > self.buffer_size);
                assert(result is Err);
            }
        }
        result
    }
}

/// Whether the reorder buffer holds an entry for a sequence number.
pub open spec fn spec_reorder_has(r: Seq<(u16, PacketModel)>, s: u16) -> bool {
    exists|i: int| 0 <= i < r.len() && (#[trigger] r[i]).0 == s
}

/// The index of the entry for a sequence number.
pub open spec fn spec_reorder_index(r: Seq<(u16, PacketModel)>, s: u16) -> int {
    choose|i: int| 0 <= i < r.len() && (#[trigger] r[i]).0 == s
}

/// The packet buffered under a sequence number.
pub open spec fn spec_reorder_get(r: Seq<(u16, PacketModel)>, s: u16) -> PacketModel {
    r[spec_reorder_index(r, s)].1
}

/// The buffer with the entry for a sequence number taken out.
pub open spec fn spec_reorder_remove(r: Seq<(u16, PacketModel)>, s: u16) -> Seq<(u16, PacketModel)> {
    r.remove(spec_reorder_index(r, s))
}

/// Draining the reorder buffer: while the buffer holds the next expected
/// sequence number, that packet is delivered in turn, advancing the window
/// and feeding the reassembler, whose completed payloads accumulate.
pub open spec fn spec_drain(st: ChannelModel, completed: Seq<PacketModel>) -> (
    ChannelModel,
    Seq<PacketModel>,
    Option<FragmentError>,
)
    decreases st.reordered.len(),
{
    if !spec_reorder_has(st.reordered, st.next_client_sequence) {
        (st, completed, None)
    } else {
        let s = st.next_client_sequence;
        let m = spec_reorder_get(st.reordered, s);
        let st1 = ChannelModel {
            reordered: spec_reorder_remove(st.reordered, s),
            last_server_ack: s,
            next_client_sequence: wrap_add(s, 1),
            ..st
        };
        let step = spec_fragment_add(st1.fragment, m);
        let fed = ChannelModel { fragment: step.0, ..st1 };
        match step.1 {
            Err(e) => (fed, completed, Some(e)),
            Ok(Some(p)) => spec_drain(fed, completed.push(p)),
            Ok(None) => spec_drain(fed, completed),
        }
    }
}

/// One batch of the receive path: dequeue up to `count` packets.  An
/// out-of-order sequenced packet is buffered when recent (first arrival
/// wins) and acknowledged alone; the expected packet advances the window,
/// pulls its successor out of the reorder buffer, and goes through the
/// reassembler, whose completed payloads accumulate; a non-sequenced packet
/// goes through the reassembler untouched.  A reassembly error stops the
/// batch at once.
pub open spec fn spec_batch(
    st: ChannelModel,
    count: nat,
    needs_ack: bool,
    completed: Seq<PacketModel>,
) -> (ChannelModel, bool, Seq<PacketModel>, Option<FragmentError>)
    decreases count,
{
    if count == 0 || st.receive_queue.len() == 0 {
        (st, needs_ack, completed, None)
    } else {
        let m = st.receive_queue[0];
        let popped = ChannelModel { receive_queue: st.receive_queue.skip(1), ..st };
        match spec_sequence_number(m) {
            Some(s) => {
                if s != st.next_client_sequence {
                    let buffered = if spec_recent(st.next_client_sequence, st.recency_limit, s)
                        && !spec_reorder_has(popped.reordered, s) {
                        ChannelModel { reordered: popped.reordered.push((s, m)), ..popped }
                    } else {
                        popped
                    };
                    let acked = ChannelModel {
                        send_queue: buffered.send_queue.push(
                            PendingModel {
                                needs_send: true,
                                packet: PacketModel::Ack { sequence: s },
                            },
                        ),
                        ..buffered
                    };
                    spec_batch(acked, (count - 1) as nat, needs_ack, completed)
                } else {
                    let advanced = ChannelModel {
                        last_server_ack: s,
                        next_client_sequence: wrap_add(s, 1),
                        ..popped
                    };
                    let step = spec_fragment_add(advanced.fragment, m);
                    let fed = ChannelModel { fragment: step.0, ..advanced };
                    match step.1 {
                        Err(e) => (fed, true, completed, Some(e)),
                        Ok(Some(p)) => {
                            let drained = spec_drain(fed, completed.push(p));
                            match drained.2 {
                                Some(e) => (drained.0, true, drained.1, Some(e)),
                                None => spec_batch(drained.0, (count - 1) as nat, true, drained.1),
                            }
                        },
                        Ok(None) => {
                            let drained = spec_drain(fed, completed);
                            match drained.2 {
                                Some(e) => (drained.0, true, drained.1, Some(e)),
                                None => spec_batch(drained.0, (count - 1) as nat, true, drained.1),
                            }
                        },
                    }
                }
            },
            None => {
                let step = spec_fragment_add(popped.fragment, m);
                let fed = ChannelModel { fragment: step.0, ..popped };
                match step.1 {
                    Err(e) => (fed, needs_ack, completed, Some(e)),
                    Ok(Some(p)) => spec_batch(
                        fed,
                        (count - 1) as nat,
                        needs_ack,
                        completed.push(p),
                    ),
                    Ok(None) => spec_batch(fed, (count - 1) as nat, needs_ack, completed),
                }
            },
        }
    }
}

/// Handling of the batch's completed packets: each is handled inside the
/// protocol (consuming one seed, used only by a `SessionRequest`), and each
/// completed `Data` payload is unbundled into the application payloads the
/// caller receives; a payload that fails to unbundle contributes nothing.
pub open spec fn spec_process_completed(
    st: ChannelModel,
    completed: Seq<PacketModel>,
    seeds: Seq<u32>,
) -> (ChannelModel, Seq<Seq<u8>>)
    decreases completed.len(),
{
    if completed.len() == 0 {
        (st, Seq::<Seq<u8>>::empty())
    } else {
        let seed: u32 = if seeds.len() > 0 {
            seeds[0]
        } else {
            0
        };
        let st1 = spec_process_packet(st, completed[0], seed);
        let outs = match completed[0] {
            PacketModel::Data { payload, .. } => match spec_unbundle(payload) {
                Ok(items) => items,
                Err(_) => Seq::<Seq<u8>>::empty(),
            },
            _ => Seq::<Seq<u8>>::empty(),
        };
        let rec = spec_process_completed(st1, completed.skip(1), seeds.skip(1));
        (rec.0, outs + rec.1)
    }
}

impl Channel {
    /// Takes the buffered packet for a sequence number out of the reorder
    /// buffer, if one is there.
    fn reorder_take(&mut self, s: SequenceNumber) -> (r: Option<Packet>)
        requires
            forall|i: int, j: int|
                0 <= i < old(self)@.reordered.len() && 0 <= j < old(self)@.reordered.len() && i != j
                    ==> (#[trigger] old(self)@.reordered[i]).0 != (
                #[trigger] old(self)@.reordered[j]).0,
        ensures
            spec_reorder_has(old(self)@.reordered, s) ==> (r matches Some(p) && p@
                == spec_reorder_get(old(self)@.reordered, s) && final(self)@ == (ChannelModel {
                reordered: spec_reorder_remove(old(self)@.reordered, s),
                ..old(self)@
            })),
            !spec_reorder_has(old(self)@.reordered, s) ==> (r is None && final(self)@ == old(
                self,
            )@),
    {
        let n: usize = self.reordered_packets.len();
        let mut i: usize = 0;
        while i < n
            invariant
                i <= n,
                n == self.reordered_packets@.len(),
                self@ == old(self)@,
                forall|j: int| 0 <= j < i ==> (#[trigger] self@.reordered[j]).0 != s,
                forall|a: int, b: int|
                    0 <= a < self@.reordered.len() && 0 <= b < self@.reordered.len() && a != b ==> (
                    #[trigger] self@.reordered[a]).0 != (#[trigger] self@.reordered[b]).0,
            decreases n - i,
        {
            if self.reordered_packets[i].0 == s {
                let ghost before = self@.reordered;
                let entry = self.reordered_packets.remove(i);
                proof {
                    assert(before[i as int].0 == s);
                    assert(spec_reorder_has(before, s));
                    let idx = spec_reorder_index(before, s);
                    assert(0 <= idx < before.len() && before[idx].0 == s);
                    assert(idx == i);
                    assert forall|j: int| 0 <= j < self@.reordered.len() implies self@.reordered[j]
                        == before.remove(i as int)[j] by {
                        assert(self@.reordered[j] == (
                            self.reordered_packets@[j].0,
                            self.reordered_packets@[j].1@,
                        ));
                    }
                    assert(self@.reordered =~= spec_reorder_remove(before, s));
                    assert(entry.1@ == spec_reorder_get(before, s));
                }
                return Some(entry.1);
            }
            i = i + 1;
        }
        proof {
            assert(!spec_reorder_has(self@.reordered, s));
        }
        None
    }
}

/// Advancing the window keeps a recent number either recent or exactly the
/// new expected number.
proof fn lemma_recent_shift_relaxed(n: u16, limit: u16, s: u16)
    requires
        spec_recent(n, limit, s),
    ensures
        spec_recent(wrap_add(n, 1), limit, s) || s == wrap_add(n, 1),
{
}

/// Handling a packet inside the protocol preserves the channel invariant.
proof fn lemma_process_packet_wf(st: ChannelModel, m: PacketModel, seed: u32)
    requires
        spec_channel_wf(st),
    ensures
        spec_channel_wf(spec_process_packet(st, m, seed)),
{
    let st2 = spec_process_packet(st, m, seed);
    match m {
        PacketModel::SessionRequest { .. } => {
            assert forall|i: int| 0 <= i < st2.send_queue.len() implies spec_packet_wf(
                (#[trigger] st2.send_queue[i]).packet,
            ) by {
                if i < st.send_queue.len() {
                    assert(st2.send_queue[i] == st.send_queue[i]);
                }
            }
        },
        PacketModel::Heartbeat => {
            assert forall|i: int| 0 <= i < st2.send_queue.len() implies spec_packet_wf(
                (#[trigger] st2.send_queue[i]).packet,
            ) by {
                if i < st.send_queue.len() {
                    assert(st2.send_queue[i] == st.send_queue[i]);
                }
            }
        },
        PacketModel::Ack { .. } => {
            assert forall|i: int| 0 <= i < st2.send_queue.len() implies spec_packet_wf(
                (#[trigger] st2.send_queue[i]).packet,
            ) by {
                assert(st2.send_queue[i].packet == st.send_queue[i].packet);
            }
        },
        PacketModel::AckAll { .. } => {
            assert forall|i: int| 0 <= i < st2.send_queue.len() implies spec_packet_wf(
                (#[trigger] st2.send_queue[i]).packet,
            ) by {
                assert(st2.send_queue[i].packet == st.send_queue[i].packet);
            }
        },
        _ => {},
    }
}

/// The batch's state once the cumulative acknowledgement is queued: when an
/// in-order packet arrived, one `AckAll` for everything delivered joins the
/// send queue.
pub open spec fn spec_after_batch_ack(batch: (ChannelModel, bool, Seq<PacketModel>, Option<FragmentError>)) -> ChannelModel {
    if batch.1 {
        ChannelModel {
            send_queue: batch.0.send_queue.push(
                PendingModel {
                    needs_send: true,
                    packet: PacketModel::AckAll { sequence: batch.0.last_server_ack },
                },
            ),
            ..batch.0
        }
    } else {
        batch.0
    }
}

/// What a successful `process_next` call did: the batch ran without a
/// reassembly error, the cumulative acknowledgement was queued if owed, each
/// completed packet was handled inside the protocol under some run of seeds,
/// and the outputs are the unbundled application payloads in order.
pub open spec fn spec_process_next_ok(
    pre: ChannelModel,
    count: nat,
    post: ChannelModel,
    outs: Seq<Seq<u8>>,
) -> bool {
    let batch = spec_batch(pre, count, false, Seq::<PacketModel>::empty());
    &&& batch.3 is None
    &&& exists|seeds: Seq<u32>|
        (#[trigger] spec_process_completed(spec_after_batch_ack(batch), batch.2, seeds)) == (
            post,
            outs,
        )
}

/// What a failed `process_next` call did: the batch stopped at a reassembly
/// error, leaving the channel exactly at the failing step.
pub open spec fn spec_process_next_err(
    pre: ChannelModel,
    count: nat,
    post: ChannelModel,
    e: FragmentError,
) -> bool {
    let batch = spec_batch(pre, count, false, Seq::<PacketModel>::empty());
    &&& batch.3 == Some(e)
    &&& post == batch.0
}

impl Channel {
    /// Whether the reorder buffer already holds an entry for this number.
    fn reorder_contains(&self, s: SequenceNumber) -> (r: bool)
        ensures
            r == spec_reorder_has(self@.reordered, s),
    {
        let n: usize = self.reordered_packets.len();
        let mut i: usize = 0;
        while i < n
            invariant
                i <= n,
                n == self.reordered_packets@.len(),
                forall|j: int| 0 <= j < i ==> (#[trigger] self@.reordered[j]).0 != s,
            decreases n - i,
        {
            if self.reordered_packets[i].0 == s {
                proof {
                    assert(self@.reordered[i as int].0 == s);
                }
                return true;
            }
            i = i + 1;
        }
        false
    }

    /// The receive path: dequeues up to `count` inbound packets, as
    /// `spec_batch` says, then queues one cumulative `AckAll` if an in-order
    /// packet arrived, handles each completed packet inside the protocol,
    /// and returns the unbundled application payloads in order.  A
    /// reassembly error is fatal: the batch stops and the caller should
    /// disconnect.
    #[verifier::rlimit(100)]
    #[verifier::spinoff_prover]
    pub fn process_next(&mut self, count: u8) -> (r: Result<Vec<Vec<u8>>, FragmentError>)
        requires
            spec_channel_wf(old(self)@),
        ensures
            r is Ok ==> spec_channel_wf(final(self)@),
            r is Err ==> spec_channel_wf_relaxed(final(self)@),
            r matches Ok(v) ==> spec_process_next_ok(
                old(self)@,
                count as nat,
                final(self)@,
                spec_datagram_views(v@),
            ),
            r matches Err(e) ==> spec_process_next_err(old(self)@, count as nat, final(self)@, e),
    {
        let ghost orig = old(self)@;
        let mut needs_new_ack = false;
        let mut completed: Vec<Packet> = Vec::new();
        let count_usize: usize = count as usize;
        let mut iter: usize = 0;
        proof {
            assert(spec_packet_views(completed@) =~= Seq::<PacketModel>::empty());
        }
        while iter < count_usize && self.receive_queue.len() > 0
            invariant
                iter <= count_usize == count as usize,
                orig == old(self)@,
                spec_channel_wf(self@),
                spec_batch(orig, count as nat, false, Seq::<PacketModel>::empty()) == spec_batch(
                    self@,
                    (count_usize - iter) as nat,
                    needs_new_ack,
                    spec_packet_views(completed@),
                ),
            decreases count_usize - iter,
        {
            let ghost st_before = self@;
            let ghost rq_before = self.receive_queue@;
            let ghost comp_start = completed@;
            let ghost needs_new_ack_start = needs_new_ack;
            let packet = self.receive_queue.remove(0);
            proof {
                assert(packet@ == st_before.receive_queue[0]);
                assert forall|j: int| 0 <= j < self@.receive_queue.len() implies
                    self@.receive_queue[j] == st_before.receive_queue[j + 1] by {
                    assert(self@.receive_queue[j] == self.receive_queue@[j]@);
                    assert(self.receive_queue@[j] == rq_before[j + 1]);
                }
                assert(self@ =~= (ChannelModel {
                    receive_queue: st_before.receive_queue.skip(1),
                    ..st_before
                }));
            }
            let ghost popped = self@;
            let sequence = packet.sequence_number();
            match sequence {
                Some(s) => if s != self.next_client_sequence {
                    let recent = self.save_for_reorder(s);
                    let already = self.reorder_contains(s);
                    let ghost rb = self@.reordered;
                    if recent && !already {
                        let ghost pm = packet@;
                        self.reordered_packets.push((s, packet));
                        proof {
                            assert forall|j: int| 0 <= j < self@.reordered.len() implies
                                self@.reordered[j] == rb.push((s, pm))[j] by {
                                assert(self@.reordered[j] == (
                                    self.reordered_packets@[j].0,
                                    self.reordered_packets@[j].1@,
                                ));
                            }
                            assert(self@.reordered =~= rb.push((s, pm)));
                            assert(self@ =~= (ChannelModel {
                                reordered: popped.reordered.push((s, pm)),
                                ..popped
                            }));
                        }
                    }
                    let ghost buffered = self@;
                    self.acknowledge_one(s);
                    proof {
                        assert(spec_batch(
                            st_before,
                            (count_usize - iter) as nat,
                            needs_new_ack,
                            spec_packet_views(completed@),
                        ) == spec_batch(
                            self@,
                            (count_usize - iter - 1) as nat,
                            needs_new_ack,
                            spec_packet_views(completed@),
                        ));
                    }
                } else {
                    self.last_server_ack = s;
                    self.next_client_sequence = s.wrapping_add(1);
                    needs_new_ack = true;
                    let ghost advanced = self@;
                    proof {
                        assert(advanced =~= (ChannelModel {
                            last_server_ack: s,
                            next_client_sequence: wrap_add(s, 1),
                            ..popped
                        }));
                        assert forall|i: int|
                            0 <= i < advanced.reordered.len() implies spec_recent(
                            advanced.next_client_sequence,
                            advanced.recency_limit,
                            (#[trigger] advanced.reordered[i]).0,
                        ) || advanced.reordered[i].0 == advanced.next_client_sequence by {
                            lemma_recent_shift_relaxed(
                                s,
                                advanced.recency_limit,
                                advanced.reordered[i].0,
                            );
                        }
                        assert(spec_channel_wf_relaxed(advanced));
                    }
                    let outcome = self.fragment_state.add(packet);
                    let ghost fed = self@;
                    proof {
                        assert(fed =~= (ChannelModel {
                            fragment: spec_fragment_add(
                                advanced.fragment,
                                st_before.receive_queue[0],
                            ).0,
                            ..advanced
                        }));
                        assert(spec_channel_wf_relaxed(fed));
                    }
                    match outcome {
                        Ok(Some(done)) => {
                            let ghost dm = done@;
                            completed.push(done);
                            proof {
                                assert(spec_packet_views(completed@) =~= spec_packet_views(
                                    comp_start,
                                ).push(dm));
                            }
                        },
                        Ok(None) => {},
                        Err(e) => {
                            proof {
                                assert(spec_batch(
                                    orig,
                                    count as nat,
                                    false,
                                    Seq::<PacketModel>::empty(),
                                ) == (self@, true, spec_packet_views(completed@), Some(e)));
                                assert(spec_process_next_err(orig, count as nat, self@, e));
                            }
                            return Err(e);
                        },
                    }
                    let ghost comp_fed = spec_packet_views(completed@);
                    let mut draining = true;
                    let mut drain_err: Option<FragmentError> = None;
                    proof {
                        assert(spec_drain(fed, comp_fed) == spec_drain(
                            self@,
                            spec_packet_views(completed@),
                        ));
                    }
                    while draining
                        invariant
                            spec_channel_wf_relaxed(self@),
                            drain_err is Some ==> !draining,
                            draining ==> drain_err is None && spec_drain(fed, comp_fed)
                                == spec_drain(self@, spec_packet_views(completed@)),
                            !draining && drain_err is None ==> spec_drain(fed, comp_fed) == (
                                self@,
                                spec_packet_views(completed@),
                                None::<FragmentError>,
                            ) && spec_channel_wf(self@),
                            drain_err matches Some(e) ==> spec_drain(fed, comp_fed) == (
                                self@,
                                spec_packet_views(completed@),
                                Some(e),
                            ),
                        decreases self.reordered_packets@.len(), (if draining {
                            1int
                        } else {
                            0int
                        }),
                    {
                        let ghost dst_before = self@;
                        let ghost dcomp_before = spec_packet_views(completed@);
                        let expected = self.next_client_sequence;
                        match self.reorder_take(expected) {
                            Some(next_packet) => {
                                proof {
                                    assert(spec_reorder_has(dst_before.reordered, expected));
                                    assert(next_packet@ == spec_reorder_get(
                                        dst_before.reordered,
                                        expected,
                                    ));
                                    assert(spec_sequence_number(next_packet@) == Some(expected));
                                }
                                self.last_server_ack = expected;
                                self.next_client_sequence = expected.wrapping_add(1);
                                let ghost dadv = self@;
                                proof {
                                    assert(dadv =~= (ChannelModel {
                                        reordered: spec_reorder_remove(
                                            dst_before.reordered,
                                            expected,
                                        ),
                                        last_server_ack: expected,
                                        next_client_sequence: wrap_add(expected, 1),
                                        ..dst_before
                                    }));
                                    assert forall|i: int|
                                        0 <= i < dadv.reordered.len() implies spec_recent(
                                        dadv.next_client_sequence,
                                        dadv.recency_limit,
                                        (#[trigger] dadv.reordered[i]).0,
                                    ) || dadv.reordered[i].0 == dadv.next_client_sequence by {
                                        if dadv.reordered[i].0 != expected {
                                            lemma_recent_shift_relaxed(
                                                expected,
                                                dadv.recency_limit,
                                                dadv.reordered[i].0,
                                            );
                                        }
                                    }
                                }
                                let doutcome = self.fragment_state.add(next_packet);
                                let ghost dfed = self@;
                                proof {
                                    assert(dfed =~= (ChannelModel {
                                        fragment: spec_fragment_add(
                                            dadv.fragment,
                                            spec_reorder_get(dst_before.reordered, expected),
                                        ).0,
                                        ..dadv
                                    }));
                                }
                                match doutcome {
                                    Ok(Some(done)) => {
                                        let ghost dm = done@;
                                        completed.push(done);
                                        proof {
                                            assert(spec_packet_views(completed@)
                                                =~= dcomp_before.push(dm));
                                            assert(spec_drain(dst_before, dcomp_before)
                                                == spec_drain(self@, spec_packet_views(completed@)));
                                        }
                                    },
                                    Ok(None) => {
                                        proof {
                                            assert(spec_drain(dst_before, dcomp_before)
                                                == spec_drain(self@, spec_packet_views(completed@)));
                                        }
                                    },
                                    Err(e) => {
                                        drain_err = Some(e);
                                        draining = false;
                                        proof {
                                            assert(spec_drain(dst_before, dcomp_before) == (
                                                self@,
                                                spec_packet_views(completed@),
                                                Some(e),
                                            ));
                                        }
                                    },
                                }
                            },
                            None => {
                                draining = false;
                                proof {
                                    assert(spec_drain(self@, spec_packet_views(completed@)) == (
                                        self@,
                                        spec_packet_views(completed@),
                                        None::<FragmentError>,
                                    ));
                                    assert forall|i: int|
                                        0 <= i < self@.reordered.len() implies spec_recent(
                                        self@.next_client_sequence,
                                        self@.recency_limit,
                                        (#[trigger] self@.reordered[i]).0,
                                    ) by {
                                        assert(self@.reordered[i].0
                                            != self@.next_client_sequence);
                                    }
                                }
                            },
                        }
                    }
                    match drain_err {
                        Some(e) => {
                            proof {
                                assert(spec_batch(
                                    orig,
                                    count as nat,
                                    false,
                                    Seq::<PacketModel>::empty(),
                                ) == (self@, true, spec_packet_views(completed@), Some(e)));
                                assert(spec_process_next_err(orig, count as nat, self@, e));
                            }
                            return Err(e);
                        },
                        None => {
                            proof {
                                assert(spec_batch(
                                    st_before,
                                    (count_usize - iter) as nat,
                                    needs_new_ack_start,
                                    spec_packet_views(comp_start),
                                ) == spec_batch(
                                    self@,
                                    (count_usize - iter - 1) as nat,
                                    true,
                                    spec_packet_views(completed@),
                                ));
                            }
                        },
                    }
                },
                None => {
                    let outcome = self.fragment_state.add(packet);
                    proof {
                        assert(self@ =~= (ChannelModel {
                            fragment: spec_fragment_add(popped.fragment, st_before.receive_queue[0]).0,
                            ..popped
                        }));
                    }
                    match outcome {
                        Ok(Some(done)) => {
                            let ghost comp_before = spec_packet_views(completed@);
                            let ghost dm = done@;
                            completed.push(done);
                            proof {
                                assert(spec_packet_views(completed@) =~= comp_before.push(dm));
                                assert(spec_batch(
                                    st_before,
                                    (count_usize - iter) as nat,
                                    needs_new_ack,
                                    comp_before,
                                ) == spec_batch(
                                    self@,
                                    (count_usize - iter - 1) as nat,
                                    needs_new_ack,
                                    spec_packet_views(completed@),
                                ));
                            }
                        },
                        Ok(None) => {},
                        Err(e) => {
                            proof {
                                assert(spec_batch(
                                    orig,
                                    count as nat,
                                    false,
                                    Seq::<PacketModel>::empty(),
                                ) == (
                                    self@,
                                    needs_new_ack,
                                    spec_packet_views(completed@),
                                    Some(e),
                                ));
                                assert(spec_process_next_err(orig, count as nat, self@, e));
                            }
                            return Err(e);
                        },
                    }
                },
            }
            iter = iter + 1;
        }
        let ghost batch = spec_batch(orig, count as nat, false, Seq::<PacketModel>::empty());
        proof {
            assert(batch == (
                self@,
                needs_new_ack,
                spec_packet_views(completed@),
                None::<FragmentError>,
            ));
        }
        if needs_new_ack {
            self.acknowledge_all(self.last_server_ack);
        }
        let ghost st2 = self@;
        let ghost comp0 = spec_packet_views(completed@);
        let mut outputs: Vec<Vec<u8>> = Vec::new();
        let ghost seeds_done: Seq<u32> = Seq::<u32>::empty();
        let mut seeds_done_tracker: Ghost<Seq<u32>> = Ghost(seeds_done);
        proof {
            assert(spec_datagram_views(outputs@) =~= Seq::<Seq<u8>>::empty());
        }
        while completed.len() > 0
            invariant
                spec_channel_wf(self@),
                forall|rest: Seq<u32>|
                    #[trigger] spec_process_completed(st2, comp0, seeds_done_tracker@ + rest) == ({
                        let rec = spec_process_completed(
                            self@,
                            spec_packet_views(completed@),
                            rest,
                        );
                        (rec.0, spec_datagram_views(outputs@) + rec.1)
                    }),
            decreases completed@.len(),
        {
            let ghost st_before = self@;
            let ghost comp_before = completed@;
            let packet = completed.remove(0);
            proof {
                assert(packet@ == spec_packet_views(comp_before)[0]);
                assert forall|j: int| 0 <= j < completed@.len() implies #[trigger] completed@[j]
                    == comp_before[j + 1] by {}
                assert(spec_packet_views(completed@) =~= spec_packet_views(comp_before).skip(1));
            }
            let seed = self.process_packet(&packet);
            proof {
                lemma_process_packet_wf(st_before, packet@, seed@);
            }
            let ghost out_before = spec_datagram_views(outputs@);
            let ghost added: Seq<Seq<u8>> = match packet@ {
                PacketModel::Data { payload, .. } => match spec_unbundle(payload) {
                    Ok(items) => items,
                    Err(_) => Seq::<Seq<u8>>::empty(),
                },
                _ => Seq::<Seq<u8>>::empty(),
            };
            if let Packet::Data(_, payload) = &packet {
                match crate::reliable_data::unbundle_reliable_data(payload) {
                    Ok(mut items) => {
                        outputs.append(&mut items);
                    },
                    Err(_) => {},
                }
            }
            proof {
                assert(spec_datagram_views(outputs@) =~= out_before + added);
                let sd = seeds_done_tracker@;
                let sd2 = sd.push(seed@);
                assert forall|rest: Seq<u32>|
                    #[trigger] spec_process_completed(st2, comp0, sd2 + rest) == ({
                        let rec = spec_process_completed(
                            self@,
                            spec_packet_views(completed@),
                            rest,
                        );
                        (rec.0, spec_datagram_views(outputs@) + rec.1)
                    }) by {
                    let ext = seq![seed@] + rest;
                    assert(sd2 + rest =~= sd + ext);
                    assert(spec_process_completed(st2, comp0, sd + ext) == ({
                        let rec = spec_process_completed(
                            st_before,
                            spec_packet_views(comp_before),
                            ext,
                        );
                        (rec.0, out_before + rec.1)
                    }));
                    assert(ext[0] == seed@);
                    assert(ext.skip(1) =~= rest);
                    let rec2 = spec_process_completed(self@, spec_packet_views(completed@), rest);
                    assert(spec_process_completed(st_before, spec_packet_views(comp_before), ext)
                        == (rec2.0, added + rec2.1));
                    assert(out_before + (added + rec2.1) =~= spec_datagram_views(outputs@)
                        + rec2.1);
                }
                seeds_done_tracker@ = sd2;
            }
        }
        proof {
            let sd = seeds_done_tracker@;
            let probe = spec_process_completed(st2, comp0, sd + Seq::<u32>::empty());
            assert(spec_packet_views(completed@).len() == 0);
            let rec = spec_process_completed(self@, spec_packet_views(completed@), Seq::<
                u32,
            >::empty());
            assert(rec.0 == self@ && rec.1 == Seq::<Seq<u8>>::empty());
            assert(probe == (self@, spec_datagram_views(outputs@) + Seq::<Seq<u8>>::empty()));
            assert(sd + Seq::<u32>::empty() =~= sd);
            assert(spec_datagram_views(outputs@) + Seq::<Seq<u8>>::empty() =~= spec_datagram_views(
                outputs@,
            ));
            assert(spec_process_completed(st2, comp0, sd) == (self@, spec_datagram_views(outputs@)));
            let st2e = spec_after_batch_ack(batch);
            assert(st2 =~= st2e);
            assert(comp0 == batch.2);
            assert(spec_process_completed(st2e, batch.2, sd) == (
                self@,
                spec_datagram_views(outputs@),
            ));
            assert(spec_process_next_ok(
                orig,
                count as nat,
                self@,
                spec_datagram_views(outputs@),
            ));
        }
        Ok(outputs)
    }
}

/// An `AckAll` retires exactly the queued packets whose sequence numbers the
/// wrap-safe acceptance predicate admits, and an `Ack` retires exactly the
/// entries carrying the acknowledged number, provided that number passes the
/// window ending just before the next outbound sequence number; no packet is
/// changed and no entry is revived.
pub proof fn lemma_ack_retires_exactly(st: ChannelModel, s: u16, seed: u32)
    ensures
        ({
            let after_all = spec_process_packet(st, PacketModel::AckAll { sequence: s }, seed);
            &&& after_all.send_queue.len() == st.send_queue.len()
            &&& forall|i: int|
                0 <= i < st.send_queue.len() ==> (#[trigger] after_all.send_queue[i]).packet
                    == st.send_queue[i].packet && after_all.send_queue[i].needs_send == (
                st.send_queue[i].needs_send && !(spec_sequence_number(st.send_queue[i].packet)
                    matches Some(p) && spec_should_client_ack(
                    st.recency_limit,
                    st.next_server_sequence,
                    s,
                    p,
                )))
        }),
        ({
            let after_one = spec_process_packet(st, PacketModel::Ack { sequence: s }, seed);
            if spec_should_client_ack(
                st.recency_limit,
                st.next_server_sequence,
                wrap_sub(st.next_server_sequence, 1),
                s,
            ) {
                &&& after_one.send_queue.len() == st.send_queue.len()
                &&& forall|i: int|
                    0 <= i < st.send_queue.len() ==> (#[trigger] after_one.send_queue[i]).packet
                        == st.send_queue[i].packet && after_one.send_queue[i].needs_send == (
                    st.send_queue[i].needs_send && spec_sequence_number(st.send_queue[i].packet)
                        != Some(s))
            } else {
                after_one == st
            }
        }),
{
    let after_all = spec_process_packet(st, PacketModel::AckAll { sequence: s }, seed);
    assert forall|i: int| 0 <= i < st.send_queue.len() implies (
    #[trigger] after_all.send_queue[i]).packet == st.send_queue[i].packet
        && after_all.send_queue[i].needs_send == (st.send_queue[i].needs_send && !(
    spec_sequence_number(st.send_queue[i].packet) matches Some(p) && spec_should_client_ack(
        st.recency_limit,
        st.next_server_sequence,
        s,
        p,
    ))) by {
        assert(after_all.send_queue[i] == spec_mark_acked_all(
            st.send_queue,
            st.recency_limit,
            st.next_server_sequence,
            s,
        )[i]);
        if !st.send_queue[i].needs_send {
            assert(after_all.send_queue[i].needs_send == false);
        }
    }
    let after_one = spec_process_packet(st, PacketModel::Ack { sequence: s }, seed);
    if spec_should_client_ack(
        st.recency_limit,
        st.next_server_sequence,
        wrap_sub(st.next_server_sequence, 1),
        s,
    ) {
        assert forall|i: int| 0 <= i < st.send_queue.len() implies (
        #[trigger] after_one.send_queue[i]).packet == st.send_queue[i].packet
            && after_one.send_queue[i].needs_send == (st.send_queue[i].needs_send
            && spec_sequence_number(st.send_queue[i].packet) != Some(s)) by {
            assert(after_one.send_queue[i] == spec_mark_acked_one(st.send_queue, s)[i]);
            if !st.send_queue[i].needs_send {
                assert(after_one.send_queue[i].needs_send == false);
            }
        }
    }
}

/// A queued run has one entry per chunk.
pub proof fn lemma_sequenced_pending_len(frags: Seq<DataPacketModel>, start: u16)
    ensures
        spec_sequenced_pending(frags, start).len() == frags.len(),
    decreases frags.len(),
{
    if frags.len() > 0 {
        lemma_sequenced_pending_len(frags.skip(1), wrap_add(start, 1));
    }
}

/// Outbound chunks occupy consecutive sequence numbers with 16-bit wrap: the
/// chunk at position `i` of a queued run starting at `start` carries the
/// sequence number `(start + i) mod 2^16`, and every chunk starts out
/// needing dispatch.
pub proof fn lemma_sequenced_pending_index(frags: Seq<DataPacketModel>, start: u16, i: int)
    requires
        0 <= i < frags.len(),
    ensures
        ({
            let entry = spec_sequenced_pending(frags, start)[i];
            &&& entry.needs_send
            &&& spec_sequence_number(entry.packet) == Some((((start + i) % 0x10000) as u16))
            &&& entry.packet == (match frags[i] {
                DataPacketModel::Fragment { payload } => PacketModel::DataFragment {
                    sequence: (((start + i) % 0x10000) as u16),
                    payload,
                },
                DataPacketModel::Single { payload } => PacketModel::Data {
                    sequence: (((start + i) % 0x10000) as u16),
                    payload,
                },
            })
        }),
    decreases i,
{
    lemma_sequenced_pending_len(frags, start);
    lemma_sequenced_pending_len(frags.skip(1), wrap_add(start, 1));
    if i == 0 {
        assert(((start + 0) % 0x10000) as u16 == start);
    } else {
        lemma_sequenced_pending_index(frags.skip(1), wrap_add(start, 1), i - 1);
        assert(spec_sequenced_pending(frags, start)[i] == spec_sequenced_pending(
            frags.skip(1),
            wrap_add(start, 1),
        )[i - 1]);
        assert(frags.skip(1)[i - 1] == frags[i]);
        assert((wrap_add(start, 1) + (i - 1)) % 0x10000 == (start + i) % 0x10000);
    }
}

/// The recency window is inclusive at its upper bound and exclusive at its
/// lower bound: the number exactly `limit` ahead of the next expected one is
/// recent, the expected number itself is not, and the number `limit + 1`
/// ahead is not.
pub proof fn lemma_recency_window_bounds(n: u16, limit: u16)
    requires
        1 <= limit < 0x8000,
    ensures
        spec_recent(n, limit, wrap_add(n, limit)),
        !spec_recent(n, limit, n),
        !spec_recent(n, limit, wrap_add(n, (limit + 1) as u16)),
{
}

/// A sequenced packet that arrives again while already buffered produces no
/// delivery in its step: the reorder buffer keeps its first arrival, and one
/// more `Ack` for its number is queued, in case the peer lost the earlier
/// one.
pub proof fn lemma_duplicate_acknowledged(
    st: ChannelModel,
    count: nat,
    needs_ack: bool,
    completed: Seq<PacketModel>,
)
    requires
        count >= 1,
        st.receive_queue.len() >= 1,
        spec_sequence_number(st.receive_queue[0]) matches Some(s) && s
            != st.next_client_sequence && spec_reorder_has(st.reordered, s),
    ensures
        ({
            let s = spec_sequence_number(st.receive_queue[0])->0;
            spec_batch(st, count, needs_ack, completed) == spec_batch(
                ChannelModel {
                    receive_queue: st.receive_queue.skip(1),
                    send_queue: st.send_queue.push(
                        PendingModel {
                            needs_send: true,
                            packet: PacketModel::Ack { sequence: s },
                        },
                    ),
                    ..st
                },
                (count - 1) as nat,
                needs_ack,
                completed,
            )
        }),
{
}

/// Two sequenced data packets that arrive in the reverse of sender order,
/// the later one first but within the recency window, are both delivered in
/// one batch, in sender order: the early arrival waits in the reorder buffer
/// and follows the expected packet out.
pub proof fn lemma_reordered_pair_delivered(st: ChannelModel, p0: Seq<u8>, p1: Seq<u8>)
    requires
        spec_channel_wf(st),
        st.fragment is Idle,
        st.reordered.len() == 0,
        st.receive_queue == seq![
            PacketModel::Data { sequence: wrap_add(st.next_client_sequence, 1), payload: p1 },
            PacketModel::Data { sequence: st.next_client_sequence, payload: p0 },
        ],
    ensures
        ({
            let batch = spec_batch(st, 2, false, Seq::<PacketModel>::empty());
            &&& batch.3 is None
            &&& batch.1
            &&& batch.2 == seq![
                PacketModel::Data { sequence: st.next_client_sequence, payload: p0 },
                PacketModel::Data { sequence: wrap_add(st.next_client_sequence, 1), payload: p1 },
            ]
            &&& batch.0.next_client_sequence == wrap_add(wrap_add(st.next_client_sequence, 1), 1)
            &&& batch.0.last_server_ack == wrap_add(st.next_client_sequence, 1)
            &&& batch.0.reordered.len() == 0
            &&& batch.0.receive_queue.len() == 0
        }),
{
    let n0 = st.next_client_sequence;
    let n1 = wrap_add(n0, 1);
    let m1 = PacketModel::Data { sequence: n1, payload: p1 };
    let m0 = PacketModel::Data { sequence: n0, payload: p0 };
    assert(n1 != n0);
    assert(spec_recent(n0, st.recency_limit, n1));
    let popped1 = ChannelModel { receive_queue: st.receive_queue.skip(1), ..st };
    assert(!spec_reorder_has(popped1.reordered, n1));
    let buffered = ChannelModel { reordered: popped1.reordered.push((n1, m1)), ..popped1 };
    let acked = ChannelModel {
        send_queue: buffered.send_queue.push(
            PendingModel { needs_send: true, packet: PacketModel::Ack { sequence: n1 } },
        ),
        ..buffered
    };
    assert(spec_batch(st, 2, false, Seq::<PacketModel>::empty()) == spec_batch(
        acked,
        1,
        false,
        Seq::<PacketModel>::empty(),
    ));
    assert(acked.receive_queue == st.receive_queue.skip(1));
    assert(acked.receive_queue[0] == m0);
    let popped2 = ChannelModel { receive_queue: acked.receive_queue.skip(1), ..acked };
    let advanced = ChannelModel { last_server_ack: n0, next_client_sequence: n1, ..popped2 };
    let step = spec_fragment_add(advanced.fragment, m0);
    assert(step.0 is Idle && step.1 == Ok::<Option<PacketModel>, FragmentError>(Some(m0)));
    let fed = ChannelModel { fragment: step.0, ..advanced };
    assert(fed.reordered == Seq::<(u16, PacketModel)>::empty().push((n1, m1)));
    assert(fed.reordered[0].0 == n1 && fed.next_client_sequence == n1);
    assert(spec_reorder_has(fed.reordered, n1));
    let drained = spec_drain(fed, Seq::<PacketModel>::empty().push(m0));
    assert(spec_batch(acked, 1, false, Seq::<PacketModel>::empty()) == (match drained.2 {
        Some(e) => (drained.0, true, drained.1, Some(e)),
        None => spec_batch(drained.0, 0nat, true, drained.1),
    }));
    let idx = spec_reorder_index(fed.reordered, n1);
    assert(0 <= idx < fed.reordered.len() && fed.reordered[idx].0 == n1);
    assert(idx == 0);
    assert(spec_reorder_get(fed.reordered, n1) == m1);
    let dst1 = ChannelModel {
        reordered: spec_reorder_remove(fed.reordered, n1),
        last_server_ack: n1,
        next_client_sequence: wrap_add(n1, 1),
        ..fed
    };
    assert(dst1.reordered =~= Seq::<(u16, PacketModel)>::empty());
    let dstep = spec_fragment_add(dst1.fragment, m1);
    assert(dstep.0 is Idle && dstep.1 == Ok::<Option<PacketModel>, FragmentError>(Some(m1)));
    let dfed = ChannelModel { fragment: dstep.0, ..dst1 };
    assert(!spec_reorder_has(dfed.reordered, dfed.next_client_sequence));
    assert(drained == spec_drain(
        dfed,
        Seq::<PacketModel>::empty().push(m0).push(m1),
    ));
    assert(drained == (
        dfed,
        Seq::<PacketModel>::empty().push(m0).push(m1),
        None::<FragmentError>,
    ));
    assert(spec_batch(dfed, 0nat, true, drained.1) == (
        dfed,
        true,
        drained.1,
        None::<FragmentError>,
    ));
    assert(drained.1 =~= seq![m0, m1]);
}

} // verus!
