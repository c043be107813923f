//! Operations on reliable data payloads: splitting an outbound payload into
//! fragments sized to the buffer, reassembling an inbound fragment run, and
//! the bundling of several application payloads inside one data packet.

use vstd::prelude::*;

use crate::codec::{spec_varlen, DeserializeError, SerializeError};
use crate::packets::{Packet, PacketModel, Session};
use crate::wire::{read_u32_be, spec_u32_be, write_u16_be, write_u32_be};

verus! {

/// One outbound chunk produced by the fragmenter: either a whole payload or
/// one fragment of it.
#[derive(Debug, Clone)]
pub enum DataPacket {
    Fragment(Vec<u8>),
    Single(Vec<u8>),
}

/// The mathematical model of a chunk.
pub enum DataPacketModel {
    Fragment { payload: Seq<u8> },
    Single { payload: Seq<u8> },
}

impl View for DataPacket {
    type V = DataPacketModel;

    open spec fn view(&self) -> DataPacketModel {
        match self {
            DataPacket::Fragment(payload) => DataPacketModel::Fragment { payload: payload@ },
            DataPacket::Single(payload) => DataPacketModel::Single { payload: payload@ },
        }
    }
}

/// The models of a run of chunks.
pub open spec fn spec_dp_views(s: Seq<DataPacket>) -> Seq<DataPacketModel> {
    s.map_values(|d: DataPacket| d@)
}

/// Why a fragment run could not be reassembled.  These errors are fatal to
/// the channel: the caller is expected to disconnect.
#[derive(Copy, Clone, Debug, PartialEq, Eq, Structural)]
pub enum FragmentError {
    /// The accumulated bytes exceed the total size the first fragment
    /// declared.
    FragmentOverflow,
    /// A whole data packet arrived while a fragment run was in progress.
    FragmentInterleaved,
    /// The first fragment is too short to carry its 4-byte total size.
    FragmentTruncated,
}

/// The per-packet envelope overhead the fragmenter budgets for: opcode,
/// sequence number, the integrity tail, a compression flag where the session
/// calls for one, and one byte of multi-packet length prefix.
pub open spec fn spec_fragment_overhead(session: Option<Session>) -> int {
    5 + match session {
        Option::Some(s) => s.crc_length as int + if s.allow_compression {
            1int
        } else {
            0
        },
        Option::None => 0,
    }
}

/// The continuation fragments after the first: consecutive chunks of at most
/// `k` bytes each.
pub open spec fn spec_fragment_chunks(data: Seq<u8>, k: int) -> Seq<DataPacketModel>
    recommends
        k >= 1,
    decreases data.len(),
{
    if k < 1 || data.len() == 0 {
        Seq::<DataPacketModel>::empty()
    } else if data.len() <= k {
        seq![DataPacketModel::Fragment { payload: data }]
    } else {
        seq![DataPacketModel::Fragment { payload: data.take(k) }] + spec_fragment_chunks(
            data.skip(k),
            k,
        )
    }
}

/// What the fragmenter produces for a payload and a usable chunk size `k`:
/// the whole payload if it fits, else a fragment run whose first fragment
/// carries the 4-byte total size and `k - 4` payload bytes.
pub open spec fn spec_fragment_data(data: Seq<u8>, k: int) -> Seq<DataPacketModel>
    recommends
        k >= 5,
{
    if data.len() <= k {
        seq![DataPacketModel::Single { payload: data }]
    } else {
        seq![
            DataPacketModel::Fragment { payload: spec_u32_be(data.len() as u32) + data.take(k - 4) },
        ] + spec_fragment_chunks(data.skip(k - 4), k)
    }
}

/// Splits an outbound payload into chunks such that each chunk plus its
/// envelope fits the negotiated buffer size.  Fails exactly when the buffer
/// cannot make progress: it must fit one payload byte beyond the envelope,
/// and the 4-byte total size beside it when the payload needs fragmenting.
pub fn fragment_data(buffer_size: u32, session: &Option<Session>, data: Vec<u8>) -> (r: Result<
    Vec<DataPacket>,
    SerializeError,
>)
    requires
        data@.len() <= 0xFFFF_FFFF,
    ensures
        ({
            let k = buffer_size - spec_fragment_overhead(*session);
            &&& (r is Err <==> (k < 1 || (data@.len() > k && k < 5)))
            &&& (r matches Ok(out) ==> spec_dp_views(out@) == spec_fragment_data(data@, k))
        }),
{
    let ghost k = buffer_size - spec_fragment_overhead(*session);
    let overhead: u64 = 5 + match session {
        Some(s) => s.crc_length as u64 + if s.allow_compression {
            1
        } else {
            0
        },
        None => 0,
    };
    if (buffer_size as u64) <= overhead {
        return Err(SerializeError::BufferTooSmall);
    }
    let usable: usize = (buffer_size as u64 - overhead) as usize;
    proof {
        assert(usable == k);
    }
    let total: usize = data.len();
    if total <= usable {
        let mut out: Vec<DataPacket> = Vec::new();
        let ghost payload = data@;
        out.push(DataPacket::Single(data));
        proof {
            assert(spec_dp_views(out@) =~= spec_fragment_data(payload, k));
        }
        return Ok(out);
    }
    if usable < 5 {
        return Err(SerializeError::BufferTooSmall);
    }
    let mut out: Vec<DataPacket> = Vec::new();
    let mut first: Vec<u8> = Vec::new();
    write_u32_be(&mut first, total as u32);
    let head_len: usize = usable - 4;
    let mut i: usize = 0;
    proof {
        assert(first@ =~= spec_u32_be(total as u32) + data@.take(0));
    }
    while i < head_len
        invariant
            i <= head_len <= total == data@.len(),
            first@ == spec_u32_be(total as u32) + data@.take(i as int),
        decreases head_len - i,
    {
        first.push(data[i]);
        proof {
            assert(first@ =~= spec_u32_be(total as u32) + data@.take(i as int + 1));
        }
        i = i + 1;
    }
    let ghost target = spec_fragment_data(data@, k);
    out.push(DataPacket::Fragment(first));
    let mut pos: usize = head_len;
    proof {
        assert(spec_dp_views(out@) + spec_fragment_chunks(data@.skip(pos as int), k) =~= target);
    }
    while pos < total
        invariant
            head_len <= pos <= total == data@.len(),
            1 <= usable == k,
            target == spec_fragment_data(data@, k),
            spec_dp_views(out@) + spec_fragment_chunks(data@.skip(pos as int), k) == target,
        decreases total - pos,
    {
        let ghost remaining = data@.skip(pos as int);
        let ghost built = spec_dp_views(out@);
        let end: usize = if total - pos > usable {
            pos + usable
        } else {
            total
        };
        let chunk = crate::codec::vec_subrange(&data, pos, end);
        proof {
            if total - pos > usable {
                assert(chunk@ =~= remaining.take(k));
                assert(data@.skip(end as int) =~= remaining.skip(k));
            } else {
                assert(chunk@ =~= remaining);
                assert(remaining.len() <= k);
            }
        }
        out.push(DataPacket::Fragment(chunk));
        proof {
            assert(spec_dp_views(out@) =~= built.push(
                DataPacketModel::Fragment { payload: chunk@ },
            ));
            if total - pos > usable {
                assert(spec_fragment_chunks(remaining, k) == seq![
                    DataPacketModel::Fragment { payload: remaining.take(k) },
                ] + spec_fragment_chunks(remaining.skip(k), k));
                assert(spec_dp_views(out@) + spec_fragment_chunks(data@.skip(end as int), k)
                    =~= built + spec_fragment_chunks(remaining, k));
            } else {
                assert(data@.skip(end as int).len() == 0);
                assert(spec_fragment_chunks(data@.skip(end as int), k) == Seq::<
                    DataPacketModel,
                >::empty());
                assert(spec_dp_views(out@) + spec_fragment_chunks(data@.skip(end as int), k)
                    =~= built + spec_fragment_chunks(remaining, k));
            }
        }
        pos = end;
    }
    proof {
        assert(data@.skip(total as int).len() == 0);
        assert(spec_fragment_chunks(data@.skip(total as int), k) == Seq::<
            DataPacketModel,
        >::empty());
        assert(spec_dp_views(out@) =~= target);
    }
    Ok(out)
}

/// The payload a chunk model carries.
pub open spec fn spec_dp_payload(m: DataPacketModel) -> Seq<u8> {
    match m {
        DataPacketModel::Fragment { payload } => payload,
        DataPacketModel::Single { payload } => payload,
    }
}

/// The concatenation of the payloads of a run of chunks.
pub open spec fn spec_payload_concat(s: Seq<DataPacketModel>) -> Seq<u8>
    decreases s.len(),
{
    if s.len() == 0 {
        Seq::<u8>::empty()
    } else {
        spec_dp_payload(s[0]) + spec_payload_concat(s.skip(1))
    }
}

/// The continuation chunks carry the data in order, and their number is the
/// number of `k`-sized chunks the data fills, the last possibly partial.
proof fn lemma_chunks_props(data: Seq<u8>, k: int)
    requires
        k >= 1,
    ensures
        spec_payload_concat(spec_fragment_chunks(data, k)) == data,
        data.len() == 0 ==> spec_fragment_chunks(data, k).len() == 0,
        data.len() >= 1 ==> (spec_fragment_chunks(data, k).len() - 1) * k < data.len()
            <= spec_fragment_chunks(data, k).len() * k,
        forall|i: int|
            0 <= i < spec_fragment_chunks(data, k).len() ==> #[trigger] spec_fragment_chunks(
                data,
                k,
            )[i] is Fragment,
    decreases data.len(),
{
    let cs = spec_fragment_chunks(data, k);
    if data.len() == 0 {
        assert(spec_payload_concat(cs) =~= data);
    } else if data.len() <= k {
        assert(cs.skip(1).len() == 0);
        assert(spec_payload_concat(cs.skip(1)) == Seq::<u8>::empty());
        assert(spec_payload_concat(cs) =~= data);
        assert((cs.len() - 1) * k == 0) by (nonlinear_arith)
            requires
                cs.len() == 1,
        ;
    } else {
        lemma_chunks_props(data.skip(k), k);
        let tail = spec_fragment_chunks(data.skip(k), k);
        assert(cs[0] == (DataPacketModel::Fragment { payload: data.take(k) }));
        assert(cs.skip(1) =~= tail);
        assert(spec_payload_concat(cs) == data.take(k) + spec_payload_concat(tail));
        assert(data.take(k) + data.skip(k) =~= data);
        assert(data.skip(k).len() >= 1);
        assert((tail.len() - 1) * k < data.len() - k <= tail.len() * k);
        assert(cs.len() == tail.len() + 1);
        assert((cs.len() - 1) * k == (tail.len() - 1) * k + k) by (nonlinear_arith)
            requires
                cs.len() == tail.len() + 1,
        ;
        assert(cs.len() * k == tail.len() * k + k) by (nonlinear_arith)
            requires
                cs.len() == tail.len() + 1,
        ;
    }
}

/// Reassembling the fragmenter's output: stripping the 4-byte total from the
/// first fragment and concatenating every fragment payload yields the
/// original data, and the number of fragments is the least that fits the
/// data plus its 4-byte total size header into `k`-byte chunks.
pub proof fn lemma_fragmentation_reconstructs(data: Seq<u8>, k: int)
    requires
        k >= 5,
        data.len() > k,
        data.len() <= 0xFFFF_FFFF,
    ensures
        ({
            let frags = spec_fragment_data(data, k);
            &&& frags.len() >= 2
            &&& forall|i: int| 0 <= i < frags.len() ==> frags[i] is Fragment
            &&& spec_dp_payload(frags[0]).take(4) == spec_u32_be(data.len() as u32)
            &&& spec_dp_payload(frags[0]).skip(4) + spec_payload_concat(frags.skip(1)) == data
            &&& (frags.len() - 1) * k < data.len() + 4 <= frags.len() * k
        }),
{
    let frags = spec_fragment_data(data, k);
    let head = spec_u32_be(data.len() as u32) + data.take(k - 4);
    let tail = spec_fragment_chunks(data.skip(k - 4), k);
    assert(frags[0] == (DataPacketModel::Fragment { payload: head }));
    assert(frags.skip(1) =~= tail);
    assert(spec_dp_payload(frags[0]).take(4) =~= spec_u32_be(data.len() as u32));
    assert(spec_dp_payload(frags[0]).skip(4) =~= data.take(k - 4));
    lemma_chunks_props(data.skip(k - 4), k);
    assert(data.take(k - 4) + data.skip(k - 4) =~= data);
    assert(data.skip(k - 4).len() >= 1);
    assert(forall|i: int| 1 <= i < frags.len() ==> #[trigger] frags[i] == tail[i - 1]);
    assert((frags.len() - 1) * k == (tail.len() - 1) * k + k) by (nonlinear_arith)
        requires
            frags.len() == tail.len() + 1,
    ;
    assert(frags.len() * k == tail.len() * k + k) by (nonlinear_arith)
        requires
            frags.len() == tail.len() + 1,
    ;
}

/// On payloads whose final chunk keeps at least four bytes free, the number
/// of fragments is exactly the number of `k`-byte chunks the payload alone
/// fills, rounded up.  (When the payload's last chunk leaves fewer than four
/// bytes over, the 4-byte total size header spills into one extra fragment.)
pub proof fn lemma_fragment_count_ceiling(data: Seq<u8>, k: int)
    requires
        k >= 5,
        data.len() > k,
        data.len() <= 0xFFFF_FFFF,
        1 <= (data.len() as int) % k <= k - 4,
    ensures
        spec_fragment_data(data, k).len() == (data.len() + k - 1) / k,
{
    lemma_fragmentation_reconstructs(data, k);
    let n = spec_fragment_data(data, k).len() as int;
    let m = data.len() as int;
    assert((n - 1) * k < m + 4 <= n * k);
    assert(n == (m + k - 1) / k) by (nonlinear_arith)
        requires
            k >= 5,
            m > k,
            1 <= m % k <= k - 4,
            (n - 1) * k < m + 4 <= n * k,
    ;
}

/// The in-progress reassembly of a fragment run.
#[derive(Debug, Clone)]
pub struct FragmentState {
    /// Whether a run is in progress.
    pub active: bool,
    /// The total payload size the first fragment declared.
    pub total_size: u32,
    /// The payload bytes collected so far, first fragment's header stripped.
    pub collected: Vec<u8>,
    /// The sequence number of the first fragment of the run.
    pub first_sequence: u16,
}

/// The mathematical model of the reassembly state.
pub enum FragmentModel {
    Idle,
    Active { total: u32, collected: Seq<u8>, first: u16 },
}

impl View for FragmentState {
    type V = FragmentModel;

    open spec fn view(&self) -> FragmentModel {
        if self.active {
            FragmentModel::Active {
                total: self.total_size,
                collected: self.collected@,
                first: self.first_sequence,
            }
        } else {
            FragmentModel::Idle
        }
    }
}

/// A reassembly state is well formed when an active run has room left; a run
/// that reaches its total is emitted at once and never stays stored.
pub open spec fn spec_fragment_state_wf(st: FragmentModel) -> bool {
    st matches FragmentModel::Active { total, collected, .. } ==> collected.len() < total
}

/// What feeding one packet to the reassembler does: the new state, and
/// either the packet to hand on (a whole `Data`, a completed run, or any
/// non-sequenced packet passed through), nothing (the run grew), or a fatal
/// error (on which the run is abandoned).
pub open spec fn spec_fragment_add(st: FragmentModel, m: PacketModel) -> (FragmentModel, Result<
    Option<PacketModel>,
    FragmentError,
>) {
    match m {
        PacketModel::Data { .. } => {
            if st is Active {
                (FragmentModel::Idle, Err(FragmentError::FragmentInterleaved))
            } else {
                (FragmentModel::Idle, Ok(Some(m)))
            }
        },
        PacketModel::DataFragment { sequence, payload } => {
            match st {
                FragmentModel::Idle => {
                    if payload.len() < 4 {
                        (FragmentModel::Idle, Err(FragmentError::FragmentTruncated))
                    } else {
                        let total = crate::codec::spec_read_u32(payload, 0);
                        let body = payload.skip(4);
                        if body.len() > total {
                            (FragmentModel::Idle, Err(FragmentError::FragmentOverflow))
                        } else if body.len() == total {
                            (
                                FragmentModel::Idle,
                                Ok(Some(PacketModel::Data { sequence, payload: body })),
                            )
                        } else {
                            (
                                FragmentModel::Active { total, collected: body, first: sequence },
                                Ok(None),
                            )
                        }
                    }
                },
                FragmentModel::Active { total, collected, first } => {
                    let grown = collected + payload;
                    if grown.len() > total {
                        (FragmentModel::Idle, Err(FragmentError::FragmentOverflow))
                    } else if grown.len() == total {
                        (
                            FragmentModel::Idle,
                            Ok(Some(PacketModel::Data { sequence: first, payload: grown })),
                        )
                    } else {
                        (FragmentModel::Active { total, collected: grown, first }, Ok(None))
                    }
                },
            }
        },
        _ => (st, Ok(Some(m))),
    }
}

impl FragmentState {
    /// A reassembler with no run in progress.
    pub fn new() -> (r: FragmentState)
        ensures
            r@ == FragmentModel::Idle,
    {
        FragmentState { active: false, total_size: 0, collected: Vec::new(), first_sequence: 0 }
    }

    /// Feeds one packet through the reassembler, as `spec_fragment_add`
    /// says: a whole `Data` packet or a non-sequenced packet passes through,
    /// a `DataFragment` grows the run, and a completed run is emitted as a
    /// single `Data` packet carrying the run's first sequence number.
    pub fn add(&mut self, packet: Packet) -> (r: Result<Option<Packet>, FragmentError>)
        requires
            spec_fragment_state_wf(old(self)@),
        ensures
            spec_fragment_state_wf(final(self)@),
            final(self)@ == spec_fragment_add(old(self)@, packet@).0,
            ({
                let expected = spec_fragment_add(old(self)@, packet@).1;
                match r {
                    Ok(Option::Some(p)) => expected == Ok::<Option<PacketModel>, FragmentError>(
                        Some(p@),
                    ),
                    Ok(Option::None) => expected == Ok::<Option<PacketModel>, FragmentError>(None),
                    Err(e) => expected == Err::<Option<PacketModel>, FragmentError>(e),
                }
            }),
    {
        match packet {
            Packet::Data(sequence, payload) => {
                if self.active {
                    self.active = false;
                    self.collected = Vec::new();
                    Err(FragmentError::FragmentInterleaved)
                } else {
                    Ok(Some(Packet::Data(sequence, payload)))
                }
            },
            Packet::DataFragment(sequence, payload) => {
                if !self.active {
                    let n: usize = payload.len();
                    if n < 4 {
                        return Err(FragmentError::FragmentTruncated);
                    }
                    let total = read_u32_be(&payload, 0);
                    let body = crate::codec::vec_subrange(&payload, 4, n);
                    proof {
                        assert(body@ =~= payload@.skip(4));
                    }
                    if body.len() as u64 > total as u64 {
                        return Err(FragmentError::FragmentOverflow);
                    }
                    if body.len() as u64 == total as u64 {
                        return Ok(Some(Packet::Data(sequence, body)));
                    }
                    self.active = true;
                    self.total_size = total;
                    self.collected = body;
                    self.first_sequence = sequence;
                    Ok(None)
                } else {
                    let mut incoming = payload;
                    let ghost grown = self.collected@ + incoming@;
                    self.collected.append(&mut incoming);
                    proof {
                        assert(self.collected@ == grown);
                    }
                    if self.collected.len() as u64 > self.total_size as u64 {
                        self.active = false;
                        self.collected = Vec::new();
                        return Err(FragmentError::FragmentOverflow);
                    }
                    if self.collected.len() as u64 == self.total_size as u64 {
                        self.active = false;
                        let mut done: Vec<u8> = Vec::new();
                        core::mem::swap(&mut done, &mut self.collected);
                        return Ok(Some(Packet::Data(self.first_sequence, done)));
                    }
                    Ok(None)
                }
            },
            other => Ok(Some(other)),
        }
    }
}

/// The run of length-prefixed payloads inside a bundle.
pub open spec fn spec_bundle_entries(items: Seq<Seq<u8>>) -> Seq<u8>
    decreases items.len(),
{
    if items.len() == 0 {
        Seq::<u8>::empty()
    } else {
        spec_varlen(items[0].len() as int) + items[0] + spec_bundle_entries(items.skip(1))
    }
}

/// The bundled form of a list of payloads: the sentinel bytes 0x00 0x19,
/// then each payload behind the same 1-or-3-byte length prefix the
/// multi-packet uses.
pub open spec fn spec_bundle(items: Seq<Seq<u8>>) -> Seq<u8> {
    seq![0u8, 0x19u8] + spec_bundle_entries(items)
}

/// Parses the run of length-prefixed payloads after the sentinel.
pub open spec fn spec_parse_bundle_entries(rest: Seq<u8>) -> Result<Seq<Seq<u8>>, DeserializeError>
    decreases rest.len(),
{
    if rest.len() == 0 {
        Ok(Seq::<Seq<u8>>::empty())
    } else if rest[0] == 0xFF && rest.len() < 3 {
        Err(DeserializeError::TruncatedPacket)
    } else {
        let hdr: int = if rest[0] < 0xFF {
            1
        } else {
            3
        };
        let l: int = if rest[0] < 0xFF {
            rest[0] as int
        } else {
            crate::codec::spec_read_u16(rest, 1) as int
        };
        if rest.len() < hdr + l {
            Err(DeserializeError::TruncatedPacket)
        } else {
            match spec_parse_bundle_entries(rest.skip(hdr + l)) {
                Err(e) => Err(e),
                Ok(t) => Ok(seq![rest.subrange(hdr, hdr + l)] + t),
            }
        }
    }
}

/// What a data payload holds for the application: several payloads when it
/// begins with the bundle sentinel, else the payload itself, alone.
pub open spec fn spec_unbundle(d: Seq<u8>) -> Result<Seq<Seq<u8>>, DeserializeError> {
    if d.len() >= 2 && d[0] == 0 && d[1] == 0x19 {
        spec_parse_bundle_entries(d.skip(2))
    } else {
        Ok(seq![d])
    }
}

/// Appending a payload to a bundle appends its entry to the entry run.
proof fn lemma_bundle_entries_push(items: Seq<Seq<u8>>, x: Seq<u8>)
    ensures
        spec_bundle_entries(items.push(x)) == spec_bundle_entries(items) + spec_varlen(
            x.len() as int,
        ) + x,
    decreases items.len(),
{
    if items.len() == 0 {
        assert(items.push(x)[0] == x);
        assert(items.push(x).skip(1).len() == 0);
        assert(spec_bundle_entries(items.push(x).skip(1)) == Seq::<u8>::empty());
        assert(spec_bundle_entries(items.push(x)) == spec_varlen(x.len() as int) + x + Seq::<
            u8,
        >::empty());
        assert(spec_bundle_entries(items).len() == 0);
        assert(spec_bundle_entries(items.push(x)) =~= spec_bundle_entries(items) + spec_varlen(
            x.len() as int,
        ) + x);
    } else {
        assert(items.push(x)[0] == items[0]);
        assert(items.push(x).skip(1) =~= items.skip(1).push(x));
        lemma_bundle_entries_push(items.skip(1), x);
        assert(spec_bundle_entries(items.push(x)) =~= spec_bundle_entries(items) + spec_varlen(
            x.len() as int,
        ) + x);
    }
}

/// The entry run of a bundle parses back to the bundled payloads.
proof fn lemma_bundle_entries_parse(items: Seq<Seq<u8>>)
    requires
        forall|i: int| 0 <= i < items.len() ==> (#[trigger] items[i]).len() <= 0xFFFF,
    ensures
        spec_parse_bundle_entries(spec_bundle_entries(items)) == Ok::<
            Seq<Seq<u8>>,
            DeserializeError,
        >(items),
    decreases items.len(),
{
    if items.len() == 0 {
        assert(spec_bundle_entries(items).len() == 0);
        assert(items =~= Seq::<Seq<u8>>::empty());
    } else {
        let x = items[0];
        let l = x.len() as int;
        let entries = spec_bundle_entries(items);
        let hdr: int = if l < 0xFF {
            1
        } else {
            3
        };
        if l < 0xFF {
            assert(entries[0] == l as u8);
        } else {
            assert(entries[0] == 0xFFu8);
            assert(entries.len() >= 3);
            assert(entries[1] == crate::wire::spec_u16_be(l as u16)[0]);
            assert(entries[2] == crate::wire::spec_u16_be(l as u16)[1]);
            assert(crate::codec::spec_read_u16(entries, 1) == l as u16) by {
                crate::wire::lemma_u16_be_round_trip(l as u16);
            }
        }
        assert(entries.len() >= hdr + l);
        assert(entries.subrange(hdr, hdr + l) =~= x);
        assert(entries.skip(hdr + l) =~= spec_bundle_entries(items.skip(1)));
        assert(forall|i: int|
            0 <= i < items.skip(1).len() ==> (#[trigger] items.skip(1)[i]).len() <= 0xFFFF);
        lemma_bundle_entries_parse(items.skip(1));
        assert(seq![x] + items.skip(1) =~= items);
    }
}

/// Bundle round trip: unbundling a bundle yields the bundled payloads, and a
/// payload that does not begin with the sentinel unbundles to itself alone.
pub proof fn lemma_bundle_round_trip(items: Seq<Seq<u8>>, other: Seq<u8>)
    requires
        forall|i: int| 0 <= i < items.len() ==> (#[trigger] items[i]).len() <= 0xFFFF,
        !(other.len() >= 2 && other[0] == 0 && other[1] == 0x19),
    ensures
        spec_unbundle(spec_bundle(items)) == Ok::<Seq<Seq<u8>>, DeserializeError>(items),
        spec_unbundle(other) == Ok::<Seq<Seq<u8>>, DeserializeError>(seq![other]),
{
    let b = spec_bundle(items);
    assert(b.len() >= 2 && b[0] == 0 && b[1] == 0x19);
    assert(b.skip(2) =~= spec_bundle_entries(items));
    lemma_bundle_entries_parse(items);
}

/// Bundles a list of application payloads into one data payload.
pub fn bundle_reliable_data(items: &Vec<Vec<u8>>) -> (r: Vec<u8>)
    requires
        forall|i: int| 0 <= i < items@.len() ==> (#[trigger] items@[i]@).len() <= 0xFFFF,
    ensures
        r@ == spec_bundle(crate::codec::spec_datagram_views(items@)),
{
    let mut out: Vec<u8> = Vec::new();
    out.push(0u8);
    out.push(0x19u8);
    let n: usize = items.len();
    let mut i: usize = 0;
    proof {
        assert(crate::codec::spec_datagram_views(items@).take(0).len() == 0);
        assert(spec_bundle_entries(crate::codec::spec_datagram_views(items@).take(0)) == Seq::<
            u8,
        >::empty());
        assert(out@ =~= seq![0u8, 0x19u8] + spec_bundle_entries(
            crate::codec::spec_datagram_views(items@).take(0),
        ));
    }
    while i < n
        invariant
            i <= n == items@.len(),
            forall|j: int| 0 <= j < items@.len() ==> (#[trigger] items@[j]@).len() <= 0xFFFF,
            out@ == seq![0u8, 0x19u8] + spec_bundle_entries(
                crate::codec::spec_datagram_views(items@).take(i as int),
            ),
        decreases n - i,
    {
        let ghost views = crate::codec::spec_datagram_views(items@);
        let ghost sofar = views.take(i as int);
        let item = &items[i];
        let blen: usize = item.len();
        if blen < 0xFF {
            out.push(blen as u8);
            proof {
                assert(spec_varlen(blen as int) =~= seq![blen as u8]);
            }
        } else {
            out.push(0xFF);
            write_u16_be(&mut out, blen as u16);
            proof {
                assert(spec_varlen(blen as int) =~= seq![0xFFu8] + crate::wire::spec_u16_be(
                    blen as u16,
                ));
            }
        }
        let mut copied = crate::codec::vec_subrange(item, 0, blen);
        proof {
            assert(copied@ =~= item@);
        }
        out.append(&mut copied);
        proof {
            assert(views.take(i as int + 1) =~= sofar.push(items@[i as int]@));
            lemma_bundle_entries_push(sofar, items@[i as int]@);
            assert(out@ =~= seq![0u8, 0x19u8] + spec_bundle_entries(views.take(i as int + 1)));
        }
        i = i + 1;
    }
    proof {
        assert(crate::codec::spec_datagram_views(items@).take(n as int)
            =~= crate::codec::spec_datagram_views(items@));
    }
    out
}

/// Splits a data payload into the application payloads it carries: several
/// when it begins with the bundle sentinel, else the payload itself, alone.
#[verifier::rlimit(50)]
pub fn unbundle_reliable_data(data: &Vec<u8>) -> (r: Result<Vec<Vec<u8>>, DeserializeError>)
    ensures
        r matches Ok(out) ==> spec_unbundle(data@) == Ok::<Seq<Seq<u8>>, DeserializeError>(
            crate::codec::spec_datagram_views(out@),
        ),
        r matches Err(e) ==> spec_unbundle(data@) == Err::<Seq<Seq<u8>>, DeserializeError>(e),
{
    let n: usize = data.len();
    if !(n >= 2 && data[0] == 0 && data[1] == 0x19) {
        let whole = crate::codec::vec_subrange(data, 0, n);
        let mut out: Vec<Vec<u8>> = Vec::new();
        out.push(whole);
        proof {
            assert(whole@ =~= data@);
            assert(crate::codec::spec_datagram_views(out@) =~= seq![data@]);
        }
        return Ok(out);
    }
    let ghost orig = data@.skip(2);
    let mut pos: usize = 2;
    let mut acc: Vec<Vec<u8>> = Vec::new();
    while pos < n
        invariant
            2 <= pos <= n == data@.len(),
            data@[0] == 0 && data@[1] == 0x19,
            orig == data@.skip(2),
            forall|t: Seq<Seq<u8>>|
                spec_parse_bundle_entries(data@.skip(pos as int)) == Ok::<
                    Seq<Seq<u8>>,
                    DeserializeError,
                >(t) ==> spec_parse_bundle_entries(orig) == Ok::<Seq<Seq<u8>>, DeserializeError>(
                    crate::codec::spec_datagram_views(acc@) + t,
                ),
            forall|e: DeserializeError|
                spec_parse_bundle_entries(data@.skip(pos as int)) == Err::<Seq<Seq<u8>>,
                DeserializeError>(e) ==> spec_parse_bundle_entries(orig) == Err::<
                    Seq<Seq<u8>>,
                    DeserializeError,
                >(e),
        decreases n - pos,
    {
        let ghost rest = data@.skip(pos as int);
        proof {
            assert(rest.len() == n - pos);
            assert(forall|i: int| 0 <= i < rest.len() ==> rest[i] == data@[pos + i]);
        }
        let first = data[pos];
        let hdr: usize;
        let l: usize;
        if first < 0xFF {
            hdr = 1;
            l = first as usize;
        } else {
            if n - pos < 3 {
                proof {
                    assert(rest[0] == 0xFF && rest.len() < 3);
                    assert(spec_parse_bundle_entries(rest) == Err::<Seq<Seq<u8>>,
                    DeserializeError>(DeserializeError::TruncatedPacket));
                }
                return Err(DeserializeError::TruncatedPacket);
            }
            hdr = 3;
            l = crate::wire::read_u16_be(data, pos + 1) as usize;
            proof {
                assert(crate::codec::spec_read_u16(rest, 1) == crate::wire::spec_u16_from_be(
                    data@[pos + 1],
                    data@[pos + 2],
                ));
            }
        }
        if n - pos - hdr < l {
            proof {
                assert(rest.len() < hdr + l);
                assert(spec_parse_bundle_entries(rest) == Err::<Seq<Seq<u8>>, DeserializeError>(
                    DeserializeError::TruncatedPacket,
                ));
            }
            return Err(DeserializeError::TruncatedPacket);
        }
        let chunk = crate::codec::vec_subrange(data, pos + hdr, pos + hdr + l);
        let ghost acc_before = crate::codec::spec_datagram_views(acc@);
        let ghost nr = rest.skip(hdr as int + l as int);
        acc.push(chunk);
        proof {
            assert(chunk@ =~= rest.subrange(hdr as int, hdr as int + l as int));
            assert(crate::codec::spec_datagram_views(acc@) =~= acc_before + seq![chunk@]);
            assert(data@.skip((pos + hdr + l) as int) =~= nr);
            assert forall|t: Seq<Seq<u8>>|
                spec_parse_bundle_entries(nr) == Ok::<Seq<Seq<u8>>, DeserializeError>(t)
                implies spec_parse_bundle_entries(orig) == Ok::<Seq<Seq<u8>>, DeserializeError>(
                crate::codec::spec_datagram_views(acc@) + t,
            ) by {
                assert(spec_parse_bundle_entries(rest) == Ok::<Seq<Seq<u8>>, DeserializeError>(
                    seq![chunk@] + t,
                ));
                assert(acc_before + (seq![chunk@] + t) =~= crate::codec::spec_datagram_views(acc@)
                    + t);
            }
            assert forall|e: DeserializeError|
                spec_parse_bundle_entries(nr) == Err::<Seq<Seq<u8>>, DeserializeError>(e)
                implies spec_parse_bundle_entries(orig) == Err::<Seq<Seq<u8>>, DeserializeError>(
                e,
            ) by {
                assert(spec_parse_bundle_entries(rest) == Err::<Seq<Seq<u8>>, DeserializeError>(e));
            }
        }
        pos = pos + hdr + l;
    }
    proof {
        assert(data@.skip(n as int) =~= Seq::<u8>::empty());
        assert(crate::codec::spec_datagram_views(acc@) + Seq::<Seq<u8>>::empty()
            =~= crate::codec::spec_datagram_views(acc@));
    }
    Ok(acc)
}

} // verus!
