//! Mount packets: riding, dismounting, and mount spawning.

use vstd::prelude::*;

use crate::game_packet::{spec_op_code_value, OpCode};
use crate::wire::{spec_u16_le, spec_u32_le, spec_u64_le, write_u16_le, write_u32_le, write_u64_le};

verus! {

#[derive(Copy, Clone, Debug, PartialEq, Eq, Structural)]
pub enum MountOpCode {
    MountRequest,
    MountReply,
    DismountRequest,
    DismountReply,
    MountList,
    MountSpawn,
    MountSpawnByItemDef,
    MountListShowMarket,
    SetAutoMount,
}

/// The wire value of each code.
pub open spec fn spec_mount_op_code_value(op: MountOpCode) -> u8 {
    match op {
        MountOpCode::MountRequest => 0x1,
        MountOpCode::MountReply => 0x2,
        MountOpCode::DismountRequest => 0x3,
        MountOpCode::DismountReply => 0x4,
        MountOpCode::MountList => 0x5,
        MountOpCode::MountSpawn => 0x6,
        MountOpCode::MountSpawnByItemDef => 0x8,
        MountOpCode::MountListShowMarket => 0x9,
        MountOpCode::SetAutoMount => 0xa,
    }
}

impl MountOpCode {
    /// The wire value of this code.
    pub fn value(&self) -> (r: u8)
        ensures
            r == spec_mount_op_code_value(*self),
    {
        match self {
            MountOpCode::MountRequest => 0x1,
            MountOpCode::MountReply => 0x2,
            MountOpCode::DismountRequest => 0x3,
            MountOpCode::DismountReply => 0x4,
            MountOpCode::MountList => 0x5,
            MountOpCode::MountSpawn => 0x6,
            MountOpCode::MountSpawnByItemDef => 0x8,
            MountOpCode::MountListShowMarket => 0x9,
            MountOpCode::SetAutoMount => 0xa,
        }
    }
}

/// The mount code an 8-bit value stands for, if any.
pub open spec fn spec_mount_op_code_from_value(value: u8) -> Option<MountOpCode> {
    match value {
        0x1 => Some(MountOpCode::MountRequest),
        0x2 => Some(MountOpCode::MountReply),
        0x3 => Some(MountOpCode::DismountRequest),
        0x4 => Some(MountOpCode::DismountReply),
        0x5 => Some(MountOpCode::MountList),
        0x6 => Some(MountOpCode::MountSpawn),
        0x8 => Some(MountOpCode::MountSpawnByItemDef),
        0x9 => Some(MountOpCode::MountListShowMarket),
        0xa => Some(MountOpCode::SetAutoMount),
        _ => None,
    }
}

impl MountOpCode {
    /// The mount code a wire value stands for, if any.
    pub fn from_value(value: u8) -> (r: Option<MountOpCode>)
        ensures
            r == spec_mount_op_code_from_value(value),
    {
        match value {
            0x1 => Some(MountOpCode::MountRequest),
            0x2 => Some(MountOpCode::MountReply),
            0x3 => Some(MountOpCode::DismountRequest),
            0x4 => Some(MountOpCode::DismountReply),
            0x5 => Some(MountOpCode::MountList),
            0x6 => Some(MountOpCode::MountSpawn),
            0x8 => Some(MountOpCode::MountSpawnByItemDef),
            0x9 => Some(MountOpCode::MountListShowMarket),
            0xa => Some(MountOpCode::SetAutoMount),
            _ => None,
        }
    }

    /// Appends the full opcode header: the mount opcode, 16-bit
    /// little-endian, then this sub-opcode as one byte.
    pub fn serialize(&self, buffer: &mut Vec<u8>)
        ensures
            final(buffer)@ == old(buffer)@ + spec_u16_le(spec_op_code_value(OpCode::Mount))
                + seq![spec_mount_op_code_value(*self)],
    {
        write_u16_le(buffer, OpCode::Mount.value());
        buffer.push(self.value());
        proof {
            assert(buffer@ =~= old(buffer)@ + spec_u16_le(spec_op_code_value(OpCode::Mount))
                + seq![spec_mount_op_code_value(*self)]);
        }
    }
}

#[derive(Debug, Clone)]
pub struct DismountReply {
    pub rider_guid: u64,
    pub composite_effect: u32,
}

impl DismountReply {
    /// The serialized body of this packet: each field in order, integers
    /// little-endian, booleans one byte, strings length-prefixed.
    pub open spec fn spec_bytes(self) -> Seq<u8> {
        spec_u64_le(self.rider_guid) + spec_u32_le(self.composite_effect)
    }

    /// Appends the serialized body to `buffer`.
    pub fn serialize(&self, buffer: &mut Vec<u8>)
        ensures
            final(buffer)@ == old(buffer)@ + self.spec_bytes(),
    {
        write_u64_le(buffer, self.rider_guid);
        write_u32_le(buffer, self.composite_effect);
        proof {
            assert(buffer@ =~= old(buffer)@ + self.spec_bytes());
        }
    }
}

#[derive(Debug, Clone)]
pub struct MountReply {
    pub rider_guid: u64,
    pub mount_guid: u64,
    pub unknown1: u32,
    pub queue_pos: u32,
    pub unknown3: u32,
    pub composite_effect: u32,
    pub unknown5: u32,
}

impl MountReply {
    /// The serialized body of this packet: each field in order, integers
    /// little-endian, booleans one byte, strings length-prefixed.
    pub open spec fn spec_bytes(self) -> Seq<u8> {
        spec_u64_le(self.rider_guid) + spec_u64_le(self.mount_guid) + spec_u32_le(self.unknown1) + spec_u32_le(self.queue_pos) + spec_u32_le(self.unknown3) + spec_u32_le(self.composite_effect) + spec_u32_le(self.unknown5)
    }

    /// Appends the serialized body to `buffer`.
    pub fn serialize(&self, buffer: &mut Vec<u8>)
        ensures
            final(buffer)@ == old(buffer)@ + self.spec_bytes(),
    {
        write_u64_le(buffer, self.rider_guid);
        write_u64_le(buffer, self.mount_guid);
        write_u32_le(buffer, self.unknown1);
        write_u32_le(buffer, self.queue_pos);
        write_u32_le(buffer, self.unknown3);
        write_u32_le(buffer, self.composite_effect);
        write_u32_le(buffer, self.unknown5);
        proof {
            assert(buffer@ =~= old(buffer)@ + self.spec_bytes());
        }
    }
}

#[derive(Debug, Clone)]
pub struct MountSpawn {
    pub mount_id: u32,
}

impl MountSpawn {
    /// The serialized body of this packet: each field in order, integers
    /// little-endian, booleans one byte, strings length-prefixed.
    pub open spec fn spec_bytes(self) -> Seq<u8> {
        spec_u32_le(self.mount_id)
    }

    /// Appends the serialized body to `buffer`.
    pub fn serialize(&self, buffer: &mut Vec<u8>)
        ensures
            final(buffer)@ == old(buffer)@ + self.spec_bytes(),
    {
        write_u32_le(buffer, self.mount_id);
        proof {
            assert(buffer@ =~= old(buffer)@ + self.spec_bytes());
        }
    }
}

/// The composite identifier of a spawned mount: the mount in the high 32
/// bits, its rider in the low 32 bits.
pub fn mount_guid(character_guid: u32, mount_id: u32) -> (r: u64)
    ensures
        r == mount_id * 0x1_0000_0000 + character_guid,
{
    let r = (mount_id as u64) << 32u64 | (character_guid as u64);
    proof {
        assert(forall|m: u64, c: u64|
            m <= 0xFFFF_FFFF && c <= 0xFFFF_FFFF ==> #[trigger] (m << 32u64 | c) == m
                * 0x1_0000_0000 + c) by (bit_vector);
    }
    r
}

} // verus!
