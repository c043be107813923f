//! Client-update packets: per-player state pushed to one client.

use vstd::prelude::*;

use crate::game_packet::{spec_op_code_value, OpCode};
use crate::wire::{
    spec_string_le,
    spec_u16_le,
    spec_u32_le,
    spec_u64_le,
    write_bool,
    write_string_le,
    write_u16_le,
    write_u32_le,
    write_u64_le,
};

verus! {

#[derive(Copy, Clone, Debug, PartialEq, Eq, Structural)]
pub enum ClientUpdateOpCode {
    Health,
    AddItems,
    EquipItem,
    Position,
    Power,
    Stats,
    PreloadCharactersDone,
}

/// The wire value of each code.
pub open spec fn spec_client_update_op_code_value(op: ClientUpdateOpCode) -> u16 {
    match op {
        ClientUpdateOpCode::Health => 0x1,
        ClientUpdateOpCode::AddItems => 0x2,
        ClientUpdateOpCode::EquipItem => 0x5,
        ClientUpdateOpCode::Position => 0xc,
        ClientUpdateOpCode::Power => 0xd,
        ClientUpdateOpCode::Stats => 0x7,
        ClientUpdateOpCode::PreloadCharactersDone => 0x1a,
    }
}

impl ClientUpdateOpCode {
    /// The wire value of this code.
    pub fn value(&self) -> (r: u16)
        ensures
            r == spec_client_update_op_code_value(*self),
    {
        match self {
            ClientUpdateOpCode::Health => 0x1,
            ClientUpdateOpCode::AddItems => 0x2,
            ClientUpdateOpCode::EquipItem => 0x5,
            ClientUpdateOpCode::Position => 0xc,
            ClientUpdateOpCode::Power => 0xd,
            ClientUpdateOpCode::Stats => 0x7,
            ClientUpdateOpCode::PreloadCharactersDone => 0x1a,
        }
    }
}

impl ClientUpdateOpCode {
    /// Appends the full opcode header: the client-update opcode, then this
    /// sub-opcode, both 16-bit little-endian.
    pub fn serialize(&self, buffer: &mut Vec<u8>)
        ensures
            final(buffer)@ == old(buffer)@ + spec_u16_le(
                spec_op_code_value(OpCode::ClientUpdate),
            ) + spec_u16_le(spec_client_update_op_code_value(*self)),
    {
        write_u16_le(buffer, OpCode::ClientUpdate.value());
        write_u16_le(buffer, self.value());
    }
}

#[derive(Copy, Clone, Debug, PartialEq, Eq, Structural)]
pub enum StatId {
    MaxHealth,
    Speed,
    Range,
    HealthRegen,
    MaxPower,
    PowerRegen,
    MeleeDefense,
    MeleeDodge,
    MeleeCritRate,
    MeleeCritMultiplier,
    MeleeAccuracy,
    WeaponDamageMultiplier,
    HandToHandDamage,
    WeaponDamage,
    WeaponSpeed,
    DamageReductionFlat,
    ExperienceBoost,
    DamageReductionPct,
    DamageAddition,
    DamageMultiplier,
    HealingAddition,
    HealingMultiplier,
    AbilityCritRate,
    AbilityCritMultiplier,
    Luck,
    HeadInflation,
    CurrencyBoost,
    Toughness,
    AbilityCritVulnerability,
    MeleeCritVulnerability,
    RangeMultiplier,
    MaxShield,
    ShieldRegen,
    MimicMovementSpeed,
    GravityMultiplier,
    JumpHeightMultiplier,
}

/// The wire value of each code.
pub open spec fn spec_stat_id_value(op: StatId) -> u32 {
    match op {
        StatId::MaxHealth => 0x1,
        StatId::Speed => 0x2,
        StatId::Range => 0x3,
        StatId::HealthRegen => 0x4,
        StatId::MaxPower => 0x5,
        StatId::PowerRegen => 0x6,
        StatId::MeleeDefense => 0x7,
        StatId::MeleeDodge => 0x8,
        StatId::MeleeCritRate => 0x9,
        StatId::MeleeCritMultiplier => 0xa,
        StatId::MeleeAccuracy => 0xb,
        StatId::WeaponDamageMultiplier => 0xc,
        StatId::HandToHandDamage => 0xd,
        StatId::WeaponDamage => 0xe,
        StatId::WeaponSpeed => 0xf,
        StatId::DamageReductionFlat => 0x10,
        StatId::ExperienceBoost => 0x11,
        StatId::DamageReductionPct => 0x12,
        StatId::DamageAddition => 0x13,
        StatId::DamageMultiplier => 0x14,
        StatId::HealingAddition => 0x15,
        StatId::HealingMultiplier => 0x16,
        StatId::AbilityCritRate => 0x21,
        StatId::AbilityCritMultiplier => 0x22,
        StatId::Luck => 0x23,
        StatId::HeadInflation => 0x24,
        StatId::CurrencyBoost => 0x25,
        StatId::Toughness => 0x32,
        StatId::AbilityCritVulnerability => 0x33,
        StatId::MeleeCritVulnerability => 0x34,
        StatId::RangeMultiplier => 0x35,
        StatId::MaxShield => 0x36,
        StatId::ShieldRegen => 0x37,
        StatId::MimicMovementSpeed => 0x39,
        StatId::GravityMultiplier => 0x3a,
        StatId::JumpHeightMultiplier => 0x3b,
    }
}

impl StatId {
    /// The wire value of this code.
    pub fn value(&self) -> (r: u32)
        ensures
            r == spec_stat_id_value(*self),
    {
        match self {
            StatId::MaxHealth => 0x1,
            StatId::Speed => 0x2,
            StatId::Range => 0x3,
            StatId::HealthRegen => 0x4,
            StatId::MaxPower => 0x5,
            StatId::PowerRegen => 0x6,
            StatId::MeleeDefense => 0x7,
            StatId::MeleeDodge => 0x8,
            StatId::MeleeCritRate => 0x9,
            StatId::MeleeCritMultiplier => 0xa,
            StatId::MeleeAccuracy => 0xb,
            StatId::WeaponDamageMultiplier => 0xc,
            StatId::HandToHandDamage => 0xd,
            StatId::WeaponDamage => 0xe,
            StatId::WeaponSpeed => 0xf,
            StatId::DamageReductionFlat => 0x10,
            StatId::ExperienceBoost => 0x11,
            StatId::DamageReductionPct => 0x12,
            StatId::DamageAddition => 0x13,
            StatId::DamageMultiplier => 0x14,
            StatId::HealingAddition => 0x15,
            StatId::HealingMultiplier => 0x16,
            StatId::AbilityCritRate => 0x21,
            StatId::AbilityCritMultiplier => 0x22,
            StatId::Luck => 0x23,
            StatId::HeadInflation => 0x24,
            StatId::CurrencyBoost => 0x25,
            StatId::Toughness => 0x32,
            StatId::AbilityCritVulnerability => 0x33,
            StatId::MeleeCritVulnerability => 0x34,
            StatId::RangeMultiplier => 0x35,
            StatId::MaxShield => 0x36,
            StatId::ShieldRegen => 0x37,
            StatId::MimicMovementSpeed => 0x39,
            StatId::GravityMultiplier => 0x3a,
            StatId::JumpHeightMultiplier => 0x3b,
        }
    }
}

impl StatId {
    /// Appends this identifier as a 32-bit little-endian value.
    pub fn serialize(&self, buffer: &mut Vec<u8>)
        ensures
            final(buffer)@ == old(buffer)@ + spec_u32_le(spec_stat_id_value(*self)),
    {
        write_u32_le(buffer, self.value());
    }
}

#[derive(Debug, Clone)]
pub struct Health {
    pub current: u32,
    pub max: u32,
}

impl Health {
    /// The serialized body of this packet: each field in order, integers
    /// little-endian, booleans one byte, strings length-prefixed.
    pub open spec fn spec_bytes(self) -> Seq<u8> {
        spec_u32_le(self.current) + spec_u32_le(self.max)
    }

    /// Appends the serialized body to `buffer`.
    pub fn serialize(&self, buffer: &mut Vec<u8>)
        ensures
            final(buffer)@ == old(buffer)@ + self.spec_bytes(),
    {
        write_u32_le(buffer, self.current);
        write_u32_le(buffer, self.max);
        proof {
            assert(buffer@ =~= old(buffer)@ + self.spec_bytes());
        }
    }
}

#[derive(Debug, Clone)]
pub struct Power {
    pub current: u32,
    pub max: u32,
}

impl Power {
    /// The serialized body of this packet: each field in order, integers
    /// little-endian, booleans one byte, strings length-prefixed.
    pub open spec fn spec_bytes(self) -> Seq<u8> {
        spec_u32_le(self.current) + spec_u32_le(self.max)
    }

    /// Appends the serialized body to `buffer`.
    pub fn serialize(&self, buffer: &mut Vec<u8>)
        ensures
            final(buffer)@ == old(buffer)@ + self.spec_bytes(),
    {
        write_u32_le(buffer, self.current);
        write_u32_le(buffer, self.max);
        proof {
            assert(buffer@ =~= old(buffer)@ + self.spec_bytes());
        }
    }
}

#[derive(Debug, Clone)]
pub struct PreloadCharactersDone {
    pub unknown1: bool,
}

impl PreloadCharactersDone {
    /// The serialized body of this packet: each field in order, integers
    /// little-endian, booleans one byte, strings length-prefixed.
    pub open spec fn spec_bytes(self) -> Seq<u8> {
        seq![(if self.unknown1 { 1u8 } else { 0u8 })]
    }

    /// Appends the serialized body to `buffer`.
    pub fn serialize(&self, buffer: &mut Vec<u8>)
        ensures
            final(buffer)@ == old(buffer)@ + self.spec_bytes(),
    {
        write_bool(buffer, self.unknown1);
        proof {
            assert(buffer@ =~= old(buffer)@ + self.spec_bytes());
        }
    }
}

} // verus!
