//! Player-update packets: characters appearing, moving, and changing state
//! in other clients' views.

use vstd::prelude::*;

use crate::game_packet::{spec_op_code_value, OpCode};
use crate::wire::{
    spec_string_le,
    spec_u16_le,
    spec_u32_le,
    spec_u64_le,
    write_bool,
    write_string_le,
    write_u16_le,
    write_u32_le,
    write_u64_le,
};

verus! {

#[derive(Copy, Clone, Debug, PartialEq, Eq, Structural)]
pub enum PlayerUpdateOpCode {
    AddNpc,
    Knockback,
    AddNotifications,
    NpcRelevance,
    UpdateTemporaryAppearance,
    UpdateRemoveTemporaryAppearance,
    UpdateCharacterState,
    LootEvent,
    SlotCompositeEffectOverride,
    Freeze,
    SetSpawnerActivationEffect,
    ReplaceBaseModel,
    SetCollision,
    MoveOnRail,
    ClearRail,
    MoveOnRelativeRail,
    SeekTarget,
    SeekTargetUpdate,
    WieldType,
    HudMessage,
}

/// The wire value of each code.
pub open spec fn spec_player_update_op_code_value(op: PlayerUpdateOpCode) -> u16 {
    match op {
        PlayerUpdateOpCode::AddNpc => 0x2,
        PlayerUpdateOpCode::Knockback => 0x4,
        PlayerUpdateOpCode::AddNotifications => 0xa,
        PlayerUpdateOpCode::NpcRelevance => 0xc,
        PlayerUpdateOpCode::UpdateTemporaryAppearance => 0xe,
        PlayerUpdateOpCode::UpdateRemoveTemporaryAppearance => 0xf,
        PlayerUpdateOpCode::UpdateCharacterState => 0x14,
        PlayerUpdateOpCode::LootEvent => 0x1d,
        PlayerUpdateOpCode::SlotCompositeEffectOverride => 0x1f,
        PlayerUpdateOpCode::Freeze => 0x20,
        PlayerUpdateOpCode::SetSpawnerActivationEffect => 0x2f,
        PlayerUpdateOpCode::ReplaceBaseModel => 0x31,
        PlayerUpdateOpCode::SetCollision => 0x32,
        PlayerUpdateOpCode::MoveOnRail => 0x35,
        PlayerUpdateOpCode::ClearRail => 0x36,
        PlayerUpdateOpCode::MoveOnRelativeRail => 0x37,
        PlayerUpdateOpCode::SeekTarget => 0x3b,
        PlayerUpdateOpCode::SeekTargetUpdate => 0x3c,
        PlayerUpdateOpCode::WieldType => 0x3d,
        PlayerUpdateOpCode::HudMessage => 0x40,
    }
}

impl PlayerUpdateOpCode {
    /// The wire value of this code.
    pub fn value(&self) -> (r: u16)
        ensures
            r == spec_player_update_op_code_value(*self),
    {
        match self {
            PlayerUpdateOpCode::AddNpc => 0x2,
            PlayerUpdateOpCode::Knockback => 0x4,
            PlayerUpdateOpCode::AddNotifications => 0xa,
            PlayerUpdateOpCode::NpcRelevance => 0xc,
            PlayerUpdateOpCode::UpdateTemporaryAppearance => 0xe,
            PlayerUpdateOpCode::UpdateRemoveTemporaryAppearance => 0xf,
            PlayerUpdateOpCode::UpdateCharacterState => 0x14,
            PlayerUpdateOpCode::LootEvent => 0x1d,
            PlayerUpdateOpCode::SlotCompositeEffectOverride => 0x1f,
            PlayerUpdateOpCode::Freeze => 0x20,
            PlayerUpdateOpCode::SetSpawnerActivationEffect => 0x2f,
            PlayerUpdateOpCode::ReplaceBaseModel => 0x31,
            PlayerUpdateOpCode::SetCollision => 0x32,
            PlayerUpdateOpCode::MoveOnRail => 0x35,
            PlayerUpdateOpCode::ClearRail => 0x36,
            PlayerUpdateOpCode::MoveOnRelativeRail => 0x37,
            PlayerUpdateOpCode::SeekTarget => 0x3b,
            PlayerUpdateOpCode::SeekTargetUpdate => 0x3c,
            PlayerUpdateOpCode::WieldType => 0x3d,
            PlayerUpdateOpCode::HudMessage => 0x40,
        }
    }
}

impl PlayerUpdateOpCode {
    /// Appends the full opcode header: the player-update opcode, then this
    /// sub-opcode, both 16-bit little-endian.
    pub fn serialize(&self, buffer: &mut Vec<u8>)
        ensures
            final(buffer)@ == old(buffer)@ + spec_u16_le(
                spec_op_code_value(OpCode::PlayerUpdate),
            ) + spec_u16_le(spec_player_update_op_code_value(*self)),
    {
        write_u16_le(buffer, OpCode::PlayerUpdate.value());
        write_u16_le(buffer, self.value());
    }
}

#[derive(Debug, Clone)]
pub struct HudMessage {
    pub guid: u64,
    pub unkguid: u64,
    pub unknown1: u32,
    pub unknown2: u32,
    pub unknown3: u32,
    pub unknown4: u32,
    pub unknown5: u32,
    pub unknown6: u32,
}

impl HudMessage {
    /// The serialized body of this packet: each field in order, integers
    /// little-endian, booleans one byte, strings length-prefixed.
    pub open spec fn spec_bytes(self) -> Seq<u8> {
        spec_u64_le(self.guid) + spec_u64_le(self.unkguid) + spec_u32_le(self.unknown1) + spec_u32_le(self.unknown2) + spec_u32_le(self.unknown3) + spec_u32_le(self.unknown4) + spec_u32_le(self.unknown5) + spec_u32_le(self.unknown6)
    }

    /// Appends the serialized body to `buffer`.
    pub fn serialize(&self, buffer: &mut Vec<u8>)
        ensures
            final(buffer)@ == old(buffer)@ + self.spec_bytes(),
    {
        write_u64_le(buffer, self.guid);
        write_u64_le(buffer, self.unkguid);
        write_u32_le(buffer, self.unknown1);
        write_u32_le(buffer, self.unknown2);
        write_u32_le(buffer, self.unknown3);
        write_u32_le(buffer, self.unknown4);
        write_u32_le(buffer, self.unknown5);
        write_u32_le(buffer, self.unknown6);
        proof {
            assert(buffer@ =~= old(buffer)@ + self.spec_bytes());
        }
    }
}

#[derive(Debug, Clone)]
pub struct SlotCompositeEffectOverride {
    pub guid: u64,
    pub slot_id: u32,
    pub composite_effect: u32,
}

impl SlotCompositeEffectOverride {
    /// The serialized body of this packet: each field in order, integers
    /// little-endian, booleans one byte, strings length-prefixed.
    pub open spec fn spec_bytes(self) -> Seq<u8> {
        spec_u64_le(self.guid) + spec_u32_le(self.slot_id) + spec_u32_le(self.composite_effect)
    }

    /// Appends the serialized body to `buffer`.
    pub fn serialize(&self, buffer: &mut Vec<u8>)
        ensures
            final(buffer)@ == old(buffer)@ + self.spec_bytes(),
    {
        write_u64_le(buffer, self.guid);
        write_u32_le(buffer, self.slot_id);
        write_u32_le(buffer, self.composite_effect);
        proof {
            assert(buffer@ =~= old(buffer)@ + self.spec_bytes());
        }
    }
}

#[derive(Debug, Clone)]
pub struct UpdateRemoveTemporaryAppearance {
    pub guid: u64,
    pub model_id: u32,
}

impl UpdateRemoveTemporaryAppearance {
    /// The serialized body of this packet: each field in order, integers
    /// little-endian, booleans one byte, strings length-prefixed.
    pub open spec fn spec_bytes(self) -> Seq<u8> {
        spec_u64_le(self.guid) + spec_u32_le(self.model_id)
    }

    /// Appends the serialized body to `buffer`.
    pub fn serialize(&self, buffer: &mut Vec<u8>)
        ensures
            final(buffer)@ == old(buffer)@ + self.spec_bytes(),
    {
        write_u64_le(buffer, self.guid);
        write_u32_le(buffer, self.model_id);
        proof {
            assert(buffer@ =~= old(buffer)@ + self.spec_bytes());
        }
    }
}

#[derive(Debug, Clone)]
pub struct UpdateTemporaryAppearance {
    pub model_id: u32,
    pub guid: u64,
}

impl UpdateTemporaryAppearance {
    /// The serialized body of this packet: each field in order, integers
    /// little-endian, booleans one byte, strings length-prefixed.
    pub open spec fn spec_bytes(self) -> Seq<u8> {
        spec_u32_le(self.model_id) + spec_u64_le(self.guid)
    }

    /// Appends the serialized body to `buffer`.
    pub fn serialize(&self, buffer: &mut Vec<u8>)
        ensures
            final(buffer)@ == old(buffer)@ + self.spec_bytes(),
    {
        write_u32_le(buffer, self.model_id);
        write_u64_le(buffer, self.guid);
        proof {
            assert(buffer@ =~= old(buffer)@ + self.spec_bytes());
        }
    }
}

#[derive(Debug, Clone)]
pub struct SetSpawnerActivationEffect {
    pub guid: u64,
    pub composite_effect: u32,
}

impl SetSpawnerActivationEffect {
    /// The serialized body of this packet: each field in order, integers
    /// little-endian, booleans one byte, strings length-prefixed.
    pub open spec fn spec_bytes(self) -> Seq<u8> {
        spec_u64_le(self.guid) + spec_u32_le(self.composite_effect)
    }

    /// Appends the serialized body to `buffer`.
    pub fn serialize(&self, buffer: &mut Vec<u8>)
        ensures
            final(buffer)@ == old(buffer)@ + self.spec_bytes(),
    {
        write_u64_le(buffer, self.guid);
        write_u32_le(buffer, self.composite_effect);
        proof {
            assert(buffer@ =~= old(buffer)@ + self.spec_bytes());
        }
    }
}

#[derive(Debug, Clone)]
pub struct ClearRail {
    pub guid: u64,
}

impl ClearRail {
    /// The serialized body of this packet: each field in order, integers
    /// little-endian, booleans one byte, strings length-prefixed.
    pub open spec fn spec_bytes(self) -> Seq<u8> {
        spec_u64_le(self.guid)
    }

    /// Appends the serialized body to `buffer`.
    pub fn serialize(&self, buffer: &mut Vec<u8>)
        ensures
            final(buffer)@ == old(buffer)@ + self.spec_bytes(),
    {
        write_u64_le(buffer, self.guid);
        proof {
            assert(buffer@ =~= old(buffer)@ + self.spec_bytes());
        }
    }
}

#[derive(Debug, Clone)]
pub struct SeekTargetUpdate {
    pub guid: u64,
    pub target_id: u64,
}

impl SeekTargetUpdate {
    /// The serialized body of this packet: each field in order, integers
    /// little-endian, booleans one byte, strings length-prefixed.
    pub open spec fn spec_bytes(self) -> Seq<u8> {
        spec_u64_le(self.guid) + spec_u64_le(self.target_id)
    }

    /// Appends the serialized body to `buffer`.
    pub fn serialize(&self, buffer: &mut Vec<u8>)
        ensures
            final(buffer)@ == old(buffer)@ + self.spec_bytes(),
    {
        write_u64_le(buffer, self.guid);
        write_u64_le(buffer, self.target_id);
        proof {
            assert(buffer@ =~= old(buffer)@ + self.spec_bytes());
        }
    }
}

#[derive(Debug, Clone)]
pub struct ReplaceBaseModel {
    pub guid: u64,
    pub model: u32,
    pub composite_effect: u32,
}

impl ReplaceBaseModel {
    /// The serialized body of this packet: each field in order, integers
    /// little-endian, booleans one byte, strings length-prefixed.
    pub open spec fn spec_bytes(self) -> Seq<u8> {
        spec_u64_le(self.guid) + spec_u32_le(self.model) + spec_u32_le(self.composite_effect)
    }

    /// Appends the serialized body to `buffer`.
    pub fn serialize(&self, buffer: &mut Vec<u8>)
        ensures
            final(buffer)@ == old(buffer)@ + self.spec_bytes(),
    {
        write_u64_le(buffer, self.guid);
        write_u32_le(buffer, self.model);
        write_u32_le(buffer, self.composite_effect);
        proof {
            assert(buffer@ =~= old(buffer)@ + self.spec_bytes());
        }
    }
}

#[derive(Copy, Clone, Debug, PartialEq, Eq, Structural)]
pub enum Wield {
    SingleSaber,
    StaffSaber,
    ReverseSingleSaber,
    DualSaber,
    SinglePistol,
    Rifle,
    SniperRifle,
    RocketLauncher,
    FlameThrower,
    DualPistol,
    Staff,
    Misc,
    Bow,
    Sparklers,
    HipBraceLauncherOneShot,
}

/// The wire value of each code.
pub open spec fn spec_wield_value(op: Wield) -> u32 {
    match op {
        Wield::SingleSaber => 0x1,
        Wield::StaffSaber => 0x2,
        Wield::ReverseSingleSaber => 0x3,
        Wield::DualSaber => 0x4,
        Wield::SinglePistol => 0x5,
        Wield::Rifle => 0x6,
        Wield::SniperRifle => 0x7,
        Wield::RocketLauncher => 0x8,
        Wield::FlameThrower => 0x9,
        Wield::DualPistol => 0xa,
        Wield::Staff => 0xb,
        Wield::Misc => 0xc,
        Wield::Bow => 0xd,
        Wield::Sparklers => 0xe,
        Wield::HipBraceLauncherOneShot => 0xf,
    }
}

impl Wield {
    /// The wire value of this code.
    pub fn value(&self) -> (r: u32)
        ensures
            r == spec_wield_value(*self),
    {
        match self {
            Wield::SingleSaber => 0x1,
            Wield::StaffSaber => 0x2,
            Wield::ReverseSingleSaber => 0x3,
            Wield::DualSaber => 0x4,
            Wield::SinglePistol => 0x5,
            Wield::Rifle => 0x6,
            Wield::SniperRifle => 0x7,
            Wield::RocketLauncher => 0x8,
            Wield::FlameThrower => 0x9,
            Wield::DualPistol => 0xa,
            Wield::Staff => 0xb,
            Wield::Misc => 0xc,
            Wield::Bow => 0xd,
            Wield::Sparklers => 0xe,
            Wield::HipBraceLauncherOneShot => 0xf,
        }
    }
}

#[derive(Debug, Clone)]
pub struct WieldType {
    pub guid: u64,
    pub wield_type: Wield,
}

impl WieldType {
    /// The serialized body: the character, then the wield kind as a 32-bit
    /// little-endian value.
    pub open spec fn spec_bytes(self) -> Seq<u8> {
        spec_u64_le(self.guid) + spec_u32_le(spec_wield_value(self.wield_type))
    }

    /// Appends the serialized body to `buffer`.
    pub fn serialize(&self, buffer: &mut Vec<u8>)
        ensures
            final(buffer)@ == old(buffer)@ + self.spec_bytes(),
    {
        write_u64_le(buffer, self.guid);
        write_u32_le(buffer, self.wield_type.value());
        proof {
            assert(buffer@ =~= old(buffer)@ + self.spec_bytes());
        }
    }
}

#[derive(Debug, Clone)]
pub struct Freeze {
    pub freeze: u8,
}

impl Freeze {
    /// The serialized body of this packet: each field in order, integers
    /// little-endian, booleans one byte, strings length-prefixed.
    pub open spec fn spec_bytes(self) -> Seq<u8> {
        seq![self.freeze]
    }

    /// Appends the serialized body to `buffer`.
    pub fn serialize(&self, buffer: &mut Vec<u8>)
        ensures
            final(buffer)@ == old(buffer)@ + self.spec_bytes(),
    {
        buffer.push(self.freeze);
        proof {
            assert(buffer@ =~= old(buffer)@ + self.spec_bytes());
        }
    }
}

#[derive(Debug, Clone)]
pub struct UpdateCharacterState {
    pub guid: u64,
    pub bitflags: u32,
}

impl UpdateCharacterState {
    /// The serialized body of this packet: each field in order, integers
    /// little-endian, booleans one byte, strings length-prefixed.
    pub open spec fn spec_bytes(self) -> Seq<u8> {
        spec_u64_le(self.guid) + spec_u32_le(self.bitflags)
    }

    /// Appends the serialized body to `buffer`.
    pub fn serialize(&self, buffer: &mut Vec<u8>)
        ensures
            final(buffer)@ == old(buffer)@ + self.spec_bytes(),
    {
        write_u64_le(buffer, self.guid);
        write_u32_le(buffer, self.bitflags);
        proof {
            assert(buffer@ =~= old(buffer)@ + self.spec_bytes());
        }
    }
}

#[derive(Debug, Clone)]
pub struct SetCollision {
    pub guid: u64,
    pub collide: bool,
}

impl SetCollision {
    /// The serialized body of this packet: each field in order, integers
    /// little-endian, booleans one byte, strings length-prefixed.
    pub open spec fn spec_bytes(self) -> Seq<u8> {
        spec_u64_le(self.guid) + seq![(if self.collide { 1u8 } else { 0u8 })]
    }

    /// Appends the serialized body to `buffer`.
    pub fn serialize(&self, buffer: &mut Vec<u8>)
        ensures
            final(buffer)@ == old(buffer)@ + self.spec_bytes(),
    {
        write_u64_le(buffer, self.guid);
        write_bool(buffer, self.collide);
        proof {
            assert(buffer@ =~= old(buffer)@ + self.spec_bytes());
        }
    }
}

#[derive(Debug, Clone)]
pub struct NotificationData {
    pub unknown1: u32,
    pub icon_id: u32,
    pub unknown3: u32,
    pub name_id: u32,
    pub unknown4: u32,
    pub hide_icon: bool,
    pub unknown6: u32,
}

impl NotificationData {
    /// The serialized body of this packet: each field in order, integers
    /// little-endian, booleans one byte, strings length-prefixed.
    pub open spec fn spec_bytes(self) -> Seq<u8> {
        spec_u32_le(self.unknown1) + spec_u32_le(self.icon_id) + spec_u32_le(self.unknown3) + spec_u32_le(self.name_id) + spec_u32_le(self.unknown4) + seq![(if self.hide_icon { 1u8 } else { 0u8 })] + spec_u32_le(self.unknown6)
    }

    /// Appends the serialized body to `buffer`.
    pub fn serialize(&self, buffer: &mut Vec<u8>)
        ensures
            final(buffer)@ == old(buffer)@ + self.spec_bytes(),
    {
        write_u32_le(buffer, self.unknown1);
        write_u32_le(buffer, self.icon_id);
        write_u32_le(buffer, self.unknown3);
        write_u32_le(buffer, self.name_id);
        write_u32_le(buffer, self.unknown4);
        write_bool(buffer, self.hide_icon);
        write_u32_le(buffer, self.unknown6);
        proof {
            assert(buffer@ =~= old(buffer)@ + self.spec_bytes());
        }
    }
}

#[derive(Debug, Clone)]
pub struct SingleNotification {
    pub guid: u64,
    pub unknown1: u32,
    pub notification: Option<NotificationData>,
    pub unknown2: bool,
}

impl SingleNotification {
    /// The serialized body: the character, one byte marking an absent
    /// notification, the counter, the notification body when present, and
    /// the trailing flag.
    pub open spec fn spec_bytes(self) -> Seq<u8> {
        spec_u64_le(self.guid) + seq![(if self.notification is None { 1u8 } else { 0u8 })]
            + spec_u32_le(self.unknown1) + (match self.notification {
            Option::Some(data) => data.spec_bytes(),
            Option::None => Seq::<u8>::empty(),
        }) + seq![(if self.unknown2 { 1u8 } else { 0u8 })]
    }

    /// Appends the serialized body to `buffer`.
    pub fn serialize(&self, buffer: &mut Vec<u8>)
        ensures
            final(buffer)@ == old(buffer)@ + self.spec_bytes(),
    {
        write_u64_le(buffer, self.guid);
        write_bool(buffer, self.notification.is_none());
        write_u32_le(buffer, self.unknown1);
        match &self.notification {
            Some(data) => {
                data.serialize(buffer);
            },
            None => {},
        }
        write_bool(buffer, self.unknown2);
        proof {
            assert(buffer@ =~= old(buffer)@ + self.spec_bytes());
        }
    }
}

/// The serialized run of entries, each entry's body in order.
pub open spec fn spec_notifications_bytes(v: Seq<SingleNotification>) -> Seq<u8>
    decreases v.len(),
{
    if v.len() == 0 {
        Seq::<u8>::empty()
    } else {
        v[0].spec_bytes() + spec_notifications_bytes(v.skip(1))
    }
}

/// Appending an entry appends its body.
proof fn lemma_spec_notifications_bytes_push(v: Seq<SingleNotification>, x: SingleNotification)
    ensures
        spec_notifications_bytes(v.push(x)) == spec_notifications_bytes(v) + x.spec_bytes(),
    decreases v.len(),
{
    if v.len() == 0 {
        assert(v.push(x)[0] == x);
        assert(v.push(x).skip(1).len() == 0);
        assert(spec_notifications_bytes(v.push(x).skip(1)) == Seq::<u8>::empty());
        assert(spec_notifications_bytes(v.push(x)) == x.spec_bytes() + Seq::<u8>::empty());
        assert(spec_notifications_bytes(v.push(x)) =~= spec_notifications_bytes(v) + x.spec_bytes());
    } else {
        assert(v.push(x)[0] == v[0]);
        assert(v.push(x).skip(1) =~= v.skip(1).push(x));
        lemma_spec_notifications_bytes_push(v.skip(1), x);
        assert(spec_notifications_bytes(v.push(x)) =~= spec_notifications_bytes(v) + x.spec_bytes());
    }
}

#[derive(Debug, Clone)]
pub struct AddNotifications {
    pub notifications: Vec<SingleNotification>,
}

impl AddNotifications {
    /// The serialized body: a 4-byte little-endian count, then each entry.
    pub open spec fn spec_bytes(self) -> Seq<u8> {
        spec_u32_le(self.notifications@.len() as u32) + spec_notifications_bytes(self.notifications@)
    }

    /// Appends the serialized body to `buffer`.
    pub fn serialize(&self, buffer: &mut Vec<u8>)
        requires
            self.notifications@.len() <= 0xFFFF_FFFF,
        ensures
            final(buffer)@ == old(buffer)@ + self.spec_bytes(),
    {
        write_u32_le(buffer, self.notifications.len() as u32);
        let n: usize = self.notifications.len();
        let mut i: usize = 0;
        let ghost mid = buffer@;
        proof {
            assert(spec_notifications_bytes(self.notifications@.take(0)) == Seq::<u8>::empty());
            assert(buffer@ =~= mid + spec_notifications_bytes(self.notifications@.take(0)));
        }
        while i < n
            invariant
                i <= n == self.notifications@.len(),
                buffer@ == mid + spec_notifications_bytes(self.notifications@.take(i as int)),
            decreases n - i,
        {
            self.notifications[i].serialize(buffer);
            proof {
                assert(self.notifications@.take(i as int).push(self.notifications@[i as int])
                    =~= self.notifications@.take(i as int + 1));
                lemma_spec_notifications_bytes_push(self.notifications@.take(i as int), self.notifications@[i as int]);
            }
            i = i + 1;
        }
        proof {
            assert(self.notifications@.take(n as int) =~= self.notifications@);
            assert(buffer@ =~= old(buffer)@ + self.spec_bytes());
        }
    }
}

#[derive(Debug, Clone)]
pub struct SingleNpcRelevance {
    pub guid: u64,
    pub cursor: Option<u8>,
    pub unknown1: bool,
}

impl SingleNpcRelevance {
    /// The serialized body: the character, one byte marking a present
    /// cursor, the cursor byte when present, and the trailing flag.
    pub open spec fn spec_bytes(self) -> Seq<u8> {
        spec_u64_le(self.guid) + seq![(if self.cursor is Some { 1u8 } else { 0u8 })] + (
        match self.cursor {
            Option::Some(cursor) => seq![cursor],
            Option::None => Seq::<u8>::empty(),
        }) + seq![(if self.unknown1 { 1u8 } else { 0u8 })]
    }

    /// Appends the serialized body to `buffer`.
    pub fn serialize(&self, buffer: &mut Vec<u8>)
        ensures
            final(buffer)@ == old(buffer)@ + self.spec_bytes(),
    {
        write_u64_le(buffer, self.guid);
        write_bool(buffer, self.cursor.is_some());
        match self.cursor {
            Some(cursor) => {
                buffer.push(cursor);
            },
            None => {},
        }
        write_bool(buffer, self.unknown1);
        proof {
            assert(buffer@ =~= old(buffer)@ + self.spec_bytes());
        }
    }
}

/// The serialized run of entries, each entry's body in order.
pub open spec fn spec_relevances_bytes(v: Seq<SingleNpcRelevance>) -> Seq<u8>
    decreases v.len(),
{
    if v.len() == 0 {
        Seq::<u8>::empty()
    } else {
        v[0].spec_bytes() + spec_relevances_bytes(v.skip(1))
    }
}

/// Appending an entry appends its body.
proof fn lemma_spec_relevances_bytes_push(v: Seq<SingleNpcRelevance>, x: SingleNpcRelevance)
    ensures
        spec_relevances_bytes(v.push(x)) == spec_relevances_bytes(v) + x.spec_bytes(),
    decreases v.len(),
{
    if v.len() == 0 {
        assert(v.push(x)[0] == x);
        assert(v.push(x).skip(1).len() == 0);
        assert(spec_relevances_bytes(v.push(x).skip(1)) == Seq::<u8>::empty());
        assert(spec_relevances_bytes(v.push(x)) == x.spec_bytes() + Seq::<u8>::empty());
        assert(spec_relevances_bytes(v.push(x)) =~= spec_relevances_bytes(v) + x.spec_bytes());
    } else {
        assert(v.push(x)[0] == v[0]);
        assert(v.push(x).skip(1) =~= v.skip(1).push(x));
        lemma_spec_relevances_bytes_push(v.skip(1), x);
        assert(spec_relevances_bytes(v.push(x)) =~= spec_relevances_bytes(v) + x.spec_bytes());
    }
}

#[derive(Debug, Clone)]
pub struct NpcRelevance {
    pub new_states: Vec<SingleNpcRelevance>,
}

impl NpcRelevance {
    /// The serialized body: a 4-byte little-endian count, then each entry.
    pub open spec fn spec_bytes(self) -> Seq<u8> {
        spec_u32_le(self.new_states@.len() as u32) + spec_relevances_bytes(self.new_states@)
    }

    /// Appends the serialized body to `buffer`.
    pub fn serialize(&self, buffer: &mut Vec<u8>)
        requires
            self.new_states@.len() <= 0xFFFF_FFFF,
        ensures
            final(buffer)@ == old(buffer)@ + self.spec_bytes(),
    {
        write_u32_le(buffer, self.new_states.len() as u32);
        let n: usize = self.new_states.len();
        let mut i: usize = 0;
        let ghost mid = buffer@;
        proof {
            assert(spec_relevances_bytes(self.new_states@.take(0)) == Seq::<u8>::empty());
            assert(buffer@ =~= mid + spec_relevances_bytes(self.new_states@.take(0)));
        }
        while i < n
            invariant
                i <= n == self.new_states@.len(),
                buffer@ == mid + spec_relevances_bytes(self.new_states@.take(i as int)),
            decreases n - i,
        {
            self.new_states[i].serialize(buffer);
            proof {
                assert(self.new_states@.take(i as int).push(self.new_states@[i as int])
                    =~= self.new_states@.take(i as int + 1));
                lemma_spec_relevances_bytes_push(self.new_states@.take(i as int), self.new_states@[i as int]);
            }
            i = i + 1;
        }
        proof {
            assert(self.new_states@.take(n as int) =~= self.new_states@);
            assert(buffer@ =~= old(buffer)@ + self.spec_bytes());
        }
    }
}

#[derive(Debug, Clone)]
pub struct Attachment {
    pub unknown1: String,
    pub unknown2: String,
    pub unknown3: String,
    pub unknown4: u32,
    pub unknown5: u32,
    pub unknown6: u32,
}

impl Attachment {
    /// The serialized body of this packet: each field in order, integers
    /// little-endian, booleans one byte, strings length-prefixed.
    pub open spec fn spec_bytes(self) -> Seq<u8> {
        spec_string_le(self.unknown1@) + spec_string_le(self.unknown2@) + spec_string_le(self.unknown3@) + spec_u32_le(self.unknown4) + spec_u32_le(self.unknown5) + spec_u32_le(self.unknown6)
    }

    /// Appends the serialized body to `buffer`.
    pub fn serialize(&self, buffer: &mut Vec<u8>)
        requires
            vstd::utf8::encode_utf8(self.unknown1@).len() <= 0xFFFF_FFFF,
            vstd::utf8::encode_utf8(self.unknown2@).len() <= 0xFFFF_FFFF,
            vstd::utf8::encode_utf8(self.unknown3@).len() <= 0xFFFF_FFFF,
        ensures
            final(buffer)@ == old(buffer)@ + self.spec_bytes(),
    {
        write_string_le(buffer, &self.unknown1);
        write_string_le(buffer, &self.unknown2);
        write_string_le(buffer, &self.unknown3);
        write_u32_le(buffer, self.unknown4);
        write_u32_le(buffer, self.unknown5);
        write_u32_le(buffer, self.unknown6);
        proof {
            assert(buffer@ =~= old(buffer)@ + self.spec_bytes());
        }
    }
}

#[derive(Debug, Clone)]
pub struct BaseAttachmentGroup {
    pub unknown1: u32,
    pub unknown2: String,
    pub unknown3: String,
    pub unknown4: u32,
    pub unknown5: String,
}

impl BaseAttachmentGroup {
    /// The serialized body of this packet: each field in order, integers
    /// little-endian, booleans one byte, strings length-prefixed.
    pub open spec fn spec_bytes(self) -> Seq<u8> {
        spec_u32_le(self.unknown1) + spec_string_le(self.unknown2@) + spec_string_le(self.unknown3@) + spec_u32_le(self.unknown4) + spec_string_le(self.unknown5@)
    }

    /// Appends the serialized body to `buffer`.
    pub fn serialize(&self, buffer: &mut Vec<u8>)
        requires
            vstd::utf8::encode_utf8(self.unknown2@).len() <= 0xFFFF_FFFF,
            vstd::utf8::encode_utf8(self.unknown3@).len() <= 0xFFFF_FFFF,
            vstd::utf8::encode_utf8(self.unknown5@).len() <= 0xFFFF_FFFF,
        ensures
            final(buffer)@ == old(buffer)@ + self.spec_bytes(),
    {
        write_u32_le(buffer, self.unknown1);
        write_string_le(buffer, &self.unknown2);
        write_string_le(buffer, &self.unknown3);
        write_u32_le(buffer, self.unknown4);
        write_string_le(buffer, &self.unknown5);
        proof {
            assert(buffer@ =~= old(buffer)@ + self.spec_bytes());
        }
    }
}

#[derive(Debug, Clone)]
pub struct Variable {
    pub unknown1: u32,
    pub unknown2: String,
    pub unknown3: u32,
}

impl Variable {
    /// The serialized body of this packet: each field in order, integers
    /// little-endian, booleans one byte, strings length-prefixed.
    pub open spec fn spec_bytes(self) -> Seq<u8> {
        spec_u32_le(self.unknown1) + spec_string_le(self.unknown2@) + spec_u32_le(self.unknown3)
    }

    /// Appends the serialized body to `buffer`.
    pub fn serialize(&self, buffer: &mut Vec<u8>)
        requires
            vstd::utf8::encode_utf8(self.unknown2@).len() <= 0xFFFF_FFFF,
        ensures
            final(buffer)@ == old(buffer)@ + self.spec_bytes(),
    {
        write_u32_le(buffer, self.unknown1);
        write_string_le(buffer, &self.unknown2);
        write_u32_le(buffer, self.unknown3);
        proof {
            assert(buffer@ =~= old(buffer)@ + self.spec_bytes());
        }
    }
}

#[derive(Copy, Clone, Debug, PartialEq, Eq, Structural)]
pub enum Icon {
    NoIcon,
    Member,
    Enforcer,
    FancyMember,
}

/// The wire value of each code.
pub open spec fn spec_icon_value(op: Icon) -> u32 {
    match op {
        Icon::NoIcon => 0x0,
        Icon::Member => 0x1,
        Icon::Enforcer => 0x2,
        Icon::FancyMember => 0x3,
    }
}

impl Icon {
    /// The wire value of this code.
    pub fn value(&self) -> (r: u32)
        ensures
            r == spec_icon_value(*self),
    {
        match self {
            Icon::NoIcon => 0x0,
            Icon::Member => 0x1,
            Icon::Enforcer => 0x2,
            Icon::FancyMember => 0x3,
        }
    }
}

impl Icon {
    /// Appends this icon as a 32-bit little-endian value.
    pub fn serialize(&self, buffer: &mut Vec<u8>)
        ensures
            final(buffer)@ == old(buffer)@ + spec_u32_le(spec_icon_value(*self)),
    {
        write_u32_le(buffer, self.value());
    }
}

#[derive(Copy, Clone, Debug, PartialEq, Eq, Structural)]
pub enum WeaponAnimation {
    NoAnimation,
    SingleSaber,
    StaffSaber,
    ReverseSingleSaber,
    DoubleSaber,
    SinglePistol,
    Rifle,
    SniperRifle,
    RocketLauncher,
    Flamethrower,
    DoublePistol,
    Staff,
}

/// The wire value of each code.
pub open spec fn spec_weapon_animation_value(op: WeaponAnimation) -> u32 {
    match op {
        WeaponAnimation::NoAnimation => 0x0,
        WeaponAnimation::SingleSaber => 0x1,
        WeaponAnimation::StaffSaber => 0x2,
        WeaponAnimation::ReverseSingleSaber => 0x3,
        WeaponAnimation::DoubleSaber => 0x4,
        WeaponAnimation::SinglePistol => 0x5,
        WeaponAnimation::Rifle => 0x6,
        WeaponAnimation::SniperRifle => 0x7,
        WeaponAnimation::RocketLauncher => 0x8,
        WeaponAnimation::Flamethrower => 0x9,
        WeaponAnimation::DoublePistol => 0xa,
        WeaponAnimation::Staff => 0xb,
    }
}

impl WeaponAnimation {
    /// The wire value of this code.
    pub fn value(&self) -> (r: u32)
        ensures
            r == spec_weapon_animation_value(*self),
    {
        match self {
            WeaponAnimation::NoAnimation => 0x0,
            WeaponAnimation::SingleSaber => 0x1,
            WeaponAnimation::StaffSaber => 0x2,
            WeaponAnimation::ReverseSingleSaber => 0x3,
            WeaponAnimation::DoubleSaber => 0x4,
            WeaponAnimation::SinglePistol => 0x5,
            WeaponAnimation::Rifle => 0x6,
            WeaponAnimation::SniperRifle => 0x7,
            WeaponAnimation::RocketLauncher => 0x8,
            WeaponAnimation::Flamethrower => 0x9,
            WeaponAnimation::DoublePistol => 0xa,
            WeaponAnimation::Staff => 0xb,
        }
    }
}

impl WeaponAnimation {
    /// Appends this animation as a 32-bit little-endian value.
    pub fn serialize(&self, buffer: &mut Vec<u8>)
        ensures
            final(buffer)@ == old(buffer)@ + spec_u32_le(spec_weapon_animation_value(*self)),
    {
        write_u32_le(buffer, self.value());
    }
}

} // verus!
