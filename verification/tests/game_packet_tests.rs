use reliable_udp::client_update_packet::{ClientUpdateOpCode, Health, PreloadCharactersDone};
use reliable_udp::command::{CommandOpCode, Interaction, InteractionList, InteractionRequest};
use reliable_udp::game_packet::OpCode;
use reliable_udp::mount::{mount_guid, DismountReply, MountOpCode, MountReply, MountSpawn};
use reliable_udp::player_update_packet::{
    Freeze, NotificationData, NpcRelevance, SetCollision, SingleNotification, SingleNpcRelevance,
    UpdateCharacterState, Wield, WieldType,
};

#[test]
fn game_opcodes_round_trip() {
    assert_eq!(OpCode::LoginRequest.value(), 0x1);
    assert_eq!(OpCode::ClientUpdate.value(), 0x26);
    assert!(matches!(OpCode::from_value(0x26), Ok(OpCode::ClientUpdate)));
    assert!(OpCode::from_value(0x999).is_err());
    assert!(matches!(
        CommandOpCode::from_value(0xf),
        Ok(CommandOpCode::InteractionRequest)
    ));
    assert!(CommandOpCode::from_value(0x3).is_err());
    assert_eq!(MountOpCode::from_value(0x6), Some(MountOpCode::MountSpawn));
    assert_eq!(MountOpCode::from_value(0x7), None);
}

#[test]
fn health_serializes_little_endian() {
    let mut buffer = Vec::new();
    Health {
        current: 0x01020304,
        max: 0x0A0B0C0D,
    }
    .serialize(&mut buffer);
    assert_eq!(
        buffer,
        vec![0x04, 0x03, 0x02, 0x01, 0x0D, 0x0C, 0x0B, 0x0A]
    );
}

#[test]
fn opcode_headers_prefix_the_parent_opcode() {
    let mut buffer = Vec::new();
    ClientUpdateOpCode::Health.serialize(&mut buffer);
    assert_eq!(buffer, vec![0x26, 0x00, 0x01, 0x00]);
    let mut buffer = Vec::new();
    MountOpCode::MountSpawn.serialize(&mut buffer);
    assert_eq!(buffer, vec![0x71, 0x00, 0x06]);
}

#[test]
fn interaction_request_serializes_both_guids() {
    let mut buffer = Vec::new();
    InteractionRequest {
        requester: 1,
        target: 0x0100_0000_0000_0000,
    }
    .serialize(&mut buffer);
    assert_eq!(
        buffer,
        vec![1, 0, 0, 0, 0, 0, 0, 0, 0, 0, 0, 0, 0, 0, 0, 1]
    );
}

#[test]
fn interaction_list_counts_its_entries() {
    let interaction = Interaction {
        unknown1: 1,
        unknown2: 2,
        unknown3: 3,
        unknown4: 4,
        unknown5: 5,
        unknown6: 6,
        unknown7: 7,
        unknown8: 8,
        unknown9: 9,
    };
    let list = InteractionList {
        guid: 0x42,
        unknown1: true,
        interactions: vec![interaction.clone(), interaction],
        unknown2: String::from("ab"),
        unknown3: false,
        unknown4: true,
    };
    let mut buffer = Vec::new();
    list.serialize(&mut buffer);
    // guid(8) + bool(1) + count(4) + 2 * 36 + strlen(4) + 2 + bool(1) + bool(1)
    assert_eq!(buffer.len(), 8 + 1 + 4 + 72 + 4 + 2 + 1 + 1);
    assert_eq!(buffer[8], 1);
    assert_eq!(&buffer[9..13], &[2, 0, 0, 0]);
    assert_eq!(&buffer[85..91], &[2, 0, 0, 0, b'a', b'b']);
}

#[test]
fn mount_packets_serialize() {
    let mut buffer = Vec::new();
    DismountReply {
        rider_guid: 7,
        composite_effect: 9,
    }
    .serialize(&mut buffer);
    assert_eq!(buffer.len(), 12);
    let mut buffer = Vec::new();
    MountReply {
        rider_guid: 1,
        mount_guid: 2,
        unknown1: 0,
        queue_pos: 1,
        unknown3: 1,
        composite_effect: 0,
        unknown5: 0,
    }
    .serialize(&mut buffer);
    assert_eq!(buffer.len(), 36);
    let mut buffer = Vec::new();
    MountSpawn { mount_id: 0x0102 }.serialize(&mut buffer);
    assert_eq!(buffer, vec![0x02, 0x01, 0x00, 0x00]);
}

#[test]
fn mount_guid_packs_both_halves() {
    assert_eq!(mount_guid(0x00000002, 0x00000003), 0x0000_0003_0000_0002);
    assert_eq!(mount_guid(0xFFFF_FFFF, 1), 0x0000_0001_FFFF_FFFF);
}

#[test]
fn notification_option_encodes_an_absence_flag() {
    let mut buffer = Vec::new();
    SingleNotification {
        guid: 0,
        unknown1: 1,
        notification: None,
        unknown2: false,
    }
    .serialize(&mut buffer);
    // guid(8) + is_none(1) + unknown1(4) + trailing flag(1)
    assert_eq!(buffer.len(), 14);
    assert_eq!(buffer[8], 1);
    let mut buffer = Vec::new();
    SingleNotification {
        guid: 0,
        unknown1: 1,
        notification: Some(NotificationData {
            unknown1: 1,
            icon_id: 13,
            unknown3: 0,
            name_id: 0,
            unknown4: 0,
            hide_icon: false,
            unknown6: 0,
        }),
        unknown2: true,
    }
    .serialize(&mut buffer);
    assert_eq!(buffer.len(), 14 + 25);
    assert_eq!(buffer[8], 0);
}

#[test]
fn npc_relevance_encodes_a_presence_flag() {
    let mut buffer = Vec::new();
    NpcRelevance {
        new_states: vec![SingleNpcRelevance {
            guid: 2,
            cursor: Some(55),
            unknown1: false,
        }],
    }
    .serialize(&mut buffer);
    // count(4) + guid(8) + is_some(1) + cursor(1) + flag(1)
    assert_eq!(buffer.len(), 15);
    assert_eq!(buffer[12], 1);
    assert_eq!(buffer[13], 55);
}

#[test]
fn misc_player_update_bodies_serialize() {
    let mut buffer = Vec::new();
    Freeze { freeze: 1 }.serialize(&mut buffer);
    assert_eq!(buffer, vec![1]);
    let mut buffer = Vec::new();
    UpdateCharacterState {
        guid: 1,
        bitflags: 0x80,
    }
    .serialize(&mut buffer);
    assert_eq!(buffer.len(), 12);
    let mut buffer = Vec::new();
    SetCollision {
        guid: 1,
        collide: true,
    }
    .serialize(&mut buffer);
    assert_eq!(buffer.len(), 9);
    assert_eq!(buffer[8], 1);
    let mut buffer = Vec::new();
    WieldType {
        guid: 3,
        wield_type: Wield::Bow,
    }
    .serialize(&mut buffer);
    assert_eq!(buffer.len(), 12);
    assert_eq!(buffer[8], 13);
    let mut buffer = Vec::new();
    PreloadCharactersDone { unknown1: false }.serialize(&mut buffer);
    assert_eq!(buffer, vec![0]);
}
