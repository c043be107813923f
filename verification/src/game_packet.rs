//! The game-packet opcodes carried inside tunneled data payloads.

use vstd::prelude::*;

use crate::wire::{spec_u16_le, write_u16_le};

verus! {

#[derive(Copy, Clone, Debug, PartialEq, Eq, Structural)]
pub enum OpCode {
    LoginRequest,
    LoginReply,
    TunneledClient,
    Player,
    ClientIsReady,
    ZoneDetailsDone,
    Command,
    PlayerUpdate,
    ClientUpdate,
    ZoneDetails,
    GameTimeSync,
    WelcomeScreen,
    Mount,
    ClientGameSettings,
    DeploymentEnv,
}

/// The wire value of each code.
pub open spec fn spec_op_code_value(op: OpCode) -> u16 {
    match op {
        OpCode::LoginRequest => 0x1,
        OpCode::LoginReply => 0x2,
        OpCode::TunneledClient => 0x5,
        OpCode::Player => 0xc,
        OpCode::ClientIsReady => 0xd,
        OpCode::ZoneDetailsDone => 0xe,
        OpCode::Command => 0x1a,
        OpCode::PlayerUpdate => 0x23,
        OpCode::ClientUpdate => 0x26,
        OpCode::ZoneDetails => 0x2b,
        OpCode::GameTimeSync => 0x34,
        OpCode::WelcomeScreen => 0x5d,
        OpCode::Mount => 0x71,
        OpCode::ClientGameSettings => 0x8f,
        OpCode::DeploymentEnv => 0xa5,
    }
}

impl OpCode {
    /// The wire value of this code.
    pub fn value(&self) -> (r: u16)
        ensures
            r == spec_op_code_value(*self),
    {
        match self {
            OpCode::LoginRequest => 0x1,
            OpCode::LoginReply => 0x2,
            OpCode::TunneledClient => 0x5,
            OpCode::Player => 0xc,
            OpCode::ClientIsReady => 0xd,
            OpCode::ZoneDetailsDone => 0xe,
            OpCode::Command => 0x1a,
            OpCode::PlayerUpdate => 0x23,
            OpCode::ClientUpdate => 0x26,
            OpCode::ZoneDetails => 0x2b,
            OpCode::GameTimeSync => 0x34,
            OpCode::WelcomeScreen => 0x5d,
            OpCode::Mount => 0x71,
            OpCode::ClientGameSettings => 0x8f,
            OpCode::DeploymentEnv => 0xa5,
        }
    }
}

/// The error for a 16-bit value that names no known game opcode.
#[derive(Copy, Clone, Debug, PartialEq, Eq, Structural)]
pub struct UnknownOpCode;

/// The opcode a 16-bit value stands for, if any.
pub open spec fn spec_op_code_from_value(value: u16) -> Option<OpCode> {
    match value {
        0x1 => Some(OpCode::LoginRequest),
        0x2 => Some(OpCode::LoginReply),
        0x5 => Some(OpCode::TunneledClient),
        0xc => Some(OpCode::Player),
        0xd => Some(OpCode::ClientIsReady),
        0xe => Some(OpCode::ZoneDetailsDone),
        0x1a => Some(OpCode::Command),
        0x23 => Some(OpCode::PlayerUpdate),
        0x26 => Some(OpCode::ClientUpdate),
        0x2b => Some(OpCode::ZoneDetails),
        0x34 => Some(OpCode::GameTimeSync),
        0x5d => Some(OpCode::WelcomeScreen),
        0x71 => Some(OpCode::Mount),
        0x8f => Some(OpCode::ClientGameSettings),
        0xa5 => Some(OpCode::DeploymentEnv),
        _ => None,
    }
}

impl OpCode {
    /// The opcode a wire value stands for, or the unknown-opcode error.
    pub fn from_value(value: u16) -> (r: Result<OpCode, UnknownOpCode>)
        ensures
            r matches Ok(op) ==> spec_op_code_from_value(value) == Some(op),
            r is Err ==> spec_op_code_from_value(value) is None,
    {
        match value {
            0x1 => Ok(OpCode::LoginRequest),
            0x2 => Ok(OpCode::LoginReply),
            0x5 => Ok(OpCode::TunneledClient),
            0xc => Ok(OpCode::Player),
            0xd => Ok(OpCode::ClientIsReady),
            0xe => Ok(OpCode::ZoneDetailsDone),
            0x1a => Ok(OpCode::Command),
            0x23 => Ok(OpCode::PlayerUpdate),
            0x26 => Ok(OpCode::ClientUpdate),
            0x2b => Ok(OpCode::ZoneDetails),
            0x34 => Ok(OpCode::GameTimeSync),
            0x5d => Ok(OpCode::WelcomeScreen),
            0x71 => Ok(OpCode::Mount),
            0x8f => Ok(OpCode::ClientGameSettings),
            0xa5 => Ok(OpCode::DeploymentEnv),
            _ => Err(UnknownOpCode),
        }
    }

    /// Appends this opcode as a 16-bit little-endian header.
    pub fn serialize(&self, buffer: &mut Vec<u8>)
        ensures
            final(buffer)@ == old(buffer)@ + spec_u16_le(spec_op_code_value(*self)),
    {
        write_u16_le(buffer, self.value());
    }
}

} // verus!
