//! Command packets: interaction requests and listings.

use vstd::prelude::*;

use crate::game_packet::{spec_op_code_value, OpCode};
use crate::wire::{
    spec_string_le,
    spec_u16_le,
    spec_u32_le,
    spec_u64_le,
    write_bool,
    write_string_le,
    write_u16_le,
    write_u32_le,
    write_u64_le,
};

verus! {

#[derive(Copy, Clone, Debug, PartialEq, Eq, Structural)]
pub enum CommandOpCode {
    InteractionList,
    InteractionRequest,
}

/// The wire value of each code.
pub open spec fn spec_command_op_code_value(op: CommandOpCode) -> u16 {
    match op {
        CommandOpCode::InteractionList => 0x9,
        CommandOpCode::InteractionRequest => 0xf,
    }
}

impl CommandOpCode {
    /// The wire value of this code.
    pub fn value(&self) -> (r: u16)
        ensures
            r == spec_command_op_code_value(*self),
    {
        match self {
            CommandOpCode::InteractionList => 0x9,
            CommandOpCode::InteractionRequest => 0xf,
        }
    }
}

/// The error for a 16-bit value that names no known command.
#[derive(Copy, Clone, Debug, PartialEq, Eq, Structural)]
pub struct UnknownCommandOpCode;

/// The command a 16-bit value stands for, if any.
pub open spec fn spec_command_op_code_from_value(value: u16) -> Option<CommandOpCode> {
    match value {
        0x9 => Some(CommandOpCode::InteractionList),
        0xf => Some(CommandOpCode::InteractionRequest),
        _ => None,
    }
}

impl CommandOpCode {
    /// The command a wire value stands for, or the unknown-command error.
    pub fn from_value(value: u16) -> (r: Result<CommandOpCode, UnknownCommandOpCode>)
        ensures
            r matches Ok(op) ==> spec_command_op_code_from_value(value) == Some(op),
            r is Err ==> spec_command_op_code_from_value(value) is None,
    {
        match value {
            0x9 => Ok(CommandOpCode::InteractionList),
            0xf => Ok(CommandOpCode::InteractionRequest),
            _ => Err(UnknownCommandOpCode),
        }
    }

    /// Appends the full opcode header: the command opcode, then this
    /// sub-opcode, both 16-bit little-endian.
    pub fn serialize(&self, buffer: &mut Vec<u8>)
        ensures
            final(buffer)@ == old(buffer)@ + spec_u16_le(spec_op_code_value(OpCode::Command))
                + spec_u16_le(spec_command_op_code_value(*self)),
    {
        write_u16_le(buffer, OpCode::Command.value());
        write_u16_le(buffer, self.value());
    }
}

#[derive(Debug, Clone)]
pub struct Interaction {
    pub unknown1: u32,
    pub unknown2: u32,
    pub unknown3: u32,
    pub unknown4: u32,
    pub unknown5: u32,
    pub unknown6: u32,
    pub unknown7: u32,
    pub unknown8: u32,
    pub unknown9: u32,
}

impl Interaction {
    /// The serialized body of this packet: each field in order, integers
    /// little-endian, booleans one byte, strings length-prefixed.
    pub open spec fn spec_bytes(self) -> Seq<u8> {
        spec_u32_le(self.unknown1) + spec_u32_le(self.unknown2) + spec_u32_le(self.unknown3) + spec_u32_le(self.unknown4) + spec_u32_le(self.unknown5) + spec_u32_le(self.unknown6) + spec_u32_le(self.unknown7) + spec_u32_le(self.unknown8) + spec_u32_le(self.unknown9)
    }

    /// Appends the serialized body to `buffer`.
    pub fn serialize(&self, buffer: &mut Vec<u8>)
        ensures
            final(buffer)@ == old(buffer)@ + self.spec_bytes(),
    {
        write_u32_le(buffer, self.unknown1);
        write_u32_le(buffer, self.unknown2);
        write_u32_le(buffer, self.unknown3);
        write_u32_le(buffer, self.unknown4);
        write_u32_le(buffer, self.unknown5);
        write_u32_le(buffer, self.unknown6);
        write_u32_le(buffer, self.unknown7);
        write_u32_le(buffer, self.unknown8);
        write_u32_le(buffer, self.unknown9);
        proof {
            assert(buffer@ =~= old(buffer)@ + self.spec_bytes());
        }
    }
}

/// The serialized run of interactions: a 4-byte little-endian count, then
/// each interaction's body.
pub open spec fn spec_interactions_bytes(v: Seq<Interaction>) -> Seq<u8>
    decreases v.len(),
{
    if v.len() == 0 {
        Seq::<u8>::empty()
    } else {
        v[0].spec_bytes() + spec_interactions_bytes(v.skip(1))
    }
}

/// Appending an interaction appends its body.
proof fn lemma_interactions_bytes_push(v: Seq<Interaction>, x: Interaction)
    ensures
        spec_interactions_bytes(v.push(x)) == spec_interactions_bytes(v) + x.spec_bytes(),
    decreases v.len(),
{
    if v.len() == 0 {
        assert(v.push(x)[0] == x);
        assert(v.push(x).skip(1).len() == 0);
        assert(spec_interactions_bytes(v.push(x).skip(1)) == Seq::<u8>::empty());
        assert(spec_interactions_bytes(v.push(x)) == x.spec_bytes() + Seq::<u8>::empty());
        assert(spec_interactions_bytes(v.push(x)) =~= spec_interactions_bytes(v)
            + x.spec_bytes());
    } else {
        assert(v.push(x)[0] == v[0]);
        assert(v.push(x).skip(1) =~= v.skip(1).push(x));
        lemma_interactions_bytes_push(v.skip(1), x);
        assert(spec_interactions_bytes(v.push(x)) =~= spec_interactions_bytes(v)
            + x.spec_bytes());
    }
}

#[derive(Debug, Clone)]
pub struct InteractionList {
    pub guid: u64,
    pub unknown1: bool,
    pub interactions: Vec<Interaction>,
    pub unknown2: String,
    pub unknown3: bool,
    pub unknown4: bool,
}

impl InteractionList {
    /// The serialized body: the fields in order, the interaction run behind
    /// a 4-byte little-endian count.
    pub open spec fn spec_bytes(self) -> Seq<u8> {
        spec_u64_le(self.guid) + seq![(if self.unknown1 { 1u8 } else { 0u8 })] + spec_u32_le(
            self.interactions@.len() as u32,
        ) + spec_interactions_bytes(self.interactions@) + spec_string_le(self.unknown2@) + seq![
            (if self.unknown3 { 1u8 } else { 0u8 }),
            (if self.unknown4 { 1u8 } else { 0u8 }),
        ]
    }

    /// Appends the serialized body to `buffer`.
    pub fn serialize(&self, buffer: &mut Vec<u8>)
        requires
            self.interactions@.len() <= 0xFFFF_FFFF,
            vstd::utf8::encode_utf8(self.unknown2@).len() <= 0xFFFF_FFFF,
        ensures
            final(buffer)@ == old(buffer)@ + self.spec_bytes(),
    {
        write_u64_le(buffer, self.guid);
        write_bool(buffer, self.unknown1);
        write_u32_le(buffer, self.interactions.len() as u32);
        let n: usize = self.interactions.len();
        let mut i: usize = 0;
        let ghost mid = buffer@;
        proof {
            assert(spec_interactions_bytes(self.interactions@.take(0)) == Seq::<u8>::empty());
            assert(buffer@ =~= mid + spec_interactions_bytes(self.interactions@.take(0)));
        }
        while i < n
            invariant
                i <= n == self.interactions@.len(),
                buffer@ == mid + spec_interactions_bytes(self.interactions@.take(i as int)),
            decreases n - i,
        {
            self.interactions[i].serialize(buffer);
            proof {
                assert(self.interactions@.take(i as int).push(self.interactions@[i as int])
                    =~= self.interactions@.take(i as int + 1));
                lemma_interactions_bytes_push(
                    self.interactions@.take(i as int),
                    self.interactions@[i as int],
                );
            }
            i = i + 1;
        }
        proof {
            assert(self.interactions@.take(n as int) =~= self.interactions@);
        }
        write_string_le(buffer, &self.unknown2);
        write_bool(buffer, self.unknown3);
        write_bool(buffer, self.unknown4);
        proof {
            assert(buffer@ =~= old(buffer)@ + self.spec_bytes());
        }
    }
}

#[derive(Debug, Clone)]
pub struct InteractionRequest {
    pub requester: u64,
    pub target: u64,
}

impl InteractionRequest {
    /// The serialized body of this packet: each field in order, integers
    /// little-endian, booleans one byte, strings length-prefixed.
    pub open spec fn spec_bytes(self) -> Seq<u8> {
        spec_u64_le(self.requester) + spec_u64_le(self.target)
    }

    /// Appends the serialized body to `buffer`.
    pub fn serialize(&self, buffer: &mut Vec<u8>)
        ensures
            final(buffer)@ == old(buffer)@ + self.spec_bytes(),
    {
        write_u64_le(buffer, self.requester);
        write_u64_le(buffer, self.target);
        proof {
            assert(buffer@ =~= old(buffer)@ + self.spec_bytes());
        }
    }
}

} // verus!
