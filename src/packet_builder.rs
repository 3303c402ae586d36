use crate::buffer::{
    encode_len, le32, new, terminated, Buffer, FRAME_CAPACITY,
};
use vstd::prelude::*;

verus! {

/// Message type of the authentication reply.
pub const AUTH_TYPE: u8 = 1;

/// Message type of a roster message.
pub const ROSTER_TYPE: u8 = 3;

/// Message type of a chat broadcast.
pub const MESSAGE_TYPE: u8 = 6;

/// A payload behind its length prefix.
pub open spec fn framed(payload: Seq<u8>) -> Seq<u8> {
    encode_len(payload.len()) + payload
}

/// The byte written for a flag.
pub open spec fn flag_byte(b: bool) -> u8 {
    if b {
        1
    } else {
        0
    }
}

/// The payload of an authentication reply.
pub open spec fn auth_payload(
    user_id: u32,
    username: Seq<char>,
    admin: bool,
    membership: u8,
    net_id: u32,
    brick_count: u32,
) -> Seq<u8> {
    seq![AUTH_TYPE] + le32(net_id as nat) + le32(brick_count as nat) + le32(user_id as nat)
        + terminated(username) + seq![flag_byte(admin), membership]
}

/// The payload of a chat broadcast.
pub open spec fn message_payload(message: Seq<char>) -> Seq<u8> {
    seq![MESSAGE_TYPE] + terminated(message)
}

/// Builds the framed authentication reply.
pub fn build_auth_packet(
    user_id: u32,
    username: String,
    admin: bool,
    membership: u8,
    net_id: u32,
    brick_count: u32,
) -> (packet: Buffer)
    requires
        username@.len() + 16 < FRAME_CAPACITY,
    ensures
        packet.data@ == framed(
            auth_payload(user_id, username@, admin, membership, net_id, brick_count),
        ),
{
    let ghost name = username@;
    let mut packet = new(None);
    packet.write_byte(AUTH_TYPE);
    packet.write_uint32(net_id);
    packet.write_uint32(brick_count);
    packet.write_uint32(user_id);
    packet.write_string(username);
    packet.write_byte(if admin { 1 } else { 0 });
    packet.write_byte(membership);
    assert(packet.data@ =~= auth_payload(user_id, name, admin, membership, net_id, brick_count));
    packet.write_uint_v();
    packet
}

/// Builds the framed chat broadcast of a message.
pub fn build_message_packet(message: String) -> (packet: Buffer)
    requires
        message@.len() + 2 < FRAME_CAPACITY,
    ensures
        packet.data@ == framed(message_payload(message@)),
{
    let ghost m = message@;
    let mut packet = new(None);
    packet.write_byte(MESSAGE_TYPE);
    packet.write_string(message);
    assert(packet.data@ =~= message_payload(m));
    packet.write_uint_v();
    packet
}

} // verus!
