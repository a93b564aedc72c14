//! Datagrams as the bridge reads them.

use crate::osc::store::CommandMap;
use crate::osc::touchpoints::{message_applied, process_message, Ingest, Touchpoints};
use vstd::prelude::*;
use vstd::string::*;

verus! {

/// What a message carries as its first argument. A float is held as its
/// IEEE 754 single-precision bit pattern.
#[derive(Clone, Copy, Debug, PartialEq, Eq, Structural)]
pub enum Argument {
    Float(u32),
    Other,
    Missing,
}

/// The part of an OSC message that the bridge reads: its address and its
/// first argument.
#[derive(Debug)]
pub struct OscMessage {
    pub addr: String,
    pub arg: Argument,
}

/// An OSC packet: a message, or a bundle, whose content the bridge ignores.
#[derive(Debug)]
pub enum OscPacket {
    Message(OscMessage),
    Bundle,
}

/// The mathematical view of a message: its address as a sequence of
/// characters, and its first argument.
pub struct MessageView {
    pub addr: Seq<char>,
    pub arg: Argument,
}

impl View for OscMessage {
    type V = MessageView;

    open spec fn view(&self) -> MessageView {
        MessageView { addr: self.addr@, arg: self.arg }
    }
}

/// The mathematical view of a packet.
pub enum PacketView {
    Message(MessageView),
    Bundle,
}

impl View for OscPacket {
    type V = PacketView;

    open spec fn view(&self) -> PacketView {
        match self {
            OscPacket::Message(msg) => PacketView::Message(msg@),
            OscPacket::Bundle => PacketView::Bundle,
        }
    }
}

/// The largest datagram that is decoded, in bytes.
pub const MTU: usize = 1536;

/// The packet that a datagram decodes to, or `None` where it is no OSC
/// packet.
pub uninterp spec fn decoded_packet(bytes: Seq<u8>) -> Option<PacketView>;

/// Decodes a datagram with `rosc::decoder::decode_udp` and keeps of the
/// packet what the bridge reads: of a message its address and the kind of its
/// first argument, with the bit pattern of a float; of a bundle that it is
/// one. The contract claims that the outcome depends on the bytes alone, and
/// nothing of what it is. Datagrams beyond `MTU` are left out, which bounds
/// how deep bundles can nest.
#[verifier::external_body]
fn decode_udp(bytes: &[u8]) -> (packet: Option<OscPacket>)
    requires
        bytes@.len() <= MTU,
    ensures
        match packet {
            Some(p) => decoded_packet(bytes@) == Some(p@),
            None => decoded_packet(bytes@) is None,
        },
{
    match rosc::decoder::decode_udp(bytes) {
        Ok((_, rosc::OscPacket::Message(msg))) => {
            let arg = match msg.args.first() {
                Some(rosc::OscType::Float(value)) => Argument::Float(value.to_bits()),
                Some(_) => Argument::Other,
                None => Argument::Missing,
            };
            Some(OscPacket::Message(OscMessage { addr: msg.addr, arg }))
        },
        Ok((_, rosc::OscPacket::Bundle(_))) => Some(OscPacket::Bundle),
        Err(_) => None,
    }
}

/// Decodes a datagram. One that is longer than `MTU`, or that is no OSC
/// packet, gives `None`.
pub fn decode_datagram(bytes: &[u8]) -> (packet: Option<OscPacket>)
    ensures
        bytes@.len() > MTU ==> packet is None,
        bytes@.len() <= MTU ==> match packet {
            Some(p) => decoded_packet(bytes@) == Some(p@),
            None => decoded_packet(bytes@) is None,
        },
{
    if bytes.len() > MTU {
        None
    } else {
        decode_udp(bytes)
    }
}

/// Picks the message out of a packet. A bundle holds none that is read.
pub fn handle_packet(packet: OscPacket) -> (message: Option<OscMessage>)
    ensures
        match packet {
            OscPacket::Message(msg) => message == Some(msg),
            OscPacket::Bundle => message is None,
        },
{
    match packet {
        OscPacket::Message(msg) => Some(msg),
        OscPacket::Bundle => None,
    }
}

/// What a decoded datagram does to the store at `now`, and how that is
/// reported: nothing where it is no packet or a bundle, and what its message
/// does otherwise.
pub open spec fn packet_applied(
    packet: Option<PacketView>,
    registry: &Touchpoints,
    before: CommandMap,
    after: CommandMap,
    outcome: Ingest,
    now: u64,
) -> bool {
    match packet {
        None => outcome == Ingest::Malformed && after.states() == before.states() && after@
            == before@ && after.wf(),
        Some(PacketView::Bundle) => outcome == Ingest::Bundle && after.states() == before.states()
            && after@ == before@ && after.wf(),
        Some(PacketView::Message(msg)) => message_applied(
            msg.addr,
            msg.arg,
            registry,
            before,
            after,
            outcome,
            now,
        ),
    }
}

/// Applies a decoded packet, or the lack of one, to the store at `now`.
pub fn apply_packet(
    packet: Option<OscPacket>,
    registry: &Touchpoints,
    commandmap: &mut CommandMap,
    now: u64,
) -> (outcome: Ingest)
    requires
        old(commandmap).wf(),
        registry.fits(now),
    ensures
        packet_applied(
            match packet {
                Some(p) => Some(p@),
                None => None,
            },
            registry,
            *old(commandmap),
            *final(commandmap),
            outcome,
            now,
        ),
{
    match packet {
        None => Ingest::Malformed,
        Some(packet) => match handle_packet(packet) {
            None => Ingest::Bundle,
            Some(msg) => process_message(&msg, registry, commandmap, now),
        },
    }
}

/// Takes one datagram in at `now`: decodes it and applies its message to the
/// store. Whatever the bytes are, the call returns; a datagram that is too
/// long, that is no packet, that is a bundle, or whose message is dropped
/// leaves the store as it was.
pub fn ingest_datagram(
    bytes: &[u8],
    registry: &Touchpoints,
    commandmap: &mut CommandMap,
    now: u64,
) -> (outcome: Ingest)
    requires
        old(commandmap).wf(),
        registry.fits(now),
    ensures
        packet_applied(
            if bytes@.len() > MTU {
                None
            } else {
                decoded_packet(bytes@)
            },
            registry,
            *old(commandmap),
            *final(commandmap),
            outcome,
            now,
        ),
{
    let packet = decode_datagram(bytes);
    apply_packet(packet, registry, commandmap, now)
}

/// A datagram that does not end in `Applied` changes nothing.
pub proof fn lemma_dropped_changes_nothing(
    packet: Option<PacketView>,
    registry: &Touchpoints,
    before: CommandMap,
    after: CommandMap,
    outcome: Ingest,
    now: u64,
)
    requires
        packet_applied(packet, registry, before, after, outcome, now),
        outcome != Ingest::Applied,
    ensures
        after.states() == before.states(),
        after@ == before@,
{
}

} // verus!
