//! Open Sound Control messages and packets.

use crate::single::Single;
use vstd::prelude::*;
use vstd::string::*;

verus! {

/// The most bytes of a packet that are read from the network at once.
pub const MAX_PACKET: usize = 1536;

/// One argument of a message.
#[derive(Debug)]
pub enum OscArg {
    Int(i32),
    Long(i64),
    Float(Single),
    /// A binary64 number, as its bits.
    Double(u64),
    Text(String),
    /// An argument of a type that no message of the workstation uses.
    Other,
}

/// An address with its arguments.
#[derive(Debug)]
pub struct OscMessage {
    pub addr: String,
    pub args: Vec<OscArg>,
}

/// A message, or a bundle of packets.
#[derive(Debug)]
pub enum OscPacket {
    Message(OscMessage),
    Bundle(Vec<OscPacket>),
}

/// What an argument holds.
pub enum ArgView {
    Int(i32),
    Long(i64),
    Float(Single),
    Double(u64),
    Text(Seq<char>),
    Other,
}

/// What a message holds.
#[verifier::ext_equal]
pub struct MessageView {
    pub addr: Seq<char>,
    pub args: Seq<ArgView>,
}

impl View for OscArg {
    type V = ArgView;

    open spec fn view(&self) -> ArgView {
        match self {
            OscArg::Int(i) => ArgView::Int(*i),
            OscArg::Long(i) => ArgView::Long(*i),
            OscArg::Float(f) => ArgView::Float(*f),
            OscArg::Double(d) => ArgView::Double(*d),
            OscArg::Text(t) => ArgView::Text(t@),
            OscArg::Other => ArgView::Other,
        }
    }
}

/// What the arguments of a list hold.
pub open spec fn args_view(args: Seq<OscArg>) -> Seq<ArgView> {
    args.map_values(|a: OscArg| a@)
}

impl View for OscMessage {
    type V = MessageView;

    open spec fn view(&self) -> MessageView {
        MessageView { addr: self.addr@, args: args_view(self.args@) }
    }
}

/// The messages of the first `n` of `packets`.
pub open spec fn messages_of(packets: Seq<OscPacket>, n: nat) -> Seq<MessageView>
    decreases packets, n,
{
    if n == 0 || n > packets.len() {
        Seq::empty()
    } else {
        messages_of(packets, (n - 1) as nat) + packets[n - 1].messages()
    }
}

impl OscPacket {
    /// The messages in this packet, in the order in which they stand.
    pub open spec fn messages(self) -> Seq<MessageView>
        decreases self,
    {
        match self {
            OscPacket::Message(m) => seq![m@],
            OscPacket::Bundle(packets) => messages_of(packets@, packets@.len()),
        }
    }
}

/// `nannou_osc::Packet`, the packet type of the decoder.
#[verifier::external_type_specification]
#[verifier::external_body]
pub struct ExPacket(nannou_osc::Packet);

/// The messages that a packet of the decoder holds, in the order in which they stand.
pub uninterp spec fn packet_messages(packet: nannou_osc::Packet) -> Seq<MessageView>;

/// What `nannou_osc::decode` makes of `bytes`: the messages of the packet that they
/// encode, or the text of the error.
pub uninterp spec fn decoded(bytes: Seq<u8>) -> Result<Seq<MessageView>, Seq<char>>;

/// Takes a `nannou_osc::Packet` apart and puts it together again as this library's own
/// type, part by part. The contract names the messages in it. An address, a whole number
/// and a text are moved; a number in floating point is handed over as its bits; of an
/// argument of another type only its place is kept; the time of a bundle is dropped.
#[verifier::external_body]
fn carry_over(packet: nannou_osc::Packet) -> (r: OscPacket)
    ensures
        r.messages() == packet_messages(packet),
{
    match packet {
        nannou_osc::Packet::Message(m) => OscPacket::Message(OscMessage {
            addr: m.addr,
            args: m.args.into_iter().map(|a| match a {
                nannou_osc::Type::Int(i) => OscArg::Int(i),
                nannou_osc::Type::Long(i) => OscArg::Long(i),
                nannou_osc::Type::Float(f) => OscArg::Float(Single { bits: f.to_bits() }),
                nannou_osc::Type::Double(d) => OscArg::Double(d.to_bits()),
                nannou_osc::Type::String(t) => OscArg::Text(t),
                _ => OscArg::Other,
            }).collect(),
        }),
        nannou_osc::Packet::Bundle(b) => OscPacket::Bundle(
            b.content.into_iter().map(|p| carry_over(p.into())).collect()),
    }
}

/// Calls `nannou_osc::decode`, which reads one packet from the front of `bytes` and
/// depends on nothing else. The contract names the outcome: `decoded` gives the
/// messages of the packet, in order, or the text of the decoder's error. No more
/// bytes are handed over than one read from the network yields, so that the nesting
/// of bundles, on which the decoder recurses, stays shallow.
#[verifier::external_body]
fn decode(bytes: &[u8]) -> (r: Result<nannou_osc::Packet, String>)
    requires
        bytes@.len() <= MAX_PACKET,
    ensures
        match r {
            Ok(p) => decoded(bytes@) == Ok::<Seq<MessageView>, Seq<char>>(packet_messages(p)),
            Err(e) => decoded(bytes@) == Err::<Seq<MessageView>, Seq<char>>(e@),
        },
{
    nannou_osc::decode(bytes).map_err(|e| e.to_string())
}

/// Reads the packet at the front of `bytes`.
pub fn decode_packet(bytes: &[u8]) -> (r: Result<OscPacket, String>)
    requires
        bytes@.len() <= MAX_PACKET,
    ensures
        match r {
            Ok(p) => decoded(bytes@) == Ok::<Seq<MessageView>, Seq<char>>(p.messages()),
            Err(e) => decoded(bytes@) == Err::<Seq<MessageView>, Seq<char>>(e@),
        },
{
    match decode(bytes) {
        Ok(p) => Ok(carry_over(p)),
        Err(e) => Err(e),
    }
}

/// A message for `addr` with `args`.
pub fn message(addr: &str, args: Vec<OscArg>) -> (m: OscMessage)
    ensures
        m@ == (MessageView { addr: addr@, args: args_view(args@) }),
{
    OscMessage { addr: addr.to_owned(), args }
}

} // verus!
