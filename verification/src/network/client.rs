use vstd::prelude::*;
use vstd::string::*;
use vstd::utf8::{is_ascii_chars, valid_utf8};
use crate::packet::{
    FloodRequest, FloodResponse, FRAGMENT_DSIZE, NodeId, NodeType, Packet, PacketType,
    SourceRoutingHeader, fragment_holding, holds_bytes, payload, payload_bytes, spec_next_hop,
};
use crate::text::{
    decimal, decimal_renders_value, is_decimal_of, labelled, lemma_ascii_bytes, lemma_decimal_u8_len,
    lossy_text, text_of,
};

verus! {

/// Draws a session id with `rand::random::<u64>()`. Trusted only in that
/// it returns some `u64`: the value is left free, as it depends on chance.
#[verifier::external_body]
fn random_session_id() -> u64 {
    rand::random::<u64>()
}

/// The node to which a client sends its flood request.
pub open spec fn flood_entry() -> NodeId {
    1
}

/// `p` is the flood request with which client `id` explores the network
/// in `session_id`: flood 1, started by the client, its trace holding the
/// client alone, with an empty route.
pub open spec fn is_flood_request(p: Packet, id: NodeId, session_id: u64) -> bool {
    &&& p.pack_type matches PacketType::FloodRequest(req) && {
        &&& req.flood_id == 1
        &&& req.initiator_id == id
        &&& req.path_trace@ == seq![(id, NodeType::Client)]
    }
    &&& p.routing_header.hop_index == 0
    &&& p.routing_header.hops@.len() == 0
    &&& p.session_id == session_id
}

/// The route along which client `id` sends its message.
pub open spec fn message_route(id: NodeId) -> Seq<NodeId> {
    seq![id, 1u8, 2u8, 3u8, 5u8]
}

/// The text of the message of client `id`.
pub open spec fn message_text(id: NodeId) -> Seq<u8> {
    "Message from client ".spec_bytes() + decimal(id as nat)
}

/// `p` is the message of client `id` in `session_id`: a single fragment,
/// the first of one, holding the text, sent along the client's route with
/// its next receiver at position 1.
pub open spec fn is_client_message(p: Packet, id: NodeId, session_id: u64) -> bool {
    &&& p.pack_type matches PacketType::MsgFragment(f) && {
        &&& f.fragment_index == 0
        &&& f.total_n_fragments == 1
        &&& holds_bytes(f, message_text(id))
    }
    &&& p.routing_header.hop_index == 1
    &&& p.routing_header.hops@ == message_route(id)
    &&& p.session_id == session_id
}

/// The message of client `id` names the client by its whole id: its
/// payload is the heading followed by `id` written in base ten.
pub proof fn message_names_client(p: Packet, id: NodeId, session_id: u64)
    requires
        is_client_message(p, id, session_id),
    ensures
        p.pack_type matches PacketType::MsgFragment(f) && exists|d: Seq<u8>|
            #![trigger is_decimal_of(d, id as nat)]
            is_decimal_of(d, id as nat) && payload(f) == "Message from client ".spec_bytes() + d,
{
    decimal_renders_value(id as nat);
    assert(is_decimal_of(decimal(id as nat), id as nat));
    if let PacketType::MsgFragment(f) = p.pack_type {
        assert(payload(f) =~= message_text(id));
    }
}

/// What a client makes of a packet it receives.
pub enum ClientNotice {
    /// The answer to a flood request.
    FloodResponse(FloodResponse),
    /// A message of a session, read as text.
    Message { session_id: u64, text: Vec<u8> },
    /// A packet the client does not handle.
    Unsupported,
}

/// A client node: it explores the network with a flood request, or sends
/// a message, and reports what it receives.
pub struct Client {
    client_id: NodeId,
}

impl Client {
    /// The id of the client.
    pub closed spec fn id(&self) -> NodeId {
        self.client_id
    }

    /// A client with id `client_id`.
    pub fn new(client_id: NodeId) -> (c: Self)
        ensures
            c.id() == client_id,
    {
        Client { client_id }
    }

    /// The id of the client.
    pub fn client_id(&self) -> (id: NodeId)
        ensures
            id == self.id(),
    {
        self.client_id
    }

    /// The flood request of the client in `session_id`.
    pub fn flood_request(&self, session_id: u64) -> (p: Packet)
        ensures
            is_flood_request(p, self.id(), session_id),
    {
        let trace = vec![(self.client_id, NodeType::Client)];
        assert(trace@ =~= seq![(self.client_id, NodeType::Client)]);
        Packet {
            routing_header: SourceRoutingHeader { hop_index: 0, hops: Vec::new() },
            session_id,
            pack_type: PacketType::FloodRequest(
                FloodRequest { flood_id: 1, initiator_id: self.client_id, path_trace: trace },
            ),
        }
    }

    /// Starts exploring the network: the flood request of the client in a
    /// fresh random session, and the node to send it to.
    pub fn start_flood(&self) -> (out: (NodeId, Packet))
        ensures
            out.0 == flood_entry(),
            is_flood_request(out.1, self.id(), out.1.session_id),
    {
        let session_id = random_session_id();
        (1, self.flood_request(session_id))
    }

    /// The message of the client in `session_id`.
    pub fn message(&self, session_id: u64) -> (p: Packet)
        ensures
            is_client_message(p, self.id(), session_id),
    {
        let content = labelled("Message from client ", self.client_id);
        proof {
            reveal_strlit("Message from client ");
            assert(is_ascii_chars("Message from client "@));
            lemma_ascii_bytes("Message from client "@);
            lemma_decimal_u8_len(self.client_id);
        }
        let fragment = fragment_holding(content.as_slice(), 0, 1);
        let route = vec![self.client_id, 1, 2, 3, 5];
        assert(route@ =~= message_route(self.client_id));
        Packet {
            routing_header: SourceRoutingHeader { hop_index: 1, hops: route },
            session_id,
            pack_type: PacketType::MsgFragment(fragment),
        }
    }

    /// Starts sending the message of the client in a fresh random session:
    /// the packet, and the node at position 1 of its route to send it to.
    pub fn start_message(&self) -> (out: (NodeId, Packet))
        ensures
            is_client_message(out.1, self.id(), out.1.session_id),
            spec_next_hop(out.1.routing_header) == Some(out.0),
    {
        let session_id = random_session_id();
        let p = self.message(session_id);
        let next = p.routing_header.hops[1];
        (next, p)
    }

    /// What the client reports of a packet while it waits for the answer
    /// to its flood request: the answer, or an unsupported packet.
    pub fn on_flood_packet(&self, packet: Packet) -> (notice: ClientNotice)
        ensures
            match packet.pack_type {
                PacketType::FloodResponse(resp) => notice == ClientNotice::FloodResponse(resp),
                _ => notice is Unsupported,
            },
    {
        match packet.pack_type {
            PacketType::FloodResponse(resp) => ClientNotice::FloodResponse(resp),
            _ => ClientNotice::Unsupported,
        }
    }

    /// What the client reports of a packet while it waits for messages: a
    /// fragment is read as text, invalid UTF-8 replaced; the answer to a
    /// flood request is reported as such; anything else is unsupported.
    pub fn on_packet(&self, packet: Packet) -> (notice: ClientNotice)
        requires
            packet.pack_type matches PacketType::MsgFragment(f) ==> f.length <= FRAGMENT_DSIZE,
        ensures
            match packet.pack_type {
                PacketType::MsgFragment(f) => notice matches ClientNotice::Message {
                    session_id,
                    text,
                } && session_id == packet.session_id && text@ == lossy_text(payload(f)) && (
                valid_utf8(payload(f)) ==> text@ == payload(f)),
                PacketType::FloodResponse(resp) => notice == ClientNotice::FloodResponse(resp),
                _ => notice is Unsupported,
            },
    {
        match packet.pack_type {
            PacketType::MsgFragment(f) => {
                let bytes = payload_bytes(&f);
                let text = text_of(bytes.as_slice());
                ClientNotice::Message { session_id: packet.session_id, text }
            },
            PacketType::FloodResponse(resp) => ClientNotice::FloodResponse(resp),
            _ => ClientNotice::Unsupported,
        }
    }
}

} // verus!
