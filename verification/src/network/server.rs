use vstd::prelude::*;
use vstd::string::*;
use crate::packet::{
    FloodRequest, FloodResponse, FRAGMENT_DSIZE, NodeId, NodeType, Packet, PacketType,
    SourceRoutingHeader, fragment_holding, spec_next_hop, zeros,
};
use crate::text::{
    decimal, decimal_renders_value, is_decimal_of, labelled, lemma_ascii_bytes, lemma_decimal_u8_len,
};
use vstd::utf8::is_ascii_chars;

verus! {

/// The path trace of the answer to a flood request that reached server
/// `id` along `trace`: the trace extended by the server, read backwards.
pub open spec fn response_trace(trace: Seq<(NodeId, NodeType)>, id: NodeId) -> Seq<(NodeId, NodeType)> {
    trace.push((id, NodeType::Server)).reverse()
}

/// The node ids of a path trace, in order.
pub open spec fn trace_nodes(trace: Seq<(NodeId, NodeType)>) -> Seq<NodeId> {
    trace.map_values(|p: (NodeId, NodeType)| p.0)
}

/// `reply` answers the flood request `req`, received in `session_id` by
/// server `id`: same flood and session, the reversed path as trace and as
/// route, its next receiver at position 1.
pub open spec fn is_flood_answer(reply: Packet, req: FloodRequest, session_id: u64, id: NodeId) -> bool {
    let trace = response_trace(req.path_trace@, id);
    &&& reply.pack_type matches PacketType::FloodResponse(resp) && {
        &&& resp.flood_id == req.flood_id
        &&& resp.path_trace@ == trace
    }
    &&& reply.routing_header.hop_index == 1
    &&& reply.routing_header.hops@ == trace_nodes(trace)
    &&& reply.session_id == session_id
}

/// The route along which server `id` sends its greeting.
pub open spec fn greeting_route(id: NodeId) -> Seq<NodeId> {
    seq![id, 3u8, 2u8, 1u8, 4u8]
}

/// The text of the greeting of server `id`.
pub open spec fn greeting_text(id: NodeId) -> Seq<u8> {
    "Messaggio dal client ".spec_bytes() + decimal(id as nat)
}

/// `reply` is the greeting of server `id` in `session_id`: one fragment,
/// the first of one, its data the greeting padded with zeros and its
/// length the whole data.
pub open spec fn is_greeting(reply: Packet, session_id: u64, id: NodeId) -> bool {
    &&& reply.pack_type matches PacketType::MsgFragment(f) && {
        &&& f.fragment_index == 0
        &&& f.total_n_fragments == 1
        &&& f.length == FRAGMENT_DSIZE
        &&& f.data@ == greeting_text(id) + zeros((FRAGMENT_DSIZE - greeting_text(id).len()) as nat)
    }
    &&& reply.routing_header.hop_index == 1
    &&& reply.routing_header.hops@ == greeting_route(id)
    &&& reply.session_id == session_id
}

/// A server node: it answers flood requests, and greets the sender of any
/// fragment.
pub struct Server {
    server_id: NodeId,
}

impl Server {
    /// The id of the server.
    pub closed spec fn id(&self) -> NodeId {
        self.server_id
    }

    /// A server with id `server_id`.
    pub fn new(server_id: NodeId) -> (s: Self)
        ensures
            s.id() == server_id,
    {
        Server { server_id }
    }

    /// The id of the server.
    pub fn server_id(&self) -> (id: NodeId)
        ensures
            id == self.id(),
    {
        self.server_id
    }

    /// The answer to the flood request `req` received in `session_id`.
    pub fn flood_response(&self, req: FloodRequest, session_id: u64) -> (reply: Packet)
        ensures
            is_flood_answer(reply, req, session_id, self.id()),
    {
        let ghost trace = response_trace(req.path_trace@, self.server_id);
        let mut path = req.path_trace;
        path.push((self.server_id, NodeType::Server));
        let n = path.len();
        let mut reversed: Vec<(NodeId, NodeType)> = Vec::new();
        let mut hops: Vec<NodeId> = Vec::new();
        let mut i: usize = n;
        while i > 0
            invariant
                n == path@.len(),
                path@ == req.path_trace@.push((self.server_id, NodeType::Server)),
                i <= n,
                reversed@.len() == n - i,
                hops@.len() == n - i,
                forall|k: int| 0 <= k < n - i ==> reversed@[k] == path@[n - 1 - k],
                forall|k: int| 0 <= k < n - i ==> hops@[k] == path@[n - 1 - k].0,
            decreases i,
        {
            i = i - 1;
            let entry = path[i];
            reversed.push(entry);
            hops.push(entry.0);
        }
        assert(reversed@ =~= trace);
        assert(hops@ =~= trace_nodes(trace));
        Packet {
            pack_type: PacketType::FloodResponse(
                FloodResponse { flood_id: req.flood_id, path_trace: reversed },
            ),
            routing_header: SourceRoutingHeader { hop_index: 1, hops },
            session_id,
        }
    }

    /// What the server sends back for a received packet when it serves
    /// flood requests: the answer to a flood request, nothing for any
    /// other packet. The answer goes to the node at position 1 of its route.
    pub fn answer_flood(&self, packet: Packet) -> (reply: Option<Packet>)
        ensures
            match packet.pack_type {
                PacketType::FloodRequest(req) => reply matches Some(r) && is_flood_answer(
                    r,
                    req,
                    packet.session_id,
                    self.id(),
                ),
                _ => reply is None,
            },
    {
        match packet.pack_type {
            PacketType::FloodRequest(req) => Some(self.flood_response(req, packet.session_id)),
            _ => None,
        }
    }

    /// The greeting the server sends in `session_id`.
    pub fn greeting(&self, session_id: u64) -> (reply: Packet)
        ensures
            is_greeting(reply, session_id, self.id()),
    {
        let content = labelled("Messaggio dal client ", self.server_id);
        proof {
            reveal_strlit("Messaggio dal client ");
            assert(is_ascii_chars("Messaggio dal client "@));
            lemma_ascii_bytes("Messaggio dal client "@);
            assert(decimal(self.server_id as nat).len() <= 3) by {
                lemma_decimal_u8_len(self.server_id);
            }
        }
        let mut fragment = fragment_holding(content.as_slice(), 0, 1);
        fragment.length = 128;
        let route = vec![self.server_id, 3, 2, 1, 4];
        assert(route@ =~= greeting_route(self.server_id));
        Packet {
            pack_type: PacketType::MsgFragment(fragment),
            routing_header: SourceRoutingHeader { hop_index: 1, hops: route },
            session_id,
        }
    }

    /// What the server sends back for a received packet when it greets:
    /// its greeting for a fragment, in the fragment's session; nothing for
    /// any other packet. The greeting goes to the node at position 1 of
    /// its route.
    pub fn answer_fragment(&self, packet: Packet) -> (reply: Option<Packet>)
        ensures
            match packet.pack_type {
                PacketType::MsgFragment(_) => reply matches Some(r) && is_greeting(
                    r,
                    packet.session_id,
                    self.id(),
                ),
                _ => reply is None,
            },
    {
        match packet.pack_type {
            PacketType::MsgFragment(_) => Some(self.greeting(packet.session_id)),
            _ => None,
        }
    }
}

/// The answer to a flood request carries the whole path of the request,
/// the server added, backwards: the server first, then entry `n - k` of
/// the request's trace at position `k`; its route is the node ids of that
/// trace, position by position.
pub proof fn flood_answer_reverses_trace(reply: Packet, req: FloodRequest, session_id: u64, id: NodeId)
    requires
        is_flood_answer(reply, req, session_id, id),
    ensures
        reply.pack_type matches PacketType::FloodResponse(resp) && {
            let n = req.path_trace@.len() as int;
            &&& resp.flood_id == req.flood_id
            &&& resp.path_trace@.len() == n + 1
            &&& resp.path_trace@[0] == (id, NodeType::Server)
            &&& forall|k: int|
                1 <= k <= n ==> #[trigger] resp.path_trace@[k] == req.path_trace@[n - k]
            &&& reply.routing_header.hops@.len() == n + 1
            &&& forall|k: int|
                0 <= k <= n ==> #[trigger] reply.routing_header.hops@[k] == resp.path_trace@[k].0
        },
{
    let n = req.path_trace@.len() as int;
    let full = req.path_trace@.push((id, NodeType::Server));
    assert(full.reverse()[0] == full[n]);
    assert forall|k: int| 1 <= k <= n implies #[trigger] full.reverse()[k] == req.path_trace@[n - k] by {
        assert(full.reverse()[k] == full[n - k]);
    }
}

/// The greeting of server `id` names the server by its whole id: its data
/// is the heading, then `id` written in base ten, then zeros.
pub proof fn greeting_names_server(reply: Packet, session_id: u64, id: NodeId)
    requires
        is_greeting(reply, session_id, id),
    ensures
        reply.pack_type matches PacketType::MsgFragment(f) && exists|d: Seq<u8>|
            #![trigger is_decimal_of(d, id as nat)]
            is_decimal_of(d, id as nat) && f.data@ == "Messaggio dal client ".spec_bytes() + d
                + zeros((FRAGMENT_DSIZE - "Messaggio dal client ".spec_bytes().len() - d.len()) as nat),
{
    decimal_renders_value(id as nat);
    assert(is_decimal_of(decimal(id as nat), id as nat));
}

/// The answer to a flood request travels the flood's path backwards: its
/// route starts at the answering server, ends at the node where the flood
/// began, and its next receiver is the node from which the request came.
pub proof fn flood_answer_retraces_path(reply: Packet, req: FloodRequest, session_id: u64, id: NodeId)
    requires
        is_flood_answer(reply, req, session_id, id),
        req.path_trace@.len() > 0,
    ensures
        reply.routing_header.hops@[0] == id,
        reply.routing_header.hops@.last() == req.path_trace@[0].0,
        spec_next_hop(reply.routing_header) == Some(req.path_trace@.last().0),
{
    let trace = response_trace(req.path_trace@, id);
    let n = req.path_trace@.len();
    assert(trace[0] == (id, NodeType::Server));
    assert(trace[1] == req.path_trace@[n - 1]);
    assert(trace[trace.len() - 1] == req.path_trace@[0]);
}

} // verus!
