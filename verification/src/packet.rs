use vstd::prelude::*;

verus! {

/// Identifier of a node of the network.
pub type NodeId = u8;

/// Number of payload bytes that one fragment carries.
pub const FRAGMENT_DSIZE: usize = 128;

/// Route of a packet: the nodes it travels through, and the position of
/// the node that is to receive it next.
pub struct SourceRoutingHeader {
    pub hop_index: usize,
    pub hops: Vec<NodeId>,
}

/// Kind of a node, as recorded in the path trace of a flood.
#[derive(Clone, Copy, Debug, PartialEq, Eq, Structural)]
pub enum NodeType {
    Client,
    Drone,
    Server,
}

/// One piece of a message: its position, the number of pieces of the
/// whole message, how many bytes of `data` are payload, and the bytes.
#[derive(Clone, Copy, Debug)]
pub struct Fragment {
    pub fragment_index: u64,
    pub total_n_fragments: u64,
    pub length: u8,
    pub data: [u8; FRAGMENT_DSIZE],
}

/// Request that floods the network to discover its topology.
pub struct FloodRequest {
    pub flood_id: u64,
    pub initiator_id: NodeId,
    pub path_trace: Vec<(NodeId, NodeType)>,
}

/// Answer to a flood request, carrying the path it travelled.
pub struct FloodResponse {
    pub flood_id: u64,
    pub path_trace: Vec<(NodeId, NodeType)>,
}

/// Acknowledgement of a received fragment.
pub struct Ack {
    pub fragment_index: u64,
}

/// Reason for which a fragment was not delivered.
#[derive(Clone, Copy, Debug, PartialEq, Eq, Structural)]
pub enum NackType {
    ErrorInRouting(NodeId),
    DestinationIsDrone,
    Dropped,
    UnexpectedRecipient(NodeId),
}

/// Negative acknowledgement of a fragment.
pub struct Nack {
    pub fragment_index: u64,
    pub nack_type: NackType,
}

/// What a packet carries.
pub enum PacketType {
    MsgFragment(Fragment),
    Ack(Ack),
    Nack(Nack),
    FloodRequest(FloodRequest),
    FloodResponse(FloodResponse),
}

/// A packet travelling through the network.
pub struct Packet {
    pub pack_type: PacketType,
    pub routing_header: SourceRoutingHeader,
    pub session_id: u64,
}

/// The payload bytes of a fragment: the first `length` bytes of `data`.
pub open spec fn payload(f: Fragment) -> Seq<u8> {
    f.data@.take(f.length as int)
}

/// A sequence of `n` zero bytes.
pub open spec fn zeros(n: nat) -> Seq<u8> {
    Seq::new(n, |i: int| 0u8)
}

/// A fragment whose payload is `bytes` (at most `FRAGMENT_DSIZE` of them),
/// with the rest of its data zero.
pub open spec fn holds_bytes(f: Fragment, bytes: Seq<u8>) -> bool {
    &&& bytes.len() <= FRAGMENT_DSIZE
    &&& f.length as nat == bytes.len()
    &&& f.data@ == bytes + zeros((FRAGMENT_DSIZE - bytes.len()) as nat)
}

/// The node that a route designates as the next receiver, if the route
/// has a node at `hop_index`.
pub open spec fn spec_next_hop(header: SourceRoutingHeader) -> Option<NodeId> {
    if header.hop_index < header.hops@.len() {
        Some(header.hops@[header.hop_index as int])
    } else {
        None
    }
}

/// The node that the route designates as the next receiver.
pub fn next_hop(header: &SourceRoutingHeader) -> (res: Option<NodeId>)
    ensures
        res == spec_next_hop(*header),
{
    if header.hop_index < header.hops.len() {
        Some(header.hops[header.hop_index])
    } else {
        None
    }
}

/// Copies the payload of a fragment.
pub fn payload_bytes(f: &Fragment) -> (p: Vec<u8>)
    requires
        f.length as nat <= FRAGMENT_DSIZE,
    ensures
        p@ == payload(*f),
{
    let n = f.length as usize;
    let mut p: Vec<u8> = Vec::new();
    for j in 0..n
        invariant
            n == f.length,
            n <= FRAGMENT_DSIZE,
            f.data@.len() == FRAGMENT_DSIZE,
            p@ == f.data@.take(j as int),
    {
        p.push(f.data[j]);
        assert(p@ =~= f.data@.take(j + 1));
    }
    p
}

/// The route `hops` travelled backwards.
pub fn reverse_route(hops: &Vec<NodeId>) -> (r: Vec<NodeId>)
    ensures
        r@ == hops@.reverse(),
{
    let mut r: Vec<NodeId> = Vec::new();
    let n = hops.len();
    let mut i: usize = n;
    while i > 0
        invariant
            n == hops@.len(),
            i <= n,
            r@.len() == n - i,
            forall|k: int| 0 <= k < n - i ==> r@[k] == hops@[n - 1 - k],
        decreases i,
    {
        i = i - 1;
        r.push(hops[i]);
    }
    assert(r@ =~= hops@.reverse());
    r
}

/// Builds a fragment whose payload is `bytes`, padded with zeros.
pub fn fragment_holding(
    bytes: &[u8],
    fragment_index: u64,
    total_n_fragments: u64,
) -> (f: Fragment)
    requires
        bytes@.len() <= FRAGMENT_DSIZE,
    ensures
        f.fragment_index == fragment_index,
        f.total_n_fragments == total_n_fragments,
        holds_bytes(f, bytes@),
        payload(f) == bytes@,
{
    let mut data = [0u8; 128];
    let n = bytes.len();
    for j in 0..n
        invariant
            n == bytes@.len(),
            n <= FRAGMENT_DSIZE,
            data@.len() == FRAGMENT_DSIZE,
            forall|k: int| 0 <= k < j ==> data@[k] == bytes@[k],
            forall|k: int| j <= k < FRAGMENT_DSIZE ==> data@[k] == 0u8,
    {
        data[j] = bytes[j];
    }
    let f = Fragment {
        fragment_index,
        total_n_fragments,
        length: n as u8,
        data,
    };
    assert(f.data@ =~= bytes@ + zeros((FRAGMENT_DSIZE - bytes@.len()) as nat));
    assert(payload(f) =~= bytes@);
    f
}

} // verus!
