use std::collections::HashMap;
use vstd::prelude::*;
use vstd::string::*;
use crate::packet::{Fragment, Packet, PacketType, SourceRoutingHeader, reverse_route, spec_next_hop};
use crate::assembler::{Assembler, PendingView, assembly_step};
use crate::network::deassembler::{Deassembler, is_fragmentation};
use crate::text::{lemma_ascii_bytes, lossy_text, str_bytes, text_of};
use vstd::utf8::{is_ascii_chars, valid_utf8};

verus! {

/// The bytes of the answer to a request: a fixed heading followed by the
/// request read as text, invalid UTF-8 replaced.
pub open spec fn response_for(request: Seq<u8>) -> Seq<u8> {
    "Risposta ottenuta per: ".spec_bytes() + lossy_text(request)
}

/// The heading of every response is the 23 ASCII bytes of
/// "Risposta ottenuta per: ".
pub proof fn response_heading_is_ascii()
    ensures
        "Risposta ottenuta per: ".spec_bytes().len() == 23,
        "Risposta ottenuta per: ".spec_bytes() == "Risposta ottenuta per: "@.map_values(
            |c: char| c as u8,
        ),
{
    reveal_strlit("Risposta ottenuta per: ");
    assert(is_ascii_chars("Risposta ottenuta per: "@));
    lemma_ascii_bytes("Risposta ottenuta per: "@);
    assert("Risposta ottenuta per: ".spec_bytes() =~= "Risposta ottenuta per: "@.map_values(
        |c: char| c as u8,
    ));
}

/// A request that is valid UTF-8 is echoed whole: the response is the
/// heading followed by every byte of the request, 23 bytes longer than it.
pub proof fn response_echoes_request(request: Seq<u8>)
    requires
        valid_utf8(request),
    ensures
        response_for(request) == "Risposta ottenuta per: ".spec_bytes() + request,
        response_for(request).len() == 23 + request.len(),
        response_for(request).skip(23) == request,
{
    response_heading_is_ascii();
    assert(response_for(request).skip(23) =~= request);
}

/// `reply` carries `fragment` back along the route of `request`: the
/// route reversed, its next receiver at position 1, in the same session.
pub open spec fn is_reply_to(reply: Packet, fragment: Fragment, request: Packet) -> bool {
    &&& reply.pack_type == PacketType::MsgFragment(fragment)
    &&& reply.routing_header.hop_index == 1
    &&& reply.routing_header.hops@ == request.routing_header.hops@.reverse()
    &&& reply.session_id == request.session_id
}

/// A reply travels the route of its request backwards: its route read
/// backwards is the request's route, and its next receiver is the node
/// that preceded the server on the request's route.
pub proof fn reply_retraces_route(reply: Packet, fragment: Fragment, request: Packet)
    requires
        is_reply_to(reply, fragment, request),
        request.routing_header.hops@.len() >= 2,
    ensures
        reply.routing_header.hops@.reverse() == request.routing_header.hops@,
        spec_next_hop(reply.routing_header) == Some(
            request.routing_header.hops@[request.routing_header.hops@.len() - 2],
        ),
{
    assert(request.routing_header.hops@.reverse().reverse() =~= request.routing_header.hops@);
}

/// A server that reassembles the requests it receives in fragments and
/// answers each complete request with the fragments of its response.
pub struct Server {
    deassembler: Deassembler,
    assembler: Assembler,
    resources: HashMap<String, Vec<u8>>,
}

impl Server {
    /// The requests under assembly, per session.
    pub closed spec fn assembly(&self) -> Map<u64, PendingView> {
        self.assembler@
    }

    /// The responses waiting to be split, per session.
    pub closed spec fn outgoing(&self) -> Map<u64, Seq<u8>> {
        self.deassembler@
    }

    /// A server with no request under assembly and no response pending.
    pub fn new() -> (s: Self)
        ensures
            s.assembly() == Map::<u64, PendingView>::empty(),
            s.outgoing() == Map::<u64, Seq<u8>>::empty(),
    {
        Server { deassembler: Deassembler::new(), assembler: Assembler::new(), resources: HashMap::new() }
    }

    /// Takes in a packet. A fragment goes to the assembly of its session;
    /// when it completes the request, the response to the request is split
    /// and its fragments returned. Anything else yields no fragment.
    pub fn process_message(&mut self, packet: Packet) -> (frags: Vec<Fragment>)
        ensures
            match packet.pack_type {
                PacketType::MsgFragment(f) => {
                    let step = assembly_step(old(self).assembly(), f, packet.session_id);
                    &&& final(self).assembly() == step.0
                    &&& match step.1 {
                        Some(request) => {
                            &&& is_fragmentation(frags@, response_for(request))
                            &&& final(self).outgoing() == old(self).outgoing().remove(
                                packet.session_id,
                            )
                        },
                        None => frags@.len() == 0 && final(self).outgoing() == old(
                            self,
                        ).outgoing(),
                    }
                },
                _ => {
                    &&& frags@.len() == 0
                    &&& final(self).assembly() == old(self).assembly()
                    &&& final(self).outgoing() == old(self).outgoing()
                },
            },
    {
        match packet.pack_type {
            PacketType::MsgFragment(fragment) => {
                match self.assembler.add_fragment(fragment, packet.session_id) {
                    Some(message) => {
                        let resource = self.obtain_resources(message);
                        self.deassembler.add_message(resource, packet.session_id)
                    },
                    None => Vec::new(),
                }
            },
            _ => Vec::new(),
        }
    }

    /// The response to a request.
    pub fn obtain_resources(&self, request: Vec<u8>) -> (response: Vec<u8>)
        ensures
            response@ == response_for(request@),
            valid_utf8(request@) ==> response@ == "Risposta ottenuta per: ".spec_bytes() + request@,
            valid_utf8(request@) ==> response@.len() == 23 + request@.len(),
    {
        let mut response = str_bytes("Risposta ottenuta per: ");
        let text = text_of(request.as_slice());
        let ghost before = response@;
        for i in 0..text.len()
            invariant
                response@ == before + text@.take(i as int),
        {
            response.push(text[i]);
            assert(response@ =~= before + text@.take(i + 1));
        }
        assert(text@.take(text@.len() as int) =~= text@);
        proof {
            response_heading_is_ascii();
        }
        response
    }

    /// The packets that carry `fragments` back to the sender of `request`,
    /// one per fragment, in order; each is then sent to the node at
    /// position 1 of its route.
    pub fn reply_packets(&self, fragments: Vec<Fragment>, request: &Packet) -> (replies: Vec<Packet>)
        requires
            fragments@.len() > 0 ==> request.routing_header.hops@.len() >= 2,
        ensures
            replies@.len() == fragments@.len(),
            forall|i: int|
                0 <= i < replies@.len() ==> is_reply_to(
                    #[trigger] replies@[i],
                    fragments@[i],
                    *request,
                ),
    {
        let mut replies: Vec<Packet> = Vec::new();
        for i in 0..fragments.len()
            invariant
                replies@.len() == i,
                forall|k: int|
                    0 <= k < i ==> is_reply_to(#[trigger] replies@[k], fragments@[k], *request),
        {
            let hops = reverse_route(&request.routing_header.hops);
            let reply = Packet {
                pack_type: PacketType::MsgFragment(fragments[i]),
                routing_header: SourceRoutingHeader { hop_index: 1, hops },
                session_id: request.session_id,
            };
            replies.push(reply);
        }
        replies
    }
}

} // verus!
