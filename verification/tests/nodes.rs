use rustafarian_network::network::client::{Client, ClientNotice};
use rustafarian_network::network::server::Server;
use rustafarian_network::packet::{
    next_hop, Ack, FloodRequest, FloodResponse, Fragment, NodeType, Packet, PacketType, SourceRoutingHeader,
};
use rustafarian_network::text::{decimal_bytes, labelled};

fn packet(pack_type: PacketType, hops: Vec<u8>, session_id: u64) -> Packet {
    Packet { pack_type, routing_header: SourceRoutingHeader { hop_index: 1, hops }, session_id }
}

#[test]
fn decimal_rendering() {
    assert_eq!(decimal_bytes(0), b"0".to_vec());
    assert_eq!(decimal_bytes(9), b"9".to_vec());
    assert_eq!(decimal_bytes(10), b"10".to_vec());
    assert_eq!(decimal_bytes(205), b"205".to_vec());
    assert_eq!(decimal_bytes(255), b"255".to_vec());
    assert_eq!(labelled("node ", 42), b"node 42".to_vec());
}

#[test]
fn server_answers_flood_request() {
    let server = Server::new(5);
    let req = FloodRequest {
        flood_id: 33,
        initiator_id: 1,
        path_trace: vec![(1, NodeType::Client), (2, NodeType::Drone), (3, NodeType::Drone)],
    };
    let reply = server.answer_flood(packet(PacketType::FloodRequest(req), vec![], 71)).unwrap();
    assert_eq!(reply.session_id, 71);
    assert_eq!(reply.routing_header.hop_index, 1);
    assert_eq!(reply.routing_header.hops, vec![5, 3, 2, 1]);
    assert_eq!(next_hop(&reply.routing_header), Some(3));
    match reply.pack_type {
        PacketType::FloodResponse(resp) => {
            assert_eq!(resp.flood_id, 33);
            assert_eq!(
                resp.path_trace,
                vec![(5, NodeType::Server), (3, NodeType::Drone), (2, NodeType::Drone), (1, NodeType::Client)]
            );
        }
        _ => panic!("not a flood response"),
    }
}

#[test]
fn server_ignores_other_packets_when_flooding() {
    let server = Server::new(5);
    let ack = packet(PacketType::Ack(Ack { fragment_index: 0 }), vec![1, 5], 1);
    assert!(server.answer_flood(ack).is_none());
}

#[test]
fn flood_answer_without_trace_has_no_next_hop() {
    let server = Server::new(5);
    let req = FloodRequest { flood_id: 1, initiator_id: 1, path_trace: vec![] };
    let reply = server.flood_response(req, 1);
    assert_eq!(reply.routing_header.hops, vec![5]);
    assert_eq!(next_hop(&reply.routing_header), None);
}

#[test]
fn server_greets_fragment_sender() {
    let server = Server::new(7);
    let f = Fragment { fragment_index: 0, total_n_fragments: 1, length: 1, data: [0; 128] };
    let reply = server.answer_fragment(packet(PacketType::MsgFragment(f), vec![1, 7], 12)).unwrap();
    assert_eq!(reply.routing_header.hops, vec![7, 3, 2, 1, 4]);
    assert_eq!(next_hop(&reply.routing_header), Some(3));
    assert_eq!(reply.session_id, 12);
    match reply.pack_type {
        PacketType::MsgFragment(g) => {
            let text = b"Messaggio dal client 7";
            assert_eq!(g.length, 128);
            assert_eq!(g.fragment_index, 0);
            assert_eq!(g.total_n_fragments, 1);
            assert_eq!(&g.data[..text.len()], &text[..]);
            assert!(g.data[text.len()..].iter().all(|b| *b == 0));
        }
        _ => panic!("not a fragment"),
    }
    let req = FloodRequest { flood_id: 1, initiator_id: 1, path_trace: vec![(1, NodeType::Client)] };
    assert!(server.answer_fragment(packet(PacketType::FloodRequest(req), vec![], 1)).is_none());
}

#[test]
fn client_flood_request() {
    let client = Client::new(4);
    let p = client.flood_request(99);
    assert_eq!(p.session_id, 99);
    assert_eq!(p.routing_header.hop_index, 0);
    assert!(p.routing_header.hops.is_empty());
    match p.pack_type {
        PacketType::FloodRequest(req) => {
            assert_eq!(req.flood_id, 1);
            assert_eq!(req.initiator_id, 4);
            assert_eq!(req.path_trace, vec![(4, NodeType::Client)]);
        }
        _ => panic!("not a flood request"),
    }
    let (to, p2) = client.start_flood();
    assert_eq!(to, 1);
    assert!(matches!(p2.pack_type, PacketType::FloodRequest(_)));
}

#[test]
fn client_message() {
    let client = Client::new(12);
    let p = client.message(3);
    assert_eq!(p.routing_header.hops, vec![12, 1, 2, 3, 5]);
    assert_eq!(p.routing_header.hop_index, 1);
    match p.pack_type {
        PacketType::MsgFragment(f) => {
            let text = b"Message from client 12";
            assert_eq!(f.length as usize, text.len());
            assert_eq!(&f.data[..text.len()], &text[..]);
            assert!(f.data[text.len()..].iter().all(|b| *b == 0));
            assert_eq!((f.fragment_index, f.total_n_fragments), (0, 1));
        }
        _ => panic!("not a fragment"),
    }
    let (to, p2) = client.start_message();
    assert_eq!(to, 1);
    assert_eq!(p2.routing_header.hops, vec![12, 1, 2, 3, 5]);
}

#[test]
fn client_reads_what_it_receives() {
    let client = Client::new(1);
    let mut data = [0u8; 128];
    data[..5].copy_from_slice(b"hello");
    let f = Fragment { fragment_index: 0, total_n_fragments: 1, length: 5, data };
    match client.on_packet(packet(PacketType::MsgFragment(f), vec![3, 1], 44)) {
        ClientNotice::Message { session_id, text } => {
            assert_eq!(session_id, 44);
            assert_eq!(text, b"hello".to_vec());
        }
        _ => panic!("not a message"),
    }
    let mut bad = [0u8; 128];
    bad[0] = b'a';
    bad[1] = 0xff;
    let g = Fragment { fragment_index: 0, total_n_fragments: 1, length: 2, data: bad };
    match client.on_packet(packet(PacketType::MsgFragment(g), vec![3, 1], 1)) {
        ClientNotice::Message { text, .. } => assert_eq!(text, "a\u{FFFD}".as_bytes().to_vec()),
        _ => panic!("not a message"),
    }
    let resp = FloodResponse { flood_id: 2, path_trace: vec![(9, NodeType::Server)] };
    assert!(matches!(
        client.on_packet(packet(PacketType::FloodResponse(resp), vec![9, 1], 1)),
        ClientNotice::FloodResponse(_)
    ));
    let ack = packet(PacketType::Ack(Ack { fragment_index: 0 }), vec![9, 1], 1);
    assert!(matches!(client.on_packet(ack), ClientNotice::Unsupported));
    let f2 = Fragment { fragment_index: 0, total_n_fragments: 1, length: 5, data };
    assert!(matches!(
        client.on_flood_packet(packet(PacketType::MsgFragment(f2), vec![3, 1], 44)),
        ClientNotice::Unsupported
    ));
}
