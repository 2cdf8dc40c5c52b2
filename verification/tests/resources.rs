use rustafarian_network::assembler::Assembler;
use rustafarian_network::packet::{next_hop, Ack, Fragment, Packet, PacketType, SourceRoutingHeader};
use rustafarian_network::server::Server;

fn request(text: &[u8], session_id: u64) -> Packet {
    let mut data = [0u8; 128];
    data[..text.len()].copy_from_slice(text);
    let f = Fragment { fragment_index: 0, total_n_fragments: 1, length: text.len() as u8, data };
    Packet {
        pack_type: PacketType::MsgFragment(f),
        routing_header: SourceRoutingHeader { hop_index: 2, hops: vec![1, 2, 3] },
        session_id,
    }
}

#[test]
fn response_names_the_request() {
    let server = Server::new();
    assert_eq!(server.obtain_resources(b"ciao".to_vec()), b"Risposta ottenuta per: ciao".to_vec());
    assert_eq!(server.obtain_resources(Vec::new()), b"Risposta ottenuta per: ".to_vec());
}

#[test]
fn invalid_text_is_replaced() {
    let server = Server::new();
    let mut expected = b"Risposta ottenuta per: x".to_vec();
    expected.extend_from_slice("\u{FFFD}".as_bytes());
    assert_eq!(server.obtain_resources(vec![b'x', 0xff]), expected);
}

#[test]
fn complete_request_is_answered_in_fragments() {
    let mut server = Server::new();
    let frags = server.process_message(request(b"pagina", 3));
    assert_eq!(frags.len(), 1);
    let expected = b"Risposta ottenuta per: pagina";
    assert_eq!(frags[0].length as usize, expected.len());
    assert_eq!(&frags[0].data[..expected.len()], &expected[..]);
    let mut a = Assembler::new();
    assert_eq!(a.add_fragment(frags[0], 3), Some(expected.to_vec()));
}

#[test]
fn long_response_spans_fragments() {
    let mut server = Server::new();
    let text = vec![b'a'; 120];
    let frags = server.process_message(request(&text, 3));
    assert_eq!(frags.len(), 2);
    assert_eq!(frags[0].length, 128);
    assert_eq!(frags[1].length as usize, 23 + 120 - 128);
}

#[test]
fn partial_request_waits() {
    let mut server = Server::new();
    let f = Fragment { fragment_index: 0, total_n_fragments: 2, length: 3, data: [b'z'; 128] };
    let p = Packet {
        pack_type: PacketType::MsgFragment(f),
        routing_header: SourceRoutingHeader { hop_index: 1, hops: vec![1, 2] },
        session_id: 5,
    };
    assert!(server.process_message(p).is_empty());
    let g = Fragment { fragment_index: 1, total_n_fragments: 2, length: 2, data: [b'y'; 128] };
    let q = Packet {
        pack_type: PacketType::MsgFragment(g),
        routing_header: SourceRoutingHeader { hop_index: 1, hops: vec![1, 2] },
        session_id: 5,
    };
    let frags = server.process_message(q);
    let expected = b"Risposta ottenuta per: zzzyy";
    assert_eq!(frags.len(), 1);
    assert_eq!(&frags[0].data[..expected.len()], &expected[..]);
}

#[test]
fn other_packets_get_no_answer() {
    let mut server = Server::new();
    let p = Packet {
        pack_type: PacketType::Ack(Ack { fragment_index: 0 }),
        routing_header: SourceRoutingHeader { hop_index: 1, hops: vec![1, 2] },
        session_id: 5,
    };
    assert!(server.process_message(p).is_empty());
}

#[test]
fn replies_retrace_the_route() {
    let mut server = Server::new();
    let req = request(b"x", 8);
    let frags = server.process_message(request(b"x", 8));
    let replies = server.reply_packets(frags, &req);
    assert_eq!(replies.len(), 1);
    assert_eq!(replies[0].routing_header.hops, vec![3, 2, 1]);
    assert_eq!(replies[0].routing_header.hop_index, 1);
    assert_eq!(next_hop(&replies[0].routing_header), Some(2));
    assert_eq!(replies[0].session_id, 8);
    assert!(server.reply_packets(Vec::new(), &req).is_empty());
}
