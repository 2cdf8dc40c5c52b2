use rustafarian_network::assembler::Assembler;
use rustafarian_network::network::deassembler::Deassembler;
use rustafarian_network::packet::{Fragment, FRAGMENT_DSIZE};

fn message(len: usize) -> Vec<u8> {
    (0..len).map(|i| (i % 251) as u8 + 1).collect()
}

#[test]
fn splits_into_chunks_of_fragment_size() {
    let mut d = Deassembler::new();
    let m = message(300);
    let frags = d.add_message(m.clone(), 9);
    assert_eq!(frags.len(), 3);
    let lengths: Vec<u8> = frags.iter().map(|f| f.length).collect();
    assert_eq!(lengths, vec![128, 128, 44]);
    for (i, f) in frags.iter().enumerate() {
        assert_eq!(f.fragment_index, i as u64);
        assert_eq!(f.total_n_fragments, 3);
    }
    assert_eq!(&frags[1].data[..], &m[128..256]);
    assert_eq!(&frags[2].data[..44], &m[256..300]);
    assert!(frags[2].data[44..].iter().all(|b| *b == 0));
}

#[test]
fn exact_multiple_has_no_short_fragment() {
    let mut d = Deassembler::new();
    let frags = d.add_message(message(256), 1);
    assert_eq!(frags.len(), 2);
    assert!(frags.iter().all(|f| f.length as usize == FRAGMENT_DSIZE && f.total_n_fragments == 2));
}

#[test]
fn one_byte_message_is_one_fragment() {
    let mut d = Deassembler::new();
    let frags = d.add_message(vec![42], 1);
    assert_eq!(frags.len(), 1);
    assert_eq!(frags[0].length, 1);
    assert_eq!(frags[0].data[0], 42);
    assert_eq!(frags[0].total_n_fragments, 1);
}

#[test]
fn empty_message_has_no_fragment() {
    let mut d = Deassembler::new();
    assert!(d.add_message(Vec::new(), 3).is_empty());
}

#[test]
fn unknown_session_gives_nothing() {
    let mut d = Deassembler::new();
    assert!(d.deassemble_message(77).is_empty());
    let _ = d.add_message(message(10), 77);
    assert!(d.deassemble_message(77).is_empty());
}

#[test]
fn reassembly_gives_back_the_message() {
    let m = message(1000);
    let mut d = Deassembler::new();
    let frags = d.add_message(m.clone(), 4);
    let mut a = Assembler::new();
    let n = frags.len();
    for (i, f) in frags.into_iter().enumerate() {
        let out = a.add_fragment(f, 4);
        if i + 1 < n {
            assert!(out.is_none());
        } else {
            assert_eq!(out, Some(m.clone()));
        }
    }
}

#[test]
fn reassembly_in_any_order() {
    let m = message(400);
    let mut d = Deassembler::new();
    let mut frags = d.add_message(m.clone(), 8);
    frags.reverse();
    let mut a = Assembler::new();
    assert!(a.add_fragment(frags[0], 8).is_none());
    assert!(a.add_fragment(frags[1], 8).is_none());
    assert!(a.add_fragment(frags[2], 8).is_none());
    assert_eq!(a.add_fragment(frags[3], 8), Some(m));
}

#[test]
fn sessions_are_assembled_apart() {
    let m1 = message(200);
    let m2 = vec![5u8; 130];
    let mut d = Deassembler::new();
    let f1 = d.add_message(m1.clone(), 1);
    let f2 = d.add_message(m2.clone(), 2);
    let mut a = Assembler::new();
    assert!(a.add_fragment(f1[0], 1).is_none());
    assert!(a.add_fragment(f2[0], 2).is_none());
    assert_eq!(a.add_fragment(f2[1], 2), Some(m2));
    assert_eq!(a.add_fragment(f1[1], 1), Some(m1));
}

#[test]
fn malformed_fragments_are_ignored() {
    let mut a = Assembler::new();
    let bad_length = Fragment { fragment_index: 0, total_n_fragments: 1, length: 200, data: [1; 128] };
    assert!(a.add_fragment(bad_length, 1).is_none());
    let bad_index = Fragment { fragment_index: 2, total_n_fragments: 2, length: 3, data: [1; 128] };
    assert!(a.add_fragment(bad_index, 1).is_none());
    let no_total = Fragment { fragment_index: 0, total_n_fragments: 0, length: 3, data: [1; 128] };
    assert!(a.add_fragment(no_total, 1).is_none());
    let first = Fragment { fragment_index: 0, total_n_fragments: 2, length: 2, data: [7; 128] };
    assert!(a.add_fragment(first, 1).is_none());
    let other_total = Fragment { fragment_index: 1, total_n_fragments: 3, length: 2, data: [8; 128] };
    assert!(a.add_fragment(other_total, 1).is_none());
    let second = Fragment { fragment_index: 1, total_n_fragments: 2, length: 1, data: [9; 128] };
    assert_eq!(a.add_fragment(second, 1), Some(vec![7, 7, 9]));
}

#[test]
fn repeated_fragment_replaces_the_earlier() {
    let mut a = Assembler::new();
    let first = Fragment { fragment_index: 0, total_n_fragments: 2, length: 1, data: [1; 128] };
    let again = Fragment { fragment_index: 0, total_n_fragments: 2, length: 2, data: [2; 128] };
    let last = Fragment { fragment_index: 1, total_n_fragments: 2, length: 1, data: [3; 128] };
    assert!(a.add_fragment(first, 6).is_none());
    assert!(a.add_fragment(again, 6).is_none());
    assert_eq!(a.add_fragment(last, 6), Some(vec![2, 2, 3]));
}
