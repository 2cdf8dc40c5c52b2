use std::collections::HashMap;
use vstd::prelude::*;
use crate::packet::{Fragment, FRAGMENT_DSIZE, holds_bytes, zeros};

verus! {

broadcast use vstd::std_specs::hash::group_hash_axioms;

/// Number of fragments needed for a message of `len` bytes: the ceiling
/// of `len / FRAGMENT_DSIZE`.
pub open spec fn fragment_count(len: nat) -> nat {
    ((len + FRAGMENT_DSIZE - 1) / (FRAGMENT_DSIZE as int)) as nat
}

/// The bytes of `message` that the fragment at position `i` carries.
pub open spec fn chunk(message: Seq<u8>, i: int) -> Seq<u8> {
    let start = FRAGMENT_DSIZE * i;
    let end = if start + FRAGMENT_DSIZE <= message.len() {
        start + FRAGMENT_DSIZE
    } else {
        message.len() as int
    };
    message.subrange(start, end)
}

/// `frags` is the splitting of `message` into fragments: one fragment per
/// chunk of `FRAGMENT_DSIZE` bytes, in order, each knowing its position and
/// the total count, its unused data zeroed.
pub open spec fn is_fragmentation(frags: Seq<Fragment>, message: Seq<u8>) -> bool {
    &&& frags.len() == fragment_count(message.len())
    &&& forall|i: int|
        0 <= i < frags.len() ==> {
            &&& (#[trigger] frags[i]).fragment_index == i
            &&& frags[i].total_n_fragments == fragment_count(message.len())
            &&& holds_bytes(frags[i], chunk(message, i))
        }
}

/// Splits messages into fragments, keeping the messages that were handed
/// over for a session until they are split.
pub struct Deassembler {
    received_message: HashMap<u64, Vec<u8>>,
}

impl View for Deassembler {
    type V = Map<u64, Seq<u8>>;

    closed spec fn view(&self) -> Map<u64, Seq<u8>> {
        self.received_message@.map_values(|v: Vec<u8>| v@)
    }
}

/// Splits `message` into fragments of `FRAGMENT_DSIZE` bytes.
fn split_into_fragments(message: &Vec<u8>) -> (frags: Vec<Fragment>)
    ensures
        is_fragmentation(frags@, message@),
{
    let len = message.len();
    let count: usize = len / FRAGMENT_DSIZE + if len % FRAGMENT_DSIZE == 0 { 0 } else { 1 };
    assert(count == fragment_count(len as nat));
    let mut frags: Vec<Fragment> = Vec::new();
    let mut i: usize = 0;
    while i < count
        invariant
            len == message@.len(),
            count == fragment_count(len as nat),
            count * FRAGMENT_DSIZE < len + FRAGMENT_DSIZE,
            i <= count,
            frags@.len() == i,
            forall|k: int|
                0 <= k < i ==> {
                    &&& (#[trigger] frags@[k]).fragment_index == k
                    &&& frags@[k].total_n_fragments == count
                    &&& holds_bytes(frags@[k], chunk(message@, k))
                },
        decreases count - i,
    {
        let base = i * FRAGMENT_DSIZE;
        let end = if len - base >= FRAGMENT_DSIZE { base + FRAGMENT_DSIZE } else { len };
        let n = end - base;
        let mut data = [0u8; 128];
        for j in 0..n
            invariant
                base + n == end,
                end <= len,
                len == message@.len(),
                n <= FRAGMENT_DSIZE,
                data@.len() == FRAGMENT_DSIZE,
                forall|k: int| 0 <= k < j ==> data@[k] == message@[base + k],
                forall|k: int| j <= k < FRAGMENT_DSIZE ==> data@[k] == 0u8,
        {
            data[j] = message[base + j];
        }
        let f = Fragment {
            fragment_index: i as u64,
            total_n_fragments: count as u64,
            length: n as u8,
            data,
        };
        assert(f.data@ =~= chunk(message@, i as int) + zeros((FRAGMENT_DSIZE - n) as nat));
        frags.push(f);
        i = i + 1;
    }
    frags
}

impl Deassembler {
    /// A deassembler that holds no message.
    pub fn new() -> (d: Self)
        ensures
            d@ == Map::<u64, Seq<u8>>::empty(),
    {
        let d = Deassembler { received_message: HashMap::new() };
        assert(d@ =~= Map::<u64, Seq<u8>>::empty());
        d
    }

    /// Hands over `message` for `session_id` and splits it at once: the
    /// result is its fragmentation, and no message is left for the session.
    pub fn add_message(&mut self, message: Vec<u8>, session_id: u64) -> (frags: Vec<Fragment>)
        ensures
            is_fragmentation(frags@, message@),
            final(self)@ == old(self)@.remove(session_id),
    {
        let ghost m = message@;
        self.received_message.insert(session_id, message);
        proof {
            assert(self@ =~= old(self)@.insert(session_id, m));
        }
        self.deassemble_message(session_id)
    }

    /// Splits the message held for `session_id`, if there is one, and
    /// forgets it; without one, returns no fragment.
    pub fn deassemble_message(&mut self, session_id: u64) -> (frags: Vec<Fragment>)
        ensures
            old(self)@.contains_key(session_id) ==> is_fragmentation(
                frags@,
                old(self)@[session_id],
            ),
            !old(self)@.contains_key(session_id) ==> frags@.len() == 0,
            final(self)@ == old(self)@.remove(session_id),
    {
        let removed = self.received_message.remove(&session_id);
        proof {
            assert(self@ =~= old(self)@.remove(session_id));
        }
        match removed {
            Some(message) => split_into_fragments(&message),
            None => Vec::new(),
        }
    }
}

} // verus!
