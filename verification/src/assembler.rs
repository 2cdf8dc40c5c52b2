use std::collections::HashMap;
use vstd::prelude::*;
use crate::packet::{Fragment, FRAGMENT_DSIZE, payload, payload_bytes};

verus! {

broadcast use vstd::std_specs::hash::group_hash_axioms;

/// What is known of a message under assembly: the number of fragments it
/// has, and for each position received so far the payload of its fragment.
pub type PendingView = (u64, Seq<Option<Seq<u8>>>);

/// The view of an optional byte vector.
pub open spec fn bytes_view(o: Option<Vec<u8>>) -> Option<Seq<u8>> {
    match o {
        Some(v) => Some(v@),
        None => None,
    }
}

/// A fragment can be taken into the assembly of its session: its length
/// fits its data, its position lies within its count, and it agrees on the
/// count with the fragments already received for the session.
pub open spec fn accepts(entry: Option<PendingView>, f: Fragment) -> bool {
    &&& f.length as nat <= FRAGMENT_DSIZE
    &&& 0 < f.total_n_fragments
    &&& f.fragment_index < f.total_n_fragments
    &&& f.fragment_index < usize::MAX
    &&& entry matches Some(e) ==> e.0 == f.total_n_fragments
}

/// The slots after storing payload `p` at position `i`, extending them
/// with empty slots where they are too short.
pub open spec fn placed(slots: Seq<Option<Seq<u8>>>, i: int, p: Seq<u8>) -> Seq<Option<Seq<u8>>> {
    let padded = if i < slots.len() {
        slots
    } else {
        slots + Seq::new((i + 1 - slots.len()) as nat, |k: int| None::<Seq<u8>>)
    };
    padded.update(i, Some(p))
}

/// Every one of the `total` positions has been received.
pub open spec fn complete(total: u64, slots: Seq<Option<Seq<u8>>>) -> bool {
    &&& slots.len() == total
    &&& forall|k: int| 0 <= k < slots.len() ==> (#[trigger] slots[k]) is Some
}

/// The payloads of the slots, joined in the order of their positions.
pub open spec fn joined(slots: Seq<Option<Seq<u8>>>) -> Seq<u8>
    decreases slots.len(),
{
    if slots.len() == 0 {
        Seq::empty()
    } else {
        joined(slots.drop_last()) + match slots.last() {
            Some(p) => p,
            None => Seq::empty(),
        }
    }
}

/// The effect of receiving fragment `f` for session `s` when the messages
/// under assembly are `st`: the new state, and the message completed by
/// `f`, if any. A fragment that cannot be taken changes nothing; one that
/// completes its message releases the message and forgets the session.
pub open spec fn assembly_step(st: Map<u64, PendingView>, f: Fragment, s: u64) -> (Map<
    u64,
    PendingView,
>, Option<Seq<u8>>) {
    let entry = if st.contains_key(s) {
        Some(st[s])
    } else {
        None
    };
    if !accepts(entry, f) {
        (st, None)
    } else {
        let slots0 = if st.contains_key(s) {
            st[s].1
        } else {
            Seq::empty()
        };
        let slots1 = placed(slots0, f.fragment_index as int, payload(f));
        if complete(f.total_n_fragments, slots1) {
            (st.remove(s), Some(joined(slots1)))
        } else {
            (st.insert(s, (f.total_n_fragments, slots1)), None)
        }
    }
}

/// A message of a session whose fragments are still arriving.
struct PendingMessage {
    total: u64,
    slots: Vec<Option<Vec<u8>>>,
}

spec fn pending_view(p: PendingMessage) -> PendingView {
    (p.total, p.slots@.map_values(|o: Option<Vec<u8>>| bytes_view(o)))
}

/// Collects the fragments of each session until its message is complete.
pub struct Assembler {
    received: HashMap<u64, PendingMessage>,
}

impl View for Assembler {
    type V = Map<u64, PendingView>;

    closed spec fn view(&self) -> Map<u64, PendingView> {
        self.received@.map_values(|p: PendingMessage| pending_view(p))
    }
}

/// Joins the payloads of slots that are all filled.
fn join_slots(slots: &Vec<Option<Vec<u8>>>) -> (m: Vec<u8>)
    requires
        forall|k: int| 0 <= k < slots@.len() ==> (#[trigger] slots@[k]) is Some,
    ensures
        m@ == joined(slots@.map_values(|o: Option<Vec<u8>>| bytes_view(o))),
{
    let ghost sv = slots@.map_values(|o: Option<Vec<u8>>| bytes_view(o));
    let mut m: Vec<u8> = Vec::new();
    let mut i: usize = 0;
    while i < slots.len()
        invariant
            sv == slots@.map_values(|o: Option<Vec<u8>>| bytes_view(o)),
            forall|k: int| 0 <= k < slots@.len() ==> (#[trigger] slots@[k]) is Some,
            i <= slots@.len(),
            m@ == joined(sv.take(i as int)),
        decreases slots@.len() - i,
    {
        match &slots[i] {
            Some(p) => {
                let ghost before = m@;
                for j in 0..p.len()
                    invariant
                        m@ == before + p@.take(j as int),
                {
                    m.push(p[j]);
                    assert(m@ =~= before + p@.take(j + 1));
                }
                assert(p@.take(p@.len() as int) =~= p@);
            },
            None => {},
        }
        assert(sv.take(i + 1).drop_last() =~= sv.take(i as int));
        i = i + 1;
    }
    assert(sv.take(slots@.len() as int) =~= sv);
    m
}

/// Whether every slot is filled.
fn all_filled(slots: &Vec<Option<Vec<u8>>>) -> (b: bool)
    ensures
        b == forall|k: int| 0 <= k < slots@.len() ==> (#[trigger] slots@[k]) is Some,
{
    for i in 0..slots.len()
        invariant
            forall|k: int| 0 <= k < i ==> (#[trigger] slots@[k]) is Some,
    {
        if slots[i].is_none() {
            return false;
        }
    }
    true
}

impl Assembler {
    /// An assembler with no message under assembly.
    pub fn new() -> (a: Self)
        ensures
            a@ == Map::<u64, PendingView>::empty(),
    {
        let a = Assembler { received: HashMap::new() };
        assert(a@ =~= Map::<u64, PendingView>::empty());
        a
    }

    /// Takes in `fragment` for `session_id`, and returns the message of the
    /// session once all its fragments have arrived.
    pub fn add_fragment(&mut self, fragment: Fragment, session_id: u64) -> (res: Option<Vec<u8>>)
        ensures
            (final(self)@, bytes_view(res)) == assembly_step(old(self)@, fragment, session_id),
    {
        let entry = self.received.remove(&session_id);
        proof {
            assert(self@ =~= old(self)@.remove(session_id));
        }
        let agrees = match &entry {
            Some(p) => p.total == fragment.total_n_fragments,
            None => true,
        };
        let usable = fragment.length as usize <= FRAGMENT_DSIZE && 0 < fragment.total_n_fragments
            && fragment.fragment_index < fragment.total_n_fragments && fragment.fragment_index
            < usize::MAX as u64 && agrees;
        if !usable {
            match entry {
                Some(p) => {
                    self.received.insert(session_id, p);
                    proof {
                        assert(self@ =~= old(self)@);
                    }
                },
                None => {
                    proof {
                        assert(self@ =~= old(self)@);
                    }
                },
            }
            return None;
        }
        let total = fragment.total_n_fragments;
        proof {
            match &entry {
                Some(p) => {
                    assert(old(self)@.contains_key(session_id));
                    assert(old(self)@[session_id] == pending_view(*p));
                },
                None => {
                    assert(!old(self)@.contains_key(session_id));
                },
            }
        }
        let mut slots: Vec<Option<Vec<u8>>> = match entry {
            Some(p) => p.slots,
            None => Vec::new(),
        };
        let ghost slots0 = slots@.map_values(|o: Option<Vec<u8>>| bytes_view(o));
        let idx = fragment.fragment_index as usize;
        let ghost len0 = slots@.len();
        while slots.len() <= idx
            invariant
                idx < usize::MAX,
                len0 <= slots@.len(),
                slots@.len() <= if idx < len0 { len0 as int } else { idx as int + 1 },
                slots@.map_values(|o: Option<Vec<u8>>| bytes_view(o)) =~= if idx < len0 {
                    slots0
                } else {
                    slots0 + Seq::new((slots@.len() - len0) as nat, |k: int| None::<Seq<u8>>)
                },
            decreases idx + 1 - slots@.len(),
        {
            let ghost before = slots@;
            slots.push(None);
            proof {
                assert(slots@.map_values(|o: Option<Vec<u8>>| bytes_view(o)) =~= before.map_values(
                    |o: Option<Vec<u8>>| bytes_view(o),
                ).push(None));
            }
        }
        let p = payload_bytes(&fragment);
        slots.set(idx, Some(p));
        let ghost slots1 = slots@.map_values(|o: Option<Vec<u8>>| bytes_view(o));
        assert(slots1 =~= placed(slots0, idx as int, payload(fragment)));
        if slots.len() as u64 == total && all_filled(&slots) {
            assert(complete(total, slots1)) by {
                assert forall|k: int| 0 <= k < slots1.len() implies (#[trigger] slots1[k]) is Some by {
                    assert(slots@[k] is Some);
                }
            }
            let m = join_slots(&slots);
            Some(m)
        } else {
            assert(!complete(total, slots1)) by {
                if complete(total, slots1) {
                    assert forall|k: int| 0 <= k < slots@.len() implies (#[trigger] slots@[k]) is Some by {
                        assert(slots1[k] is Some);
                    }
                }
            }
            let ghost pv = pending_view(PendingMessage { total, slots });
            self.received.insert(session_id, PendingMessage { total, slots });
            proof {
                assert(self@ =~= old(self)@.insert(session_id, pv));
            }
            None
        }
    }
}

} // verus!
