use vstd::prelude::*;
use crate::packet::{Fragment, FRAGMENT_DSIZE, holds_bytes, payload};
use crate::assembler::{PendingView, assembly_step, joined};
use crate::network::deassembler::{chunk, fragment_count, is_fragmentation};

verus! {

/// Receiving `frags` one after the other for session `s`, starting from
/// the state `st`: the final state, and what each fragment completed.
pub open spec fn feed(st: Map<u64, PendingView>, frags: Seq<Fragment>, s: u64) -> (Map<
    u64,
    PendingView,
>, Seq<Option<Seq<u8>>>)
    decreases frags.len(),
{
    if frags.len() == 0 {
        (st, Seq::empty())
    } else {
        let before = feed(st, frags.drop_last(), s);
        let after = assembly_step(before.0, frags.last(), s);
        (after.0, before.1.push(after.1))
    }
}

/// The first `k` chunks of `m`, each received.
pub open spec fn received_chunks(m: Seq<u8>, k: nat) -> Seq<Option<Seq<u8>>> {
    Seq::new(k, |j: int| Some(chunk(m, j)))
}

/// The payloads of fragments, as filled slots in their order.
pub open spec fn payload_slots(frags: Seq<Fragment>) -> Seq<Option<Seq<u8>>> {
    frags.map_values(|f: Fragment| Some(payload(f)))
}

proof fn lemma_payload_is_held_bytes(f: Fragment, bytes: Seq<u8>)
    requires
        holds_bytes(f, bytes),
    ensures
        payload(f) == bytes,
{
    assert(payload(f) =~= bytes);
}

proof fn lemma_chunk_bounds(m: Seq<u8>, k: int)
    requires
        0 <= k < fragment_count(m.len()),
    ensures
        FRAGMENT_DSIZE * k < m.len(),
        chunk(m, k).len() <= FRAGMENT_DSIZE,
        0 < chunk(m, k).len(),
{
}

proof fn lemma_joined_chunks(m: Seq<u8>, k: nat)
    requires
        k <= fragment_count(m.len()),
    ensures
        joined(received_chunks(m, k)) == m.take(
            if FRAGMENT_DSIZE * k <= m.len() {
                FRAGMENT_DSIZE * k
            } else {
                m.len() as int
            },
        ),
    decreases k,
{
    if k == 0 {
        assert(m.take(0) =~= Seq::<u8>::empty());
    } else {
        let km = (k - 1) as nat;
        lemma_joined_chunks(m, km);
        lemma_chunk_bounds(m, km as int);
        assert(received_chunks(m, k).drop_last() =~= received_chunks(m, km));
        let end = if FRAGMENT_DSIZE * k <= m.len() {
            FRAGMENT_DSIZE * k
        } else {
            m.len() as int
        };
        assert(m.take(FRAGMENT_DSIZE * km) + chunk(m, km as int) =~= m.take(end));
    }
}

/// The payloads of a fragmentation of `m`, joined in order, give back `m`,
/// and no payload exceeds the data of its fragment.
pub proof fn fragmentation_covers_message(frags: Seq<Fragment>, m: Seq<u8>)
    requires
        is_fragmentation(frags, m),
    ensures
        joined(payload_slots(frags)) == m,
        forall|i: int| 0 <= i < frags.len() ==> (#[trigger] frags[i]).length <= FRAGMENT_DSIZE,
{
    let n = frags.len();
    assert forall|i: int| 0 <= i < n implies payload(#[trigger] frags[i]) == chunk(m, i) by {
        lemma_payload_is_held_bytes(frags[i], chunk(m, i));
    }
    assert(payload_slots(frags) =~= received_chunks(m, n));
    lemma_joined_chunks(m, n);
    assert(m.take(m.len() as int) =~= m);
}

/// The state of an assembler holding nothing else for `s` after the first
/// `k` fragments of `m`.
spec fn state_after(st: Map<u64, PendingView>, n: nat, m: Seq<u8>, s: u64, k: nat) -> Map<
    u64,
    PendingView,
> {
    if k == 0 || k == n {
        st
    } else {
        st.insert(s, (n as u64, received_chunks(m, k)))
    }
}

proof fn lemma_step(st: Map<u64, PendingView>, frags: Seq<Fragment>, m: Seq<u8>, s: u64, k: nat)
    requires
        is_fragmentation(frags, m),
        0 < m.len() <= usize::MAX,
        !st.contains_key(s),
        k < frags.len(),
    ensures
        assembly_step(state_after(st, frags.len(), m, s, k), frags[k as int], s) == (
            state_after(st, frags.len(), m, s, k + 1),
            if k + 1 == frags.len() {
                Some(m)
            } else {
                None
            },
        ),
{
    let n = frags.len();
    let f = frags[k as int];
    let prev = state_after(st, n, m, s, k);
    lemma_chunk_bounds(m, k as int);
    lemma_payload_is_held_bytes(f, chunk(m, k as int));
    assert(f.total_n_fragments == n);
    let slots0 = if prev.contains_key(s) {
        prev[s].1
    } else {
        Seq::empty()
    };
    assert(slots0 =~= received_chunks(m, k));
    let entry = if prev.contains_key(s) {
        Some(prev[s])
    } else {
        None
    };
    assert(crate::assembler::accepts(entry, f));
    let slots1 = crate::assembler::placed(slots0, k as int, payload(f));
    assert(slots1 =~= received_chunks(m, k + 1));
    if k + 1 == n {
        assert(crate::assembler::complete(f.total_n_fragments, slots1));
        lemma_joined_chunks(m, n);
        assert(m.take(m.len() as int) =~= m);
        assert(prev.remove(s) =~= st);
    } else {
        assert(!crate::assembler::complete(f.total_n_fragments, slots1));
        assert(prev.insert(s, (n as u64, slots1)) =~= state_after(st, n, m, s, k + 1));
    }
}

proof fn lemma_feed_prefix(st: Map<u64, PendingView>, frags: Seq<Fragment>, m: Seq<u8>, s: u64, k: nat)
    requires
        is_fragmentation(frags, m),
        0 < m.len() <= usize::MAX,
        !st.contains_key(s),
        k <= frags.len(),
    ensures
        feed(st, frags.take(k as int), s) == (
            state_after(st, frags.len(), m, s, k),
            Seq::new(k, |j: int| if j == frags.len() - 1 { Some(m) } else { None }),
        ),
    decreases k,
{
    let n = frags.len();
    if k == 0 {
        assert(frags.take(0) =~= Seq::<Fragment>::empty());
        assert(Seq::new(0, |j: int| if j == n - 1 { Some(m) } else { None }) =~= Seq::<
            Option<Seq<u8>>,
        >::empty());
    } else {
        let km = (k - 1) as nat;
        lemma_feed_prefix(st, frags, m, s, km);
        assert(frags.take(k as int).drop_last() =~= frags.take(km as int));
        assert(frags.take(k as int).last() == frags[km as int]);
        lemma_step(st, frags, m, s, km);
        assert(Seq::new(km, |j: int| if j == n - 1 { Some(m) } else { None }).push(
            if k == n {
                Some(m)
            } else {
                None
            },
        ) =~= Seq::new(k, |j: int| if j == n - 1 { Some(m) } else { None }));
    }
}

/// Splitting a non-empty message and handing its fragments, in order, to an
/// assembler that holds nothing for the session gives the message back with
/// the last fragment, nothing before it, and leaves the assembler as it was.
pub proof fn reassembly_restores_message(
    st: Map<u64, PendingView>,
    frags: Seq<Fragment>,
    m: Seq<u8>,
    s: u64,
)
    requires
        is_fragmentation(frags, m),
        0 < m.len() <= usize::MAX,
        !st.contains_key(s),
    ensures
        feed(st, frags, s) == (
            st,
            Seq::new(frags.len(), |j: int| if j == frags.len() - 1 { Some(m) } else { None }),
        ),
{
    lemma_feed_prefix(st, frags, m, s, frags.len());
    assert(frags.take(frags.len() as int) =~= frags);
}

/// `order` lists every position `0..n` exactly once.
pub open spec fn is_permutation(order: Seq<int>, n: nat) -> bool {
    &&& order.len() == n
    &&& forall|i: int| 0 <= i < n ==> 0 <= #[trigger] order[i] < n
    &&& forall|i: int, j: int| 0 <= i < j < n ==> order[i] != order[j]
    &&& forall|k: int| 0 <= k < n ==> #[trigger] order.contains(k)
}

/// The fragments `frags` in the order `order` gives their positions.
pub open spec fn permuted(frags: Seq<Fragment>, order: Seq<int>) -> Seq<Fragment> {
    Seq::new(order.len(), |j: int| frags[order[j]])
}

/// One past the largest position among the first `j` of `order`.
spec fn prefix_len(order: Seq<int>, j: int) -> nat
    decreases j,
{
    if j <= 0 {
        0
    } else {
        let p = prefix_len(order, j - 1);
        if p < order[j - 1] + 1 {
            (order[j - 1] + 1) as nat
        } else {
            p
        }
    }
}

/// The slots after the first `j` fragments of `m` in the order `order`.
spec fn perm_slots(m: Seq<u8>, order: Seq<int>, j: int) -> Seq<Option<Seq<u8>>> {
    Seq::new(
        prefix_len(order, j),
        |k: int|
            if order.take(j).contains(k) {
                Some(chunk(m, k))
            } else {
                None
            },
    )
}

/// The assembler's state after the first `j` fragments of `m` in the order
/// `order`, starting from `st`.
spec fn perm_state(st: Map<u64, PendingView>, n: nat, m: Seq<u8>, order: Seq<int>, s: u64, j: int) -> Map<
    u64,
    PendingView,
> {
    if j == 0 || j == n {
        st
    } else {
        st.insert(s, (n as u64, perm_slots(m, order, j)))
    }
}

proof fn lemma_prefix_len(order: Seq<int>, n: nat, j: int)
    requires
        is_permutation(order, n),
        0 <= j <= n,
    ensures
        prefix_len(order, j) <= n,
        forall|i: int| 0 <= i < j ==> order[i] < prefix_len(order, j),
    decreases j,
{
    if j > 0 {
        lemma_prefix_len(order, n, j - 1);
        assert(0 <= order[j - 1] < n);
    }
}

proof fn lemma_take_push(order: Seq<int>, j: int)
    requires
        0 <= j < order.len(),
    ensures
        forall|k: int|
            #![trigger order.take(j + 1).contains(k)]
            #![trigger order.take(j).contains(k)]
            order.take(j + 1).contains(k) <==> order.take(j).contains(k) || k == order[j],
{
    let t0 = order.take(j);
    let t1 = order.take(j + 1);
    assert(t1 =~= t0.push(order[j]));
    assert forall|k: int| t1.contains(k) <==> t0.contains(k) || k == order[j] by {
        if t1.contains(k) {
            let a = choose|a: int| 0 <= a < t1.len() && t1[a] == k;
            if a < j {
                assert(t0[a] == k);
            }
        }
        if t0.contains(k) {
            let a = choose|a: int| 0 <= a < t0.len() && t0[a] == k;
            assert(t1[a] == k);
        }
        if k == order[j] {
            assert(t1[j] == k);
        }
    }
}

proof fn lemma_perm_step(
    st: Map<u64, PendingView>,
    frags: Seq<Fragment>,
    m: Seq<u8>,
    s: u64,
    order: Seq<int>,
    j: int,
)
    requires
        is_fragmentation(frags, m),
        0 < m.len() <= usize::MAX,
        !st.contains_key(s),
        is_permutation(order, frags.len()),
        0 <= j < frags.len(),
    ensures
        assembly_step(perm_state(st, frags.len(), m, order, s, j), frags[order[j]], s) == (
            perm_state(st, frags.len(), m, order, s, j + 1),
            if j + 1 == frags.len() {
                Some(m)
            } else {
                None
            },
        ),
{
    let n = frags.len();
    let i = order[j];
    let f = frags[i];
    let prev = perm_state(st, n, m, order, s, j);
    lemma_chunk_bounds(m, i);
    lemma_payload_is_held_bytes(f, chunk(m, i));
    lemma_prefix_len(order, n, j);
    lemma_prefix_len(order, n, j + 1);
    lemma_take_push(order, j);
    assert(f.total_n_fragments == n);
    assert(f.fragment_index == i);
    let slots0 = if prev.contains_key(s) {
        prev[s].1
    } else {
        Seq::empty()
    };
    assert(slots0 =~= perm_slots(m, order, j));
    let entry = if prev.contains_key(s) {
        Some(prev[s])
    } else {
        None
    };
    assert(crate::assembler::accepts(entry, f));
    let slots1 = crate::assembler::placed(slots0, i, payload(f));
    assert forall|k: int| prefix_len(order, j) <= k implies !(#[trigger] order.take(j).contains(k)) by {
        let t0 = order.take(j);
        if t0.contains(k) {
            let a = choose|a: int| 0 <= a < t0.len() && t0[a] == k;
            assert(order[a] == k);
        }
    }
    let target = perm_slots(m, order, j + 1);
    assert(slots1.len() == target.len());
    assert forall|k: int| 0 <= k < slots1.len() implies slots1[k] == target[k] by {
        if k == i {
            assert(order.take(j + 1)[j] == k);
            assert(order.take(j + 1).contains(k));
        } else if k < slots0.len() {
            assert(slots1[k] == slots0[k]);
        } else {
            assert(!order.take(j).contains(k));
        }
    }
    assert(slots1 =~= target);
    if j + 1 == n {
        assert(order.take(n as int) =~= order);
        assert(order.contains(n - 1));
        let x = choose|a: int| 0 <= a < order.len() && order[a] == n - 1;
        assert(order[x] < prefix_len(order, n as int));
        assert(prefix_len(order, j + 1) == n);
        assert(slots1 =~= received_chunks(m, n));
        assert(crate::assembler::complete(f.total_n_fragments, slots1));
        lemma_joined_chunks(m, n);
        assert(m.take(m.len() as int) =~= m);
        assert(prev.remove(s) =~= st);
    } else {
        let x = order[n - 1];
        assert(0 <= x < n);
        let t1 = order.take(j + 1);
        assert(!t1.contains(x)) by {
            if t1.contains(x) {
                let a = choose|a: int| 0 <= a < t1.len() && t1[a] == x;
                assert(order[a] == order[n - 1]);
            }
        }
        if slots1.len() == n {
            assert(slots1[x] is None);
        }
        assert(!crate::assembler::complete(f.total_n_fragments, slots1));
        assert(prev.insert(s, (n as u64, slots1)) =~= perm_state(st, n, m, order, s, j + 1));
    }
}

proof fn lemma_perm_feed_prefix(
    st: Map<u64, PendingView>,
    frags: Seq<Fragment>,
    m: Seq<u8>,
    s: u64,
    order: Seq<int>,
    j: int,
)
    requires
        is_fragmentation(frags, m),
        0 < m.len() <= usize::MAX,
        !st.contains_key(s),
        is_permutation(order, frags.len()),
        0 <= j <= frags.len(),
    ensures
        feed(st, permuted(frags, order).take(j), s) == (
            perm_state(st, frags.len(), m, order, s, j),
            Seq::new(j as nat, |k: int| if k == frags.len() - 1 { Some(m) } else { None }),
        ),
    decreases j,
{
    let n = frags.len();
    let p = permuted(frags, order);
    if j == 0 {
        assert(p.take(0) =~= Seq::<Fragment>::empty());
        assert(Seq::new(0, |k: int| if k == n - 1 { Some(m) } else { None }) =~= Seq::<
            Option<Seq<u8>>,
        >::empty());
    } else {
        lemma_perm_feed_prefix(st, frags, m, s, order, j - 1);
        assert(p.take(j).drop_last() =~= p.take(j - 1));
        assert(p.take(j).last() == frags[order[j - 1]]);
        lemma_perm_step(st, frags, m, s, order, j - 1);
        assert(Seq::new((j - 1) as nat, |k: int| if k == n - 1 { Some(m) } else { None }).push(
            if j == n {
                Some(m)
            } else {
                None
            },
        ) =~= Seq::new(j as nat, |k: int| if k == n - 1 { Some(m) } else { None }));
    }
}

/// Whatever order the fragments of a non-empty message arrive in, an
/// assembler that holds nothing for the session gives the message back
/// exactly when the last missing fragment arrives, nothing before it, and
/// is then left as it was.
pub proof fn reassembly_in_any_order(
    st: Map<u64, PendingView>,
    frags: Seq<Fragment>,
    m: Seq<u8>,
    s: u64,
    order: Seq<int>,
)
    requires
        is_fragmentation(frags, m),
        0 < m.len() <= usize::MAX,
        !st.contains_key(s),
        is_permutation(order, frags.len()),
    ensures
        feed(st, permuted(frags, order), s) == (
            st,
            Seq::new(frags.len(), |j: int| if j == frags.len() - 1 { Some(m) } else { None }),
        ),
{
    lemma_perm_feed_prefix(st, frags, m, s, order, frags.len() as int);
    assert(permuted(frags, order).take(frags.len() as int) =~= permuted(frags, order));
}

} // verus!
