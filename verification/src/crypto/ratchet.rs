//! Symmetric per-packet ratchet: each packet gets its own AEAD key, derived
//! from a chain key that is erased as soon as the next one exists.
use std::collections::BTreeMap;
use vstd::prelude::*;

use crate::crypto::bytes;
use crate::crypto::primitives;

verus! {

/// HKDF info string of the next chain key, `pqvpn-ratchet-chain-key`.
pub const CHAIN_KEY_INFO: [u8; 23] = [
    0x70, 0x71, 0x76, 0x70, 0x6e, 0x2d, 0x72, 0x61, 0x74, 0x63, 0x68, 0x65,
    0x74, 0x2d, 0x63, 0x68, 0x61, 0x69, 0x6e, 0x2d, 0x6b, 0x65, 0x79,
];

/// HKDF info string of the packet key, `pqvpn-ratchet-packet-key`.
pub const PACKET_KEY_INFO: [u8; 24] = [
    0x70, 0x71, 0x76, 0x70, 0x6e, 0x2d, 0x72, 0x61, 0x74, 0x63, 0x68, 0x65,
    0x74, 0x2d, 0x70, 0x61, 0x63, 0x6b, 0x65, 0x74, 0x2d, 0x6b, 0x65, 0x79,
];

/// The chain key that follows `chain_key`.
pub open spec fn next_chain_key(chain_key: Seq<u8>) -> Seq<u8> {
    primitives::hkdf_sha256(chain_key, Seq::empty(), CHAIN_KEY_INFO@, 32)
}

/// The packet key that `chain_key` gives.
pub open spec fn packet_key(chain_key: Seq<u8>) -> Seq<u8> {
    primitives::hkdf_sha256(chain_key, Seq::empty(), PACKET_KEY_INFO@, 32)
}

/// The chain key after `n` steps from `seed`.
pub open spec fn chain_at(seed: Seq<u8>, n: nat) -> Seq<u8>
    decreases n,
{
    if n == 0 {
        seed
    } else {
        next_chain_key(chain_at(seed, (n - 1) as nat))
    }
}

/// The key of packet number `n` of the chain that starts at `seed`.
pub open spec fn key_at(seed: Seq<u8>, n: nat) -> Seq<u8> {
    packet_key(chain_at(seed, n))
}

pub struct Ratchet {
    chain_key: [u8; 32],
}

impl View for Ratchet {
    type V = Seq<u8>;

    closed spec fn view(&self) -> Seq<u8> {
        self.chain_key@
    }
}

impl Ratchet {
    pub fn new(initial_chain_key: [u8; 32]) -> (r: Self)
        ensures
            r@ == initial_chain_key@,
    {
        Ratchet { chain_key: initial_chain_key }
    }

    /// Advances the chain by one step and returns the packet key of the step.
    pub fn advance(&mut self) -> (key: [u8; 32])
        ensures
            key@ == packet_key(old(self)@),
            final(self)@ == next_chain_key(old(self)@),
            key@ == primitives::hkdf_sha256(old(self)@, Seq::empty(), PACKET_KEY_INFO@, 32),
            final(self)@ == primitives::hkdf_sha256(
                old(self)@,
                Seq::empty(),
                CHAIN_KEY_INFO@,
                32,
            ),
    {
        let empty: [u8; 0] = [];
        assert(empty@ =~= Seq::<u8>::empty());
        let next: [u8; 32] = primitives::hkdf_derive(&self.chain_key, &empty, &CHAIN_KEY_INFO);
        let key: [u8; 32] = primitives::hkdf_derive(&self.chain_key, &empty, &PACKET_KEY_INFO);
        primitives::wipe(&mut self.chain_key);
        self.chain_key = next;
        key
    }

    /// The raw chain key, from which a receiving chain can be started.
    pub(crate) fn chain_key(&self) -> (r: [u8; 32])
        ensures
            r@ == self@,
    {
        self.chain_key
    }
}

impl Drop for Ratchet {
    /// Erases the chain key.
    fn drop(&mut self)
        ensures
            final(self)@ == bytes::zeros(32),
        opens_invariants none
        no_unwind
    {
        primitives::wipe(&mut self.chain_key);
    }
}

/// Steps add up: `n` steps after `m` steps are `m + n` steps. Two ratchets
/// that once held the same chain key therefore give the same packet keys for
/// ever.
pub proof fn law_chain_steps_add_up(seed: Seq<u8>, m: nat, n: nat)
    ensures
        chain_at(chain_at(seed, m), n) == chain_at(seed, m + n),
        key_at(chain_at(seed, m), n) == key_at(seed, m + n),
    decreases n,
{
    if n > 0 {
        law_chain_steps_add_up(seed, m, (n - 1) as nat);
    }
}

/// Every step of a chain is one HKDF: the chain starts at its seed, the chain key
/// of step `n + 1` is derived from that of step `n` and from nothing else, and so
/// is the packet key of number `n`.
pub proof fn law_chain_is_iterated_hkdf(seed: Seq<u8>, n: nat)
    ensures
        chain_at(seed, 0) == seed,
        chain_at(seed, n + 1) == primitives::hkdf_sha256(
            chain_at(seed, n),
            Seq::empty(),
            CHAIN_KEY_INFO@,
            32,
        ),
        key_at(seed, n) == primitives::hkdf_sha256(
            chain_at(seed, n),
            Seq::empty(),
            PACKET_KEY_INFO@,
            32,
        ),
{
}

/// The info strings are the names of what is derived.
pub proof fn law_info_strings(i: int)
    ensures
        CHAIN_KEY_INFO@.len() == "pqvpn-ratchet-chain-key"@.len(),
        0 <= i < 23 ==> CHAIN_KEY_INFO@[i] == "pqvpn-ratchet-chain-key"@[i] as int,
        PACKET_KEY_INFO@.len() == "pqvpn-ratchet-packet-key"@.len(),
        0 <= i < 24 ==> PACKET_KEY_INFO@[i] == "pqvpn-ratchet-packet-key"@[i] as int,
{
    reveal_strlit("pqvpn-ratchet-chain-key");
    reveal_strlit("pqvpn-ratchet-packet-key");
}

/// Members of `set` that are larger than `s`.
pub open spec fn above(set: Set<u64>, s: u64) -> Set<u64> {
    set.filter(|t: u64| t > s)
}

/// The `cap` largest members of `set`, or all of them if there are no more:
/// those that fewer than `cap` members exceed.
pub open spec fn newest(set: Set<u64>, cap: nat) -> Set<u64> {
    set.filter(|s: u64| above(set, s).len() < cap)
}

/// The numbers from `low` up to but not including `high`.
pub open spec fn seq_range(low: u64, high: u64) -> Set<u64> {
    Set::new(|s: u64| low <= s < high)
}

/// Whether packet `seq` is not too far ahead for a chain whose next number is
/// `next`: it is the next one in order, or at most `max_skip` positions ahead of
/// the last one consumed. A chain that has consumed nothing reaches up to number
/// `max_skip`.
pub open spec fn in_reach(next: u64, max_skip: u64, seq: u64) -> bool {
    if next == 0 {
        seq <= max_skip
    } else {
        seq == next || seq - (next - 1) <= max_skip
    }
}

/// What a receiving chain stands for: the chain key it started from, the next
/// sequence number that has not been derived yet, the skipped numbers whose
/// keys it still holds, and how many of those it may hold.
#[verifier::ext_equal]
pub struct ChainView {
    pub seed: Seq<u8>,
    pub next: u64,
    pub held: Set<u64>,
    pub max_skip: u64,
}

impl ChainView {
    /// Whether the key of packet `seq` can still be had: it is held, or not
    /// further ahead of the last consumed number than the skip limit.
    pub open spec fn available(self, seq: u64) -> bool {
        if seq < self.next {
            self.held.contains(seq)
        } else {
            in_reach(self.next, self.max_skip, seq)
        }
    }

    /// Whether the key of packet `seq` was given out or given up.
    pub open spec fn spent(self, seq: u64) -> bool {
        seq < self.next && !self.held.contains(seq)
    }

    /// The chain after the key of packet `seq` was asked for. A key that is
    /// handed out is no longer held; of the keys passed over, the newest stay.
    pub open spec fn after(self, seq: u64) -> ChainView {
        if !self.available(seq) {
            self
        } else if seq < self.next {
            ChainView { held: self.held.remove(seq), ..self }
        } else {
            ChainView {
                next: (seq + 1) as u64,
                held: newest(self.held.union(seq_range(self.next, seq)), self.max_skip as nat),
                ..self
            }
        }
    }

    /// What holds of every receiving chain: it never holds more keys than the
    /// skip limit, and only keys of numbers that it has passed.
    pub open spec fn valid(self) -> bool {
        &&& self.held.finite()
        &&& self.held.len() <= self.max_skip
        &&& forall|s: u64| self.held.contains(s) ==> s < self.next
    }
}

/// How far a chain reaches, in numbers: the next one can always be had, and so can
/// those less than the skip limit ahead of it, and no others ahead; a chain that
/// has consumed nothing reaches one further, up to the limit itself. Of the
/// numbers passed, those that are held can be had.
pub proof fn law_chain_reach(chain: ChainView, seq: u64)
    ensures
        seq == chain.next ==> chain.available(seq),
        chain.next <= seq < chain.next + chain.max_skip ==> chain.available(seq),
        chain.next == 0 && seq <= chain.max_skip ==> chain.available(seq),
        chain.next > 0 && seq > chain.next && seq >= chain.next + chain.max_skip
            ==> !chain.available(seq),
        chain.next == 0 && seq > chain.max_skip ==> !chain.available(seq),
        seq < chain.next ==> (chain.available(seq) <==> chain.held.contains(seq)),
{
}

/// What a chain is after the key of a number was asked for. A key that cannot be
/// had changes nothing. A held key that is handed out is no longer held, and
/// nothing else changes. A number ahead moves the chain just behind it; of the
/// keys held and passed over, all stay if they are within the limit, and if not,
/// as many as the limit allows, each newer than every one that is given up.
pub proof fn law_newest_keys_are_kept(chain: ChainView, seq: u64)
    requires
        chain.valid(),
        seq < u64::MAX,
    ensures
        ({
            let after = chain.after(seq);
            let count = chain.held.len() + (seq - chain.next);
            &&& after.seed == chain.seed
            &&& after.max_skip == chain.max_skip
            &&& !chain.available(seq) ==> after == chain
            &&& chain.available(seq) && seq < chain.next ==> after.next == chain.next && after.held
                == chain.held.remove(seq)
            &&& chain.available(seq) && seq >= chain.next ==> {
                &&& after.next == seq + 1
                &&& forall|s: u64| #[trigger]
                    after.held.contains(s) ==> chain.held.contains(s) || chain.next <= s < seq
                &&& count <= chain.max_skip ==> forall|s: u64|
                    chain.held.contains(s) || chain.next <= s < seq ==> #[trigger]
                    after.held.contains(s)
                &&& count > chain.max_skip ==> after.held.len() == chain.max_skip
                &&& forall|s: u64, t: u64|
                    (chain.held.contains(s) || chain.next <= s < seq) && !#[trigger]
                    after.held.contains(s) && #[trigger] after.held.contains(t) ==> s < t
            }
        }),
{
    if chain.available(seq) && seq >= chain.next {
        let passed = seq_range(chain.next, seq);
        let all = chain.held.union(passed);
        let cap = chain.max_skip as nat;
        let after = chain.after(seq);
        lemma_range_finite(chain.next, seq);
        assert(chain.held.disjoint(passed));
        vstd::set_lib::lemma_set_disjoint_lens(chain.held, passed);
        lemma_newest_bounded(all, cap);
        if all.len() <= cap {
            lemma_newest_all(all, cap);
        }
        assert forall|s: u64, t: u64|
            all.contains(s) && !#[trigger] after.held.contains(s) && #[trigger] after.held.contains(
                t,
            ) implies s < t by {
            if t <= s {
                assert(above(all, s).subset_of(above(all, t)));
                vstd::set_lib::lemma_len_subset(above(all, s), above(all, t));
            }
        }
    }
}

/// A chain stays valid, whatever is asked for: in particular it never holds
/// more keys than the skip limit.
pub proof fn law_chain_stays_valid(chain: ChainView, seq: u64)
    requires
        chain.valid(),
        seq < u64::MAX || !chain.available(seq),
    ensures
        chain.after(seq).valid(),
{
    if chain.available(seq) {
        if seq < chain.next {
        } else {
            let all = chain.held.union(seq_range(chain.next, seq));
            lemma_range_finite(chain.next, seq);
            lemma_newest_bounded(all, chain.max_skip as nat);
        }
    }
}

/// A key can be had once: asking for it makes it spent.
pub proof fn law_key_is_spent(chain: ChainView, seq: u64)
    requires
        chain.valid(),
        chain.available(seq),
        seq < u64::MAX,
    ensures
        chain.after(seq).spent(seq),
        !chain.after(seq).available(seq),
{
}

/// A spent key stays spent, whatever is asked for afterwards.
pub proof fn law_spent_stays_spent(chain: ChainView, seq: u64, later: u64)
    requires
        chain.spent(seq),
        later < u64::MAX,
    ensures
        chain.after(later).spent(seq),
        !chain.after(later).available(seq),
{
}

/// Reordering within the limit loses nothing: a key that was passed over can
/// still be had, as long as the chain has not moved on by more than the skip
/// limit. This holds of a key passed over now and of one held before.
pub proof fn law_skipped_key_is_kept(chain: ChainView, seq: u64, later: u64)
    requires
        chain.valid(),
        chain.next <= seq || chain.held.contains(seq),
        seq < later,
        chain.next <= later < u64::MAX,
        later - seq <= chain.max_skip,
        chain.available(later),
    ensures
        chain.after(later).available(seq),
        chain.after(later).held.contains(seq),
{
    let all = chain.held.union(seq_range(chain.next, later));
    let newer = seq_range((seq + 1) as u64, later);
    lemma_range_finite((seq + 1) as u64, later);
    assert(above(all, seq).subset_of(newer));
    vstd::set_lib::lemma_len_subset(above(all, seq), newer);
}

proof fn lemma_range_finite(low: u64, high: u64)
    ensures
        seq_range(low, high).finite(),
        seq_range(low, high).len() == if low <= high {
            high - low
        } else {
            0
        },
    decreases high - low,
{
    if low < high {
        let shorter = seq_range(low, (high - 1) as u64);
        lemma_range_finite(low, (high - 1) as u64);
        assert(seq_range(low, high) =~= shorter.insert((high - 1) as u64));
    } else {
        assert(seq_range(low, high) =~= Set::empty());
    }
}

/// A set that is small enough keeps all its members.
proof fn lemma_newest_all(set: Set<u64>, cap: nat)
    requires
        set.finite(),
        set.len() <= cap,
    ensures
        newest(set, cap) =~= set,
{
    assert forall|s: u64| set.contains(s) implies above(set, s).len() < cap by {
        assert(above(set, s).subset_of(set.remove(s)));
        vstd::set_lib::lemma_len_subset(above(set, s), set.remove(s));
    }
}

/// However large a set is, as many members are kept as asked for, if there are
/// so many.
proof fn lemma_newest_bounded(set: Set<u64>, cap: nat)
    requires
        set.finite(),
    ensures
        newest(set, cap).finite(),
        newest(set, cap).len() <= cap,
        set.len() >= cap ==> newest(set, cap).len() == cap,
    decreases set.len(),
{
    if set.len() <= cap {
        lemma_newest_all(set, cap);
    } else {
        lemma_has_smallest(set);
        let smallest = choose|s: u64|
            set.contains(s) && forall|t: u64| set.contains(t) ==> s <= t;
        let rest = set.remove(smallest);
        lemma_newest_bounded(rest, cap);
        assert(above(set, smallest) =~= rest);
        assert forall|s: u64| rest.contains(s) implies above(rest, s) =~= above(set, s) by {}
        assert(newest(set, cap) =~= newest(rest, cap));
    }
}

/// A set with one member too many loses its smallest.
proof fn lemma_newest_drops_smallest(set: Set<u64>, cap: nat, smallest: u64)
    requires
        set.finite(),
        set.len() == cap + 1,
        set.contains(smallest),
        forall|t: u64| set.contains(t) ==> smallest <= t,
    ensures
        newest(set, cap) =~= set.remove(smallest),
{
    assert(above(set, smallest) =~= set.remove(smallest));
    assert forall|s: u64| set.contains(s) && s != smallest implies above(set, s).len() < cap by {
        let rest = set.remove(smallest).remove(s);
        assert(above(set, s).subset_of(rest));
        vstd::set_lib::lemma_len_subset(above(set, s), rest);
    }
}

/// Members can be dropped step by step: adding a new largest one to the
/// newest is as good as adding it to all.
proof fn lemma_newest_step(set: Set<u64>, cap: nat, x: u64)
    requires
        set.finite(),
        forall|t: u64| set.contains(t) ==> t < x,
    ensures
        newest(newest(set, cap).insert(x), cap) =~= newest(set.insert(x), cap),
{
    let kept = newest(set, cap);
    let all = set.insert(x);
    let few = kept.insert(x);
    assert(above(all, x) =~= Set::empty());
    assert(above(few, x) =~= Set::empty());
    assert forall|s: u64| set.contains(s) implies above(all, s) =~= above(set, s).insert(x) by {}
    assert forall|s: u64| kept.contains(s) implies above(few, s) =~= above(all, s) by {
        assert forall|t: u64| above(all, s).contains(t) implies above(few, s).contains(t) by {
            if t != x {
                assert(above(set, t).subset_of(above(set, s)));
                vstd::set_lib::lemma_len_subset(above(set, t), above(set, s));
            }
        }
    }
    assert forall|s: u64| set.contains(s) && !kept.contains(s) implies above(all, s).len()
        >= cap by {
        assert(above(all, s) =~= above(set, s).insert(x));
    }
}

/// Smallest key of a map, if it has any.
fn smallest_key(m: &BTreeMap<u64, [u8; 32]>) -> (r: Option<u64>)
    ensures
        match r {
            Some(k) => m@.contains_key(k) && forall|j: u64| m@.contains_key(j) ==> k <= j,
            None => forall|j: u64| !m@.contains_key(j),
        },
{
    let ghost all = vstd::std_specs::iter::IteratorSpec::remaining(
        &vstd::std_specs::btree::spec_btree_map_iter(m),
    );
    for kv in it: m.iter()
        invariant
            it.index() == 0,
            it.seq() == all,
            all == vstd::std_specs::iter::IteratorSpec::remaining(
                &vstd::std_specs::btree::spec_btree_map_iter(m),
            ),
            vstd::std_specs::btree::increasing_seq(all.map_values(|kv: (&u64, &[u8; 32])| *kv.0)),
    {
        let k: u64 = *kv.0;
        proof {
            let keys = all.map_values(|kv: (&u64, &[u8; 32])| *kv.0);
            assert(all[0] == kv);
            assert(m@.contains_key(*all[0].0));
            assert forall|j: u64| m@.contains_key(j) implies k <= j by {
                assert(all.contains((&j, &m@[j])));
                let i = choose|i: int| 0 <= i < all.len() && all[i] == (&j, &m@[j]);
                assert(keys[i] == j);
                assert(keys[0] == k);
                if i > 0 {
                    assert(vstd::std_specs::cmp::OrdSpec::cmp_spec(&keys[0], &keys[i]) is Less);
                }
            }
        }
        return Some(k);
    }
    proof {
        assert(all.len() == 0);
        assert forall|j: u64| !m@.contains_key(j) by {
            if m@.contains_key(j) {
                assert(all.contains((&j, &m@[j])));
            }
        }
    }
    None
}

/// Wraps a receiving-side `Ratchet` with a bounded cache of skipped packet
/// keys, so that packets can arrive slightly out of order and each key is
/// still used at most once.
pub struct ReceivingChain {
    ratchet: Ratchet,
    next_seq: u64,
    skipped: BTreeMap<u64, [u8; 32]>,
    max_skip: u64,
    seed: Ghost<Seq<u8>>,
}

impl View for ReceivingChain {
    type V = ChainView;

    closed spec fn view(&self) -> ChainView {
        ChainView {
            seed: self.seed@,
            next: self.next_seq,
            held: self.skipped@.dom(),
            max_skip: self.max_skip,
        }
    }
}

impl ReceivingChain {
    /// The ratchet stands where the next number needs it, and every held key
    /// is the key of its number.
    pub closed spec fn wf(&self) -> bool {
        &&& self@.valid()
        &&& self.ratchet@ == chain_at(self.seed@, self.next_seq as nat)
        &&& forall|s: u64| #[trigger]
            self.skipped@.contains_key(s) ==> self.skipped@[s]@ == key_at(self.seed@, s as nat)
    }

    /// A well-formed chain is a valid one.
    pub proof fn lemma_wf(&self)
        requires
            self.wf(),
        ensures
            self@.valid(),
    {
    }

    pub fn new(chain_key: [u8; 32], max_skip: u64) -> (r: Self)
        ensures
            r.wf(),
            r@ == (ChainView { seed: chain_key@, next: 0, held: Set::empty(), max_skip }),
    {
        let r = ReceivingChain {
            ratchet: Ratchet::new(chain_key),
            next_seq: 0,
            skipped: BTreeMap::new(),
            max_skip,
            seed: Ghost(chain_key@),
        };
        assert(r@.held =~= Set::empty());
        r
    }

    /// Whether the key of packet `seq` can still be had.
    pub fn has_key(&self, seq: u64) -> (r: bool)
        ensures
            r == self@.available(seq),
            self@.next <= seq < self@.next + self@.max_skip ==> r,
            seq == self@.next ==> r,
            self@.next == 0 && seq <= self@.max_skip ==> r,
            seq < self@.next ==> r == self@.held.contains(seq),
            r && seq > self@.next > 0 ==> seq < self@.next + self@.max_skip,
            r && self@.next == 0 ==> seq <= self@.max_skip,
    {
        if seq < self.next_seq {
            self.skipped.contains_key(&seq)
        } else if self.next_seq == 0 {
            seq <= self.max_skip
        } else {
            seq == self.next_seq || seq - (self.next_seq - 1) <= self.max_skip
        }
    }

    /// Drops the oldest held key if there is one too many, and erases it.
    fn evict(&mut self)
        requires
            old(self).skipped@.dom().finite(),
            old(self).skipped@.dom().len() <= old(self).max_skip + 1,
        ensures
            final(self).ratchet == old(self).ratchet,
            final(self).next_seq == old(self).next_seq,
            final(self).max_skip == old(self).max_skip,
            final(self).seed == old(self).seed,
            final(self).skipped@ == old(self).skipped@.restrict(
                newest(old(self).skipped@.dom(), old(self).max_skip as nat),
            ),
    {
        let ghost before = self.skipped@;
        let ghost cap = self.max_skip as nat;
        if self.skipped.len() as u64 > self.max_skip {
            let oldest = smallest_key(&self.skipped);
            if let Some(oldest) = oldest {
                proof {
                    lemma_newest_drops_smallest(before.dom(), cap, oldest);
                }
                if let Some(mut evicted) = self.skipped.remove(&oldest) {
                    primitives::wipe(&mut evicted);
                }
                assert(self.skipped@ =~= before.restrict(newest(before.dom(), cap)));
            } else {
                assert(before.dom() =~= Set::empty());
            }
        } else {
            proof {
                lemma_newest_all(before.dom(), cap);
            }
            assert(self.skipped@ =~= before.restrict(newest(before.dom(), cap)));
        }
    }

    /// The packet key for `seq`, deriving forward and holding on to the keys
    /// passed over. `None` if the key was already given out or given up, or if
    /// `seq` is further ahead than the skip limit. The very last sequence
    /// number has no successor and must not be asked for while it is in reach.
    pub fn key_for_seq(&mut self, seq: u64) -> (r: Option<[u8; 32]>)
        requires
            old(self).wf(),
            seq < u64::MAX || !old(self)@.available(seq),
        ensures
            final(self).wf(),
            final(self)@ == old(self)@.after(seq),
            match r {
                Some(key) => old(self)@.available(seq) && key@ == key_at(old(self)@.seed, seq as nat),
                None => !old(self)@.available(seq),
            },
            old(self)@.next <= seq < old(self)@.next + old(self)@.max_skip ==> r is Some,
            seq == old(self)@.next ==> r is Some,
            old(self)@.held.contains(seq) ==> r is Some,
            r is Some ==> final(self)@.next > seq && !final(self)@.held.contains(seq),
            r is None ==> final(self)@ == old(self)@,
    {
        let ghost start = self@;
        if seq < self.next_seq {
            let r = self.skipped.remove(&seq);
            assert(self@.held =~= start.held.remove(seq));
            assert(self@ =~= start.after(seq));
            return r;
        }
        if !self.has_key(seq) {
            return None;
        }
        let ghost cap = self.max_skip as nat;
        proof {
            lemma_newest_all(start.held, cap);
            assert(start.held.union(seq_range(start.next, start.next)) =~= start.held);
        }
        while self.next_seq < seq
            invariant
                start == old(self)@,
                start.valid(),
                self.wf(),
                start.next <= self.next_seq <= seq,
                seq < u64::MAX,
                self.max_skip == start.max_skip,
                self.seed@ == start.seed,
                cap == start.max_skip as nat,
                self@.held == newest(start.held.union(seq_range(start.next, self.next_seq)), cap),
            decreases seq - self.next_seq,
        {
            let ghost at = self.next_seq;
            let ghost passed = start.held.union(seq_range(start.next, at));
            let ghost held = self.skipped@;
            let key = self.ratchet.advance();
            self.skipped.insert(self.next_seq, key);
            self.next_seq = self.next_seq + 1;
            let ghost grown = self.skipped@;
            proof {
                lemma_range_finite(start.next, at);
                assert(grown.dom() =~= held.dom().insert(at));
                lemma_newest_step(passed, cap, at);
                assert(start.held.union(seq_range(start.next, self.next_seq)) =~= passed.insert(at));
            }
            self.evict();
            proof {
                assert(self.skipped@.dom() =~= newest(grown.dom(), cap));
                lemma_newest_bounded(grown.dom(), cap);
            }
        }
        let key = self.ratchet.advance();
        self.next_seq = self.next_seq + 1;
        assert(self@ =~= start.after(seq));
        Some(key)
    }
}

proof fn lemma_has_smallest(set: Set<u64>)
    requires
        set.finite(),
        set.len() > 0,
    ensures
        exists|s: u64| set.contains(s) && forall|t: u64| set.contains(t) ==> s <= t,
    decreases set.len(),
{
    let x = set.choose();
    let rest = set.remove(x);
    if rest.len() == 0 {
        assert(forall|t: u64| set.contains(t) ==> t == x) by {
            assert forall|t: u64| set.contains(t) implies t == x by {
                if t != x {
                    assert(rest.contains(t));
                    vstd::set_lib::lemma_set_empty_equivalency_len(rest);
                }
            }
        }
        assert(set.contains(x) && forall|t: u64| set.contains(t) ==> x <= t);
    } else {
        lemma_has_smallest(rest);
        let y = choose|s: u64| rest.contains(s) && forall|t: u64| rest.contains(t) ==> s <= t;
        let s = if x < y {
            x
        } else {
            y
        };
        assert forall|t: u64| set.contains(t) implies s <= t by {
            if t != x {
                assert(rest.contains(t));
            }
        }
        assert(set.contains(s) && forall|t: u64| set.contains(t) ==> s <= t);
    }
}

} // verus!
