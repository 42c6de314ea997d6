//! Sliding-window replay protection: the highest sequence number seen, and a
//! bitmap of the `WINDOW_SIZE` sequence numbers up to it. It refuses obvious
//! replays cheaply, before a key derivation and a decryption are spent on them.
use vstd::prelude::*;

verus! {

pub const WINDOW_SIZE: u64 = 64;

pub struct ReplayWindow {
    highest_seq: Option<u64>,
    bitmap: u64,
}

/// What a replay window stands for: the highest sequence number committed so
/// far, and those committed ones that are less than `WINDOW_SIZE` below it.
#[verifier::ext_equal]
pub struct WindowView {
    pub highest: Option<u64>,
    pub seen: Set<u64>,
}

impl WindowView {
    pub open spec fn empty() -> WindowView {
        WindowView { highest: None, seen: Set::empty() }
    }

    /// Whether a packet numbered `seq` is neither a duplicate nor too old.
    pub open spec fn accepts(self, seq: u64) -> bool {
        match self.highest {
            None => true,
            Some(highest) => seq > highest || (highest - seq < WINDOW_SIZE && !self.seen.contains(
                seq,
            )),
        }
    }

    /// The highest sequence number once `seq` is committed.
    pub open spec fn highest_with(self, seq: u64) -> u64 {
        match self.highest {
            Some(highest) if highest >= seq => highest,
            _ => seq,
        }
    }

    /// The window after `seq` was committed.
    pub open spec fn commit(self, seq: u64) -> WindowView {
        let highest = self.highest_with(seq);
        WindowView {
            highest: Some(highest),
            seen: Set::new(
                |s: u64|
                    s <= highest && highest - s < WINDOW_SIZE && (s == seq || self.seen.contains(s)),
            ),
        }
    }
}

/// The window after a whole history of commits, oldest first.
pub open spec fn window_after(history: Seq<u64>) -> WindowView
    decreases history.len(),
{
    if history.len() == 0 {
        WindowView::empty()
    } else {
        window_after(history.drop_last()).commit(history.last())
    }
}

/// The largest number of a history.
pub open spec fn largest(history: Seq<u64>) -> u64
    recommends
        history.len() > 0,
    decreases history.len(),
{
    if history.len() <= 1 {
        history[0]
    } else if history.last() >= largest(history.drop_last()) {
        history.last()
    } else {
        largest(history.drop_last())
    }
}

proof fn lemma_window_after(history: Seq<u64>)
    requires
        history.len() > 0,
    ensures
        window_after(history).highest == Some(largest(history)),
        history.contains(largest(history)),
        forall|s: u64| history.contains(s) ==> s <= largest(history),
        forall|s: u64| #[trigger]
            window_after(history).seen.contains(s) <==> history.contains(s) && largest(history) - s
                < WINDOW_SIZE,
    decreases history.len(),
{
    let before = history.drop_last();
    let last = history.last();
    assert(history =~= before.push(last));
    assert(forall|s: u64| #[trigger] history.contains(s) <==> before.contains(s) || s == last) by {
        assert forall|s: u64| before.contains(s) || s == last implies history.contains(s) by {
            if s == last {
                assert(history[history.len() - 1] == s);
            } else {
                let i = choose|i: int| 0 <= i < before.len() && before[i] == s;
                assert(history[i] == s);
            }
        }
    }
    if before.len() > 0 {
        lemma_window_after(before);
    } else {
        assert(window_after(before) == WindowView::empty());
    }
}

/// The window answers for the whole history: after any sequence of commits, a
/// number is accepted exactly if it is above all of them, or less than
/// `WINDOW_SIZE` below the highest and not among them.
pub proof fn law_window_tracks_history(history: Seq<u64>, seq: u64)
    ensures
        window_after(history).accepts(seq) <==> {
            ||| history.len() == 0
            ||| seq > largest(history)
            ||| largest(history) - seq < WINDOW_SIZE && !history.contains(seq)
        },
{
    if history.len() > 0 {
        lemma_window_after(history);
    }
}

/// A number is accepted exactly if it was never committed and no number that is 64
/// or more above it was.
pub proof fn law_window_accepts_what_is_new(history: Seq<u64>, seq: u64)
    ensures
        window_after(history).accepts(seq) <==> {
            &&& !history.contains(seq)
            &&& forall|i: int| 0 <= i < history.len() ==> #[trigger] history[i] - seq < 64
        },
{
    law_window_tracks_history(history, seq);
    if history.len() > 0 {
        lemma_window_after(history);
        let top = choose|i: int| 0 <= i < history.len() && history[i] == largest(history);
        assert(history[top] == largest(history));
        assert forall|i: int| 0 <= i < history.len() implies #[trigger] history[i] <= largest(
            history,
        ) by {
            assert(history.contains(history[i]));
        }
    }
}

/// A committed number is refused from then on.
pub proof fn law_committed_is_refused(window: WindowView, seq: u64)
    ensures
        !window.commit(seq).accepts(seq),
{
}

/// A number that is refused stays refused, whatever is committed afterwards.
pub proof fn law_refused_stays_refused(window: WindowView, seq: u64, later: u64)
    requires
        !window.accepts(seq),
    ensures
        !window.commit(later).accepts(seq),
{
}

/// Bit `d` of a bitmap.
spec fn bit(bitmap: u64, d: u64) -> bool {
    (bitmap >> d) & 1 == 1
}

proof fn lemma_bit_fresh(d: u64)
    requires
        d < 64,
    ensures
        bit(1, d) <==> d == 0,
{
    assert((1u64 >> d) & 1 == 1 <==> d == 0) by (bit_vector)
        requires
            d < 64,
    ;
}

proof fn lemma_bit_shift(bitmap: u64, shift: u64, d: u64)
    requires
        0 < shift < 64,
        d < 64,
    ensures
        bit((bitmap << shift) | 1, d) <==> d == 0 || (d >= shift && bit(
            bitmap,
            (d - shift) as u64,
        )),
{
    if d >= shift {
        let e: u64 = (d - shift) as u64;
        assert((((bitmap << shift) | 1) >> d) & 1 == (bitmap >> e) & 1) by (bit_vector)
            requires
                0 < shift < 64,
                d < 64,
                e + shift == d,
        ;
    } else {
        assert((((bitmap << shift) | 1) >> d) & 1 == 1 <==> d == 0) by (bit_vector)
            requires
                0 < shift < 64,
                d < shift,
        ;
    }
}

proof fn lemma_bit_set(bitmap: u64, diff: u64, d: u64)
    requires
        diff < 64,
        d < 64,
    ensures
        bit(bitmap | (1u64 << diff), d) <==> d == diff || bit(bitmap, d),
{
    assert(((bitmap | (1u64 << diff)) >> d) & 1 == 1 <==> d == diff || (bitmap >> d) & 1 == 1)
        by (bit_vector)
        requires
            diff < 64,
            d < 64,
    ;
}

impl View for ReplayWindow {
    type V = WindowView;

    closed spec fn view(&self) -> WindowView {
        WindowView {
            highest: self.highest_seq,
            seen: match self.highest_seq {
                None => Set::empty(),
                Some(highest) => Set::new(
                    |s: u64|
                        s <= highest && highest - s < WINDOW_SIZE && bit(
                            self.bitmap,
                            (highest - s) as u64,
                        ),
                ),
            },
        }
    }
}

impl ReplayWindow {
    pub fn new() -> (r: Self)
        ensures
            r@ == WindowView::empty(),
    {
        ReplayWindow { highest_seq: None, bitmap: 0 }
    }

    /// Whether `seq` is acceptable: not a duplicate, and not behind the window.
    /// It is not marked as seen: `commit` does that once the packet has been
    /// authenticated.
    pub fn check(&self, seq: u64) -> (r: bool)
        ensures
            r == self@.accepts(seq),
    {
        match self.highest_seq {
            None => true,
            Some(highest) => {
                if seq > highest {
                    true
                } else {
                    let diff: u64 = highest - seq;
                    let map: u64 = self.bitmap;
                    assert(diff < 64 ==> ((map >> diff) & 1 == 0 || (map >> diff) & 1 == 1))
                        by (bit_vector);
                    diff < WINDOW_SIZE && (map >> diff) & 1 == 0
                }
            },
        }
    }

    /// Marks `seq` as seen.
    pub fn commit(&mut self, seq: u64)
        ensures
            final(self)@ == old(self)@.commit(seq),
    {
        match self.highest_seq {
            None => {
                self.highest_seq = Some(seq);
                self.bitmap = 1;
                proof {
                    assert forall|d: u64| d < 64 implies (#[trigger] bit(1, d) <==> d == 0) by {
                        lemma_bit_fresh(d);
                    }
                }
            },
            Some(highest) => {
                if seq > highest {
                    let shift: u64 = seq - highest;
                    let map: u64 = self.bitmap;
                    if shift >= WINDOW_SIZE {
                        self.bitmap = 1;
                        proof {
                            assert forall|d: u64| d < 64 implies (#[trigger] bit(1, d) <==> d
                                == 0) by {
                                lemma_bit_fresh(d);
                            }
                        }
                    } else {
                        self.bitmap = (map << shift) | 1;
                        proof {
                            assert forall|d: u64| d < 64 implies (#[trigger] bit(
                                (map << shift) | 1,
                                d,
                            ) <==> d == 0 || (d >= shift && bit(map, (d - shift) as u64))) by {
                                lemma_bit_shift(map, shift, d);
                            }
                        }
                    }
                    self.highest_seq = Some(seq);
                } else {
                    let diff: u64 = highest - seq;
                    let map: u64 = self.bitmap;
                    if diff < WINDOW_SIZE {
                        self.bitmap = map | (1u64 << diff);
                        proof {
                            assert forall|d: u64| d < 64 implies (#[trigger] bit(
                                map | (1u64 << diff),
                                d,
                            ) <==> d == diff || bit(map, d)) by {
                                lemma_bit_set(map, diff, d);
                            }
                        }
                    }
                }
            },
        }
        assert(self@ =~= old(self)@.commit(seq));
    }
}

impl Default for ReplayWindow {
    fn default() -> (r: Self)
        ensures
            r@ == WindowView::empty(),
    {
        Self::new()
    }
}

} // verus!
