//! The Merkle mountain range: an append-only accumulator that keeps one peak
//! per set bit of its size and commits to its leaves by one root.

use crate::crypto::{hash_pair, pair_hash, zero_hash, Blake3Hash};
use vstd::prelude::*;

verus! {

/// Bit `h` of `n`.
pub open spec fn bit(n: nat, h: nat) -> bool
    decreases h,
{
    if h == 0 {
        n % 2 == 1
    } else {
        bit(n / 2, (h - 1) as nat)
    }
}

/// The number of set bits of `n`.
pub open spec fn popcount(n: nat) -> nat
    decreases n,
{
    if n == 0 {
        0
    } else {
        (n % 2) + popcount(n / 2)
    }
}

/// The number of occupied slots.
pub open spec fn occupied(peaks: Seq<Option<Blake3Hash>>) -> nat
    decreases peaks.len(),
{
    if peaks.len() == 0 {
        0
    } else {
        (if peaks[0] is Some {
            1nat
        } else {
            0nat
        }) + occupied(peaks.drop_first())
    }
}

/// Slot `h` is occupied exactly where bit `h` of `n` is set.
pub open spec fn bits_match(peaks: Seq<Option<Blake3Hash>>, n: nat) -> bool {
    forall|h: nat| #[trigger] bit(n, h) <==> (h < peaks.len() && peaks[h as int] is Some)
}

/// The same correspondence, told slot by slot from the lowest.
pub open spec fn shaped(peaks: Seq<Option<Blake3Hash>>, n: nat) -> bool
    decreases peaks.len(),
{
    if peaks.len() == 0 {
        n == 0
    } else {
        (peaks[0] is Some <==> n % 2 == 1) && shaped(peaks.drop_first(), n / 2)
    }
}

/// The slots after `current`, the root of a finished subtree of the lowest
/// height, is carried in: it merges with each occupied slot it meets, the
/// older subtree on the left, empties that slot, and parks in the first free
/// one.
pub open spec fn carried(peaks: Seq<Option<Blake3Hash>>, current: Blake3Hash) -> Seq<
    Option<Blake3Hash>,
>
    decreases peaks.len(),
{
    if peaks.len() == 0 {
        seq![Some(current)]
    } else {
        match peaks[0] {
            None => seq![Some(current)] + peaks.drop_first(),
            Some(left) => seq![None] + carried(peaks.drop_first(), pair_hash(left, current)),
        }
    }
}

/// What the slots commit to: the occupied ones bagged from the highest down,
/// each lower peak on the left of what is above it.
pub open spec fn bagged(peaks: Seq<Option<Blake3Hash>>) -> Option<Blake3Hash>
    decreases peaks.len(),
{
    if peaks.len() == 0 {
        None
    } else {
        let above = bagged(peaks.drop_first());
        match peaks[0] {
            None => above,
            Some(peak) => match above {
                None => Some(peak),
                Some(root) => Some(pair_hash(peak, root)),
            },
        }
    }
}

/// The root of an accumulator of the given size and slots.
pub open spec fn root_of(size: u64, peaks: Seq<Option<Blake3Hash>>) -> Blake3Hash {
    if size == 0 {
        zero_hash()
    } else {
        match bagged(peaks) {
            Some(root) => root,
            None => zero_hash(),
        }
    }
}

/// One level up: neighbours hashed in pairs; an odd last node is left behind.
pub open spec fn pair_up(level: Seq<Blake3Hash>) -> Seq<Blake3Hash> {
    Seq::new(level.len() / 2, |k: int| pair_hash(level[2 * k], level[2 * k + 1]))
}

/// The slots of the accumulator that holds exactly these leaves: at each
/// level the odd last node is a peak, the rest goes up in pairs.
pub open spec fn peaks_of(level: Seq<Blake3Hash>) -> Seq<Option<Blake3Hash>>
    decreases level.len(),
{
    if level.len() == 0 {
        Seq::empty()
    } else {
        seq![
            if level.len() % 2 == 1 {
                Some(level.last())
            } else {
                None
            },
        ] + peaks_of(pair_up(level))
    }
}

/// The root that commits to a sequence of leaves.
pub open spec fn mmr_root(leaves: Seq<Blake3Hash>) -> Blake3Hash {
    match bagged(peaks_of(leaves)) {
        Some(root) => root,
        None => zero_hash(),
    }
}

/// Carrying a subtree in keeps the slots in step with the size.
pub proof fn lemma_carried_shaped(peaks: Seq<Option<Blake3Hash>>, current: Blake3Hash, n: nat)
    requires
        shaped(peaks, n),
    ensures
        shaped(carried(peaks, current), n + 1),
    decreases peaks.len(),
{
    let after = carried(peaks, current);
    if peaks.len() == 0 {
        assert(after.drop_first() =~= Seq::empty());
        assert(shaped(after.drop_first(), 0));
    } else {
        match peaks[0] {
            None => {
                assert(after.drop_first() =~= peaks.drop_first());
                assert(after[0] is Some);
                assert((n + 1) / 2 == n / 2);
            },
            Some(left) => {
                let inner = carried(peaks.drop_first(), pair_hash(left, current));
                lemma_carried_shaped(peaks.drop_first(), pair_hash(left, current), n / 2);
                assert(after.drop_first() =~= inner);
                assert(after[0] is None);
                assert((n + 1) / 2 == n / 2 + 1);
            },
        }
    }
}

/// A number whose bits are all clear is zero.
proof fn lemma_some_bit(n: nat) -> (h: nat)
    requires
        n > 0,
    ensures
        bit(n, h),
    decreases n,
{
    if n % 2 == 1 {
        0
    } else {
        let below = lemma_some_bit(n / 2);
        below + 1
    }
}

/// The slot-by-slot telling and the bit-by-bit telling agree.
pub proof fn lemma_shaped_is_bits_match(peaks: Seq<Option<Blake3Hash>>, n: nat)
    ensures
        shaped(peaks, n) <==> bits_match(peaks, n),
    decreases peaks.len(),
{
    if peaks.len() == 0 {
        if n > 0 {
            let h = lemma_some_bit(n);
        } else {
            assert forall|h: nat| !#[trigger] bit(0, h) by {
                lemma_zero_has_no_bit(h);
            }
        }
    } else {
        let rest = peaks.drop_first();
        lemma_shaped_is_bits_match(rest, n / 2);
        if shaped(peaks, n) {
            assert forall|h: nat| #[trigger] bit(n, h) <==> (h < peaks.len() && peaks[h as int] is Some) by {
                if h > 0 {
                    let g = (h - 1) as nat;
                    assert(bit(n / 2, g) <==> (g < rest.len() && rest[g as int] is Some));
                }
            }
        }
        if bits_match(peaks, n) {
            assert(bit(n, 0) <==> peaks[0] is Some);
            assert forall|g: nat| #[trigger] bit(n / 2, g) <==> (g < rest.len() && rest[g as int] is Some) by {
                let h = g + 1;
                assert(bit(n, h) <==> (h < peaks.len() && peaks[h as int] is Some));
            }
        }
    }
}

proof fn lemma_zero_has_no_bit(h: nat)
    ensures
        !bit(0, h),
    decreases h,
{
    if h > 0 {
        lemma_zero_has_no_bit((h - 1) as nat);
    }
}

/// Slots in step with a size hold as many peaks as the size has set bits.
pub proof fn lemma_occupied_is_popcount(peaks: Seq<Option<Blake3Hash>>, n: nat)
    requires
        bits_match(peaks, n),
    ensures
        occupied(peaks) == popcount(n),
    decreases peaks.len(),
{
    lemma_shaped_is_bits_match(peaks, n);
    if peaks.len() > 0 {
        lemma_shaped_is_bits_match(peaks.drop_first(), n / 2);
        lemma_occupied_is_popcount(peaks.drop_first(), n / 2);
    }
}

/// Carrying a new leaf into the slots of some leaves gives the slots of the
/// leaves with the new one behind them.
pub proof fn lemma_carried_peaks_of(leaves: Seq<Blake3Hash>, leaf: Blake3Hash)
    ensures
        carried(peaks_of(leaves), leaf) == peaks_of(leaves.push(leaf)),
    decreases leaves.len(),
{
    let more = leaves.push(leaf);
    let n = leaves.len();
    if n == 0 {
        assert(pair_up(more) =~= Seq::empty());
        assert(peaks_of(pair_up(more)) =~= Seq::empty());
        assert(peaks_of(more) =~= seq![Some(leaf)]);
    } else if n % 2 == 0 {
        assert(pair_up(more) =~= pair_up(leaves));
        let slots = peaks_of(leaves);
        assert(slots.drop_first() =~= peaks_of(pair_up(leaves)));
        assert(carried(slots, leaf) =~= peaks_of(more));
    } else {
        let left = leaves.last();
        let up = pair_up(leaves);
        assert(pair_up(more) =~= up.push(pair_hash(left, leaf)));
        lemma_carried_peaks_of(up, pair_hash(left, leaf));
        let slots = peaks_of(leaves);
        assert(slots.drop_first() =~= peaks_of(up));
        assert(carried(slots, leaf) =~= peaks_of(more));
    }
}

/// The slots of a sequence of leaves are in step with its length.
pub proof fn lemma_peaks_of_shaped(leaves: Seq<Blake3Hash>)
    ensures
        shaped(peaks_of(leaves), leaves.len()),
        bits_match(peaks_of(leaves), leaves.len()),
    decreases leaves.len(),
{
    if leaves.len() > 0 {
        lemma_peaks_of_shaped(pair_up(leaves));
        assert(peaks_of(leaves).drop_first() =~= peaks_of(pair_up(leaves)));
    }
    lemma_shaped_is_bits_match(peaks_of(leaves), leaves.len());
}

/// A Merkle mountain range. Only the peaks are kept: slot `h` holds the root
/// of a perfect subtree of 2^h leaves where bit `h` of `size` is set.
#[derive(Debug, Clone)]
pub struct Mmr {
    /// The number of leaves appended so far.
    pub size: u64,
    /// Slot `h` is occupied exactly where bit `h` of `size` is set.
    pub peaks: Vec<Option<Blake3Hash>>,
}

impl Default for Mmr {
    fn default() -> (mmr: Mmr)
        ensures
            mmr.size == 0,
            mmr.peaks@.len() == 0,
    {
        Mmr { size: 0, peaks: Vec::new() }
    }
}

impl Mmr {
    /// The slots are in step with the size.
    pub open spec fn wf(&self) -> bool {
        bits_match(self.peaks@, self.size as nat)
    }

    /// The accumulator is the one that was grown from exactly these leaves.
    pub open spec fn holds(&self, leaves: Seq<Blake3Hash>) -> bool {
        self.size == leaves.len() && self.peaks@ == peaks_of(leaves)
    }

    /// The root that the accumulator commits to.
    pub open spec fn spec_root(&self) -> Blake3Hash {
        root_of(self.size, self.peaks@)
    }

    /// The empty accumulator.
    pub fn new() -> (mmr: Mmr)
        ensures
            mmr.size == 0,
            mmr.peaks@.len() == 0,
            mmr.wf(),
            mmr.holds(Seq::empty()),
    {
        let mmr = Mmr { size: 0, peaks: Vec::new() };
        proof {
            lemma_peaks_of_shaped(Seq::empty());
            assert(mmr.peaks@ =~= peaks_of(Seq::empty()));
        }
        mmr
    }

    /// Appends a leaf: it merges upwards through the occupied slots and parks
    /// in the first free one.
    pub fn append(&mut self, leaf: Blake3Hash)
        requires
            old(self).size < u64::MAX,
        ensures
            final(self).size == old(self).size + 1,
            final(self).peaks@ == carried(old(self).peaks@, leaf),
            old(self).wf() ==> final(self).wf(),
            forall|leaves: Seq<Blake3Hash>| #[trigger]
                old(self).holds(leaves) ==> final(self).holds(leaves.push(leaf)),
    {
        let ghost start = self.peaks@;
        let ghost size = self.size;
        let mut current = leaf;
        let mut h: usize = 0;
        assert(start.skip(0) =~= start);
        assert(self.peaks@.take(0) + carried(start, leaf) =~= carried(start, leaf));
        loop
            invariant_except_break
                h <= self.peaks.len(),
                self.peaks@.len() == start.len(),
                forall|j: int| 0 <= j < h ==> self.peaks@[j] is None,
                forall|j: int| h <= j < start.len() ==> self.peaks@[j] == start[j],
                carried(start, leaf) == self.peaks@.take(h as int) + carried(
                    start.skip(h as int),
                    current,
                ),
            invariant
                self.size == size,
            ensures
                self.peaks@ == carried(start, leaf),
            decreases self.peaks.len() - h,
        {
            let ghost rest = start.skip(h as int);
            if h >= self.peaks.len() {
                self.peaks.push(Some(current));
                assert(self.peaks@ =~= carried(start, leaf));
                break ;
            }
            assert(rest[0] == start[h as int]);
            match self.peaks[h] {
                Some(left) => {
                    current = hash_pair(&left, &current);
                    self.peaks.set(h, None);
                    h += 1;
                    assert(rest.drop_first() =~= start.skip(h as int));
                    assert(self.peaks@.take(h as int) =~= self.peaks@.take(h - 1) + seq![
                        None::<Blake3Hash>,
                    ]);
                    assert(carried(start, leaf) =~= self.peaks@.take(h as int) + carried(
                        start.skip(h as int),
                        current,
                    ));
                },
                None => {
                    self.peaks.set(h, Some(current));
                    assert(carried(rest, current) =~= seq![Some(current)] + rest.drop_first());
                    assert(self.peaks@ =~= carried(start, leaf));
                    break ;
                },
            }
        }
        self.size += 1;
        proof {
            if old(self).wf() {
                lemma_shaped_is_bits_match(start, size as nat);
                lemma_carried_shaped(start, leaf, size as nat);
                lemma_shaped_is_bits_match(self.peaks@, self.size as nat);
            }
            assert forall|leaves: Seq<Blake3Hash>| #[trigger]
                old(self).holds(leaves) implies self.holds(leaves.push(leaf)) by {
                lemma_carried_peaks_of(leaves, leaf);
            }
        }
    }

    /// The root: the all-zero hash for the empty accumulator, else the peaks
    /// bagged from the highest down.
    pub fn get_root(&self) -> (root: Blake3Hash)
        ensures
            root == self.spec_root(),
            forall|leaves: Seq<Blake3Hash>| #[trigger] self.holds(leaves) ==> root == mmr_root(leaves),
    {
        proof {
            assert forall|leaves: Seq<Blake3Hash>| #[trigger] self.holds(leaves) implies self.spec_root()
                == mmr_root(leaves) by {
                if leaves.len() == 0 {
                    assert(bagged(peaks_of(leaves)) is None);
                }
            }
        }
        if self.size == 0 {
            return Blake3Hash::zero();
        }
        let mut above: Option<Blake3Hash> = None;
        let mut i: usize = self.peaks.len();
        while i > 0
            invariant
                i <= self.peaks.len(),
                above == bagged(self.peaks@.skip(i as int)),
            decreases i,
        {
            i -= 1;
            let ghost tail = self.peaks@.skip(i as int);
            assert(tail.drop_first() =~= self.peaks@.skip(i + 1));
            assert(tail[0] == self.peaks@[i as int]);
            match self.peaks[i] {
                Some(peak) => {
                    above = match above {
                        None => Some(peak),
                        Some(root) => Some(hash_pair(&peak, &root)),
                    };
                },
                None => {},
            }
        }
        assert(self.peaks@.skip(0) =~= self.peaks@);
        match above {
            Some(root) => root,
            None => Blake3Hash::zero(),
        }
    }
}

/// The root of the accumulator grown from the given leaves, in their order.
pub fn root_of_leaves(leaves: &Vec<Blake3Hash>) -> (root: Blake3Hash)
    ensures
        root == mmr_root(leaves@),
{
    let mut mmr = Mmr::new();
    let mut i: usize = 0;
    assert(leaves@.take(0) =~= Seq::empty());
    while i < leaves.len()
        invariant
            i <= leaves@.len(),
            mmr.holds(leaves@.take(i as int)),
        decreases leaves@.len() - i,
    {
        assert(leaves@.take(i as int).push(leaves@[i as int]) =~= leaves@.take(i + 1));
        mmr.append(leaves[i]);
        i += 1;
    }
    assert(leaves@.take(i as int) =~= leaves@);
    mmr.get_root()
}

/// After any run of appends the number of occupied slots is the number of set
/// bits of the size.
pub proof fn lemma_peak_count(mmr: Mmr)
    requires
        mmr.wf(),
    ensures
        occupied(mmr.peaks@) == popcount(mmr.size as nat),
{
    lemma_occupied_is_popcount(mmr.peaks@, mmr.size as nat);
}

/// An accumulator grown from a sequence of leaves is in step with its size.
pub proof fn lemma_holds_wf(mmr: Mmr, leaves: Seq<Blake3Hash>)
    requires
        mmr.holds(leaves),
    ensures
        mmr.wf(),
{
    lemma_peaks_of_shaped(leaves);
}

} // verus!
