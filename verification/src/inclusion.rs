//! Inclusion proofs for the Merkle mountain range: the verifier, and the
//! generator that walks from a leaf to the root.

use crate::crypto::{hash_pair, pair_hash, Blake3Hash};
use crate::mmr::{bagged, mmr_root, pair_up, peaks_of, root_of_leaves};
use vstd::prelude::*;

verus! {

/// Two to the power `e`.
pub open spec fn two_pow(e: nat) -> nat
    decreases e,
{
    if e == 0 {
        1
    } else {
        2 * two_pow((e - 1) as nat)
    }
}

/// The hash reached from `current` by hashing in one sibling per step. At each
/// step the lowest bit of `index` tells the side: set, the sibling is on the
/// left; clear, on the right. Then the index is halved.
pub open spec fn climbed(current: Blake3Hash, index: nat, siblings: Seq<Blake3Hash>) -> Blake3Hash
    decreases siblings.len(),
{
    if siblings.len() == 0 {
        current
    } else {
        let next = if index % 2 == 1 {
            pair_hash(siblings[0], current)
        } else {
            pair_hash(current, siblings[0])
        };
        climbed(next, index / 2, siblings.drop_first())
    }
}

/// Whether the node at `pos` of a level is its odd last node, that is a peak.
pub open spec fn is_peak(level: Seq<Blake3Hash>, pos: int) -> bool {
    level.len() % 2 == 1 && pos == level.len() - 1
}

/// The neighbour that a node is paired with.
pub open spec fn neighbour(pos: int) -> int {
    if pos % 2 == 0 {
        pos + 1
    } else {
        pos - 1
    }
}

/// The number of levels that the node at `pos` climbs inside its mountain.
pub open spec fn climb_height(level: Seq<Blake3Hash>, pos: int) -> nat
    decreases level.len(),
{
    if !(0 <= pos < level.len()) || is_peak(level, pos) {
        0
    } else {
        1 + climb_height(pair_up(level), pos / 2)
    }
}

/// The siblings on the way from the node at `pos` of a level to the root of
/// that level: first those inside its mountain, then what is bagged above the
/// mountain, then the lower peaks, the highest first.
pub open spec fn walk(level: Seq<Blake3Hash>, pos: int) -> Seq<Blake3Hash>
    decreases level.len(),
{
    if !(0 <= pos < level.len()) {
        Seq::empty()
    } else if is_peak(level, pos) {
        match bagged(peaks_of(pair_up(level))) {
            None => Seq::empty(),
            Some(above) => seq![above],
        }
    } else {
        let inner = seq![level[neighbour(pos)]] + walk(pair_up(level), pos / 2);
        if level.len() % 2 == 1 {
            inner.push(level.last())
        } else {
            inner
        }
    }
}

/// The sides of that walk, one bit per sibling, the first step in the lowest
/// bit. Inside a mountain these are the bits of the leaf's position in it; the
/// step that meets what is bagged above has a clear bit, the steps that meet
/// the lower peaks have set bits.
pub open spec fn walk_code(level: Seq<Blake3Hash>, pos: int) -> nat
    decreases level.len(),
{
    if !(0 <= pos < level.len()) || is_peak(level, pos) {
        0
    } else {
        let low = (pos % 2) as nat + 2 * walk_code(pair_up(level), pos / 2);
        if level.len() % 2 == 1 {
            low + two_pow(1 + walk(pair_up(level), pos / 2).len())
        } else {
            low
        }
    }
}

/// A level that is not empty has a root.
pub proof fn lemma_bagged_some(level: Seq<Blake3Hash>)
    requires
        level.len() > 0,
    ensures
        bagged(peaks_of(level)) is Some,
    decreases level.len(),
{
    assert(peaks_of(level).drop_first() =~= peaks_of(pair_up(level)));
    if level.len() % 2 == 0 {
        lemma_bagged_some(pair_up(level));
    }
}

/// Powers of two are positive.
pub proof fn lemma_two_pow_positive(e: nat)
    ensures
        two_pow(e) > 0,
    decreases e,
{
    if e > 0 {
        lemma_two_pow_positive((e - 1) as nat);
    }
}

/// The code of a walk has no bit beyond the walk's steps.
pub proof fn lemma_walk_code_bound(level: Seq<Blake3Hash>, pos: int)
    ensures
        walk_code(level, pos) < two_pow(walk(level, pos).len()),
    decreases level.len(),
{
    if 0 <= pos < level.len() && !is_peak(level, pos) {
        let inner = walk(pair_up(level), pos / 2);
        let code = walk_code(pair_up(level), pos / 2);
        lemma_walk_code_bound(pair_up(level), pos / 2);
        let low = (pos % 2) as nat + 2 * code;
        assert(two_pow(1 + inner.len()) == 2 * two_pow(inner.len()));
        assert(low < two_pow(1 + inner.len()));
        if level.len() % 2 == 1 {
            assert(walk(level, pos).len() == 2 + inner.len());
            assert(two_pow(2 + inner.len()) == 2 * two_pow(1 + inner.len()));
        } else {
            assert(walk(level, pos).len() == 1 + inner.len());
        }
    } else {
        lemma_two_pow_positive(walk(level, pos).len());
    }
}

/// One more sibling at the end of a walk is met by the bit just above the
/// walk's own.
pub proof fn lemma_climbed_push(
    current: Blake3Hash,
    low: nat,
    siblings: Seq<Blake3Hash>,
    last: Blake3Hash,
)
    requires
        low < two_pow(siblings.len()),
    ensures
        climbed(current, low, siblings.push(last)) == pair_hash(
            climbed(current, low, siblings),
            last,
        ),
        climbed(current, low + two_pow(siblings.len()), siblings.push(last)) == pair_hash(
            last,
            climbed(current, low, siblings),
        ),
    decreases siblings.len(),
{
    let more = siblings.push(last);
    if siblings.len() == 0 {
        assert(more.drop_first() =~= Seq::empty());
        assert(climbed(pair_hash(current, last), 0, more.drop_first()) == pair_hash(current, last));
        assert(climbed(pair_hash(last, current), 0, more.drop_first()) == pair_hash(last, current));
    } else {
        let rest = siblings.drop_first();
        assert(more.drop_first() =~= rest.push(last));
        let next = if low % 2 == 1 {
            pair_hash(siblings[0], current)
        } else {
            pair_hash(current, siblings[0])
        };
        let high = low + two_pow(siblings.len());
        assert(two_pow(siblings.len()) == 2 * two_pow(rest.len()));
        assert(high % 2 == low % 2);
        assert(high / 2 == low / 2 + two_pow(rest.len()));
        lemma_climbed_push(next, low / 2, rest, last);
    }
}

/// The walk from any node of a level, taken with its code, ends in the root of
/// that level.
pub proof fn lemma_walk_reaches_root(level: Seq<Blake3Hash>, pos: int)
    requires
        0 <= pos < level.len(),
    ensures
        bagged(peaks_of(level)) == Some(climbed(level[pos], walk_code(level, pos), walk(level, pos))),
    decreases level.len(),
{
    let up = pair_up(level);
    let slots = peaks_of(level);
    assert(slots.drop_first() =~= peaks_of(up));
    let leaf = level[pos];
    if is_peak(level, pos) {
        assert(slots[0] == Some(leaf));
        match bagged(peaks_of(up)) {
            None => {
                assert(climbed(leaf, 0, Seq::empty()) == leaf);
            },
            Some(above) => {
                let one = seq![above];
                assert(one.drop_first() =~= Seq::empty());
                assert(climbed(pair_hash(leaf, above), 0, one.drop_first()) == pair_hash(
                    leaf,
                    above,
                ));
                assert(climbed(leaf, 0, one) == pair_hash(leaf, above));
            },
        }
    } else {
        let inner = walk(up, pos / 2);
        let code = walk_code(up, pos / 2);
        lemma_walk_reaches_root(up, pos / 2);
        lemma_walk_code_bound(up, pos / 2);
        let node = up[pos / 2];
        let steps = walk(level, pos);
        let full = walk_code(level, pos);
        let other = level[neighbour(pos)];
        assert(node == if pos % 2 == 1 {
            pair_hash(other, leaf)
        } else {
            pair_hash(leaf, other)
        });
        assert(steps[0] == other);
        assert(two_pow(1 + inner.len()) == 2 * two_pow(inner.len()));
        assert(full % 2 == pos % 2);
        if level.len() % 2 == 1 {
            assert(steps.drop_first() =~= inner.push(level.last()));
            lemma_climbed_push(node, code, inner, level.last());
            assert(full / 2 == code + two_pow(inner.len()));
            assert(climbed(leaf, full, steps) == climbed(node, full / 2, steps.drop_first()));
            assert(slots[0] == Some(level.last()));
        } else {
            assert(steps.drop_first() =~= inner);
            assert(full / 2 == code);
            assert(climbed(leaf, full, steps) == climbed(node, full / 2, steps.drop_first()));
            assert(slots[0] is None);
        }
    }
}

/// The number of binary digits of `n`.
pub open spec fn bit_length(n: nat) -> nat
    decreases n,
{
    if n == 0 {
        0
    } else {
        1 + bit_length(n / 2)
    }
}

/// A number below two to the `e` has at most `e` digits.
pub proof fn lemma_bit_length_bound(n: nat, e: nat)
    requires
        n < two_pow(e),
    ensures
        bit_length(n) <= e,
    decreases n,
{
    if n > 0 {
        lemma_bit_length_bound(n / 2, (e - 1) as nat);
    }
}

/// Powers of two grow with the exponent.
pub proof fn lemma_two_pow_monotonic(a: nat, b: nat)
    requires
        a <= b,
    ensures
        two_pow(a) <= two_pow(b),
    decreases b,
{
    if a < b {
        lemma_two_pow_monotonic(a, (b - 1) as nat);
    }
}

/// Some values of the powers of two at the edge of the machine's words.
pub proof fn lemma_two_pow_values()
    ensures
        two_pow(32) == 0x1_0000_0000,
        two_pow(63) == 0x8000_0000_0000_0000,
        two_pow(64) == 0x1_0000_0000_0000_0000,
{
    reveal_with_fuel(two_pow, 17);
    assert(two_pow(16) == 0x1_0000);
    assert(two_pow(32) == 0x1_0000 * two_pow(16));
    assert(two_pow(48) == 0x1_0000 * two_pow(32));
    assert(two_pow(63) == 0x8000 * two_pow(48));
    assert(two_pow(64) == 2 * two_pow(63));
}

/// A walk climbs no longer than its mountain allows, and is no longer than
/// twice the number of levels.
pub proof fn lemma_walk_length(level: Seq<Blake3Hash>, pos: int)
    requires
        0 <= pos < level.len(),
    ensures
        climb_height(level, pos) <= walk(level, pos).len(),
        walk(level, pos).len() + 1 <= 2 * bit_length(level.len()),
    decreases level.len(),
{
    if !is_peak(level, pos) {
        lemma_walk_length(pair_up(level), pos / 2);
    }
}

/// What the generator gathers on its way up.
struct Walk {
    siblings: Vec<Blake3Hash>,
    code: u64,
    weight: u64,
    height: usize,
}

/// The level above: neighbours hashed in pairs.
fn pair_level(level: &Vec<Blake3Hash>) -> (up: Vec<Blake3Hash>)
    ensures
        up@ == pair_up(level@),
{
    let mut up: Vec<Blake3Hash> = Vec::new();
    let pairs: usize = level.len() / 2;
    let mut k: usize = 0;
    while k < pairs
        invariant
            pairs == level@.len() / 2,
            level@.len() <= usize::MAX,
            k <= pairs,
            up@.len() == k,
            forall|j: int| 0 <= j < k ==> up@[j] == pair_hash(level@[2 * j], level@[2 * j + 1]),
        decreases pairs - k,
    {
        assert(2 * k + 1 < level@.len());
        let node = hash_pair(&level[2 * k], &level[2 * k + 1]);
        up.push(node);
        k += 1;
    }
    assert(up@ =~= pair_up(level@));
    up
}

/// Walks from the node at `pos` of a level to the root of that level. Gives
/// nothing where the walk is longer than the 63 steps whose sides fit a code.
fn walk_level(level: &Vec<Blake3Hash>, pos: usize) -> (res: Option<Walk>)
    requires
        pos < level@.len(),
    ensures
        res is Some <==> walk(level@, pos as int).len() <= 63,
        res matches Some(w) ==> {
            &&& w.siblings@ == walk(level@, pos as int)
            &&& w.code == walk_code(level@, pos as int)
            &&& w.weight == two_pow(w.siblings@.len())
            &&& w.height == climb_height(level@, pos as int)
        },
    decreases level@.len(),
{
    proof {
        lemma_two_pow_values();
    }
    let n: usize = level.len();
    let up = pair_level(level);
    if n % 2 == 1 && pos == n - 1 {
        if up.len() == 0 {
            assert(peaks_of(up@) =~= Seq::empty());
            Some(Walk { siblings: Vec::new(), code: 0, weight: 1, height: 0 })
        } else {
            proof {
                lemma_bagged_some(up@);
            }
            let above = root_of_leaves(&up);
            let mut siblings: Vec<Blake3Hash> = Vec::new();
            siblings.push(above);
            assert(siblings@ =~= seq![above]);
            assert(two_pow(1) == 2) by {
                reveal_with_fuel(two_pow, 2);
            }
            Some(Walk { siblings, code: 0, weight: 2, height: 0 })
        }
    } else {
        let other = if pos % 2 == 0 {
            level[pos + 1]
        } else {
            level[pos - 1]
        };
        let ghost inner_len = walk(up@, (pos / 2) as int).len();
        match walk_level(&up, pos / 2) {
            None => None,
            Some(inner) => {
                let mut inner = inner;
                proof {
                    lemma_walk_code_bound(up@, (pos / 2) as int);
                    lemma_walk_length(up@, (pos / 2) as int);
                    if inner_len <= 62 {
                        lemma_two_pow_monotonic(inner_len, 62);
                        assert(two_pow(63) == 2 * two_pow(62));
                    }
                    if inner_len <= 61 {
                        lemma_two_pow_monotonic(inner_len, 61);
                        assert(two_pow(62) == 2 * two_pow(61));
                        assert(two_pow(63) == 2 * two_pow(62));
                    }
                    if inner_len >= 62 {
                        lemma_two_pow_monotonic(62, inner_len);
                        assert(two_pow(63) == 2 * two_pow(62));
                    }
                    if inner_len >= 63 {
                        lemma_two_pow_monotonic(63, inner_len);
                    }
                    assert(two_pow(1 + inner_len) == 2 * two_pow(inner_len));
                    assert(two_pow(2 + inner_len) == 2 * two_pow(1 + inner_len));
                }
                if inner.weight > 0x4000_0000_0000_0000 {
                    return None;
                }
                let weight: u64 = inner.weight * 2;
                let low: u64 = (pos % 2) as u64 + 2 * inner.code;
                let height: usize = inner.height + 1;
                let mut siblings: Vec<Blake3Hash> = Vec::new();
                siblings.push(other);
                siblings.append(&mut inner.siblings);
                if n % 2 == 1 {
                    if weight > 0x4000_0000_0000_0000 {
                        return None;
                    }
                    siblings.push(level[n - 1]);
                    assert(siblings@ =~= walk(level@, pos as int));
                    Some(Walk { siblings, code: low + weight, weight: weight * 2, height })
                } else {
                    assert(siblings@ =~= walk(level@, pos as int));
                    Some(Walk { siblings, code: low, weight, height })
                }
            },
        }
    }
}

/// The walk from any leaf, taken with its code, ends in the root that commits
/// to the leaves.
pub proof fn lemma_walk_verifies(leaves: Seq<Blake3Hash>, index: int)
    requires
        0 <= index < leaves.len(),
    ensures
        climbed(leaves[index], walk_code(leaves, index), walk(leaves, index)) == mmr_root(leaves),
{
    lemma_walk_reaches_root(leaves, index);
}

/// The walk from a leaf of a range leads to the root of that range and to no
/// other hash: taken against any root, it arrives there exactly where that
/// root is the root of the range it was made for.
pub proof fn lemma_walk_needs_its_root(leaves: Seq<Blake3Hash>, index: int, root: Blake3Hash)
    requires
        0 <= index < leaves.len(),
    ensures
        climbed(leaves[index], walk_code(leaves, index), walk(leaves, index)) == root <==> root
            == mmr_root(leaves),
{
    lemma_walk_verifies(leaves, index);
}

/// A proof that an event id is a leaf under an event root.
#[derive(Clone, Debug)]
pub struct EventInclusionProof {
    /// The sides of the walk to the root, one bit per sibling, the first step
    /// in the lowest bit. While the leaf climbs its own mountain these are the
    /// bits of its position there; in a range that is a single mountain the
    /// whole value is the leaf's index.
    pub leaf_index: u64,
    /// The number of leaves of the range that the proof was made for.
    pub mmr_size: u64,
    /// The siblings inside the leaf's own mountain, from the leaf upwards.
    pub path: Vec<Blake3Hash>,
    /// All hashes that lead from the leaf to the root, in the order in which
    /// they are hashed in.
    pub siblings: Vec<Blake3Hash>,
}

impl EventInclusionProof {
    /// The root that the proof leads to from `leaf`.
    pub open spec fn spec_root(&self, leaf: Blake3Hash) -> Blake3Hash {
        climbed(leaf, self.leaf_index as nat, self.siblings@)
    }

    /// The proof for the leaf at `index` of the range that holds exactly
    /// `leaves`. There is none for an index outside the range, nor where the
    /// walk has more steps than the 63 whose sides fit the code; ranges of
    /// fewer than 2^32 leaves have no such walk.
    pub fn generate(leaves: &Vec<Blake3Hash>, index: usize) -> (res: Option<EventInclusionProof>)
        ensures
            res is Some <==> index < leaves@.len() && walk(leaves@, index as int).len() <= 63,
            index < leaves@.len() && leaves@.len() < 0x1_0000_0000 ==> res is Some,
            res matches Some(p) ==> {
                &&& p.leaf_index == walk_code(leaves@, index as int)
                &&& p.mmr_size == leaves@.len()
                &&& p.siblings@ == walk(leaves@, index as int)
                &&& p.path@ == p.siblings@.take(climb_height(leaves@, index as int) as int)
                &&& p.spec_root(leaves@[index as int]) == mmr_root(leaves@)
            },
    {
        if index >= leaves.len() {
            return None;
        }
        proof {
            lemma_walk_length(leaves@, index as int);
            lemma_walk_verifies(leaves@, index as int);
            if leaves@.len() < 0x1_0000_0000 {
                lemma_two_pow_values();
                lemma_bit_length_bound(leaves@.len(), 32);
            }
        }
        match walk_level(leaves, index) {
            None => None,
            Some(w) => {
                let mut path: Vec<Blake3Hash> = Vec::new();
                let mut i: usize = 0;
                while i < w.height
                    invariant
                        i <= w.height <= w.siblings@.len(),
                        path@ == w.siblings@.take(i as int),
                    decreases w.height - i,
                {
                    path.push(w.siblings[i]);
                    assert(path@ =~= w.siblings@.take(i + 1));
                    i += 1;
                }
                Some(
                    EventInclusionProof {
                        leaf_index: w.code,
                        mmr_size: leaves.len() as u64,
                        path,
                        siblings: w.siblings,
                    },
                )
            },
        }
    }

    /// Whether the proof leads from `leaf` to `root`.
    pub fn verify(&self, root: &Blake3Hash, leaf: &Blake3Hash) -> (ok: bool)
        ensures
            ok == (self.spec_root(*leaf) == *root),
    {
        let mut current_hash = *leaf;
        let mut current_index = self.leaf_index;
        let mut i: usize = 0;
        assert(self.siblings@.skip(0) =~= self.siblings@);
        while i < self.siblings.len()
            invariant
                i <= self.siblings@.len(),
                climbed(*leaf, self.leaf_index as nat, self.siblings@) == climbed(
                    current_hash,
                    current_index as nat,
                    self.siblings@.skip(i as int),
                ),
            decreases self.siblings@.len() - i,
        {
            let ghost rest = self.siblings@.skip(i as int);
            assert(rest.drop_first() =~= self.siblings@.skip(i + 1));
            assert(rest[0] == self.siblings@[i as int]);
            let sibling = self.siblings[i];
            current_hash = if current_index % 2 == 1 {
                hash_pair(&sibling, &current_hash)
            } else {
                hash_pair(&current_hash, &sibling)
            };
            current_index = current_index / 2;
            i += 1;
        }
        current_hash == *root
    }
}

} // verus!
