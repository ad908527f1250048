//! The sorted Merkle map behind the state root: a deterministic Merkle
//! function over a map from hashes to hashes.

use crate::crypto::{hash_pair, lemma_hash_by_bytes, pair_hash, zero_hash, Blake3Hash};
use vstd::prelude::*;

verus! {

/// The lexicographic order on byte strings of one length.
pub open spec fn lex_lt(a: Seq<u8>, b: Seq<u8>) -> bool
    decreases a.len(),
{
    if a.len() == 0 || b.len() == 0 {
        false
    } else if a[0] != b[0] {
        a[0] < b[0]
    } else {
        lex_lt(a.drop_first(), b.drop_first())
    }
}

/// No byte string is below itself.
pub proof fn lemma_lex_irreflexive(a: Seq<u8>)
    ensures
        !lex_lt(a, a),
    decreases a.len(),
{
    if a.len() > 0 {
        lemma_lex_irreflexive(a.drop_first());
    }
}

/// The order is transitive.
pub proof fn lemma_lex_transitive(a: Seq<u8>, b: Seq<u8>, c: Seq<u8>)
    requires
        lex_lt(a, b),
        lex_lt(b, c),
    ensures
        lex_lt(a, c),
    decreases a.len(),
{
    if a[0] == b[0] && b[0] == c[0] {
        lemma_lex_transitive(a.drop_first(), b.drop_first(), c.drop_first());
    }
}

/// Of two different byte strings of one length, one is below the other.
pub proof fn lemma_lex_total(a: Seq<u8>, b: Seq<u8>)
    requires
        a.len() == b.len(),
    ensures
        lex_lt(a, b) || lex_lt(b, a) || a == b,
    decreases a.len(),
{
    if a.len() == 0 {
        assert(a =~= b);
    } else if a[0] == b[0] {
        lemma_lex_total(a.drop_first(), b.drop_first());
        if a.drop_first() == b.drop_first() {
            assert forall|i: int| 0 <= i < a.len() implies a[i] == b[i] by {
                if i > 0 {
                    assert(a[i] == a.drop_first()[i - 1]);
                    assert(b[i] == b.drop_first()[i - 1]);
                }
            }
            assert(a =~= b);
        }
    }
}

/// The keys ascend strictly.
pub open spec fn ascending(entries: Seq<(Blake3Hash, Blake3Hash)>) -> bool {
    forall|i: int, j: int|
        0 <= i < j < entries.len() ==> lex_lt((#[trigger] entries[i]).0@, (#[trigger] entries[j]).0@)
}

/// The map that a sequence of entries stands for.
pub open spec fn entries_map(entries: Seq<(Blake3Hash, Blake3Hash)>) -> Map<
    Blake3Hash,
    Blake3Hash,
> {
    Map::new(
        |k: Blake3Hash| exists|i: int| 0 <= i < entries.len() && (#[trigger] entries[i]).0 == k,
        |k: Blake3Hash|
            entries[choose|i: int| 0 <= i < entries.len() && (#[trigger] entries[i]).0 == k].1,
    )
}

/// The entries of a map in ascending order of their keys.
pub open spec fn sorted_entries(map: Map<Blake3Hash, Blake3Hash>) -> Seq<(Blake3Hash, Blake3Hash)> {
    choose|entries: Seq<(Blake3Hash, Blake3Hash)>|
        ascending(entries) && entries_map(entries) == map
}

/// The leaf hashes of a sequence of entries: each key hashed with its value.
pub open spec fn leaf_hashes(entries: Seq<(Blake3Hash, Blake3Hash)>) -> Seq<Blake3Hash> {
    Seq::new(entries.len(), |i: int| pair_hash(entries[i].0, entries[i].1))
}

/// One level up: neighbours hashed in pairs, an odd last node promoted as it
/// is.
pub open spec fn level_up(level: Seq<Blake3Hash>) -> Seq<Blake3Hash> {
    Seq::new(
        ((level.len() + 1) / 2) as nat,
        |k: int|
            if 2 * k + 1 < level.len() {
                pair_hash(level[2 * k], level[2 * k + 1])
            } else {
                level[2 * k]
            },
    )
}

/// The root above a level; the all-zero hash above none.
pub open spec fn merkle_root(level: Seq<Blake3Hash>) -> Blake3Hash
    decreases level.len(),
{
    if level.len() == 0 {
        zero_hash()
    } else if level.len() == 1 {
        level[0]
    } else {
        merkle_root(level_up(level))
    }
}

/// The state root of a map.
pub open spec fn smt_root(map: Map<Blake3Hash, Blake3Hash>) -> Blake3Hash {
    merkle_root(leaf_hashes(sorted_entries(map)))
}

/// In ascending entries each key stands once, and the map gives it its value.
pub proof fn lemma_map_at(entries: Seq<(Blake3Hash, Blake3Hash)>, i: int)
    requires
        ascending(entries),
        0 <= i < entries.len(),
    ensures
        entries_map(entries).dom().contains(entries[i].0),
        entries_map(entries)[entries[i].0] == entries[i].1,
        forall|j: int| 0 <= j < entries.len() && (#[trigger] entries[j]).0 == entries[i].0 ==> j == i,
{
    let k = entries[i].0;
    assert forall|j: int| 0 <= j < entries.len() && (#[trigger] entries[j]).0 == k implies j
        == i by {
        lemma_lex_irreflexive(k@);
    }
}

/// A map has one ascending sequence of entries.
pub proof fn lemma_ascending_unique(
    s: Seq<(Blake3Hash, Blake3Hash)>,
    t: Seq<(Blake3Hash, Blake3Hash)>,
)
    requires
        ascending(s),
        ascending(t),
        entries_map(s) == entries_map(t),
    ensures
        s == t,
    decreases s.len(),
{
    let m = entries_map(s);
    if s.len() == 0 {
        if t.len() > 0 {
            lemma_map_at(t, 0);
            assert(m.dom().contains(t[0].0));
        }
        assert(s =~= t);
    } else if t.len() == 0 {
        lemma_map_at(s, 0);
        assert(entries_map(t).dom().contains(s[0].0));
    } else {
        lemma_map_at(s, 0);
        lemma_map_at(t, 0);
        assert(entries_map(t).dom().contains(s[0].0));
        assert(m.dom().contains(t[0].0));
        let j = choose|j: int| 0 <= j < t.len() && (#[trigger] t[j]).0 == s[0].0;
        let i = choose|i: int| 0 <= i < s.len() && (#[trigger] s[i]).0 == t[0].0;
        if j > 0 {
            if i > 0 {
                lemma_lex_transitive(t[0].0@, s[0].0@, t[0].0@);
            }
            lemma_lex_irreflexive(t[0].0@);
        }
        assert(s[0].0 == t[0].0);
        assert(s[0] == t[0]);
        let s1 = s.drop_first();
        let t1 = t.drop_first();
        lemma_tail_map(s);
        lemma_tail_map(t);
        lemma_ascending_unique(s1, t1);
        assert forall|i: int| 0 <= i < s.len() implies s[i] == t[i] by {
            if i > 0 {
                assert(s[i] == s1[i - 1]);
                assert(t[i] == t1[i - 1]);
            }
        }
        assert(s.len() == s1.len() + 1 && t.len() == t1.len() + 1);
        assert(s =~= t);
    }
}

/// Without its first entry an ascending sequence stands for the map without
/// that entry's key.
proof fn lemma_tail_map(s: Seq<(Blake3Hash, Blake3Hash)>)
    requires
        ascending(s),
        s.len() > 0,
    ensures
        ascending(s.drop_first()),
        entries_map(s.drop_first()) == entries_map(s).remove(s[0].0),
{
    let s1 = s.drop_first();
    assert forall|i: int, j: int| 0 <= i < j < s1.len() implies lex_lt(
        (#[trigger] s1[i]).0@,
        (#[trigger] s1[j]).0@,
    ) by {
        assert(s1[i] == s[i + 1] && s1[j] == s[j + 1]);
    }
    let m = entries_map(s);
    let m1 = entries_map(s1);
    assert forall|k: Blake3Hash| m1.dom().contains(k) <==> m.remove(s[0].0).dom().contains(
        k,
    ) by {
        if m1.dom().contains(k) {
            let i = choose|i: int| 0 <= i < s1.len() && (#[trigger] s1[i]).0 == k;
            assert(s[i + 1].0 == k);
            lemma_map_at(s, i + 1);
        }
        if m.remove(s[0].0).dom().contains(k) {
            let i = choose|i: int| 0 <= i < s.len() && (#[trigger] s[i]).0 == k;
            assert(i > 0);
            assert(s1[i - 1].0 == k);
        }
    }
    assert forall|k: Blake3Hash| m1.dom().contains(k) implies #[trigger] m1[k] == m.remove(
        s[0].0,
    )[k] by {
        let i = choose|i: int| 0 <= i < s1.len() && (#[trigger] s1[i]).0 == k;
        lemma_map_at(s1, i);
        assert(s[i + 1] == s1[i]);
        lemma_map_at(s, i + 1);
    }
    assert(m1 =~= m.remove(s[0].0));
}

/// The ascending entries of the map that ascending entries stand for are
/// those entries.
pub proof fn lemma_sorted_entries_of(entries: Seq<(Blake3Hash, Blake3Hash)>)
    requires
        ascending(entries),
    ensures
        sorted_entries(entries_map(entries)) == entries,
{
    let chosen = sorted_entries(entries_map(entries));
    assert(ascending(entries) && entries_map(entries) == entries_map(entries));
    lemma_ascending_unique(chosen, entries);
}

/// Whether one hash is below another in the order of their bytes.
pub fn precedes(a: &Blake3Hash, b: &Blake3Hash) -> (r: bool)
    ensures
        r == lex_lt(a@, b@),
{
    let mut i: usize = 0;
    assert(a@.skip(0) =~= a@ && b@.skip(0) =~= b@);
    while i < 32
        invariant
            i <= 32,
            a@.len() == 32,
            b@.len() == 32,
            lex_lt(a@, b@) == lex_lt(a@.skip(i as int), b@.skip(i as int)),
        decreases 32 - i,
    {
        let ghost x = a@.skip(i as int);
        let ghost y = b@.skip(i as int);
        assert(x[0] == a@[i as int] && y[0] == b@[i as int]);
        assert(x.drop_first() =~= a@.skip(i + 1) && y.drop_first() =~= b@.skip(i + 1));
        if a.0[i] != b.0[i] {
            return a.0[i] < b.0[i];
        }
        i += 1;
    }
    false
}

/// A map from hashes to hashes that commits to its contents by one root.
#[derive(Debug)]
pub struct Smt {
    leaves: Vec<(Blake3Hash, Blake3Hash)>,
}

impl View for Smt {
    type V = Map<Blake3Hash, Blake3Hash>;

    closed spec fn view(&self) -> Map<Blake3Hash, Blake3Hash> {
        entries_map(self.leaves@)
    }
}

impl Default for Smt {
    fn default() -> (smt: Smt)
        ensures
            smt@ == Map::<Blake3Hash, Blake3Hash>::empty(),
    {
        Smt::new()
    }
}

impl Smt {
    #[verifier::type_invariant]
    spec fn ascends(&self) -> bool {
        ascending(self.leaves@)
    }

    /// The empty map.
    pub fn new() -> (smt: Smt)
        ensures
            smt@ == Map::<Blake3Hash, Blake3Hash>::empty(),
    {
        let smt = Smt { leaves: Vec::new() };
        assert(smt@ =~= Map::<Blake3Hash, Blake3Hash>::empty());
        smt
    }

    /// The number of entries.
    pub fn len(&self) -> (n: usize)
        ensures
            n == self@.dom().len(),
            self@.dom().finite(),
    {
        proof {
            use_type_invariant(self);
            lemma_entries_count(self.leaves@);
        }
        self.leaves.len()
    }

    /// The value that a key is mapped to.
    pub fn get(&self, key: &Blake3Hash) -> (value: Option<Blake3Hash>)
        ensures
            value == if self@.dom().contains(*key) {
                Some(self@[*key])
            } else {
                None
            },
    {
        proof {
            use_type_invariant(self);
        }
        let mut i: usize = 0;
        while i < self.leaves.len()
            invariant
                i <= self.leaves@.len(),
                ascending(self.leaves@),
                forall|j: int| 0 <= j < i ==> (#[trigger] self.leaves@[j]).0 != *key,
            decreases self.leaves@.len() - i,
        {
            if self.leaves[i].0 == *key {
                proof {
                    lemma_map_at(self.leaves@, i as int);
                }
                return Some(self.leaves[i].1);
            }
            i += 1;
        }
        None
    }

    /// Maps `key` to `value`, in place of what it was mapped to.
    pub fn update(&mut self, key: Blake3Hash, value: Blake3Hash)
        ensures
            final(self)@ == old(self)@.insert(key, value),
    {
        proof {
            use_type_invariant(&*self);
        }
        let ghost before = self.leaves@;
        let mut taken = Smt::new();
        core::mem::swap(self, &mut taken);
        let Smt { leaves } = taken;
        let mut leaves = leaves;
        let mut p: usize = 0;
        while p < leaves.len() && precedes(&leaves[p].0, &key)
            invariant
                p <= leaves@.len(),
                leaves@ == before,
                forall|j: int| 0 <= j < p ==> lex_lt((#[trigger] before[j]).0@, key@),
            decreases leaves@.len() - p,
        {
            p += 1;
        }
        if p < leaves.len() && leaves[p].0 == key {
            leaves.set(p, (key, value));
            proof {
                lemma_replaced(before, p as int, key, value);
            }
        } else {
            proof {
                if p < before.len() {
                    lemma_lex_total(before[p as int].0@, key@);
                    if before[p as int].0@ == key@ {
                        lemma_hash_by_bytes(before[p as int].0, key);
                    }
                }
                lemma_inserted(before, p as int, key, value);
            }
            leaves.insert(p, (key, value));
        }
        *self = Smt { leaves };
    }

    /// The state root: the all-zero hash for the empty map, else the root
    /// above the leaf hashes of the entries in ascending order of their keys.
    pub fn get_root(&self) -> (root: Blake3Hash)
        ensures
            root == smt_root(self@),
    {
        proof {
            use_type_invariant(self);
            lemma_sorted_entries_of(self.leaves@);
        }
        let mut level: Vec<Blake3Hash> = Vec::new();
        let mut i: usize = 0;
        while i < self.leaves.len()
            invariant
                i <= self.leaves@.len(),
                level@.len() == i,
                forall|j: int|
                    0 <= j < i ==> level@[j] == pair_hash(self.leaves@[j].0, self.leaves@[j].1),
            decreases self.leaves@.len() - i,
        {
            let leaf = hash_pair(&self.leaves[i].0, &self.leaves[i].1);
            level.push(leaf);
            i += 1;
        }
        assert(level@ =~= leaf_hashes(self.leaves@));
        merkleize(level)
    }
}

/// The root above a level of hashes; the all-zero hash above none.
pub fn merkleize(level: Vec<Blake3Hash>) -> (root: Blake3Hash)
    ensures
        root == merkle_root(level@),
{
    if level.len() == 0 {
        return Blake3Hash::zero();
    }
    let mut current_level = level;
    while current_level.len() > 1
        invariant
            current_level@.len() > 0,
            merkle_root(current_level@) == merkle_root(level@),
        decreases current_level@.len(),
    {
        let n: usize = current_level.len();
        let half: usize = n / 2 + n % 2;
        let mut next_level: Vec<Blake3Hash> = Vec::new();
        let mut k: usize = 0;
        while k < half
            invariant
                n == current_level@.len(),
                n > 1,
                half == (n + 1) / 2,
                k <= half,
                next_level@.len() == k,
                forall|j: int|
                    0 <= j < k ==> next_level@[j] == (if 2 * j + 1 < n {
                        pair_hash(current_level@[2 * j], current_level@[2 * j + 1])
                    } else {
                        current_level@[2 * j]
                    }),
            decreases half - k,
        {
            if k < n / 2 {
                let node = hash_pair(&current_level[2 * k], &current_level[2 * k + 1]);
                next_level.push(node);
            } else {
                next_level.push(current_level[2 * k]);
            }
            k += 1;
        }
        assert(next_level@ =~= level_up(current_level@));
        current_level = next_level;
    }
    current_level[0]
}

/// Ascending entries are as many as the keys of their map.
proof fn lemma_entries_count(s: Seq<(Blake3Hash, Blake3Hash)>)
    requires
        ascending(s),
    ensures
        entries_map(s).dom().finite(),
        entries_map(s).dom().len() == s.len(),
    decreases s.len(),
{
    if s.len() == 0 {
        assert(entries_map(s).dom() =~= Set::<Blake3Hash>::empty());
    } else {
        lemma_tail_map(s);
        lemma_entries_count(s.drop_first());
        lemma_map_at(s, 0);
        let d = entries_map(s).dom();
        assert(d =~= entries_map(s).remove(s[0].0).dom().insert(s[0].0));
    }
}

/// Replacing the value at a key's place maps the key to the new value.
proof fn lemma_replaced(s: Seq<(Blake3Hash, Blake3Hash)>, p: int, key: Blake3Hash, value: Blake3Hash)
    requires
        ascending(s),
        0 <= p < s.len(),
        s[p].0 == key,
    ensures
        ascending(s.update(p, (key, value))),
        entries_map(s.update(p, (key, value))) == entries_map(s).insert(key, value),
{
    let t = s.update(p, (key, value));
    assert forall|i: int, j: int| 0 <= i < j < t.len() implies lex_lt(
        (#[trigger] t[i]).0@,
        (#[trigger] t[j]).0@,
    ) by {
        assert(t[i].0 == s[i].0 && t[j].0 == s[j].0);
    }
    let m = entries_map(s).insert(key, value);
    let n = entries_map(t);
    assert forall|k: Blake3Hash| n.dom().contains(k) <==> m.dom().contains(k) by {
        if n.dom().contains(k) {
            let i = choose|i: int| 0 <= i < t.len() && (#[trigger] t[i]).0 == k;
            assert(s[i].0 == k);
        }
        if m.dom().contains(k) && k != key {
            let i = choose|i: int| 0 <= i < s.len() && (#[trigger] s[i]).0 == k;
            assert(t[i].0 == k);
        }
        if k == key {
            assert(t[p].0 == k);
        }
    }
    assert forall|k: Blake3Hash| n.dom().contains(k) implies #[trigger] n[k] == m[k] by {
        let i = choose|i: int| 0 <= i < t.len() && (#[trigger] t[i]).0 == k;
        lemma_map_at(t, i);
        if i != p {
            assert(t[i] == s[i]);
            lemma_map_at(s, i);
            lemma_map_at(s, p);
        }
    }
    assert(n =~= m);
}

/// Putting a new key in its place maps it to its value and keeps the rest.
proof fn lemma_inserted(s: Seq<(Blake3Hash, Blake3Hash)>, p: int, key: Blake3Hash, value: Blake3Hash)
    requires
        ascending(s),
        0 <= p <= s.len(),
        forall|j: int| 0 <= j < p ==> lex_lt((#[trigger] s[j]).0@, key@),
        p < s.len() ==> lex_lt(key@, s[p].0@),
    ensures
        ascending(s.insert(p, (key, value))),
        entries_map(s.insert(p, (key, value))) == entries_map(s).insert(key, value),
{
    let t = s.insert(p, (key, value));
    assert forall|j: int| p <= j < s.len() implies lex_lt(key@, (#[trigger] s[j]).0@) by {
        if j > p {
            lemma_lex_transitive(key@, s[p].0@, s[j].0@);
        }
    }
    assert forall|i: int, j: int| 0 <= i < j < t.len() implies lex_lt(
        (#[trigger] t[i]).0@,
        (#[trigger] t[j]).0@,
    ) by {
        if i < p {
            assert(t[i] == s[i]);
        } else if i > p {
            assert(t[i] == s[i - 1]);
        }
        if j < p {
            assert(t[j] == s[j]);
        } else if j > p {
            assert(t[j] == s[j - 1]);
        }
    }
    let m = entries_map(s).insert(key, value);
    let n = entries_map(t);
    assert forall|k: Blake3Hash| n.dom().contains(k) <==> m.dom().contains(k) by {
        if n.dom().contains(k) {
            let i = choose|i: int| 0 <= i < t.len() && (#[trigger] t[i]).0 == k;
            if i < p {
                assert(s[i].0 == k);
            } else if i > p {
                assert(s[i - 1].0 == k);
            }
        }
        if m.dom().contains(k) && k != key {
            let i = choose|i: int| 0 <= i < s.len() && (#[trigger] s[i]).0 == k;
            if i < p {
                assert(t[i].0 == k);
            } else {
                assert(t[i + 1].0 == k);
            }
        }
        if k == key {
            assert(t[p].0 == k);
        }
    }
    assert forall|k: Blake3Hash| n.dom().contains(k) implies #[trigger] n[k] == m[k] by {
        let i = choose|i: int| 0 <= i < t.len() && (#[trigger] t[i]).0 == k;
        lemma_map_at(t, i);
        if i < p {
            assert(t[i] == s[i]);
            lemma_map_at(s, i);
            lemma_lex_irreflexive(key@);
        } else if i > p {
            assert(t[i] == s[i - 1]);
            lemma_map_at(s, i - 1);
            lemma_lex_irreflexive(key@);
        }
    }
    assert(n =~= m);
}

/// The state root is a function of the map: two maps with the same keys and
/// values have the same root, however they were filled.
pub proof fn lemma_root_is_deterministic(a: Smt, b: Smt)
    requires
        a@ == b@,
    ensures
        smt_root(a@) == smt_root(b@),
{
}

/// Updates of different keys commute.
pub proof fn lemma_updates_commute(
    map: Map<Blake3Hash, Blake3Hash>,
    k1: Blake3Hash,
    v1: Blake3Hash,
    k2: Blake3Hash,
    v2: Blake3Hash,
)
    requires
        k1 != k2,
    ensures
        smt_root(map.insert(k1, v1).insert(k2, v2)) == smt_root(map.insert(k2, v2).insert(k1, v1)),
{
    assert(map.insert(k1, v1).insert(k2, v2) =~= map.insert(k2, v2).insert(k1, v1));
}

} // verus!
