//! A Merkle commitment over field elements, hashed with blake3. The tree
//! keeps its node hashes level by level in flat vectors, and paths are
//! derived by index arithmetic: the sibling of node `i` is node `i ^ 1`, its
//! parent on the next level is node `i / 2`.
use vstd::prelude::*;

use vstd::arithmetic::power2::pow2;

use crate::field::{all_in_field, seq_vals, BaseField};
use crate::util::{bytes_eq, copy_bytes, is_pow2_spec};

verus! {

/// Errors of the commitment layer: asking for a path of a leaf the tree
/// does not have.
#[derive(Clone, Copy, Debug, PartialEq, Eq, Structural)]
pub enum MerkleError {
    IndexOutOfBounds,
}

/// What blake3 returns for a given byte string. The digest is a function of
/// the input bytes alone; nothing further is assumed of it.
pub uninterp spec fn blake3_digest(input: Seq<u8>) -> Seq<u8>;

/// Relies on blake3::hash: a deterministic 32-byte digest of the input
/// bytes.
#[verifier::external_body]
pub(crate) fn hash_bytes(input: &Vec<u8>) -> (r: Vec<u8>)
    ensures
        r@ == blake3_digest(input@),
        r@.len() == 32,
{
    blake3::hash(input.as_slice()).as_bytes().to_vec()
}

/// A tree root, as its raw digest bytes.
pub type MerkleRoot = Vec<u8>;

/// The hash of a leaf: the digest of the value's one-byte canonical form.
pub open spec fn leaf_hash(v: int) -> Seq<u8> {
    blake3_digest(seq![v as u8])
}

/// The hash of an internal node: the digest of the two children's hashes,
/// left first.
pub open spec fn node_hash(l: Seq<u8>, r: Seq<u8>) -> Seq<u8> {
    blake3_digest(l + r)
}

/// The byte strings of a vector of digests.
pub open spec fn hashes_view(v: Seq<Vec<u8>>) -> Seq<Seq<u8>> {
    v.map_values(|h: Vec<u8>| h@)
}

/// The byte strings of a vector of levels of digests.
pub open spec fn levels_view(v: Seq<Vec<Vec<u8>>>) -> Seq<Seq<Seq<u8>>> {
    v.map_values(|l: Vec<Vec<u8>>| hashes_view(l@))
}

/// One level follows from the previous: half as many nodes, each the hash
/// of its two children.
pub open spec fn next_level_ok(prev: Seq<Seq<u8>>, cur: Seq<Seq<u8>>) -> bool {
    &&& prev.len() % 2 == 0
    &&& cur.len() == prev.len() / 2
    &&& forall|i: int| 0 <= i < cur.len() ==> #[trigger] cur[i] == node_hash(prev[2 * i], prev[2 * i + 1])
}

/// The levels form a hash chain over the given leaf values, from the leaf
/// hashes up; the top level need not have shrunk to the root yet.
pub open spec fn levels_chained(levels: Seq<Seq<Seq<u8>>>, values: Seq<int>) -> bool {
    &&& levels.len() >= 1
    &&& levels[0].len() == values.len()
    &&& forall|i: int| 0 <= i < values.len() ==> #[trigger] levels[0][i] == leaf_hash(values[i])
    &&& forall|k: int| 1 <= k < levels.len() ==> next_level_ok(levels[k - 1], #[trigger] levels[k])
}

/// A complete Merkle tree over the given leaf values.
pub open spec fn tree_wf(levels: Seq<Seq<Seq<u8>>>, values: Seq<int>) -> bool {
    &&& levels_chained(levels, values)
    &&& levels.last().len() == 1
}

/// Identifies whether a hash corresponds to the left or right sibling.
/// This is necessary in order to properly verify an inclusion proof.
#[derive(Clone, Copy, Debug, PartialEq, Eq, Structural)]
pub enum SiblingPosition {
    Left,
    Right,
}

/// The byte strings of the stored path entries.
pub open spec fn path_view(p: Seq<(Vec<u8>, SiblingPosition)>) -> Seq<(Seq<u8>, SiblingPosition)> {
    p.map_values(|e: (Vec<u8>, SiblingPosition)| (e.0@, e.1))
}

/// The path entry of the node above index `idx`, `k` levels up: the sibling
/// hash on level `k`, and on which side that sibling stands.
pub open spec fn path_entry(levels: Seq<Seq<Seq<u8>>>, idx: int, k: int) -> (
    Seq<u8>,
    SiblingPosition,
) {
    let i = idx / pow2(k as nat) as int;
    if i % 2 == 0 {
        (levels[k][i + 1], SiblingPosition::Right)
    } else {
        (levels[k][i - 1], SiblingPosition::Left)
    }
}

/// The whole inclusion path for leaf `idx`, from the leaf level to right
/// below the root.
pub open spec fn path_model(levels: Seq<Seq<Seq<u8>>>, idx: int) -> Seq<(Seq<u8>, SiblingPosition)> {
    Seq::new((levels.len() - 1) as nat, |k: int| path_entry(levels, idx, k))
}

/// Replaying a path from a starting hash: combine with each sibling in
/// order, on the side its position names.
pub open spec fn path_chain(start: Seq<u8>, path: Seq<(Seq<u8>, SiblingPosition)>) -> Seq<u8>
    decreases path.len(),
{
    if path.len() == 0 {
        start
    } else {
        let next = if path[0].1 == SiblingPosition::Left {
            node_hash(path[0].0, start)
        } else {
            node_hash(start, path[0].0)
        };
        path_chain(next, path.drop_first())
    }
}

/// Hashes starting from the leaf to right below the root. `(<hash>, Left)`
/// means that our sibling has hash `<hash>`, and is the left child of our
/// parent (such that we are the right child).
#[derive(Clone, Debug)]
pub struct MerklePath {
    pub path: Vec<(Vec<u8>, SiblingPosition)>,
}

/// A Merkle tree implementation that uses blake3 as a hashing function.
pub struct MerkleTree {
    pub levels: Vec<Vec<Vec<u8>>>,
    pub root: Vec<u8>,
}

impl View for MerkleTree {
    type V = Seq<Seq<Seq<u8>>>;

    open spec fn view(&self) -> Seq<Seq<Seq<u8>>> {
        levels_view(self.levels@)
    }
}

impl MerkleTree {
    /// Builds the tree over the given leaf values, whose number must be a
    /// power of two.
    pub fn new(leaf_values: &Vec<BaseField>) -> (r: Self)
        requires
            is_pow2_spec(leaf_values@.len() as nat),
            all_in_field(seq_vals(leaf_values@)),
        ensures
            tree_wf(r@, seq_vals(leaf_values@)),
            r.root@ == r@.last()[0],
    {
        let n = leaf_values.len();
        let mut leaves: Vec<Vec<u8>> = Vec::new();
        for i in 0..n
            invariant
                n == leaf_values@.len(),
                all_in_field(seq_vals(leaf_values@)),
                leaves@.len() == i,
                forall|j: int|
                    0 <= j < i ==> #[trigger] hashes_view(leaves@)[j] == leaf_hash(
                        seq_vals(leaf_values@)[j],
                    ),
        {
            let ele = leaf_values[i];
            proof {
                assert(seq_vals(leaf_values@)[i as int] == ele@);
                assert(in_field_byte(ele@));
            }
            let mut leaf_bytes: Vec<u8> = Vec::new();
            leaf_bytes.push(ele.as_byte());
            proof {
                assert(leaf_bytes@ =~= seq![ele@ as u8]);
            }
            let ghost prev = leaves@;
            leaves.push(hash_bytes(&leaf_bytes));
            proof {
                assert forall|j: int| 0 <= j < i + 1 implies #[trigger] hashes_view(leaves@)[j]
                    == leaf_hash(seq_vals(leaf_values@)[j]) by {
                    assert(hashes_view(leaves@)[j] == leaves@[j]@);
                    if j < i {
                        assert(leaves@[j] == prev[j]);
                        assert(hashes_view(prev)[j] == prev[j]@);
                    }
                }
            }
        }

        let mut levels: Vec<Vec<Vec<u8>>> = Vec::new();
        let mut current: Vec<Vec<u8>> = leaves;
        while current.len() > 1
            invariant
                is_pow2_spec(current@.len() as nat),
                levels_chained(
                    levels_view(levels@).push(hashes_view(current@)),
                    seq_vals(leaf_values@),
                ),
            decreases current@.len(),
        {
            let half = current.len() / 2;
            let mut next: Vec<Vec<u8>> = Vec::new();
            for i in 0..half
                invariant
                    half == current@.len() / 2,
                    current@.len() % 2 == 0,
                    current@.len() <= usize::MAX,
                    next@.len() == i,
                    forall|j: int|
                        0 <= j < i ==> #[trigger] hashes_view(next@)[j] == node_hash(
                            hashes_view(current@)[2 * j],
                            hashes_view(current@)[2 * j + 1],
                        ),
            {
                proof {
                    assert(2 * i + 1 < current@.len());
                }
                let mut concatenated = copy_bytes(&current[2 * i]);
                let right = &current[2 * i + 1];
                let m = right.len();
                for b in 0..m
                    invariant
                        2 * i + 1 < current@.len(),
                        m == right@.len(),
                        concatenated@ == current@[2 * i as int]@ + right@.subrange(0, b as int),
                {
                    concatenated.push(right[b]);
                    proof {
                        assert(current@[2 * i as int]@ + right@.subrange(0, b + 1)
                            =~= concatenated@);
                    }
                }
                proof {
                    assert(right@.subrange(0, m as int) =~= right@);
                }
                let ghost prev = next@;
                next.push(hash_bytes(&concatenated));
                proof {
                    assert forall|j: int| 0 <= j < i + 1 implies #[trigger] hashes_view(next@)[j]
                        == node_hash(
                        hashes_view(current@)[2 * j],
                        hashes_view(current@)[2 * j + 1],
                    ) by {
                        assert(hashes_view(next@)[j] == next@[j]@);
                        if j < i {
                            assert(next@[j] == prev[j]);
                            assert(hashes_view(prev)[j] == prev[j]@);
                        } else {
                            assert(hashes_view(current@)[2 * j] == current@[2 * j]@);
                            assert(hashes_view(current@)[2 * j + 1] == current@[2 * j + 1]@);
                        }
                    }
                }
            }
            let ghost old_levels = levels@;
            let ghost old_current = current@;
            levels.push(current);
            current = next;
            proof {
                let full = levels_view(levels@).push(hashes_view(current@));
                let prev_full = levels_view(old_levels).push(hashes_view(old_current));
                assert(levels_view(levels@) =~= levels_view(old_levels).push(
                    hashes_view(old_current),
                ));
                assert(full.drop_last() =~= prev_full);
                assert forall|k: int| 1 <= k < full.len() implies next_level_ok(
                    full[k - 1],
                    #[trigger] full[k],
                ) by {
                    if k < full.len() - 1 {
                        assert(prev_full[k] == full[k]);
                        assert(prev_full[k - 1] == full[k - 1]);
                    } else {
                        assert(full[k] == hashes_view(current@));
                        assert(full[k - 1] == hashes_view(old_current));
                    }
                }
            }
        }
        let ghost pre_levels = levels@;
        let ghost final_current = current@;
        proof {
            assert(final_current.len() == 1);
        }
        let root = copy_bytes(&current[0]);
        levels.push(current);
        let r = MerkleTree { levels, root };
        proof {
            assert(levels_view(r.levels@) =~= levels_view(pre_levels).push(
                hashes_view(final_current),
            ));
            assert(r@.last() == hashes_view(final_current));
            assert(hashes_view(final_current)[0] == final_current[0]@);
        }
        r
    }

    /// Recomputes the root from an opened value and its path, and compares.
    pub fn verify_inclusion(&self, element: BaseField, path: &MerklePath) -> (r: bool)
        requires
            in_field_byte(element@),
        ensures
            r == (path_chain(leaf_hash(element@), path_view(path.path@)) == self.root@),
    {
        path.verify_inclusion(element, &self.root)
    }

}

/// A value a single byte can carry; every canonical field element is one.
pub open spec fn in_field_byte(v: int) -> bool {
    0 <= v < 256
}

impl MerklePath {
    /// Walks from leaf `index` to the root, collecting each sibling hash
    /// and its side.
    #[verifier::rlimit(100)]
    pub fn new(merkle_tree: &MerkleTree, index: usize) -> (r: Result<Self, MerkleError>)
        requires
            exists|values: Seq<int>| tree_wf(merkle_tree@, values),
        ensures
            match r {
                Ok(p) => index < merkle_tree@[0].len() && path_view(p.path@) == path_model(
                    merkle_tree@,
                    index as int,
                ),
                Err(e) => index >= merkle_tree@[0].len() && e == MerkleError::IndexOutOfBounds,
            },
    {
        let ghost values = choose|values: Seq<int>| tree_wf(merkle_tree@, values);
        if index >= merkle_tree.levels[0].len() {
            return Err(MerkleError::IndexOutOfBounds);
        }

        let depth = merkle_tree.levels.len() - 1;
        let mut path: Vec<(Vec<u8>, SiblingPosition)> = Vec::new();
        let mut node_idx = index;
        proof {
            vstd::arithmetic::power2::lemma2_to64();
            assert(index as int / 1 == index as int);
        }
        for k in 0..depth
            invariant
                depth == merkle_tree@.len() - 1,
                tree_wf(merkle_tree@, values),
                node_idx == index as int / pow2(k as nat) as int,
                node_idx < merkle_tree@[k as int].len(),
                path@.len() == k,
                forall|m: int|
                    0 <= m < k ==> #[trigger] path_view(path@)[m] == path_entry(
                        merkle_tree@,
                        index as int,
                        m,
                    ),
        {
            proof {
                lemma_levels_even(merkle_tree@, values, k as int);
                assert(hashes_view(merkle_tree.levels@[k as int]@) == merkle_tree@[k as int]);
            }
            let level = &merkle_tree.levels[k];
            let sibling_idx = if node_idx % 2 == 0 {
                node_idx + 1
            } else {
                node_idx - 1
            };
            let position = if node_idx % 2 == 0 {
                SiblingPosition::Right
            } else {
                SiblingPosition::Left
            };
            let sibling_hash = copy_bytes(&level[sibling_idx]);
            let ghost prev = path@;
            path.push((sibling_hash, position));
            proof {
                assert forall|m: int| 0 <= m < k + 1 implies #[trigger] path_view(path@)[m]
                    == path_entry(merkle_tree@, index as int, m) by {
                    assert(path_view(path@)[m] == (path@[m].0@, path@[m].1));
                    if m < k {
                        assert(path@[m] == prev[m]);
                        assert(path_view(prev)[m] == (prev[m].0@, prev[m].1));
                    } else {
                        assert(merkle_tree@[k as int][sibling_idx as int] == hashes_view(
                            merkle_tree.levels@[k as int]@,
                        )[sibling_idx as int]);
                    }
                }
            }
            node_idx = node_idx / 2;
            proof {
                // the index one level up
                vstd::arithmetic::power2::lemma_pow2_pos(k as nat);
                vstd::arithmetic::power2::lemma_pow2_unfold((k + 1) as nat);
                vstd::arithmetic::div_mod::lemma_div_denominator(
                    index as int,
                    pow2(k as nat) as int,
                    2,
                );
                vstd::arithmetic::mul::lemma_mul_is_commutative(pow2(k as nat) as int, 2);
                // and it stays inside the next level
                lemma_next_index_in_range(merkle_tree@, values, k as int, node_idx as int);
            }
        }
        proof {
            assert(path_view(path@) =~= path_model(merkle_tree@, index as int));
        }
        Ok(MerklePath { path })
    }

    /// Recomputes the root from an opened value and this path, and compares
    /// with the given root.
    pub fn verify_inclusion(&self, element: BaseField, root: &Vec<u8>) -> (r: bool)
        requires
            in_field_byte(element@),
        ensures
            r == (path_chain(leaf_hash(element@), path_view(self.path@)) == root@),
    {
        let mut element_bytes: Vec<u8> = Vec::new();
        element_bytes.push(element.as_byte());
        proof {
            assert(element_bytes@ =~= seq![element@ as u8]);
        }
        let mut current_hash = hash_bytes(&element_bytes);
        proof {
            assert(path_view(self.path@).skip(0) =~= path_view(self.path@));
        }

        let n = self.path.len();
        for k in 0..n
            invariant
                n == self.path@.len(),
                path_chain(leaf_hash(element@), path_view(self.path@)) == path_chain(
                    current_hash@,
                    path_view(self.path@).skip(k as int),
                ),
        {
            let (sibling_hash, position) = &self.path[k];
            let mut concatenated: Vec<u8>;
            match position {
                SiblingPosition::Left => {
                    // sibling hash comes first
                    concatenated = copy_bytes(sibling_hash);
                    let m = current_hash.len();
                    for b in 0..m
                        invariant
                            m == current_hash@.len(),
                            concatenated@ == sibling_hash@ + current_hash@.subrange(0, b as int),
                    {
                        concatenated.push(current_hash[b]);
                        proof {
                            assert(sibling_hash@ + current_hash@.subrange(0, b + 1)
                                =~= concatenated@);
                        }
                    }
                    proof {
                        assert(current_hash@.subrange(0, m as int) =~= current_hash@);
                    }
                },
                SiblingPosition::Right => {
                    // sibling hash comes second
                    concatenated = copy_bytes(&current_hash);
                    let m = sibling_hash.len();
                    for b in 0..m
                        invariant
                            m == sibling_hash@.len(),
                            concatenated@ == current_hash@ + sibling_hash@.subrange(0, b as int),
                    {
                        concatenated.push(sibling_hash[b]);
                        proof {
                            assert(current_hash@ + sibling_hash@.subrange(0, b + 1)
                                =~= concatenated@);
                        }
                    }
                    proof {
                        assert(sibling_hash@.subrange(0, m as int) =~= sibling_hash@);
                    }
                },
            }
            let ghost previous_hash = current_hash@;
            current_hash = hash_bytes(&concatenated);
            proof {
                let pv = path_view(self.path@);
                assert(pv[k as int] == (self.path@[k as int].0@, self.path@[k as int].1));
                assert(pv.skip(k as int).drop_first() =~= pv.skip(k + 1));
                assert(pv.skip(k as int)[0] == pv[k as int]);
                assert(path_chain(previous_hash, pv.skip(k as int)) == path_chain(
                    current_hash@,
                    pv.skip(k + 1),
                ));
            }
        }
        proof {
            assert(path_view(self.path@).skip(n as int) =~= Seq::<(
                Seq<u8>,
                SiblingPosition,
            )>::empty());
        }
        bytes_eq(&current_hash, root)
    }
}

/// Inside a chained tree, every level below the top has even length.
proof fn lemma_levels_even(levels: Seq<Seq<Seq<u8>>>, values: Seq<int>, k: int)
    requires
        levels_chained(levels, values),
        0 <= k < levels.len() - 1,
    ensures
        levels[k].len() % 2 == 0,
        levels[k + 1].len() == levels[k].len() / 2,
{
    assert(next_level_ok(levels[k], levels[k + 1]));
}

/// A halved index lands inside the next level up.
proof fn lemma_next_index_in_range(
    levels: Seq<Seq<Seq<u8>>>,
    values: Seq<int>,
    k: int,
    half_idx: int,
)
    requires
        levels_chained(levels, values),
        0 <= k < levels.len() - 1,
        half_idx >= 0,
        2 * half_idx < levels[k].len() || 2 * half_idx + 1 < levels[k].len(),
    ensures
        half_idx < levels[k + 1].len(),
{
    lemma_levels_even(levels, values, k);
}

/// Law (Merkle round trip): in a well-formed tree, replaying the inclusion
/// path of any leaf from that leaf's hash reproduces the root.
pub proof fn lemma_merkle_roundtrip(levels: Seq<Seq<Seq<u8>>>, values: Seq<int>, idx: int)
    requires
        tree_wf(levels, values),
        0 <= idx < values.len(),
    ensures
        path_chain(leaf_hash(values[idx]), path_model(levels, idx)) == levels.last()[0],
{
    assert(pow2(0) == 1) by {
        vstd::arithmetic::power2::lemma2_to64();
    }
    assert(idx / pow2(0) as int == idx);
    lemma_merkle_chain(levels, values, idx, 0);
    assert(path_model(levels, idx).skip(0) =~= path_model(levels, idx));
}

/// Replaying the path entries from level `k` on, starting from the node on
/// level `k` above leaf `idx`, reaches the root.
#[verifier::rlimit(100)]
proof fn lemma_merkle_chain(levels: Seq<Seq<Seq<u8>>>, values: Seq<int>, idx: int, k: int)
    requires
        tree_wf(levels, values),
        0 <= idx,
        0 <= k < levels.len(),
        (idx / pow2(k as nat) as int) < levels[k].len(),
    ensures
        path_chain(levels[k][idx / pow2(k as nat) as int], path_model(levels, idx).skip(k))
            == levels.last()[0],
    decreases levels.len() - k,
{
    let i = idx / pow2(k as nat) as int;
    vstd::arithmetic::power2::lemma_pow2_pos(k as nat);
    vstd::arithmetic::div_mod::lemma_div_pos_is_pos(idx, pow2(k as nat) as int);
    if k == levels.len() - 1 {
        assert(levels[k].len() == 1);
        assert(i == 0);
        assert(path_model(levels, idx).skip(k) =~= Seq::<(Seq<u8>, SiblingPosition)>::empty());
    } else {
        lemma_levels_even(levels, values, k);
        let pm = path_model(levels, idx);
        assert(pm.skip(k)[0] == pm[k]);
        assert(pm.skip(k).drop_first() =~= pm.skip(k + 1));
        assert(next_level_ok(levels[k], levels[k + 1]));
        // the node above is the hash of this node and its sibling
        let up = i / 2;
        assert(levels[k + 1][up] == node_hash(levels[k][2 * up], levels[k][2 * up + 1]));
        // index arithmetic: one more halving is one more power of two
        vstd::arithmetic::power2::lemma_pow2_unfold((k + 1) as nat);
        vstd::arithmetic::div_mod::lemma_div_denominator(idx, pow2(k as nat) as int, 2);
        vstd::arithmetic::mul::lemma_mul_is_commutative(pow2(k as nat) as int, 2);
        assert(idx / pow2((k + 1) as nat) as int == up);
        lemma_merkle_chain(levels, values, idx, k + 1);
    }
}

} // verus!
