//! A fixed-depth, array-backed complete binary Merkle tree with point
//! updates that recompute only the root path, and inclusion proofs whose
//! fold exactly inverts the order in which siblings were collected.
use vstd::prelude::*;

verus! {

use vstd::arithmetic::power2::{pow2, lemma_pow2_unfold, lemma_pow2_pos};

/// Hash types, values and algorithms for a Merkle tree.
///
/// The combining function is left abstract: the cryptographic permutation is
/// an external primitive, and every tree proof below holds for any
/// implementation whose `hash_node` computes its own `spec_hash_node`.
pub trait Hasher {
    /// Type of the leaf and node hashes.
    type Hash: Copy + PartialEq + Eq;

    /// The mathematical node-combining function.
    spec fn spec_hash_node(left: Self::Hash, right: Self::Hash) -> Self::Hash;

    /// Compute the hash of an intermediate node.
    fn hash_node(left: &Self::Hash, right: &Self::Hash) -> (r: Self::Hash)
        ensures
            r == Self::spec_hash_node(*left, *right),
    ;

    /// Decide equality of two hash values.
    fn hash_eq(left: &Self::Hash, right: &Self::Hash) -> (r: bool)
        ensures
            r == (left == right),
    ;
}

/// Parent of a node in the breadth-first array (meaningful for `i >= 1`).
pub open spec fn parent_idx(i: int) -> int {
    (i - 1) / 2
}

/// Level of a node: 0 at the root, `depth - 1` at the leaves.
pub open spec fn level_of(i: int) -> nat
    decreases i,
{
    if i <= 0 {
        0
    } else {
        1 + level_of(parent_idx(i))
    }
}

/// Whether `j` lies on the path from node `i` up to the root.
pub open spec fn on_path(j: int, i: int) -> bool
    decreases i,
{
    if i <= 0 {
        j == i
    } else {
        j == i || on_path(j, parent_idx(i))
    }
}

/// Whether `j` is a proper ancestor of some node in `[s, e]`.
pub open spec fn anc_of_range(j: int, s: int, e: int) -> bool {
    exists|i: int| s <= i <= e && #[trigger] on_path(j, i) && j != i
}

/// The breadth-first indices on the path from node `i` to the root.
pub open spec fn root_path(i: int) -> Seq<int>
    decreases i,
{
    if i <= 0 {
        seq![0]
    } else {
        seq![i] + root_path(parent_idx(i))
    }
}

/// A node's level bounds its index: level `l` occupies
/// `[2^l - 1, 2^(l+1) - 2]`.
pub proof fn lemma_level_bounds(i: int)
    requires
        i >= 0,
    ensures
        pow2(level_of(i)) - 1 <= i <= 2 * pow2(level_of(i)) - 2,
    decreases i,
{
    if i == 0 {
        assert(pow2(0) == 1) by {
            vstd::arithmetic::power2::lemma2_to64();
        }
    } else {
        let p = parent_idx(i);
        lemma_level_bounds(p);
        lemma_pow2_unfold(level_of(i));
        assert(i == 2 * p + 1 || i == 2 * p + 2);
    }
}

/// Conversely, the index interval of level `l` pins the level down.
pub proof fn lemma_level_in_range(l: nat, i: int)
    requires
        pow2(l) - 1 <= i <= 2 * pow2(l) - 2,
    ensures
        level_of(i) == l,
    decreases l,
{
    lemma_pow2_pos(l);
    if l == 0 {
        assert(pow2(0) == 1) by {
            vstd::arithmetic::power2::lemma2_to64();
        }
    } else {
        lemma_pow2_unfold(l);
        let p = parent_idx(i);
        assert(i >= 1);
        lemma_level_in_range((l - 1) as nat, p);
    }
}

/// On-path nodes are exactly the members of the root path.
pub proof fn lemma_on_path_is_root_path(j: int, i: int)
    requires
        i >= 0,
    ensures
        on_path(j, i) <==> root_path(i).contains(j),
    decreases i,
{
    if i == 0 {
        assert(root_path(0) == seq![0int]);
        if root_path(i).contains(j) {
            let k = choose|k: int| 0 <= k < root_path(i).len() && root_path(i)[k] == j;
            assert(j == 0);
        }
        if on_path(j, i) {
            assert(root_path(i)[0] == 0);
        }
    } else {
        lemma_on_path_is_root_path(j, parent_idx(i));
        let rp = root_path(i);
        assert(rp == seq![i] + root_path(parent_idx(i)));
        if on_path(j, i) {
            if j == i {
                assert(rp[0] == j);
            } else {
                let k = choose|k: int|
                    0 <= k < root_path(parent_idx(i)).len() && root_path(parent_idx(i))[k] == j;
                assert(rp[k + 1] == j);
            }
        }
        if rp.contains(j) {
            let k = choose|k: int| 0 <= k < rp.len() && rp[k] == j;
            if k == 0 {
                assert(j == i);
            } else {
                assert(root_path(parent_idx(i))[k - 1] == j);
                assert(root_path(parent_idx(i)).contains(j));
            }
        }
    }
}

/// The root path of a node at level `l` holds exactly `l + 1` nodes.
pub proof fn lemma_root_path_len(i: int)
    requires
        i >= 0,
    ensures
        root_path(i).len() == level_of(i) + 1,
    decreases i,
{
    if i > 0 {
        lemma_root_path_len(parent_idx(i));
    }
}

/// Every node lies on its own root path.
proof fn lemma_on_path_self(i: int)
    ensures
        on_path(i, i),
{
    if i <= 0 {
        assert(on_path(i, i) == (i == i));
    }
}

/// A proper path ancestor lies at or below the parent, and strictly below
/// the node itself.
proof fn lemma_on_path_above(j: int, i: int)
    requires
        i >= 1,
        on_path(j, i),
        j != i,
    ensures
        on_path(j, parent_idx(i)),
        j <= parent_idx(i),
        j < i,
    decreases i,
{
    let p = parent_idx(i);
    assert(on_path(j, p));
    assert(p < i);
    if j != p {
        if p >= 1 {
            lemma_on_path_above(j, p);
        } else {
            assert(p == 0);
            assert(j == 0);
            assert(false);
        }
    }
}

/// Every index between the parents of two same-level endpoints is the
/// parent of some index between the endpoints.
proof fn lemma_parent_of_range(start: int, end: int, j: int) -> (i: int)
    requires
        1 <= start <= end,
        parent_idx(start) <= j <= parent_idx(end),
    ensures
        start <= i <= end,
        parent_idx(i) == j,
        on_path(j, i),
        j != i,
{
    let ps = parent_idx(start);
    let pe = parent_idx(end);
    lemma_on_path_self(j);
    if j == ps {
        assert(on_path(j, start));
        start
    } else if j == pe {
        assert(on_path(j, end));
        end
    } else {
        let i = 2 * j + 1;
        assert(parent_idx(i) == j);
        assert(on_path(j, i));
        assert(start <= i <= end);
        i
    }
}

/// Element of a Merkle proof.
#[derive(Clone, Copy, PartialEq, Eq)]
pub enum Branch<H: Hasher> {
    /// Left branch taken, value is the right sibling hash.
    Left(H::Hash),
    /// Right branch taken, value is the left sibling hash.
    Right(H::Hash),
}

/// Merkle proof path, bottom to top.
#[derive(Clone, PartialEq, Eq)]
pub struct Proof<H: Hasher>(pub Vec<Branch<H>>);

/// One fold step of proof verification.
pub open spec fn branch_hash<H: Hasher>(acc: H::Hash, b: Branch<H>) -> H::Hash {
    match b {
        Branch::Left(sibling) => H::spec_hash_node(acc, sibling),
        Branch::Right(sibling) => H::spec_hash_node(sibling, acc),
    }
}

/// Folding a proof path over a leaf hash, bottom to top.
pub open spec fn fold_root<H: Hasher>(path: Seq<Branch<H>>, h: H::Hash) -> H::Hash
    decreases path.len(),
{
    if path.len() == 0 {
        h
    } else {
        fold_root(path.drop_first(), branch_hash(h, path.first()))
    }
}

proof fn lemma_fold_root_push<H: Hasher>(path: Seq<Branch<H>>, h: H::Hash, b: Branch<H>)
    ensures
        fold_root(path.push(b), h) == branch_hash(fold_root(path, h), b),
    decreases path.len(),
{
    let t = path.push(b);
    if path.len() == 0 {
        assert(t.drop_first() =~= Seq::<Branch<H>>::empty());
        assert(t.first() == b);
        assert(fold_root(t, h) == fold_root(t.drop_first(), branch_hash(h, b)));
        assert(fold_root(Seq::<Branch<H>>::empty(), branch_hash(h, b)) == branch_hash(h, b));
        assert(fold_root(path, h) == h);
    } else {
        assert(t.drop_first() =~= path.drop_first().push(b));
        assert(t.first() == path.first());
        lemma_fold_root_push(path.drop_first(), branch_hash(h, path.first()), b);
    }
}

/// The accumulator: a complete binary tree of `depth` levels (root included)
/// in one breadth-first array. `nodes[0]` is the root; the last
/// `2^(depth-1)` slots are the leaves.
#[derive(Clone)]
pub struct MerkleTree<H: Hasher> {
    /// Number of tree levels, including the leaf level.
    pub depth: usize,
    /// Hash of an all-default subtree of each height, leaf level first.
    pub empty: Vec<H::Hash>,
    /// Hash values of tree nodes and leaves, breadth-first order.
    pub nodes: Vec<H::Hash>,
}

impl<H: Hasher> MerkleTree<H> {
    /// Leaf capacity: `2^(depth - 1)`; zero for the degenerate depth-0 tree.
    pub open spec fn spec_num_leaves(self) -> nat {
        if self.depth == 0 {
            0
        } else {
            pow2((self.depth - 1) as nat)
        }
    }

    /// Count of interior (non-leaf) nodes.
    pub open spec fn spec_num_internal(self) -> nat {
        if self.spec_num_leaves() == 0 {
            0
        } else {
            (self.spec_num_leaves() - 1) as nat
        }
    }

    /// Node `j` equals the hash of its two children.
    pub open spec fn node_law_at(self, j: int) -> bool {
        self.nodes@[j] == H::spec_hash_node(self.nodes@[2 * j + 1], self.nodes@[2 * j + 2])
    }

    /// Array sizes agree with the declared depth.
    pub open spec fn shape_wf(self) -> bool {
        &&& self.depth <= 32
        &&& self.empty@.len() == self.depth
        &&& self.nodes@.len() == 2 * self.spec_num_leaves() - self.spec_num_leaves_nonzero()
    }

    /// 1 when the tree has leaves, 0 for the empty tree (so the node count
    /// is `2^depth - 1` in both cases).
    pub open spec fn spec_num_leaves_nonzero(self) -> nat {
        if self.depth == 0 {
            0
        } else {
            1
        }
    }

    /// The hash law holds at every interior node except the proper
    /// ancestors of `[s, e]`.
    pub open spec fn law_holds_except(self, s: int, e: int) -> bool {
        forall|j: int|
            0 <= j < self.spec_num_internal() && !anc_of_range(j, s, e)
                ==> self.node_law_at(j)
    }

    /// Well-formed: sizes agree and every interior node is the hash of its
    /// children.
    pub open spec fn wf(self) -> bool {
        &&& self.shape_wf()
        &&& forall|j: int| 0 <= j < self.spec_num_internal() ==> self.node_law_at(j)
    }

    /// The leaf slots, in leaf order.
    pub open spec fn leaf_view(self) -> Seq<H::Hash> {
        self.nodes@.skip(self.spec_num_internal() as int)
    }

    /// The root hash.
    pub open spec fn spec_root(self) -> H::Hash {
        self.nodes@[0]
    }

    /// The per-level default chain: `empty[0]` is the default leaf and each
    /// entry hashes the previous one with itself.
    pub open spec fn empty_chain(self, initial: H::Hash) -> bool {
        &&& (self.depth > 0 ==> self.empty@[0] == initial)
        &&& forall|k: int|
            1 <= k < self.depth ==> self.empty@[k] == H::spec_hash_node(
                #[trigger] self.empty@[k - 1],
                self.empty@[k - 1],
            )
    }

    /// Every node carries the default hash of its level.
    pub open spec fn is_all_default(self, initial: H::Hash) -> bool {
        &&& self.empty_chain(initial)
        &&& forall|j: int|
            0 <= j < self.nodes@.len() ==> #[trigger] self.nodes@[j] == self.empty@[self.depth - 1
                - level_of(j)]
    }

    /// Creates a new all-default tree.
    /// * `depth` - the number of levels, including the root.
    pub fn new(depth: usize, initial_leaf: H::Hash) -> (r: Self)
        requires
            depth <= 32,
        ensures
            r.wf(),
            r.depth == depth,
            r.is_all_default(initial_leaf),
    {
        // Compute empty node values, leaf to root.
        let mut empty: Vec<H::Hash> = Vec::new();
        if depth > 0 {
            empty.push(initial_leaf);
            let mut k: usize = 1;
            while k < depth
                invariant
                    1 <= k <= depth,
                    empty@.len() == k,
                    empty@[0] == initial_leaf,
                    forall|t: int|
                        1 <= t < k ==> empty@[t] == H::spec_hash_node(
                            #[trigger] empty@[t - 1],
                            empty@[t - 1],
                        ),
                decreases depth - k,
            {
                let prev = empty[k - 1];
                let h = H::hash_node(&prev, &prev);
                empty.push(h);
                k = k + 1;
            }
        }
        // Fill the node array level by level, root first.
        let mut nodes: Vec<H::Hash> = Vec::new();
        let mut l: usize = 0;
        let mut width: u64 = 1;
        proof {
            vstd::arithmetic::power2::lemma2_to64();
        }
        while l < depth
            invariant
                l <= depth,
                depth <= 32,
                width == pow2(l as nat),
                empty@.len() == depth,
                nodes@.len() == width - 1,
                forall|j: int|
                    0 <= j < nodes@.len() ==> #[trigger] nodes@[j] == empty@[depth - 1 - level_of(
                        j,
                    )],
            decreases depth - l,
        {
            proof {
                lemma_pow2_pos(l as nat);
                vstd::arithmetic::power2::lemma_pow2_strictly_increases(l as nat, 32);
                vstd::arithmetic::power2::lemma2_to64();
                vstd::arithmetic::power2::lemma2_to64_rest();
            }
            let value = empty[depth - 1 - l];
            let mut t: u64 = 0;
            while t < width
                invariant
                    t <= width,
                    width == pow2(l as nat),
                    l < depth <= 32,
                    empty@.len() == depth,
                    value == empty@[depth - 1 - l],
                    nodes@.len() == width - 1 + t,
                    forall|j: int|
                        0 <= j < nodes@.len() ==> #[trigger] nodes@[j] == empty@[depth - 1
                            - level_of(j)],
                decreases width - t,
            {
                proof {
                    let pos = nodes@.len() as int;
                    lemma_level_in_range(l as nat, pos);
                }
                nodes.push(value);
                t = t + 1;
            }
            proof {
                lemma_pow2_unfold((l + 1) as nat);
            }
            width = width * 2;
            l = l + 1;
        }
        let r = MerkleTree { depth, empty, nodes };
        proof {
            if depth > 0 {
                lemma_pow2_unfold(depth as nat);
                assert(r.nodes@.len() == 2 * r.spec_num_leaves() - 1);
            }
            assert forall|j: int| 0 <= j < r.spec_num_internal() implies r.node_law_at(j) by {
                assert(r.spec_num_internal() > 0);
                assert(depth >= 1);
                lemma_pow2_pos((depth - 1) as nat);
                lemma_level_bounds(j);
                let lj = level_of(j);
                // An interior node sits above the leaf level.
                if lj >= depth - 1 {
                    if lj > depth - 1 {
                        vstd::arithmetic::power2::lemma_pow2_strictly_increases(
                            (depth - 1) as nat,
                            lj,
                        );
                    }
                    assert(j >= pow2((depth - 1) as nat) - 1);
                    assert(false);
                }
                assert(parent_idx(2 * j + 1) == j);
                assert(parent_idx(2 * j + 2) == j);
                assert(level_of(2 * j + 1) == lj + 1);
                assert(level_of(2 * j + 2) == lj + 1);
                assert(2 * j + 2 < r.nodes@.len()) by {
                    lemma_pow2_unfold(depth as nat);
                    assert(j < pow2((depth - 1) as nat) - 1);
                }
                let k = depth - 1 - lj;
                assert(r.nodes@[j] == r.empty@[k]);
                assert(r.nodes@[2 * j + 1] == r.empty@[k - 1]);
                assert(r.nodes@[2 * j + 2] == r.empty@[k - 1]);
                assert(r.empty@[k] == H::spec_hash_node(r.empty@[k - 1], r.empty@[k - 1]));
            }
        }
        r
    }

    pub fn depth(&self) -> (r: usize)
        ensures
            r == self.depth,
    {
        self.depth
    }

    /// The root hash; the tree must have at least one node.
    pub fn root(&self) -> (r: H::Hash)
        requires
            self.nodes@.len() > 0,
        ensures
            r == self.spec_root(),
    {
        self.nodes[0]
    }

    /// Sets one leaf and recomputes its root path; an index beyond the
    /// leaf capacity (every index, for a depth-0 tree) is rejected and
    /// changes nothing.
    pub fn set(&mut self, leaf: usize, hash: H::Hash) -> (r: Result<(), crate::Error>)
        requires
            old(self).wf(),
        ensures
            final(self).wf(),
            r is Ok <==> leaf < old(self).spec_num_leaves(),
            r is Err ==> *final(self) == *old(self) && r == Err::<(), crate::Error>(
                crate::Error::NotFound,
            ),
            final(self).depth == old(self).depth,
            final(self).empty == old(self).empty,
            final(self).nodes@.len() == old(self).nodes@.len(),
            r is Ok ==> final(self).leaf_view() == old(self).leaf_view().update(leaf as int, hash),
            r is Ok ==> forall|j: int|
                0 <= j < old(self).nodes@.len() && !on_path(
                    j,
                    old(self).spec_num_internal() + leaf,
                ) ==> final(self).nodes@[j] == old(self).nodes@[j],
    {
        let cap = self.num_leaves();
        if leaf >= cap {
            return Err(crate::Error::NotFound);
        }
        let mut hashes: Vec<H::Hash> = Vec::new();
        hashes.push(hash);
        let ghost pos = old(self).spec_num_internal() + leaf;
        match self.set_range(leaf, hashes) {
            Ok(()) => (),
            Err(_) => {
                proof {
                    assert(false);
                }
            },
        }
        proof {
            assert(self.leaf_view() =~= old(self).leaf_view().update(leaf as int, hash));
            assert forall|j: int|
                0 <= j < old(self).nodes@.len() && !on_path(j, pos) implies self.nodes@[j]
                == old(self).nodes@[j] by {
                if j != pos {
                    assert(!anc_of_range(j, pos as int, pos as int));
                }
            }
        }
        Ok(())
    }

    /// Sets a contiguous run of leaves, then recomputes the union of their
    /// root paths, never recomputing an ancestor twice. A run that does not
    /// fit the leaf capacity (every run, for a depth-0 tree) is rejected
    /// and changes nothing.
    pub fn set_range(&mut self, start: usize, hashes: Vec<H::Hash>) -> (r: Result<
        (),
        crate::Error,
    >)
        requires
            old(self).wf(),
        ensures
            final(self).wf(),
            r is Ok <==> (old(self).spec_num_leaves() > 0 && start + hashes@.len() <= old(
                self,
            ).spec_num_leaves()),
            r is Err ==> *final(self) == *old(self) && r == Err::<(), crate::Error>(
                crate::Error::NotFound,
            ),
            final(self).depth == old(self).depth,
            final(self).empty == old(self).empty,
            final(self).nodes@.len() == old(self).nodes@.len(),
            final(self).leaf_view().len() == old(self).leaf_view().len(),
            r is Ok ==> forall|k: int|
                start <= k < start + hashes@.len() ==> final(self).leaf_view()[k] == hashes@[k
                    - start],
            r is Ok ==> forall|k: int|
                0 <= k < old(self).leaf_view().len() && !(start <= k < start + hashes@.len())
                    ==> final(self).leaf_view()[k] == old(self).leaf_view()[k],
            r is Ok ==> forall|j: int|
                0 <= j < old(self).nodes@.len() && !anc_of_range(
                    j,
                    old(self).spec_num_internal() + start,
                    old(self).spec_num_internal() + start + hashes@.len() - 1,
                ) && !(old(self).spec_num_internal() + start <= j < old(self).spec_num_internal()
                    + start + hashes@.len()) ==> final(self).nodes@[j] == old(self).nodes@[j],
    {
        let cap = self.num_leaves();
        if cap == 0 || hashes.len() > cap || start > cap - hashes.len() {
            return Err(crate::Error::NotFound);
        }
        let n = hashes.len();
        if n == 0 {
            return Ok(());
        }
        let ni = self.num_leaves() - 1;
        let total = self.nodes.len();
        proof {
            lemma_pow2_pos((self.depth - 1) as nat);
            assert(total == 2 * self.spec_num_leaves() - 1);
            assert(ni + start + n <= total);
        }
        let first = ni + start;
        let last = ni + start + (n - 1);
        let ghost pre = *self;
        let mut k: usize = 0;
        while k < n
            invariant
                k <= n,
                n == hashes@.len(),
                self.depth == pre.depth,
                self.empty == pre.empty,
                self.nodes@.len() == pre.nodes@.len(),
                pre.wf(),
                pre.spec_num_leaves() > 0,
                start + n <= pre.spec_num_leaves(),
                ni == pre.spec_num_internal(),
                first == ni + start,
                last == ni + start + n - 1,
                forall|j: int|
                    0 <= j < self.nodes@.len() && !(first <= j < first + k)
                        ==> self.nodes@[j] == pre.nodes@[j],
                forall|j: int|
                    first <= j < first + k ==> self.nodes@[j] == hashes@[j - first],
            decreases n - k,
        {
            let h = hashes[k];
            self.nodes[first + k] = h;
            k = k + 1;
        }
        proof {
            lemma_pow2_pos((pre.depth - 1) as nat);
            // Leaf positions lie in the leaf level's index interval.
            lemma_level_in_range((pre.depth - 1) as nat, first as int);
            lemma_level_in_range((pre.depth - 1) as nat, last as int);
            // Every hash law outside the ancestors of the written range
            // still holds: an interior node's children are interior or leaf
            // slots, and a changed child makes the node a proper ancestor.
            assert forall|j: int|
                0 <= j < self.spec_num_internal() && !anc_of_range(j, first as int, last as int)
                implies self.node_law_at(j) by {
                assert(pre.node_law_at(j));
                assert(j < first);
                lemma_on_path_self(j);
                if first <= 2 * j + 1 <= last {
                    assert(parent_idx(2 * j + 1) == j);
                    assert(on_path(j, 2 * j + 1));
                    assert(false);
                }
                if first <= 2 * j + 2 <= last {
                    assert(parent_idx(2 * j + 2) == j);
                    assert(on_path(j, 2 * j + 2));
                    assert(false);
                }
            }
        }
        let ghost mid = *self;
        self.update_nodes(first, last);
        proof {
            // Leaves are never proper ancestors, so the written run and all
            // other leaf slots survive `update_nodes`.
            assert forall|q: int|
                pre.spec_num_internal() <= q < pre.nodes@.len() implies !anc_of_range(
                q,
                first as int,
                last as int,
            ) by {
                if anc_of_range(q, first as int, last as int) {
                    let i = choose|i: int|
                        first <= i <= last && #[trigger] on_path(q, i) && q != i;
                    lemma_on_path_above(q, i);
                    assert(q <= parent_idx(i));
                }
            }
            assert(self.leaf_view().len() == pre.leaf_view().len());
            assert forall|k2: int|
                start <= k2 < start + n implies self.leaf_view()[k2] == hashes@[k2 - start] by {
                let q = pre.spec_num_internal() + k2;
                assert(!anc_of_range(q, first as int, last as int));
                assert(mid.nodes@[q] == hashes@[k2 - start]);
                assert(self.nodes@[q] == mid.nodes@[q]);
                assert(self.leaf_view()[k2] == self.nodes@[q]);
            }
            assert forall|k2: int|
                0 <= k2 < pre.leaf_view().len() && !(start <= k2 < start + n)
                implies self.leaf_view()[k2] == pre.leaf_view()[k2] by {
                let q = pre.spec_num_internal() + k2;
                assert(!anc_of_range(q, first as int, last as int));
                assert(mid.nodes@[q] == pre.nodes@[q]);
                assert(self.nodes@[q] == mid.nodes@[q]);
                assert(self.leaf_view()[k2] == self.nodes@[q]);
                assert(pre.leaf_view()[k2] == pre.nodes@[q]);
            }
        }
        Ok(())
    }

    /// Recomputes the interior nodes above `[start, end]`, one level at a
    /// time; both endpoints must sit on the same level.
    fn update_nodes(&mut self, start: usize, end: usize)
        requires
            old(self).shape_wf(),
            old(self).law_holds_except(start as int, end as int),
            start <= end,
            end < old(self).nodes@.len(),
            level_of(start as int) == level_of(end as int),
        ensures
            final(self).wf(),
            final(self).depth == old(self).depth,
            final(self).empty == old(self).empty,
            final(self).nodes@.len() == old(self).nodes@.len(),
            forall|j: int|
                0 <= j < old(self).nodes@.len() && !anc_of_range(j, start as int, end as int)
                    ==> final(self).nodes@[j] == old(self).nodes@[j],
        decreases start,
    {
        if start == 0 {
            proof {
                assert(end == 0);
                assert forall|j: int|
                    0 <= j < self.spec_num_internal() implies self.node_law_at(j) by {
                    assert(!anc_of_range(j, 0, 0));
                }
            }
            return ;
        }
        let ps = (start - 1) / 2;
        let pe = (end - 1) / 2;
        let ghost pre = *self;
        proof {
            let l = level_of(start as int);
            lemma_level_bounds(start as int);
            lemma_level_bounds(end as int);
            lemma_pow2_unfold(l);
            // Same level: the parent window sits strictly below the range.
            assert(pe < 2 * ps + 1);
            // The right child of `pe` is in bounds: the array length is odd.
            assert(2 * pe + 2 < self.nodes@.len());
        }
        let mut p = ps;
        while p <= pe
            invariant
                ps <= p <= pe + 1,
                pe < 2 * ps + 1,
                2 * pe + 2 < self.nodes@.len(),
                self.depth == pre.depth,
                self.empty == pre.empty,
                self.nodes@.len() == pre.nodes@.len(),
                forall|j: int|
                    0 <= j < self.nodes@.len() && !(ps <= j < p)
                        ==> self.nodes@[j] == pre.nodes@[j],
                forall|j: int| ps <= j < p ==> self.node_law_at(j),
            decreases pe + 1 - p,
        {
            let len = self.nodes.len();
            let a = self.nodes[2 * p + 1];
            let b = self.nodes[2 * p + 2];
            let h = H::hash_node(&a, &b);
            let ghost before = *self;
            self.nodes[p] = h;
            proof {
                assert forall|j: int| ps <= j < p + 1 implies self.node_law_at(j) by {
                    assert(2 * j + 1 > pe);
                    if j < p {
                        assert(before.node_law_at(j));
                        assert(self.nodes@[j] == before.nodes@[j]);
                        assert(self.nodes@[2 * j + 1] == before.nodes@[2 * j + 1]);
                        assert(self.nodes@[2 * j + 2] == before.nodes@[2 * j + 2]);
                    } else {
                        assert(self.nodes@[p as int] == h);
                        assert(self.nodes@[2 * p + 1] == a);
                        assert(self.nodes@[2 * p + 2] == b);
                    }
                }
            }
            p = p + 1;
        }
        proof {
            // The recomputed window satisfies the law; everything else that
            // the recursive call requires follows from the old laws.
            assert(self.shape_wf());
            assert forall|j: int|
                0 <= j < self.spec_num_internal() && !anc_of_range(j, ps as int, pe as int)
                implies self.node_law_at(j) by {
                if !(ps <= j <= pe) {
                    assert(!anc_of_range(j, start as int, end as int)) by {
                        if anc_of_range(j, start as int, end as int) {
                            let i = choose|i: int|
                                start <= i <= end && #[trigger] on_path(j, i) && j != i;
                            assert(on_path(j, parent_idx(i)));
                            assert(ps <= parent_idx(i) <= pe);
                            if j == parent_idx(i) {
                                assert(false);
                            } else {
                                assert(anc_of_range(j, ps as int, pe as int));
                                assert(false);
                            }
                        }
                    }
                    assert(pre.node_law_at(j));
                    assert(self.nodes@[j] == pre.nodes@[j]);
                    lemma_on_path_self(j);
                    assert(!(ps <= 2 * j + 1 <= pe)) by {
                        if ps <= 2 * j + 1 <= pe {
                            assert(parent_idx(2 * j + 1) == j);
                            assert(on_path(j, 2 * j + 1));
                            assert(anc_of_range(j, ps as int, pe as int));
                        }
                    }
                    assert(!(ps <= 2 * j + 2 <= pe)) by {
                        if ps <= 2 * j + 2 <= pe {
                            assert(parent_idx(2 * j + 2) == j);
                            assert(on_path(j, 2 * j + 2));
                            assert(anc_of_range(j, ps as int, pe as int));
                        }
                    }
                }
            }
            assert(level_of(ps as int) == level_of(pe as int));
        }
        let ghost mid = *self;
        self.update_nodes(ps, pe);
        proof {
            assert forall|j: int|
                0 <= j < pre.nodes@.len() && !anc_of_range(j, start as int, end as int)
                implies self.nodes@[j] == pre.nodes@[j] by {
                // Such a node is not in the recomputed window ...
                if ps <= j <= pe {
                    let i = lemma_parent_of_range(start as int, end as int, j);
                    assert(anc_of_range(j, start as int, end as int));
                    assert(false);
                }
                // ... and not an ancestor of it either.
                if anc_of_range(j, ps as int, pe as int) {
                    let q = choose|q: int| ps <= q <= pe && #[trigger] on_path(j, q) && j != q;
                    let i = lemma_parent_of_range(start as int, end as int, q);
                    assert(on_path(j, i));
                    lemma_on_path_above(j, q);
                    assert(j != i);
                    assert(anc_of_range(j, start as int, end as int));
                    assert(false);
                }
            }
        }
    }

    /// The tagged sibling collected at node `i` of the upward walk.
    pub open spec fn spec_branch_at(self, i: int) -> Branch<H> {
        if i % 2 == 1 {
            Branch::Left(self.nodes@[i + 1])
        } else {
            Branch::Right(self.nodes@[i - 1])
        }
    }

    /// The full tagged-sibling path from node `i` up to the root.
    pub open spec fn spec_sibling_path(self, i: int) -> Seq<Branch<H>>
        decreases i,
    {
        if i <= 0 {
            Seq::empty()
        } else {
            seq![self.spec_branch_at(i)] + self.spec_sibling_path(parent_idx(i))
        }
    }

    /// Builds the inclusion proof for a leaf: a tagged sibling for every
    /// level, bottom to top. Folding it over the leaf's hash yields the
    /// live root — the tree-correctness property.
    pub fn inclusion_proof(&self, leaf: usize) -> (r: Option<Proof<H>>)
        requires
            self.wf(),
        ensures
            r is Some <==> leaf < self.spec_num_leaves(),
            r matches Some(p) ==> p.0@.len() + 1 == self.depth && fold_root(
                p.0@,
                self.leaf_view()[leaf as int],
            ) == self.spec_root() && p.0@ == self.spec_sibling_path(
                self.spec_num_internal() + leaf,
            ),
    {
        let cap = self.num_leaves();
        if leaf >= cap {
            return None;
        }
        let total = self.nodes.len();
        let mut index = cap - 1 + leaf;
        let ghost pos = index as int;
        let mut path: Vec<Branch<H>> = Vec::new();
        proof {
            lemma_pow2_pos((self.depth - 1) as nat);
            lemma_level_in_range((self.depth - 1) as nat, pos);
            assert(self.leaf_view()[leaf as int] == self.nodes@[pos]);
            assert(path@ + self.spec_sibling_path(pos) =~= self.spec_sibling_path(pos));
        }
        while index > 0
            invariant
                self.wf(),
                total == self.nodes@.len(),
                0 <= index < total,
                0 <= pos < total,
                fold_root(path@, self.nodes@[pos]) == self.nodes@[index as int],
                path@.len() + level_of(index as int) + 1 == self.depth,
                path@ + self.spec_sibling_path(index as int) == self.spec_sibling_path(pos),
            decreases index,
        {
            proof {
                assert(self.spec_sibling_path(index as int) == seq![
                    self.spec_branch_at(index as int),
                ] + self.spec_sibling_path(parent_idx(index as int)));
                assert(path@.push(self.spec_branch_at(index as int)) + self.spec_sibling_path(
                    parent_idx(index as int),
                ) =~= path@ + self.spec_sibling_path(index as int));
            }
            let parent = (index - 1) / 2;
            proof {
                assert(parent < self.spec_num_internal()) by {
                    assert(2 * parent + 2 <= index + 1 < total + 1);
                }
            }
            if index % 2 == 1 {
                let sib = self.nodes[index + 1];
                proof {
                    assert(2 * parent + 1 == index && 2 * parent + 2 == index + 1);
                    assert(self.node_law_at(parent as int));
                    lemma_fold_root_push(path@, self.nodes@[pos], Branch::<H>::Left(sib));
                }
                path.push(Branch::Left(sib));
            } else {
                let sib = self.nodes[index - 1];
                proof {
                    assert(2 * parent + 1 == index - 1 && 2 * parent + 2 == index);
                    assert(self.node_law_at(parent as int));
                    lemma_fold_root_push(path@, self.nodes@[pos], Branch::<H>::Right(sib));
                }
                path.push(Branch::Right(sib));
            }
            index = parent;
        }
        proof {
            assert(path@ + self.spec_sibling_path(0) =~= path@);
        }
        Some(Proof(path))
    }

    /// Checks a proof against the live root.
    pub fn verify(&self, hash: H::Hash, proof: &Proof<H>) -> (r: bool)
        requires
            self.nodes@.len() > 0,
        ensures
            r == (fold_root(proof.0@, hash) == self.spec_root()),
    {
        let candidate = proof.root(hash);
        let live = self.nodes[0];
        H::hash_eq(&candidate, &live)
    }

    /// A copy of the leaf slots, in leaf order.
    pub fn leaves(&self) -> (r: Vec<H::Hash>)
        requires
            self.wf(),
        ensures
            r@ == self.leaf_view(),
    {
        let ni = if self.depth == 0 {
            0
        } else {
            self.num_leaves() - 1
        };
        let total = self.nodes.len();
        let mut out: Vec<H::Hash> = Vec::new();
        let mut k: usize = ni;
        while k < total
            invariant
                ni <= k <= total,
                total == self.nodes@.len(),
                ni == self.spec_num_internal(),
                out@.len() == k - ni,
                forall|t: int| 0 <= t < out@.len() ==> out@[t] == self.nodes@[ni + t],
            decreases total - k,
        {
            let h = self.nodes[k];
            out.push(h);
            k = k + 1;
        }
        proof {
            assert(out@ =~= self.leaf_view());
        }
        out
    }

    /// Leaf capacity of the tree.
    pub fn num_leaves(&self) -> (r: usize)
        requires
            self.shape_wf(),
        ensures
            r == self.spec_num_leaves(),
    {
        if self.depth == 0 {
            0
        } else {
            proof {
                lemma_pow2_pos((self.depth - 1) as nat);
            }
            self.nodes.len() / 2 + 1
        }
    }
}

/// A plain, non-cryptographic limb-mixing combiner over `U256`.
///
/// The cryptographic permutation the accumulator is normally deployed with
/// is an external primitive outside this crate; every proof about the tree
/// and the contract holds for any `Hasher`, and this combiner lets the
/// library run on its own.
#[derive(Clone, Copy, PartialEq, Eq)]
pub struct MixHasher;

/// One limb of the mixing combiner: the left limb folded with the rotated
/// right limb and a per-limb salt.
pub open spec fn spec_mix_limb(a: u64, b: u64, salt: u64) -> u64 {
    a ^ ((b << 1u64) | (b >> 63u64)) ^ salt
}

fn mix_limb(a: u64, b: u64, salt: u64) -> (r: u64)
    ensures
        r == spec_mix_limb(a, b, salt),
{
    a ^ ((b << 1u64) | (b >> 63u64)) ^ salt
}

impl Hasher for MixHasher {
    type Hash = crate::u256::U256;

    open spec fn spec_hash_node(
        left: crate::u256::U256,
        right: crate::u256::U256,
    ) -> crate::u256::U256 {
        crate::u256::U256 {
            w0: spec_mix_limb(left.w0, right.w3, 0x9e37_79b9_7f4a_7c15),
            w1: spec_mix_limb(left.w1, right.w0, 0xbf58_476d_1ce4_e5b9),
            w2: spec_mix_limb(left.w2, right.w1, 0x94d0_49bb_1331_11eb),
            w3: spec_mix_limb(left.w3, right.w2, 0x2545_f491_4f6c_dd1d),
        }
    }

    fn hash_node(left: &crate::u256::U256, right: &crate::u256::U256) -> (r: crate::u256::U256) {
        crate::u256::U256 {
            w0: mix_limb(left.w0, right.w3, 0x9e37_79b9_7f4a_7c15),
            w1: mix_limb(left.w1, right.w0, 0xbf58_476d_1ce4_e5b9),
            w2: mix_limb(left.w2, right.w1, 0x94d0_49bb_1331_11eb),
            w3: mix_limb(left.w3, right.w2, 0x2545_f491_4f6c_dd1d),
        }
    }

    fn hash_eq(left: &crate::u256::U256, right: &crate::u256::U256) -> (r: bool) {
        left.w0 == right.w0 && left.w1 == right.w1 && left.w2 == right.w2 && left.w3 == right.w3
    }
}

/// Tree correctness: in a well-formed tree, folding the tagged sibling
/// path of any node over that node's hash yields the root. For a leaf this
/// is the inclusion property: for every depth and every leaf assignment,
/// the proof of leaf `i` folded over that leaf's commitment reproduces the
/// live root.
pub proof fn lemma_tree_correctness<H: Hasher>(t: MerkleTree<H>, i: int)
    requires
        t.wf(),
        0 <= i < t.nodes@.len(),
    ensures
        fold_root(t.spec_sibling_path(i), t.nodes@[i]) == t.spec_root(),
    decreases i,
{
    if i > 0 {
        let p = parent_idx(i);
        let path = t.spec_sibling_path(i);
        assert(path.drop_first() =~= t.spec_sibling_path(p));
        assert(path.first() == t.spec_branch_at(i));
        let len = t.nodes@.len() as int;
        assert(len == 2 * t.spec_num_leaves() - 1);
        if i % 2 == 1 {
            assert(2 * p + 1 == i && 2 * p + 2 == i + 1);
            assert(i + 1 < len);
            assert(p < t.spec_num_internal());
            assert(t.node_law_at(p));
        } else {
            assert(2 * p + 1 == i - 1 && 2 * p + 2 == i);
            assert(p < t.spec_num_internal());
            assert(t.node_law_at(p));
        }
        assert(branch_hash(t.nodes@[i], t.spec_branch_at(i)) == t.nodes@[p]);
        lemma_tree_correctness(t, p);
    }
}

/// The leaf index a proof path encodes: one bit per branch, bottom to top.
pub open spec fn spec_leaf_index<H: Hasher>(path: Seq<Branch<H>>) -> nat
    decreases path.len(),
{
    if path.len() == 0 {
        0
    } else {
        spec_branch_bit(path.first()) + 2 * spec_leaf_index(path.drop_first())
    }
}

/// 0 for a left branch, 1 for a right branch.
pub open spec fn spec_branch_bit<H: Hasher>(b: Branch<H>) -> nat {
    match b {
        Branch::Left(_) => 0,
        Branch::Right(_) => 1,
    }
}

proof fn lemma_leaf_index_bound<H: Hasher>(path: Seq<Branch<H>>)
    ensures
        spec_leaf_index(path) < pow2(path.len()),
    decreases path.len(),
{
    if path.len() == 0 {
        vstd::arithmetic::power2::lemma2_to64();
    } else {
        lemma_leaf_index_bound(path.drop_first());
        lemma_pow2_unfold(path.len());
    }
}

impl<H: Hasher> Proof<H> {
    /// Compute the leaf index for this proof.
    pub fn leaf_index(&self) -> (r: usize)
        requires
            self.0@.len() <= 32,
        ensures
            r == spec_leaf_index(self.0@),
    {
        let n = self.0.len();
        let mut acc: usize = 0;
        let mut i: usize = n;
        proof {
            assert(self.0@.skip(n as int) =~= Seq::<Branch<H>>::empty());
            lemma_leaf_index_bound(self.0@.skip(n as int));
        }
        while i > 0
            invariant
                i <= n,
                n == self.0@.len() <= 32,
                acc == spec_leaf_index(self.0@.skip(i as int)),
                acc < pow2((n - i) as nat),
            decreases i,
        {
            i = i - 1;
            proof {
                assert(self.0@.skip(i as int).drop_first() =~= self.0@.skip(i as int + 1));
                assert(self.0@.skip(i as int).first() == self.0@[i as int]);
                lemma_pow2_unfold((n - i) as nat);
                vstd::arithmetic::power2::lemma_pow2_adds((n - i) as nat, (32 - (n - i)) as nat);
                lemma_pow2_pos((32 - (n - i)) as nat);
                vstd::arithmetic::power2::lemma2_to64();
                vstd::arithmetic::power2::lemma2_to64_rest();
                if (n - i) as nat <= 32 {
                    vstd::arithmetic::power2::lemma_pow2(
                        (n - i) as nat,
                    );
                }
                assert(pow2((n - i) as nat) <= pow2(32)) by {
                    if (n - i) < 32 {
                        vstd::arithmetic::power2::lemma_pow2_strictly_increases(
                            (n - i) as nat,
                            32,
                        );
                    }
                }
            }
            let bit: usize = match &self.0[i] {
                Branch::Left(_) => 0,
                Branch::Right(_) => 1,
            };
            acc = acc * 2 + bit;
        }
        proof {
            assert(self.0@.skip(0) =~= self.0@);
        }
        acc
    }

    /// The branch directions as 0/1 values, bottom to top.
    pub fn path_index(&self) -> (r: Vec<crate::u256::U256>)
        ensures
            r@.len() == self.0@.len(),
            forall|k: int|
                0 <= k < r@.len() ==> #[trigger] r@[k].value() == spec_branch_bit(self.0@[k]),
    {
        let mut out: Vec<crate::u256::U256> = Vec::new();
        let n = self.0.len();
        let mut k: usize = 0;
        while k < n
            invariant
                k <= n,
                n == self.0@.len(),
                out@.len() == k,
                forall|t: int|
                    0 <= t < k ==> #[trigger] out@[t].value() == spec_branch_bit(self.0@[t]),
            decreases n - k,
        {
            let v = match &self.0[k] {
                Branch::Left(_) => crate::u256::U256::from_u64(0),
                Branch::Right(_) => crate::u256::U256::from_u64(1),
            };
            out.push(v);
            k = k + 1;
        }
        out
    }

    /// Compute the Merkle root given a leaf hash.
    pub fn root(&self, hash: H::Hash) -> (r: H::Hash)
        ensures
            r == fold_root(self.0@, hash),
    {
        let n = self.0.len();
        let mut acc = hash;
        let mut i: usize = 0;
        proof {
            assert(self.0@.skip(0) =~= self.0@);
        }
        while i < n
            invariant
                i <= n,
                n == self.0@.len(),
                fold_root(self.0@, hash) == fold_root(self.0@.skip(i as int), acc),
            decreases n - i,
        {
            proof {
                assert(self.0@.skip(i as int).drop_first() =~= self.0@.skip(i as int + 1));
                assert(self.0@.skip(i as int).first() == self.0@[i as int]);
            }
            acc = match &self.0[i] {
                Branch::Left(sibling) => H::hash_node(&acc, sibling),
                Branch::Right(sibling) => H::hash_node(sibling, &acc),
            };
            i = i + 1;
        }
        proof {
            assert(self.0@.skip(n as int) =~= Seq::<Branch<H>>::empty());
        }
        acc
    }
}

} // verus!
