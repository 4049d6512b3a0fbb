use vstd::prelude::*;

use crate::field::{canon, views, zero_bytes, Scalar};
use crate::perm::{perm, perm_bytes};

pub mod zk;

verus! {

broadcast use crate::field::lemma_views_index;

/// One level of a Merkle branch: the five-slot state of a node's children
/// (slot zero follows the capacity convention of the tree, the four rate
/// slots hold the child hashes) and the offset flag, a power of two whose
/// bit index selects the rate slot that continues the path.
#[derive(Clone, Copy)]
pub struct Level {
    pub level: [Scalar; 5],
    pub offset: u64,
}

impl Level {
    pub open spec fn lv(self) -> Seq<Seq<u8>> {
        views(self.level@)
    }

    pub open spec fn wf(self) -> bool {
        forall|i: int| 0 <= i < 5 ==> canon(#[trigger] self.lv()[i])
    }

    pub fn offset_flag(&self) -> (r: u64)
        ensures
            r == self.offset,
    {
        self.offset
    }
}

/// The rate-slot index selected by an offset flag, or `-1` when the flag is
/// not a power of two below sixteen.
pub open spec fn flag_offset(f: u64) -> int {
    if f == 1 {
        0
    } else if f == 2 {
        1
    } else if f == 4 {
        2
    } else if f == 8 {
        3
    } else {
        -1
    }
}

/// The running hash of a branch opening before level `l`: the leaf for
/// level zero, afterwards slot one of the permutation of the previous level.
pub open spec fn opening_cur(leaf: Seq<u8>, levels: Seq<Seq<Seq<u8>>>, l: int) -> Seq<u8>
    decreases l,
{
    if l <= 0 {
        leaf
    } else {
        perm_bytes(levels[l - 1])[1]
    }
}

/// A branch is consistent when every level's flag selects one rate slot and
/// that slot holds the running hash of the opening so far.
pub open spec fn branch_consistent(leaf: Seq<u8>, levels: Seq<Seq<Seq<u8>>>, flags: Seq<u64>) -> bool {
    forall|l: int|
        0 <= l < levels.len() ==> flag_offset(#[trigger] flags[l]) >= 0 && levels[l][flag_offset(
            flags[l],
        ) + 1] == opening_cur(leaf, levels, l)
}

/// An ordered list of sibling levels from a leaf up to the root.
pub struct PoseidonBranch<const DEPTH: usize> {
    pub path: Vec<Level>,
    pub root: Scalar,
    pub leaf: Scalar,
}

impl<const DEPTH: usize> PoseidonBranch<DEPTH> {
    pub open spec fn levels(self) -> Seq<Seq<Seq<u8>>> {
        self.path@.map_values(|lv: Level| lv.lv())
    }

    pub open spec fn flags(self) -> Seq<u64> {
        self.path@.map_values(|lv: Level| lv.offset)
    }

    pub open spec fn wf(self) -> bool {
        &&& self.path@.len() == DEPTH
        &&& forall|l: int| 0 <= l < DEPTH ==> (#[trigger] self.path@[l]).wf()
        &&& self.root.wf()
        &&& self.leaf.wf()
    }

    /// The branch is consistent and ends in its stored root.
    pub open spec fn sound(self) -> bool {
        &&& branch_consistent(self.leaf@, self.levels(), self.flags())
        &&& self.root@ == opening_cur(self.leaf@, self.levels(), DEPTH as int)
    }

    pub fn root(&self) -> (r: Scalar)
        ensures
            r@ == self.root@,
            self.root.wf() ==> r.wf(),
    {
        self.root
    }

    pub fn leaf(&self) -> (r: Scalar)
        ensures
            r@ == self.leaf@,
            self.leaf.wf() ==> r.wf(),
    {
        self.leaf
    }

    /// Whether this branch is consistent with the given leaf: exactly the
    /// condition under which the opening gadget's constraints are
    /// satisfiable.
    pub fn is_consistent(&self, leaf: &Scalar) -> (r: bool)
        requires
            self.wf(),
            leaf.wf(),
        ensures
            r == branch_consistent(leaf@, level_views(self.path@), level_flags(self.path@)),
    {
        let ghost levels = level_views(self.path@);
        let ghost flags = level_flags(self.path@);
        let mut cur = *leaf;
        let mut l: usize = 0;
        let n = self.path.len();
        while l < n
            invariant
                l <= n,
                n == self.path@.len(),
                self.wf(),
                n == DEPTH,
                levels == level_views(self.path@),
                flags == level_flags(self.path@),
                leaf.wf(),
                cur.wf(),
                cur@ == opening_cur(leaf@, levels, l as int),
                forall|k: int|
                    0 <= k < l ==> flag_offset(#[trigger] flags[k]) >= 0 && levels[k][
                        flag_offset(flags[k]) + 1
                    ] == opening_cur(leaf@, levels, k),
            decreases n - l,
        {
            let lvl = &self.path[l];
            proof {
                assert(self.path@[l as int].wf());
                assert(lvl.lv() == levels[l as int]);
                assert(lvl.offset == flags[l as int]);
                crate::perm::lemma_state_scalars_wf(lvl.level@);
            }
            let flag = lvl.offset_flag();
            let off: usize = if flag == 1 {
                0
            } else if flag == 2 {
                1
            } else if flag == 4 {
                2
            } else if flag == 8 {
                3
            } else {
                proof {
                    assert(flag_offset(flags[l as int]) < 0);
                }
                return false;
            };
            if !lvl.level[off + 1].eq_bytes(&cur) {
                proof {
                    assert(levels[l as int][off as int + 1] != opening_cur(
                        leaf@,
                        levels,
                        l as int,
                    ));
                }
                return false;
            }
            let mut state = lvl.level;
            proof {
                assert(views(state@) == lvl.lv());
            }
            perm(&mut state);
            proof {
                crate::perm::lemma_state_scalars_wf(state@);
            }
            cur = state[1];
            l = l + 1;
        }
        true
    }
}

/// Four to the power `h`.
pub open spec fn pow4(h: nat) -> nat
    decreases h,
{
    if h == 0 {
        1
    } else {
        4 * pow4((h - 1) as nat)
    }
}

/// The hash of the subtree of height `h` whose leftmost leaf slot is
/// `idx * 4^h`: a leaf slot holds its leaf (or zero when empty); an inner
/// node permutes its four child hashes below a zero capacity slot and reads
/// slot one.
pub open spec fn subtree(leaves: Seq<Seq<u8>>, h: nat, idx: nat) -> Seq<u8>
    decreases h,
{
    if h == 0 {
        if idx < leaves.len() {
            leaves[idx as int]
        } else {
            zero_bytes()
        }
    } else {
        perm_bytes(
            seq![
                zero_bytes(),
                subtree(leaves, (h - 1) as nat, 4 * idx),
                subtree(leaves, (h - 1) as nat, 4 * idx + 1),
                subtree(leaves, (h - 1) as nat, 4 * idx + 2),
                subtree(leaves, (h - 1) as nat, 4 * idx + 3),
            ],
        )[1]
    }
}

/// The hash of an empty subtree of height `h`.
pub open spec fn empty_subtree(h: nat) -> Seq<u8>
    decreases h,
{
    if h == 0 {
        zero_bytes()
    } else {
        perm_bytes(
            seq![
                zero_bytes(),
                empty_subtree((h - 1) as nat),
                empty_subtree((h - 1) as nat),
                empty_subtree((h - 1) as nat),
                empty_subtree((h - 1) as nat),
            ],
        )[1]
    }
}

proof fn lemma_pow4_pos(h: nat)
    ensures
        pow4(h) >= 1,
    decreases h,
{
    if h > 0 {
        lemma_pow4_pos((h - 1) as nat);
    }
}

/// A subtree that starts at or past the number of leaves is empty.
proof fn lemma_subtree_empty(leaves: Seq<Seq<u8>>, h: nat, idx: nat)
    requires
        idx * pow4(h) >= leaves.len(),
    ensures
        subtree(leaves, h, idx) == empty_subtree(h),
    decreases h,
{
    if h == 0 {
        assert(pow4(0) == 1);
        assert(idx * pow4(0) == idx) by (nonlinear_arith)
            requires pow4(0) == 1;
    } else {
        let h1 = (h - 1) as nat;
        lemma_pow4_pos(h1);
        assert(pow4(h) == 4 * pow4(h1));
        lemma_child_start(pow4(h1), idx, 0, leaves.len());
        lemma_child_start(pow4(h1), idx, 1, leaves.len());
        lemma_child_start(pow4(h1), idx, 2, leaves.len());
        lemma_child_start(pow4(h1), idx, 3, leaves.len());
        lemma_subtree_empty(leaves, h1, 4 * idx);
        lemma_subtree_empty(leaves, h1, 4 * idx + 1);
        lemma_subtree_empty(leaves, h1, 4 * idx + 2);
        lemma_subtree_empty(leaves, h1, 4 * idx + 3);
    }
}

proof fn lemma_child_start(p: nat, idx: nat, j: nat, n: nat)
    requires
        p >= 1,
        idx * (4 * p) >= n,
    ensures
        (4 * idx + j) * p >= n,
{
    assert((4 * idx + j) * p >= (4 * idx) * p) by (nonlinear_arith)
        requires p >= 1, j >= 0;
    assert((4 * idx) * p == idx * (4 * p)) by (nonlinear_arith);
}

/// The hash of the empty subtree of height `h`, computed with the native
/// permutation.
fn empty_hash(h: usize) -> (r: Scalar)
    ensures
        r@ == empty_subtree(h as nat),
        r.wf(),
    decreases h,
{
    if h == 0 {
        let r = Scalar::zero();
        proof {
            crate::field::lemma_zero_lt_bls_r();
        }
        r
    } else {
        let e = empty_hash(h - 1);
        let mut state: [Scalar; 5] = [Scalar::zero(), e, e, e, e];
        proof {
            crate::field::lemma_zero_lt_bls_r();
            assert(views(state@) =~= seq![
                zero_bytes(),
                empty_subtree((h - 1) as nat),
                empty_subtree((h - 1) as nat),
                empty_subtree((h - 1) as nat),
                empty_subtree((h - 1) as nat),
            ]);
        }
        perm(&mut state);
        proof {
            crate::perm::lemma_state_scalars_wf(state@);
        }
        state[1]
    }
}

/// The hash of the subtree of height `h` at index `idx`, computed with the
/// native permutation; empty subtrees are recognized without descending.
fn subtree_hash(leaves: &Vec<Scalar>, h: usize, idx: u64) -> (r: Scalar)
    requires
        h <= 31,
        idx < pow4((31 - h) as nat),
        forall|i: int| 0 <= i < leaves@.len() ==> (#[trigger] leaves@[i]).wf(),
        leaves@.len() <= u64::MAX,
    ensures
        r@ == subtree(views(leaves@), h as nat, idx as nat),
        r.wf(),
    decreases h,
{
    let p: u64 = pow4_u64(h);
    proof {
        lemma_pow4_mul_bound(h as nat, idx as nat);
    }
    if idx.checked_mul(p).is_none() || idx * p >= leaves.len() as u64 {
        proof {
            if idx as nat * pow4(h as nat) < leaves@.len() {
                assert(false);
            }
            lemma_subtree_empty(views(leaves@), h as nat, idx as nat);
        }
        empty_hash(h)
    } else if h == 0 {
        let r = leaves[idx as usize];
        proof {
            assert(pow4(0) == 1);
            assert(idx as nat * 1 == idx as nat) by (nonlinear_arith);
        }
        r
    } else {
        proof {
            let q = pow4((31 - h) as nat);
            assert(4 * idx + 3 < 4 * q) by (nonlinear_arith)
                requires idx < q;
            assert(pow4((32 - h) as nat) == 4 * q);
            lemma_pow4_mono((32 - h) as nat, 31);
            lemma_pow4_vals();
        }
        let c0 = subtree_hash(leaves, h - 1, 4 * idx);
        let c1 = subtree_hash(leaves, h - 1, 4 * idx + 1);
        let c2 = subtree_hash(leaves, h - 1, 4 * idx + 2);
        let c3 = subtree_hash(leaves, h - 1, 4 * idx + 3);
        let mut state: [Scalar; 5] = [Scalar::zero(), c0, c1, c2, c3];
        proof {
            crate::field::lemma_zero_lt_bls_r();
            assert(views(state@) =~= seq![
                zero_bytes(),
                subtree(views(leaves@), (h - 1) as nat, 4 * idx as nat),
                subtree(views(leaves@), (h - 1) as nat, 4 * idx as nat + 1),
                subtree(views(leaves@), (h - 1) as nat, 4 * idx as nat + 2),
                subtree(views(leaves@), (h - 1) as nat, 4 * idx as nat + 3),
            ]);
        }
        perm(&mut state);
        proof {
            crate::perm::lemma_state_scalars_wf(state@);
        }
        state[1]
    }
}

/// Four to the power `h`, executable.
fn pow4_u64(h: usize) -> (r: u64)
    requires
        h <= 31,
    ensures
        r == pow4(h as nat),
{
    let mut r: u64 = 1;
    let mut i: usize = 0;
    while i < h
        invariant
            i <= h,
            h <= 31,
            r == pow4(i as nat),
        decreases h - i,
    {
        proof {
            lemma_pow4_mono(i as nat, 30);
            lemma_pow4_vals();
        }
        r = r * 4;
        i = i + 1;
    }
    r
}

proof fn lemma_pow4_vals()
    ensures
        pow4(30) == 0x1000000000000000,
        pow4(31) == 0x4000000000000000,
{
    reveal_with_fuel(pow4, 32);
}

proof fn lemma_pow4_mono(a: nat, b: nat)
    requires
        a <= b,
    ensures
        pow4(a) <= pow4(b),
    decreases b,
{
    if a < b && b > 0 {
        lemma_pow4_mono(a, (b - 1) as nat);
        lemma_pow4_pos((b - 1) as nat);
    }
}

proof fn lemma_pow4_mul_bound(h: nat, idx: nat)
    requires
        h <= 31,
        idx < pow4((31 - h) as nat),
    ensures
        idx * pow4(h) < pow4(31),
{
    assert(idx * pow4(h) <= (pow4((31 - h) as nat) - 1) * pow4(h)) by (nonlinear_arith)
        requires idx <= pow4((31 - h) as nat) - 1, pow4(h) >= 0;
    lemma_pow4_split((31 - h) as nat, h);
    lemma_pow4_pos(h);
    assert((pow4((31 - h) as nat) - 1) * pow4(h) == pow4((31 - h) as nat) * pow4(h) - pow4(h))
        by (nonlinear_arith);
}

proof fn lemma_pow4_split(a: nat, b: nat)
    ensures
        pow4(a) * pow4(b) == pow4(a + b),
    decreases a,
{
    if a == 0 {
        assert(pow4(0) == 1);
        assert(1 * pow4(b) == pow4(b)) by (nonlinear_arith);
    } else {
        lemma_pow4_split((a - 1) as nat, b);
        assert(pow4(a) * pow4(b) == 4 * (pow4((a - 1) as nat) * pow4(b))) by (nonlinear_arith)
            requires pow4(a) == 4 * pow4((a - 1) as nat);
    }
}

/// The views of a path's levels.
pub open spec fn level_views(p: Seq<Level>) -> Seq<Seq<Seq<u8>>> {
    p.map_values(|lv: Level| lv.lv())
}

/// The offset flags of a path's levels.
pub open spec fn level_flags(p: Seq<Level>) -> Seq<u64> {
    p.map_values(|lv: Level| lv.offset)
}

pub broadcast proof fn lemma_level_views_index(p: Seq<Level>, i: int)
    requires
        0 <= i < p.len(),
    ensures
        #[trigger] level_views(p)[i] == p[i].lv(),
{
}

pub broadcast proof fn lemma_level_flags_index(p: Seq<Level>, i: int)
    requires
        0 <= i < p.len(),
    ensures
        #[trigger] level_flags(p)[i] == p[i].offset,
{
}

/// A fixed-depth Merkle tree over field elements, four children per node.
pub struct PoseidonTree<const DEPTH: usize> {
    leaves: Vec<Scalar>,
}

impl<const DEPTH: usize> PoseidonTree<DEPTH> {
    /// The leaves stored so far, in insertion order.
    pub closed spec fn lview(self) -> Seq<Seq<u8>> {
        views(self.leaves@)
    }

    pub closed spec fn wf(self) -> bool {
        &&& 1 <= DEPTH <= 31
        &&& self.leaves@.len() <= pow4(DEPTH as nat)
        &&& forall|i: int| 0 <= i < self.leaves@.len() ==> (#[trigger] self.leaves@[i]).wf()
    }

    pub fn new() -> (t: Self)
        requires
            1 <= DEPTH <= 31,
        ensures
            t.wf(),
            t.lview().len() == 0,
    {
        PoseidonTree { leaves: Vec::new() }
    }

    /// Append a leaf and return its position.
    pub fn push(&mut self, leaf: Scalar) -> (pos: u64)
        requires
            old(self).wf(),
            leaf.wf(),
            old(self).lview().len() < pow4(DEPTH as nat),
        ensures
            final(self).wf(),
            final(self).lview() == old(self).lview().push(leaf@),
            pos == old(self).lview().len(),
    {
        proof {
            lemma_pow4_mono(DEPTH as nat, 31);
            lemma_pow4_vals();
        }
        let pos = self.leaves.len() as u64;
        self.leaves.push(leaf);
        pos
    }

    /// The current root: the hash of the whole height-`DEPTH` subtree.
    pub fn root(&self) -> (r: Scalar)
        requires
            self.wf(),
        ensures
            r@ == subtree(self.lview(), DEPTH as nat, 0),
            r.wf(),
    {
        proof {
            lemma_pow4_pos((31 - DEPTH) as nat);
            lemma_pow4_mono(DEPTH as nat, 31);
            lemma_pow4_vals();
        }
        subtree_hash(&self.leaves, DEPTH, 0)
    }

    /// The branch of the leaf at `pos`: one level per tree height, each
    /// holding the node's four children under a zero capacity slot, with
    /// the offset flag selecting the slot that continues the path. The
    /// returned branch is consistent and its root is the tree's root.
    #[verifier::rlimit(100)]
    pub fn branch(&self, pos: u64) -> (r: Option<PoseidonBranch<DEPTH>>)
        requires
            self.wf(),
        ensures
            r is Some <==> pos < self.lview().len(),
            r is Some ==> (r->0).wf() && (r->0).sound() && (r->0).leaf@ == self.lview()[
                pos as int
            ] && (r->0).root@ == subtree(self.lview(), DEPTH as nat, 0),
    {
        let n = self.leaves.len() as u64;
        proof {
            lemma_pow4_mono(DEPTH as nat, 31);
            lemma_pow4_vals();
        }
        if pos >= n {
            return None;
        }
        let ghost lv = self.lview();
        let leaf = self.leaves[pos as usize];
        let mut cur = leaf;
        let mut path: Vec<Level> = Vec::new();
        let mut idx: u64 = pos;
        let mut l: usize = 0;
        proof {
            assert(pow4(0) == 1);
            assert(pos as nat / pow4(0) == pos as nat) by (nonlinear_arith)
                requires pow4(0) == 1;
            lemma_pow4_split(DEPTH as nat, 0);
        }
        while l < DEPTH
            invariant
                l <= DEPTH,
                DEPTH <= 31,
                self.wf(),
                lv == self.lview(),
                pos < lv.len() <= pow4(DEPTH as nat),
                leaf.wf(),
                leaf@ == lv[pos as int],
                idx as nat == pos as nat / pow4(l as nat),
                idx < pow4((DEPTH - l) as nat),
                cur.wf(),
                cur@ == subtree(lv, l as nat, idx as nat),
                path@.len() == l,
                forall|k: int| 0 <= k < l ==> (#[trigger] path@[k]).wf(),
                branch_consistent(leaf@, level_views(path@), level_flags(path@)),
                cur@ == opening_cur(leaf@, level_views(path@), l as int),
            decreases DEPTH - l,
        {
            let off = (idx % 4) as usize;
            let base = idx - (idx % 4);
            proof {
                assert(base == 4 * (idx as int / 4));
                assert(idx < pow4((DEPTH - l) as nat));
                lemma_pow4_pos((DEPTH - l) as nat);
                lemma_pow4_mono((DEPTH - l) as nat, 31);
                lemma_pow4_vals();
                assert(pow4((DEPTH - l) as nat) == 4 * pow4((DEPTH - l - 1) as nat));
                assert((idx as int / 4) < pow4((DEPTH - l - 1) as nat) && base + 3 < pow4(
                    (DEPTH - l) as nat,
                )) by (nonlinear_arith)
                    requires
                        idx < pow4((DEPTH - l) as nat),
                        base == 4 * (idx as int / 4),
                        pow4((DEPTH - l) as nat) == 4 * pow4((DEPTH - l - 1) as nat),
                ;
                lemma_pow4_mono((DEPTH - l) as nat, (31 - l) as nat);
            }
            let c0 = if off == 0 {
                cur
            } else {
                self.child_hash(l, base)
            };
            let c1 = if off == 1 {
                cur
            } else {
                self.child_hash(l, base + 1)
            };
            let c2 = if off == 2 {
                cur
            } else {
                self.child_hash(l, base + 2)
            };
            let c3 = if off == 3 {
                cur
            } else {
                self.child_hash(l, base + 3)
            };
            let level_arr: [Scalar; 5] = [Scalar::zero(), c0, c1, c2, c3];
            let flag: u64 = if off == 0 {
                1
            } else if off == 1 {
                2
            } else if off == 2 {
                4
            } else {
                8
            };
            let lvl = Level { level: level_arr, offset: flag };
            let ghost old_path = path@;
            let ghost prev_cur = cur@;
            path.push(lvl);
            let mut state = level_arr;
            proof {
                crate::field::lemma_zero_lt_bls_r();
                assert(views(state@) =~= seq![
                    zero_bytes(),
                    subtree(lv, l as nat, base as nat),
                    subtree(lv, l as nat, base as nat + 1),
                    subtree(lv, l as nat, base as nat + 2),
                    subtree(lv, l as nat, base as nat + 3),
                ]);
            }
            perm(&mut state);
            proof {
                crate::perm::lemma_state_scalars_wf(state@);
            }
            cur = state[1];
            proof {
                let li = l as int;
                assert(level_views(path@)[li] == lvl.lv());
                assert(level_flags(path@)[li] == flag);
                assert(flag_offset(flag) == off as int);
                assert(lvl.lv() =~= views(level_arr@));
                assert(lvl.lv()[off as int + 1] == subtree(lv, l as nat, idx as nat));
                assert(forall|k: int|
                    0 <= k < li ==> #[trigger] level_views(path@)[k] == level_views(old_path)[k]
                        && level_flags(path@)[k] == level_flags(old_path)[k]);
                assert(forall|k: int|
                    0 <= k <= li ==> opening_cur(leaf@, level_views(path@), k) == opening_cur(
                        leaf@,
                        level_views(old_path),
                        k,
                    ));
                assert(lvl.lv()[off as int + 1] == prev_cur);
                assert(prev_cur == opening_cur(leaf@, level_views(path@), li));
                assert forall|k: int|
                    0 <= k < path@.len() implies flag_offset(
                    #[trigger] level_flags(path@)[k],
                ) >= 0 && level_views(path@)[k][flag_offset(level_flags(path@)[k]) + 1]
                    == opening_cur(leaf@, level_views(path@), k) by {
                    if k < li {
                        assert(flag_offset(level_flags(old_path)[k]) >= 0 && level_views(
                            old_path,
                        )[k][flag_offset(level_flags(old_path)[k]) + 1] == opening_cur(
                            leaf@,
                            level_views(old_path),
                            k,
                        ));
                    }
                }
                assert(branch_consistent(leaf@, level_views(path@), level_flags(path@)));
                assert(cur@ == views(state@)[1]);
                assert(cur@ == perm_bytes(lvl.lv())[1]);
                assert(opening_cur(leaf@, level_views(path@), li + 1) == perm_bytes(
                    level_views(path@)[li],
                )[1]);
                assert(cur@ == subtree(lv, (l + 1) as nat, idx as nat / 4));
                lemma_div_chain(pos as nat, l as nat, idx as nat);
                assert(idx as nat / 4 < pow4((DEPTH - l - 1) as nat)) by (nonlinear_arith)
                    requires
                        idx < pow4((DEPTH - l) as nat),
                        pow4((DEPTH - l) as nat) == 4 * pow4((DEPTH - l - 1) as nat),
                ;
            }
            idx = idx / 4;
            l = l + 1;
        }
        proof {
            assert(idx as nat == pos as nat / pow4(DEPTH as nat));
            assert(pos as nat / pow4(DEPTH as nat) == 0) by (nonlinear_arith)
                requires (pos as nat) < pow4(DEPTH as nat), pow4(DEPTH as nat) >= 1;
        }
        Some(PoseidonBranch { path, root: cur, leaf })
    }

    /// The hash of the child subtree of height `h` at index `i`.
    fn child_hash(&self, h: usize, i: u64) -> (r: Scalar)
        requires
            self.wf(),
            h <= 31,
            i < pow4((31 - h) as nat),
        ensures
            r@ == subtree(self.lview(), h as nat, i as nat),
            r.wf(),
    {
        proof {
            lemma_pow4_mono(DEPTH as nat, 31);
            lemma_pow4_vals();
        }
        subtree_hash(&self.leaves, h, i)
    }
}

/// Dividing a node index by four moves one level up.
proof fn lemma_div_chain(pos: nat, l: nat, idx: nat)
    requires
        idx == pos / pow4(l),
    ensures
        idx / 4 == pos / pow4(l + 1),
{
    lemma_pow4_pos(l);
    vstd::arithmetic::div_mod::lemma_div_denominator(pos as int, pow4(l) as int, 4);
    assert(pow4(l) * 4 == pow4(l + 1)) by (nonlinear_arith)
        requires pow4(l + 1) == 4 * pow4(l);
}


} // verus!
