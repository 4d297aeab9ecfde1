//! Binary Merkle commitments with multi-position proofs.
//!
//! Leaves are SHA3-256 digests of the canonical byte encoding of each
//! entity. An inner node hashes the concatenation of its two children; a
//! node without a right sibling hashes its left child alone. A multi-proof
//! for a sorted list of positions holds, level by level, the sibling hashes
//! that the verifier cannot reconstruct; a position whose sibling is also
//! revealed contributes nothing, and a missing right-edge sibling is an
//! empty entry. Proof generation and verification are both verified here,
//! and `lemma_proof_complete` shows that a generated proof always verifies
//! against the tree's root.

use vstd::prelude::*;

use crate::bytesutil::bytes_clone;
use crate::bytesutil::vec_extend;
use crate::crypto::sha3_256;
use crate::crypto::sha3_of;

verus! {

/// The byte strings a list of byte vectors holds.
pub open spec fn bytes_view(s: Seq<Vec<u8>>) -> Seq<Seq<u8>> {
    Seq::new(s.len(), |i: int| s[i]@)
}

/// The layers a stack of byte-vector layers holds.
pub open spec fn stack_view(s: Seq<Vec<Vec<u8>>>) -> Seq<Seq<Seq<u8>>> {
    Seq::new(s.len(), |i: int| bytes_view(s[i]@))
}

/// Hash of an inner node from the byte strings of its children.
pub open spec fn combine(left: Seq<u8>, right: Seq<u8>) -> Seq<u8> {
    sha3_of(left + right)
}

/// The layer above `l`: adjacent nodes hashed pairwise, a lone last node
/// hashed with an empty right side.
pub open spec fn next_layer_spec(l: Seq<Seq<u8>>) -> Seq<Seq<u8>> {
    Seq::new((l.len() + 1) / 2, |j: int|
        if 2 * j + 1 < l.len() {
            combine(l[2 * j], l[2 * j + 1])
        } else {
            combine(l[2 * j], Seq::<u8>::empty())
        })
}

/// The root reached by repeatedly collapsing a non-empty layer.
pub open spec fn root_spec(l: Seq<Seq<u8>>) -> Seq<u8>
    decreases l.len(),
{
    if l.len() == 0 {
        Seq::<u8>::empty()
    } else if l.len() == 1 {
        l[0]
    } else {
        root_spec(next_layer_spec(l))
    }
}

/// SHA3-256 digests of a list of encoded entities: the leaf layer.
pub open spec fn hash_leaves(items: Seq<Seq<u8>>) -> Seq<Seq<u8>> {
    Seq::new(items.len(), |i: int| sha3_of(items[i]))
}

/// Strictly ascending positions.
pub open spec fn strict_inc(s: Seq<usize>) -> bool {
    forall|i: int, j: int| 0 <= i < j < s.len() ==> s[i] < s[j]
}

/// All positions below `n`.
pub open spec fn positions_in(s: Seq<usize>, n: nat) -> bool {
    forall|i: int| 0 <= i < s.len() ==> (#[trigger] s[i]) < n
}

/// The positions known on the next level up: each position's parent, with a
/// revealed even/odd pair collapsing into one parent.
pub open spec fn parents_spec(known: Seq<usize>) -> Seq<usize>
    decreases known.len(),
{
    if known.len() == 0 {
        Seq::<usize>::empty()
    } else {
        let idx = known[0];
        if idx % 2 == 0 && known.len() >= 2 && known[1] == idx + 1 {
            seq![idx / 2] + parents_spec(known.skip(2))
        } else {
            seq![idx / 2] + parents_spec(known.skip(1))
        }
    }
}

/// The sibling hashes a proof must supply on one level, in position order.
pub open spec fn sibs_spec(known: Seq<usize>, layer: Seq<Seq<u8>>) -> Seq<Seq<u8>>
    decreases known.len(),
{
    if known.len() == 0 {
        Seq::<Seq<u8>>::empty()
    } else {
        let idx = known[0];
        if idx % 2 == 0 && known.len() >= 2 && known[1] == idx + 1 {
            sibs_spec(known.skip(2), layer)
        } else if idx % 2 == 0 {
            if idx + 1 < layer.len() {
                seq![layer[idx as int + 1]] + sibs_spec(known.skip(1), layer)
            } else {
                seq![Seq::<u8>::empty()] + sibs_spec(known.skip(1), layer)
            }
        } else {
            seq![layer[idx as int - 1]] + sibs_spec(known.skip(1), layer)
        }
    }
}

/// The whole multi-proof for `known` over the tree grown from `layer`.
pub open spec fn proof_rec(known: Seq<usize>, layer: Seq<Seq<u8>>) -> Seq<Seq<u8>>
    decreases layer.len(),
{
    if layer.len() <= 1 {
        Seq::<Seq<u8>>::empty()
    } else {
        sibs_spec(known, layer) + proof_rec(parents_spec(known), next_layer_spec(layer))
    }
}

/// One verification step: hash each known node with its sibling, taken
/// from the known list itself for a revealed pair and from the proof
/// otherwise. `None` when the proof runs out.
pub open spec fn climb_spec(cur: Seq<(usize, Seq<u8>)>, pf: Seq<Seq<u8>>) -> Option<
    (Seq<(usize, Seq<u8>)>, Seq<Seq<u8>>),
>
    decreases cur.len(),
{
    if cur.len() == 0 {
        Some((Seq::<(usize, Seq<u8>)>::empty(), pf))
    } else {
        let idx = cur[0].0;
        let h = cur[0].1;
        if idx % 2 == 0 && cur.len() >= 2 && cur[1].0 == idx + 1 {
            match climb_spec(cur.skip(2), pf) {
                Some(r) => Some((seq![(idx / 2, combine(h, cur[1].1))] + r.0, r.1)),
                None => None,
            }
        } else if idx % 2 == 0 {
            if pf.len() == 0 {
                None
            } else {
                match climb_spec(cur.skip(1), pf.skip(1)) {
                    Some(r) => Some((seq![(idx / 2, combine(h, pf[0]))] + r.0, r.1)),
                    None => None,
                }
            }
        } else {
            if pf.len() == 0 {
                None
            } else {
                match climb_spec(cur.skip(1), pf.skip(1)) {
                    Some(r) => Some((seq![(idx / 2, combine(pf[0], h))] + r.0, r.1)),
                    None => None,
                }
            }
        }
    }
}

/// The root a verifier reconstructs from known leaves and a proof, for a
/// tree of `n` leaves; `None` when the proof does not fit exactly.
pub open spec fn compute_root_spec(cur: Seq<(usize, Seq<u8>)>, pf: Seq<Seq<u8>>, n: nat) -> Option<
    Seq<u8>,
>
    decreases n,
{
    if cur.len() == 0 || n == 0 {
        None
    } else if n == 1 {
        if cur.len() == 1 && cur[0].0 == 0 && pf.len() == 0 {
            Some(cur[0].1)
        } else {
            None
        }
    } else {
        match climb_spec(cur, pf) {
            None => None,
            Some(r) => compute_root_spec(r.0, r.1, (n + 1) / 2),
        }
    }
}

/// What a successful multi-proof verification means: sorted in-range
/// positions whose hashes and proof reconstruct exactly the root.
pub open spec fn verify_ok_spec(
    root: Seq<u8>,
    pf: Seq<Seq<u8>>,
    positions: Seq<usize>,
    n: nat,
    leaves: Seq<Seq<u8>>,
) -> bool {
    &&& positions.len() == leaves.len()
    &&& positions.len() >= 1
    &&& strict_inc(positions)
    &&& positions_in(positions, n)
    &&& compute_root_spec(Seq::new(positions.len(), |i: int| (positions[i], leaves[i])), pf, n)
        == Some(root)
}

/// Well-formed stack of layers: each one the collapse of the one below;
/// growth stops exactly when a layer has at most one node.
pub open spec fn layers_wf(layers: Seq<Seq<Seq<u8>>>) -> bool {
    &&& layers.len() >= 1
    &&& forall|k: int|
        1 <= k < layers.len() ==> #[trigger] layers[k] == next_layer_spec(layers[k - 1])
    &&& forall|k: int| 0 <= k < layers.len() - 1 ==> (#[trigger] layers[k]).len() > 1
    &&& layers.last().len() <= 1
}

/// Commitment tree over hashed leaves, kept as explicit layers.
pub struct MerkleTreeBuilder {
    layers: Vec<Vec<Vec<u8>>>,
}

impl MerkleTreeBuilder {
    /// The stack of layers, leaf layer first.
    pub closed spec fn layers_view(&self) -> Seq<Seq<Seq<u8>>> {
        stack_view(self.layers@)
    }

    pub open spec fn wf(&self) -> bool {
        layers_wf(self.layers_view())
    }

    /// The hashes on the leaf layer.
    pub open spec fn leaf_layer(&self) -> Seq<Seq<u8>> {
        self.layers_view()[0]
    }

    /// An empty tree.
    pub fn new() -> (t: MerkleTreeBuilder)
        ensures
            t.wf(),
            t.leaf_layer().len() == 0,
    {
        let mut layers: Vec<Vec<Vec<u8>>> = Vec::new();
        layers.push(Vec::new());
        MerkleTreeBuilder { layers }
    }

    /// Build the tree over the given canonical encodings: hash each into a
    /// leaf, then collapse layer by layer.
    pub fn build(&mut self, items: &Vec<Vec<u8>>)
        ensures
            final(self).wf(),
            final(self).leaf_layer() == hash_leaves(bytes_view(items@)),
    {
        let mut leaves: Vec<Vec<u8>> = Vec::new();
        let mut i: usize = 0;
        while i < items.len()
            invariant
                i <= items@.len(),
                leaves@.len() == i,
                forall|k: int| 0 <= k < i ==> (#[trigger] leaves@[k])@ == sha3_of(items@[k]@),
            decreases items@.len() - i,
        {
            leaves.push(sha3_256(&items[i]));
            i = i + 1;
        }
        proof {
            assert(bytes_view(leaves@) =~= hash_leaves(bytes_view(items@)));
        }
        let ghost leaf_bytes = bytes_view(leaves@);
        let mut layers: Vec<Vec<Vec<u8>>> = Vec::new();
        layers.push(leaves);
        proof {
            assert(stack_view(layers@)[0] == leaf_bytes);
        }
        while layers[layers.len() - 1].len() > 1
            invariant
                layers@.len() >= 1,
                stack_view(layers@)[0] == leaf_bytes,
                forall|k: int|
                    1 <= k < layers@.len() ==> #[trigger] stack_view(layers@)[k] == next_layer_spec(
                        stack_view(layers@)[k - 1],
                    ),
                forall|k: int|
                    0 <= k < layers@.len() - 1 ==> (#[trigger] stack_view(layers@)[k]).len() > 1,
            decreases stack_view(layers@).last().len(),
        {
            let ghost prev = layers@;
            let n = layers[layers.len() - 1].len();
            let half = (n - 1) / 2 + 1;
            let mut next: Vec<Vec<u8>> = Vec::new();
            let mut j: usize = 0;
            while j < half
                invariant
                    layers@ == prev,
                    prev.len() >= 1,
                    n == bytes_view(prev.last()@).len(),
                    n > 1,
                    half == (n + 1) / 2,
                    j <= half,
                    next@.len() == j,
                    forall|k: int|
                        0 <= k < j ==> (#[trigger] next@[k])@ == next_layer_spec(
                            bytes_view(prev.last()@),
                        )[k],
                decreases half - j,
            {
                let layer = &layers[layers.len() - 1];
                let mut buf: Vec<u8> = Vec::new();
                vec_extend(&mut buf, &layer[2 * j]);
                if 2 * j + 1 < n {
                    vec_extend(&mut buf, &layer[2 * j + 1]);
                    proof {
                        assert(buf@ =~= bytes_view(prev.last()@)[2 * j] + bytes_view(
                            prev.last()@,
                        )[2 * j + 1]);
                    }
                } else {
                    proof {
                        assert(buf@ =~= bytes_view(prev.last()@)[2 * j] + Seq::<u8>::empty());
                    }
                }
                next.push(sha3_256(&buf));
                j = j + 1;
            }
            proof {
                assert(bytes_view(next@) =~= next_layer_spec(bytes_view(prev.last()@)));
            }
            layers.push(next);
            proof {
                let dv = stack_view(layers@);
                let pdv = stack_view(prev);
                assert(dv.len() == prev.len() + 1);
                assert forall|k: int| 0 <= k < prev.len() implies dv[k] == pdv[k] by {
                    assert(layers@[k] == prev[k]);
                }
                assert(dv.last() == bytes_view(next@));
                assert(pdv.last() == bytes_view(prev.last()@));
                assert(dv[prev.len() as int] == next_layer_spec(dv[prev.len() - 1]));
            }
        }
        self.layers = layers;
        proof {
            let dv = stack_view(layers@);
            assert(dv.last().len() <= 1);
        }
    }

    /// The root hash; empty for an empty tree.
    pub fn root(&self) -> (r: Vec<u8>)
        requires
            self.wf(),
        ensures
            r@ == root_spec(self.leaf_layer()),
    {
        if self.layers[0].len() == 0 {
            proof {
                assert(self.leaf_layer().len() == 0);
            }
            Vec::new()
        } else {
            proof {
                assert(self.leaf_layer().len() > 0);
                lemma_layers_root(self.layers_view());
            }
            let last = &self.layers[self.layers.len() - 1];
            bytes_clone(&last[0])
        }
    }
}

/// Parents of a sorted in-range position list are again sorted and in
/// range on the collapsed layer.
pub proof fn lemma_parents_props(known: Seq<usize>, n: nat)
    requires
        strict_inc(known),
        positions_in(known, n),
        known.len() >= 1,
        n >= 2,
    ensures
        strict_inc(parents_spec(known)),
        positions_in(parents_spec(known), (n + 1) / 2),
        parents_spec(known).len() >= 1,
        parents_spec(known)[0] == known[0] / 2,
    decreases known.len(),
{
    let idx = known[0];
    let pair = idx % 2 == 0 && known.len() >= 2 && known[1] == idx + 1;
    let rest = if pair {
        known.skip(2)
    } else {
        known.skip(1)
    };
    assert(forall|i: int| 0 <= i < rest.len() ==> rest[i] == known[i + (if pair { 2int } else { 1int })]);
    assert(strict_inc(rest));
    assert(positions_in(rest, n));
    if rest.len() == 0 {
        assert(parents_spec(rest) == Seq::<usize>::empty());
        assert(parents_spec(known) =~= seq![idx / 2]);
    } else {
        lemma_parents_props(rest, n);
        let p = parents_spec(rest);
        assert(parents_spec(known) == seq![idx / 2] + p);
        if pair {
            assert(rest[0] == known[2]);
            assert(known[1] < known[2]);
            assert(rest[0] >= idx + 2);
        } else {
            assert(rest[0] == known[1]);
            if idx % 2 == 0 {
                assert(rest[0] != idx + 1);
                assert(rest[0] >= idx + 2);
            } else {
                assert(rest[0] >= idx + 1);
            }
        }
        assert(idx / 2 < p[0]);
        assert forall|i: int, j: int|
            0 <= i < j < parents_spec(known).len() implies parents_spec(known)[i] < parents_spec(
            known,
        )[j] by {
            if i == 0 {
                assert(parents_spec(known)[j] == p[j - 1]);
                if j - 1 > 0 {
                    assert(p[0] < p[j - 1]);
                }
            } else {
                assert(parents_spec(known)[i] == p[i - 1]);
                assert(parents_spec(known)[j] == p[j - 1]);
            }
        }
    }
}

/// Adjacent ascending entries make the whole list strictly ascending.
pub proof fn lemma_adjacent_strict(s: Seq<usize>)
    requires
        forall|k: int| 0 <= k < s.len() - 1 ==> #[trigger] s[k] < s[k + 1],
    ensures
        strict_inc(s),
{
    assert forall|i: int, j: int| 0 <= i < j < s.len() implies s[i] < s[j] by {
        lemma_adjacent_pair(s, i, j);
    }
}

proof fn lemma_adjacent_pair(s: Seq<usize>, i: int, j: int)
    requires
        forall|k: int| 0 <= k < s.len() - 1 ==> #[trigger] s[k] < s[k + 1],
        0 <= i < j < s.len(),
    ensures
        s[i] < s[j],
    decreases j - i,
{
    if j == i + 1 {
        assert(s[i] < s[i + 1]);
    } else {
        lemma_adjacent_pair(s, i, j - 1);
        assert(s[j - 1] < s[j]);
    }
}

impl MerkleTreeBuilder {
    /// Multi-proof for a sorted list of distinct leaf positions: for each
    /// level, the sibling hashes the verifier cannot reconstruct.
    pub fn prove(&self, positions: &Vec<usize>) -> (pf: Vec<Vec<u8>>)
        requires
            self.wf(),
            strict_inc(positions@),
            positions_in(positions@, self.leaf_layer().len()),
            positions@.len() >= 1,
        ensures
            bytes_view(pf@) == proof_rec(positions@, self.leaf_layer()),
    {
        let mut pf: Vec<Vec<u8>> = Vec::new();
        let mut known: Vec<usize> = Vec::new();
        let mut c: usize = 0;
        while c < positions.len()
            invariant
                c <= positions@.len(),
                known@ == positions@.take(c as int),
            decreases positions@.len() - c,
        {
            known.push(positions[c]);
            proof {
                assert(positions@.take(c as int) + seq![positions@[c as int]] =~= positions@.take(
                    c + 1,
                ));
            }
            c = c + 1;
        }
        proof {
            assert(positions@.take(positions@.len() as int) =~= positions@);
        }
        let mut level: usize = 0;
        while level < self.layers.len() - 1
            invariant
                self.wf(),
                self.layers@.len() >= 1,
                level < self.layers@.len(),
                strict_inc(known@),
                positions_in(known@, self.layers_view()[level as int].len()),
                known@.len() >= 1,
                bytes_view(pf@) + proof_rec(known@, self.layers_view()[level as int]) == proof_rec(
                    positions@,
                    self.leaf_layer(),
                ),
            decreases self.layers@.len() - level,
        {
            let ghost ll = self.layers_view()[level as int];
            proof {
                assert(ll.len() > 1);
                assert(self.layers_view()[level + 1] == next_layer_spec(ll));
            }
            let layer = &self.layers[level];
            let ghost pf_start = pf@;
            let mut nk: Vec<usize> = Vec::new();
            let mut i: usize = 0;
            proof {
                assert(known@.skip(0) =~= known@);
                assert(nk@ + parents_spec(known@) =~= parents_spec(known@));
            }
            while i < known.len()
                invariant
                    i <= known@.len(),
                    layer == self.layers@[level as int],
                    ll == bytes_view(self.layers@[level as int]@),
                    strict_inc(known@),
                    positions_in(known@, ll.len()),
                    bytes_view(pf@) + sibs_spec(known@.skip(i as int), ll) == bytes_view(pf_start)
                        + sibs_spec(known@, ll),
                    nk@ + parents_spec(known@.skip(i as int)) == parents_spec(known@),
                decreases known@.len() - i,
            {
                let ghost suf = known@.skip(i as int);
                proof {
                    assert(suf[0] == known@[i as int]);
                    if i + 1 < known@.len() {
                        assert(suf[1] == known@[i as int + 1]);
                    }
                }
                let idx = known[i];
                if idx % 2 == 0 && i + 1 < known.len() && known[i + 1] == idx + 1 {
                    nk.push(idx / 2);
                    proof {
                        assert(suf.skip(2) =~= known@.skip(i + 2));
                        assert(sibs_spec(suf, ll) == sibs_spec(known@.skip(i + 2), ll));
                        assert(parents_spec(suf) == seq![idx / 2] + parents_spec(
                            known@.skip(i + 2),
                        ));
                        assert(nk@ + parents_spec(known@.skip(i + 2)) =~= parents_spec(known@));
                    }
                    i = i + 2;
                } else {
                    proof {
                        assert(suf.skip(1) =~= known@.skip(i + 1));
                    }
                    if idx % 2 == 0 {
                        if idx + 1 < layer.len() {
                            pf.push(bytes_clone(&layer[idx + 1]));
                            proof {
                                assert(sibs_spec(suf, ll) == seq![ll[idx as int + 1]] + sibs_spec(
                                    known@.skip(i + 1),
                                    ll,
                                ));
                                assert(bytes_view(pf@) =~= bytes_view(pf@.drop_last()) + seq![
                                    ll[idx as int + 1],
                                ]);
                                assert(bytes_view(pf@) + sibs_spec(known@.skip(i + 1), ll)
                                    =~= bytes_view(pf_start) + sibs_spec(known@, ll));
                            }
                        } else {
                            pf.push(Vec::new());
                            proof {
                                assert(sibs_spec(suf, ll) == seq![Seq::<u8>::empty()] + sibs_spec(
                                    known@.skip(i + 1),
                                    ll,
                                ));
                                assert(bytes_view(pf@) =~= bytes_view(pf@.drop_last()) + seq![
                                    Seq::<u8>::empty(),
                                ]);
                                assert(bytes_view(pf@) + sibs_spec(known@.skip(i + 1), ll)
                                    =~= bytes_view(pf_start) + sibs_spec(known@, ll));
                            }
                        }
                    } else {
                        pf.push(bytes_clone(&layer[idx - 1]));
                        proof {
                            assert(sibs_spec(suf, ll) == seq![ll[idx as int - 1]] + sibs_spec(
                                known@.skip(i + 1),
                                ll,
                            ));
                            assert(bytes_view(pf@) =~= bytes_view(pf@.drop_last()) + seq![
                                ll[idx as int - 1],
                            ]);
                            assert(bytes_view(pf@) + sibs_spec(known@.skip(i + 1), ll)
                                =~= bytes_view(pf_start) + sibs_spec(known@, ll));
                        }
                    }
                    nk.push(idx / 2);
                    proof {
                        assert(parents_spec(suf) == seq![idx / 2] + parents_spec(known@.skip(i + 1)));
                        assert(nk@ + parents_spec(known@.skip(i + 1)) =~= parents_spec(known@));
                    }
                    i = i + 1;
                }
            }
            proof {
                assert(known@.skip(known@.len() as int) =~= Seq::<usize>::empty());
                assert(sibs_spec(Seq::<usize>::empty(), ll) == Seq::<Seq<u8>>::empty());
                assert(bytes_view(pf@) =~= bytes_view(pf@) + Seq::<Seq<u8>>::empty());
                assert(bytes_view(pf@) == bytes_view(pf_start) + sibs_spec(known@, ll));
                assert(nk@ + Seq::<usize>::empty() =~= nk@);
                assert(nk@ == parents_spec(known@));
                lemma_parents_props(known@, ll.len());
                assert(proof_rec(known@, ll) == sibs_spec(known@, ll) + proof_rec(
                    parents_spec(known@),
                    next_layer_spec(ll),
                ));
                assert(bytes_view(pf@) + proof_rec(nk@, self.layers_view()[level + 1])
                    =~= bytes_view(pf_start) + proof_rec(known@, ll));
                assert(next_layer_spec(ll).len() == (ll.len() + 1) / 2);
            }
            known = nk;
            level = level + 1;
        }
        proof {
            let top = self.layers_view()[level as int];
            assert(level == self.layers@.len() - 1);
            assert(top.len() <= 1);
            assert(proof_rec(known@, top) == Seq::<Seq<u8>>::empty());
            assert(bytes_view(pf@) =~= bytes_view(pf@) + Seq::<Seq<u8>>::empty());
        }
        pf
    }
}

/// The byte strings and positions a list of verification pairs holds.
pub open spec fn pairs_view(s: Seq<(usize, Vec<u8>)>) -> Seq<(usize, Seq<u8>)> {
    Seq::new(s.len(), |i: int| (s[i].0, s[i].1@))
}

/// Prepend reconstructed nodes onto the result of a climb, keeping `None`.
pub open spec fn climb_prepend(
    pre: Seq<(usize, Seq<u8>)>,
    r: Option<(Seq<(usize, Seq<u8>)>, Seq<Seq<u8>>)>,
) -> Option<(Seq<(usize, Seq<u8>)>, Seq<Seq<u8>>)> {
    match r {
        None => None,
        Some(x) => Some((pre + x.0, x.1)),
    }
}

impl MerkleTreeBuilder {
    /// Check a multi-proof: positions must be sorted, distinct and within
    /// `total_leaves`, and the leaf hashes together with the proof must
    /// reconstruct exactly the claimed root.
    #[verifier::loop_isolation(false)]
    #[verifier::rlimit(100)]
    pub fn verify(
        root: &Vec<u8>,
        proof_hashes: &Vec<Vec<u8>>,
        positions: &Vec<usize>,
        total_leaves: usize,
        leaves: &Vec<Vec<u8>>,
    ) -> (r: bool)
        ensures
            r == verify_ok_spec(
                root@,
                bytes_view(proof_hashes@),
                positions@,
                total_leaves as nat,
                bytes_view(leaves@),
            ),
    {
        let ghost pfv = bytes_view(proof_hashes@);
        if positions.len() == 0 || positions.len() != leaves.len() || total_leaves == 0 {
            proof {
                if positions@.len() >= 1 && total_leaves == 0 {
                    assert(!(positions@[0] < 0));
                }
            }
            return false;
        }
        let mut c: usize = 0;
        while c < positions.len() - 1
            invariant
                positions@.len() >= 1,
                positions@.len() <= usize::MAX,
                c < positions@.len(),
                forall|k: int| 0 <= k < c ==> #[trigger] positions@[k] < positions@[k + 1],
            decreases positions@.len() - c,
        {
            if positions[c] >= positions[c + 1] {
                proof {
                    assert(!(positions@[c as int] < positions@[c as int + 1]));
                }
                return false;
            }
            c = c + 1;
        }
        proof {
            lemma_adjacent_strict(positions@);
        }
        let mut c2: usize = 0;
        while c2 < positions.len()
            invariant
                c2 <= positions@.len(),
                forall|k: int| 0 <= k < c2 ==> (#[trigger] positions@[k]) < total_leaves,
            decreases positions@.len() - c2,
        {
            if positions[c2] >= total_leaves {
                proof {
                    assert(!((positions@[c2 as int]) < total_leaves));
                }
                return false;
            }
            c2 = c2 + 1;
        }
        let mut cur: Vec<(usize, Vec<u8>)> = Vec::new();
        let mut c3: usize = 0;
        while c3 < positions.len()
            invariant
                c3 <= positions@.len(),
                positions@.len() == leaves@.len(),
                cur@.len() == c3,
                forall|k: int|
                    0 <= k < c3 ==> (#[trigger] cur@[k]).0 == positions@[k] && cur@[k].1@
                        == leaves@[k]@,
            decreases positions@.len() - c3,
        {
            let entry = (positions[c3], bytes_clone(&leaves[c3]));
            proof {
                assert(entry.1@ == leaves@[c3 as int]@);
            }
            cur.push(entry);
            c3 = c3 + 1;
        }
        let ghost cur0 = pairs_view(cur@);
        proof {
            assert(cur0 =~~= Seq::new(positions@.len(), |i: int| (positions@[i], bytes_view(
                leaves@,
            )[i])));
        }
        let mut n: usize = total_leaves;
        let mut p: usize = 0;
        proof {
            assert(pfv.skip(0) =~= pfv);
        }
        while n > 1
            invariant
                n >= 1,
                p <= proof_hashes@.len(),
                cur@.len() >= 1,
                pfv == bytes_view(proof_hashes@),
                compute_root_spec(cur0, pfv, total_leaves as nat) == compute_root_spec(
                    pairs_view(cur@),
                    pfv.skip(p as int),
                    n as nat,
                ),
            decreases n,
        {
            let ghost full = pairs_view(cur@);
            let ghost pstart = p;
            match climb_level(&cur, proof_hashes, &mut p) {
                Some(nc) => {
                    cur = nc;
                },
                None => {
                    proof {
                        assert(compute_root_spec(cur0, pfv, total_leaves as nat) is None);
                    }
                    return false;
                },
            }
            n = (n - 1) / 2 + 1;
        }
        proof {
            assert(compute_root_spec(cur0, pfv, total_leaves as nat) == compute_root_spec(
                pairs_view(cur@),
                pfv.skip(p as int),
                1,
            ));
        }
        if cur.len() == 1 && cur[0].0 == 0 && p == proof_hashes.len() {
            proof {
                assert(pfv.skip(p as int).len() == 0);
            }
            let eq = crate::bytesutil::bytes_eq(&cur[0].1, root);
            proof {
                assert(pairs_view(cur@)[0] == (cur@[0].0, cur@[0].1@));
            }
            eq
        } else {
            proof {
                if p < proof_hashes.len() {
                    assert(pfv.skip(p as int).len() > 0);
                }
            }
            false
        }
    }
}

/// One verification level: reconstruct the parent nodes of `cur`, reading
/// sibling hashes from `proof_hashes` starting at `p`.
#[verifier::loop_isolation(false)]
#[verifier::rlimit(100)]
fn climb_level(
    cur: &Vec<(usize, Vec<u8>)>,
    proof_hashes: &Vec<Vec<u8>>,
    p: &mut usize,
) -> (r: Option<Vec<(usize, Vec<u8>)>>)
    requires
        cur@.len() >= 1,
        *old(p) <= proof_hashes@.len(),
    ensures
        match r {
            Some(nc) => {
                &&& climb_spec(
                    pairs_view(cur@),
                    bytes_view(proof_hashes@).skip(*old(p) as int),
                ) == Some((pairs_view(nc@), bytes_view(proof_hashes@).skip(*final(p) as int)))
                &&& *old(p) <= *final(p) <= proof_hashes@.len()
                &&& nc@.len() >= 1
            },
            None => climb_spec(pairs_view(cur@), bytes_view(proof_hashes@).skip(*old(p) as int))
                is None,
        },
{
    let ghost pfv = bytes_view(proof_hashes@);
    let ghost full = pairs_view(cur@);
    let ghost pstart = *p;
    let mut nc: Vec<(usize, Vec<u8>)> = Vec::new();
    let mut i: usize = 0;
    proof {
        assert(full.skip(0) =~= full);
    }
    while i < cur.len()
        invariant
            i <= cur@.len(),
            i >= 1 ==> nc@.len() >= 1,
            pstart <= *p <= proof_hashes@.len(),
            climb_spec(full, pfv.skip(pstart as int)) == climb_prepend(
                pairs_view(nc@),
                climb_spec(full.skip(i as int), pfv.skip(*p as int)),
            ),
        decreases cur@.len() - i,
    {
        let ghost suf = full.skip(i as int);
        proof {
            assert(suf[0] == full[i as int]);
            if i + 1 < cur@.len() {
                assert(suf[1] == full[i as int + 1]);
            }
        }
        let idx = cur[i].0;
        if idx % 2 == 0 && i + 1 < cur.len() && cur[i + 1].0 == idx + 1 {
            let mut buf: Vec<u8> = Vec::new();
            vec_extend(&mut buf, &cur[i].1);
            vec_extend(&mut buf, &cur[i + 1].1);
            proof {
                assert(buf@ =~= suf[0].1 + suf[1].1);
            }
            let h = sha3_256(&buf);
            nc.push((idx / 2, h));
            proof {
                assert(suf.skip(2) =~= full.skip(i + 2));
                assert(climb_spec(suf, pfv.skip(*p as int)) == climb_prepend(
                    seq![(idx / 2, combine(suf[0].1, suf[1].1))],
                    climb_spec(full.skip(i + 2), pfv.skip(*p as int)),
                ));
                lemma_climb_prepend_assoc(
                    pairs_view(nc@.drop_last()),
                    seq![(idx / 2, combine(suf[0].1, suf[1].1))],
                    climb_spec(full.skip(i + 2), pfv.skip(*p as int)),
                );
                assert(pairs_view(nc@) =~= pairs_view(nc@.drop_last()) + seq![
                    (idx / 2, combine(suf[0].1, suf[1].1)),
                ]);
            }
            i = i + 2;
        } else {
            if *p >= proof_hashes.len() {
                proof {
                    assert(pfv.skip(*p as int).len() == 0);
                    assert(climb_spec(suf, pfv.skip(*p as int)) is None);
                    assert(climb_spec(full, pfv.skip(pstart as int)) is None);
                }
                return None;
            }
            let ghost prest = pfv.skip(*p as int);
            proof {
                assert(prest[0] == pfv[*p as int]);
                assert(prest.skip(1) =~= pfv.skip(*p as int + 1));
                assert(suf.skip(1) =~= full.skip(i + 1));
            }
            let mut buf: Vec<u8> = Vec::new();
            if idx % 2 == 0 {
                vec_extend(&mut buf, &cur[i].1);
                vec_extend(&mut buf, &proof_hashes[*p]);
                proof {
                    assert(buf@ =~= suf[0].1 + prest[0]);
                }
                let h = sha3_256(&buf);
                nc.push((idx / 2, h));
                proof {
                    assert(climb_spec(suf, prest) == climb_prepend(
                        seq![(idx / 2, combine(suf[0].1, prest[0]))],
                        climb_spec(full.skip(i + 1), pfv.skip(*p as int + 1)),
                    ));
                    lemma_climb_prepend_assoc(
                        pairs_view(nc@.drop_last()),
                        seq![(idx / 2, combine(suf[0].1, prest[0]))],
                        climb_spec(full.skip(i + 1), pfv.skip(*p as int + 1)),
                    );
                    assert(pairs_view(nc@) =~= pairs_view(nc@.drop_last()) + seq![
                        (idx / 2, combine(suf[0].1, prest[0])),
                    ]);
                }
            } else {
                vec_extend(&mut buf, &proof_hashes[*p]);
                vec_extend(&mut buf, &cur[i].1);
                proof {
                    assert(buf@ =~= prest[0] + suf[0].1);
                }
                let h = sha3_256(&buf);
                nc.push((idx / 2, h));
                proof {
                    assert(climb_spec(suf, prest) == climb_prepend(
                        seq![(idx / 2, combine(prest[0], suf[0].1))],
                        climb_spec(full.skip(i + 1), pfv.skip(*p as int + 1)),
                    ));
                    lemma_climb_prepend_assoc(
                        pairs_view(nc@.drop_last()),
                        seq![(idx / 2, combine(prest[0], suf[0].1))],
                        climb_spec(full.skip(i + 1), pfv.skip(*p as int + 1)),
                    );
                    assert(pairs_view(nc@) =~= pairs_view(nc@.drop_last()) + seq![
                        (idx / 2, combine(prest[0], suf[0].1)),
                    ]);
                }
            }
            *p = *p + 1;
            i = i + 1;
        }
    }
    proof {
        assert(full.skip(full.len() as int) =~= Seq::<(usize, Seq<u8>)>::empty());
        assert(climb_spec(Seq::<(usize, Seq<u8>)>::empty(), pfv.skip(*p as int)) == Some(
            (Seq::<(usize, Seq<u8>)>::empty(), pfv.skip(*p as int)),
        ));
        assert(pairs_view(nc@) + Seq::<(usize, Seq<u8>)>::empty() =~= pairs_view(nc@));
        assert(climb_spec(full, pfv.skip(pstart as int)) == Some(
            (pairs_view(nc@), pfv.skip(*p as int)),
        ));
        assert(nc@.len() >= 1);
    }
    Some(nc)
}

/// Prepending node lists onto a climb result composes.
proof fn lemma_climb_prepend_assoc(
    a: Seq<(usize, Seq<u8>)>,
    b: Seq<(usize, Seq<u8>)>,
    r: Option<(Seq<(usize, Seq<u8>)>, Seq<Seq<u8>>)>,
)
    ensures
        climb_prepend(a, climb_prepend(b, r)) == climb_prepend(a + b, r),
{
    match r {
        None => {
        },
        Some(x) => {
            assert(a + (b + x.0) =~= (a + b) + x.0);
        },
    }
}

/// The nodes a verifier starts from: each known position with its hash on
/// the layer.
pub open spec fn known_pairs(known: Seq<usize>, layer: Seq<Seq<u8>>) -> Seq<(usize, Seq<u8>)> {
    Seq::new(known.len(), |i: int| (known[i], layer[known[i] as int]))
}

/// One level of completeness: climbing the known nodes with the siblings
/// that `sibs_spec` supplies reconstructs exactly the parent nodes, and
/// consumes exactly those siblings.
proof fn lemma_climb_complete(known: Seq<usize>, layer: Seq<Seq<u8>>, rest: Seq<Seq<u8>>)
    requires
        strict_inc(known),
        positions_in(known, layer.len() as nat),
        known.len() >= 1,
    ensures
        climb_spec(known_pairs(known, layer), sibs_spec(known, layer) + rest) == Some(
            (known_pairs(parents_spec(known), next_layer_spec(layer)), rest),
        ),
    decreases known.len(),
{
    let cur = known_pairs(known, layer);
    let idx = known[0];
    let pair = idx % 2 == 0 && known.len() >= 2 && known[1] == idx + 1;
    let nl = next_layer_spec(layer);
    assert(cur[0] == (known[0], layer[known[0] as int]));
    if known.len() >= 2 {
        assert(cur[1] == (known[1], layer[known[1] as int]));
        assert(known[0] < known[1]);
    }
    let sub = if pair {
        known.skip(2)
    } else {
        known.skip(1)
    };
    assert(forall|i: int|
        0 <= i < sub.len() ==> sub[i] == known[i + (if pair { 2int } else { 1int })]);
    assert(strict_inc(sub));
    assert(positions_in(sub, layer.len() as nat));
    let node = if pair {
        (idx / 2, combine(layer[idx as int], layer[idx as int + 1]))
    } else if idx % 2 == 0 {
        if idx + 1 < layer.len() {
            (idx / 2, combine(layer[idx as int], layer[idx as int + 1]))
        } else {
            (idx / 2, combine(layer[idx as int], Seq::<u8>::empty()))
        }
    } else {
        (idx / 2, combine(layer[idx as int - 1], layer[idx as int]))
    };
    assert(nl[idx as int / 2] == node.1);
    let sibs = sibs_spec(known, layer);
    let subsibs = sibs_spec(sub, layer);
    if pair {
        assert(sibs == subsibs);
        assert(cur.skip(2) =~~= known_pairs(sub, layer));
    } else {
        assert(cur.skip(1) =~~= known_pairs(sub, layer));
        let sib = if idx % 2 == 0 {
            if idx + 1 < layer.len() {
                layer[idx as int + 1]
            } else {
                Seq::<u8>::empty()
            }
        } else {
            layer[idx as int - 1]
        };
        assert(sibs == seq![sib] + subsibs);
        assert((seq![sib] + subsibs + rest)[0] == sib);
        assert((seq![sib] + subsibs + rest).skip(1) =~~= subsibs + rest);
    }
    if sub.len() == 0 {
        assert(known_pairs(sub, layer) =~~= Seq::<(usize, Seq<u8>)>::empty());
        assert(subsibs == Seq::<Seq<u8>>::empty());
        assert(subsibs + rest =~~= rest);
        assert(parents_spec(sub) == Seq::<usize>::empty());
        assert(parents_spec(known) == seq![idx / 2] + parents_spec(sub));
        assert(known_pairs(parents_spec(known), nl) =~~= seq![node]);
        assert(climb_spec(known_pairs(sub, layer), rest) == Some(
            (Seq::<(usize, Seq<u8>)>::empty(), rest),
        ));
        assert(seq![node] + Seq::<(usize, Seq<u8>)>::empty() =~~= seq![node]);
    } else {
        lemma_climb_complete(sub, layer, rest);
        lemma_parents_props(sub, layer.len() as nat);
        lemma_parents_props(known, layer.len() as nat);
        assert(climb_spec(known_pairs(sub, layer), subsibs + rest) == Some(
            (known_pairs(parents_spec(sub), nl), rest),
        ));
        assert(parents_spec(known) == seq![idx / 2] + parents_spec(sub));
        assert(known_pairs(parents_spec(known), nl) =~~= seq![node] + known_pairs(
            parents_spec(sub),
            nl,
        ));
    }
    if pair {
        assert(sibs + rest == subsibs + rest);
    }
}

/// Full completeness: the proof generated for sorted in-range positions
/// reconstructs the root of the tree grown from `layer`.
proof fn lemma_root_complete(known: Seq<usize>, layer: Seq<Seq<u8>>)
    requires
        strict_inc(known),
        positions_in(known, layer.len() as nat),
        known.len() >= 1,
        layer.len() >= 1,
    ensures
        compute_root_spec(known_pairs(known, layer), proof_rec(known, layer), layer.len())
            == Some(root_spec(layer)),
    decreases layer.len(),
{
    if layer.len() == 1 {
        if known.len() >= 2 {
            assert(known[0] < known[1]);
            assert(false);
        }
        assert(known[0] == 0);
        assert(known_pairs(known, layer).len() == 1);
        assert(proof_rec(known, layer) == Seq::<Seq<u8>>::empty());
        assert(known_pairs(known, layer)[0] == (0usize, layer[0]));
    } else {
        let nl = next_layer_spec(layer);
        let parents = parents_spec(known);
        let rest = proof_rec(parents, nl);
        assert(proof_rec(known, layer) == sibs_spec(known, layer) + rest);
        lemma_climb_complete(known, layer, rest);
        lemma_parents_props(known, layer.len() as nat);
        assert(nl.len() == (layer.len() + 1) / 2);
        lemma_root_complete(parents, nl);
        assert(compute_root_spec(known_pairs(known, layer), proof_rec(known, layer), layer.len())
            == compute_root_spec(known_pairs(parents, nl), rest, nl.len()));
        assert(root_spec(layer) == root_spec(nl));
    }
}

/// A proof generated by `prove` always verifies against the tree's root:
/// for any leaf layer, any sorted list of in-range positions, and the leaf
/// hashes at those positions, `verify_ok_spec` holds of the root and the
/// generated proof.
pub proof fn lemma_proof_complete(positions: Seq<usize>, layer: Seq<Seq<u8>>)
    requires
        strict_inc(positions),
        positions_in(positions, layer.len() as nat),
        positions.len() >= 1,
    ensures
        verify_ok_spec(
            root_spec(layer),
            proof_rec(positions, layer),
            positions,
            layer.len(),
            Seq::new(positions.len(), |i: int| layer[positions[i] as int]),
        ),
{
    lemma_root_complete(positions, layer);
    let leaves = Seq::new(positions.len(), |i: int| layer[positions[i] as int]);
    assert(known_pairs(positions, layer) =~~= Seq::new(
        positions.len(),
        |i: int| (positions[i], leaves[i]),
    ));
}

/// In a well-formed stack the single node on the top layer is the root of
/// the leaf layer.
proof fn lemma_layers_root(layers: Seq<Seq<Seq<u8>>>)
    requires
        layers_wf(layers),
        layers[0].len() > 0,
    ensures
        layers.last().len() == 1,
        layers.last()[0] == root_spec(layers[0]),
{
    lemma_layers_root_step(layers, layers.len() - 1);
    if layers.last().len() == 0 {
        assert(false);
    }
    assert(root_spec(layers.last()) == layers.last()[0]);
}

proof fn lemma_layers_root_step(layers: Seq<Seq<Seq<u8>>>, k: int)
    requires
        layers_wf(layers),
        layers[0].len() > 0,
        0 <= k < layers.len(),
    ensures
        layers[k].len() > 0,
        root_spec(layers[k]) == root_spec(layers[0]),
    decreases k,
{
    if k == 0 {
    } else {
        lemma_layers_root_step(layers, k - 1);
        assert(layers[k] == next_layer_spec(layers[k - 1]));
        assert(layers[k - 1].len() > 1);
    }
}

} // verus!
