//! Compact Certificate of Knowledge (CCoK): stake-weighted aggregation of
//! post-quantum block signatures.
//!
//! A `Builder` collects Dilithium signatures from a fixed, ordered
//! participant snapshot. Once the collected stake reaches the proven
//! weight, `build` commits to the signature slots and the participants in
//! two Merkle trees, draws Fiat-Shamir coins from a Keccak-256 transcript,
//! resolves each coin to the signed slot whose cumulative stake spans it,
//! and emits a `Certificate` holding the chosen reveals and their Merkle
//! multi-proofs. `verify` re-checks the weight threshold, each revealed
//! signature, both multi-proofs, and re-derives every coin, accepting only
//! certificates whose reveals sit exactly where the coins point.

pub mod cert;
pub mod sig;

use vstd::prelude::*;

use std::collections::HashMap;

use crate::bytesutil::bytes_clone;
use crate::bytesutil::le_value;
use crate::bytesutil::le_to_u64;
use crate::bytesutil::u64_le_spec;
use crate::bytesutil::u64_to_le;
use crate::bytesutil::vec_extend;
use crate::crypto::dilithium_ok;
use crate::crypto::dilithium_verify;
use crate::crypto::keccak_256;
use crate::crypto::keccak_of;
use crate::crypto::sha3_of;
use crate::crypto::DILITHIUM_PK_LEN;
use crate::crypto::DILITHIUM_SIG_LEN;
use crate::hexstr::hex_decode;
use crate::hexstr::hex_parse;
use crate::hexstr::valid_hex;
use crate::merkle::bytes_view;
use crate::merkle::hash_leaves;
use crate::merkle::positions_in;
use crate::merkle::proof_rec;
use crate::merkle::root_spec;
use crate::merkle::strict_inc;
use crate::merkle::verify_ok_spec;
use crate::merkle::MerkleTreeBuilder;

verus! {

/// Why a certificate operation was refused.
#[derive(Clone, Copy, PartialEq, Eq, Structural, Debug)]
pub enum CcokError {
    /// The slot position is outside the participant list.
    InvalidPosition,
    /// The slot already holds a signature.
    DuplicateSignature,
    /// The participant at the slot has no stake.
    ZeroWeight,
    /// The collected stake is below the proven weight.
    InsufficientWeight,
}

/// A Dilithium signature carried as plain bytes.
pub struct SerializableSignature(pub Vec<u8>);

/// A participant in the certificate: hex public key and stake weight.
pub struct Participant {
    pub public_key: Vec<u8>,
    pub weight: u64,
}

/// A slot for one participant's signature and the stake accumulated
/// before it.
pub struct SigSlot {
    pub signature: Option<SerializableSignature>,
    pub accumulated_weight: u64,
}

/// Parameters a certificate is built and verified against.
pub struct Params {
    pub msg: Vec<u8>,
    pub proven_weight: u64,
    pub security_param: u32,
}

/// A revealed slot with its participant.
pub struct Reveal {
    pub sig_slot: SigSlot,
    pub party: Participant,
}

/// Whether a slot holds a signature.
pub open spec fn slot_signed(s: SigSlot) -> bool {
    s.signature is Some
}

/// The bytes of a slot's signature; empty when unsigned.
pub open spec fn slot_sig_bytes(s: SigSlot) -> Seq<u8> {
    match s.signature {
        Some(sig) => sig.0@,
        None => Seq::<u8>::empty(),
    }
}

/// The canonical encoding of a participant: length-prefixed key, then the
/// weight in little-endian.
pub open spec fn participant_enc(pk: Seq<u8>, weight: u64) -> Seq<u8> {
    u64_le_spec(pk.len() as u64) + pk + u64_le_spec(weight)
}

/// The canonical encoding of a signature slot: a presence tag, the
/// length-prefixed signature bytes, then the accumulated weight.
pub open spec fn sigslot_enc(s: SigSlot) -> Seq<u8> {
    (if slot_signed(s) {
        seq![1u8]
    } else {
        seq![0u8]
    }) + u64_le_spec(slot_sig_bytes(s).len() as u64) + slot_sig_bytes(s) + u64_le_spec(
        s.accumulated_weight,
    )
}

/// The encodings of all slots, in order.
pub open spec fn slots_enc(sigs: Seq<SigSlot>) -> Seq<Seq<u8>> {
    Seq::new(sigs.len(), |i: int| sigslot_enc(sigs[i]))
}

/// The encodings of all participants, in order.
pub open spec fn parts_enc(parts: Seq<Participant>) -> Seq<Seq<u8>> {
    Seq::new(parts.len(), |i: int| participant_enc(parts[i].public_key@, parts[i].weight))
}

/// Total weight of the signed slots with index below `p`.
pub open spec fn signed_cum(sigs: Seq<SigSlot>, parts: Seq<Participant>, p: int) -> int
    decreases p,
{
    if p <= 0 {
        0
    } else {
        signed_cum(sigs, parts, p - 1) + if 0 <= p - 1 < sigs.len() && slot_signed(sigs[p - 1]) {
            parts[p - 1].weight as int
        } else {
            0
        }
    }
}

/// The signed slot whose cumulative stake range spans `coin`.
pub open spec fn covers(sigs: Seq<SigSlot>, parts: Seq<Participant>, p: int, coin: int) -> bool {
    &&& 0 <= p < sigs.len()
    &&& slot_signed(sigs[p])
    &&& signed_cum(sigs, parts, p) <= coin < signed_cum(sigs, parts, p) + parts[p].weight
}

/// Some entry of a reveal list names a slot that covers `coin`.
pub open spec fn some_entry_covers(
    sigs: Seq<SigSlot>,
    parts: Seq<Participant>,
    entries: Seq<(usize, u64)>,
    coin: int,
) -> bool {
    exists|k: int|
        0 <= k < entries.len() && covers(sigs, parts, (#[trigger] entries[k]).0 as int, coin)
}

/// Some revealed position covers `coin`.
pub open spec fn some_position_covers(
    sigs: Seq<SigSlot>,
    parts: Seq<Participant>,
    positions: Seq<usize>,
    coin: int,
) -> bool {
    exists|k: int|
        0 <= k < positions.len() && covers(sigs, parts, (#[trigger] positions[k]) as int, coin)
}

/// The Fiat-Shamir transcript for coin `i`.
pub open spec fn coin_transcript(
    i: u64,
    signed_weight: u64,
    proven_weight: u64,
    sig_commit: Seq<u8>,
    party_tree_root: Seq<u8>,
    msg: Seq<u8>,
) -> Seq<u8> {
    u64_le_spec(i) + u64_le_spec(signed_weight) + u64_le_spec(proven_weight) + sig_commit
        + party_tree_root + msg
}

/// Coin `i`: the first eight bytes of the Keccak-256 transcript digest,
/// read little-endian, reduced modulo the signed weight.
pub open spec fn coin_spec(
    i: u64,
    signed_weight: u64,
    proven_weight: u64,
    sig_commit: Seq<u8>,
    party_tree_root: Seq<u8>,
    msg: Seq<u8>,
) -> int
    recommends
        signed_weight > 0,
{
    le_value(
        keccak_of(
            coin_transcript(i, signed_weight, proven_weight, sig_commit, party_tree_root, msg),
        ).take(8),
    ) % (signed_weight as int)
}

/// The number of coins drawn: `max(1, ceil(security_param * (1 -
/// proven_weight / signed_weight) / 2))`, computed exactly over the
/// integers.
pub open spec fn num_reveals_spec(security_param: u32, proven_weight: u64, signed_weight: u64) -> int
    recommends
        proven_weight <= signed_weight,
        signed_weight > 0,
{
    let num = (security_param as int) * (signed_weight - proven_weight);
    let den = 2 * (signed_weight as int);
    let c = (num + den - 1) / den;
    if c < 1 {
        1
    } else {
        c
    }
}

/// Executable form of `num_reveals_spec`, using 128-bit intermediates.
pub fn num_reveals_count(security_param: u32, proven_weight: u64, signed_weight: u64) -> (r: u64)
    requires
        proven_weight <= signed_weight,
        signed_weight > 0,
    ensures
        r == num_reveals_spec(security_param, proven_weight, signed_weight),
        r >= 1,
{
    proof {
        assert((security_param as int) * ((signed_weight - proven_weight) as int) <= 0xffff_ffff
            * 0xffff_ffff_ffff_ffff) by (nonlinear_arith)
            requires
                0 <= security_param <= 0xffff_ffff,
                0 <= signed_weight - proven_weight <= 0xffff_ffff_ffff_ffff,
        {
        }
    }
    let num: u128 = (security_param as u128) * ((signed_weight - proven_weight) as u128);
    proof {
        assert(num <= (security_param as int) * (signed_weight as int)) by (nonlinear_arith)
            requires
                num == (security_param as int) * ((signed_weight - proven_weight) as int),
                proven_weight <= signed_weight,
                security_param >= 0,
        {
        }
        assert((security_param as int) * (signed_weight as int) <= 0xffff_ffff * 0xffff_ffff_ffff_ffff)
            by (nonlinear_arith)
            requires
                security_param <= 0xffff_ffff,
                signed_weight <= 0xffff_ffff_ffff_ffff,
        {
        }
    }
    let den: u128 = 2 * (signed_weight as u128);
    let c: u128 = (num + den - 1) / den;
    proof {
        assert(c <= (security_param as int) / 2 + 1) by (nonlinear_arith)
            requires
                c == ((num as int) + (den as int) - 1) / (den as int),
                den == 2 * (signed_weight as int),
                signed_weight >= 1,
                num <= (security_param as int) * (signed_weight as int),
                num >= 0,
                security_param >= 0,
        {
        }
    }
    if c < 1 {
        1
    } else {
        c as u64
    }
}

/// Builder state: the participant snapshot, one slot per participant, and
/// the stake collected so far.
pub struct Builder {
    pub params: Params,
    pub sigs: Vec<SigSlot>,
    pub signed_weight: u64,
    pub participants: Vec<Participant>,
    pub party_tree_root: Vec<u8>,
}

impl Builder {
    /// One slot per participant, the signed weight totals the stake of
    /// the signed slots, and no signed slot has zero weight.
    pub open spec fn wf(&self) -> bool {
        &&& self.sigs@.len() == self.participants@.len()
        &&& self.signed_weight as int == signed_cum(
            self.sigs@,
            self.participants@,
            self.sigs@.len() as int,
        )
        &&& forall|p: int|
            0 <= p < self.sigs@.len() && slot_signed(#[trigger] self.sigs@[p])
                ==> self.participants@[p].weight > 0
    }

    /// Start a builder with empty slots for the given participants.
    pub fn new(params: Params, participants: Vec<Participant>, party_tree_root: Vec<u8>) -> (b:
        Builder)
        ensures
            b.wf(),
            b.params == params,
            b.participants == participants,
            b.party_tree_root == party_tree_root,
            b.signed_weight == 0,
            b.sigs@.len() == participants@.len(),
            forall|p: int|
                0 <= p < b.sigs@.len() ==> !slot_signed(#[trigger] b.sigs@[p])
                    && b.sigs@[p].accumulated_weight == 0,
    {
        let mut sigs: Vec<SigSlot> = Vec::new();
        let mut i: usize = 0;
        while i < participants.len()
            invariant
                i <= participants@.len(),
                sigs@.len() == i,
                forall|p: int|
                    0 <= p < i ==> !slot_signed(#[trigger] sigs@[p]) && sigs@[p].accumulated_weight
                        == 0,
            decreases participants@.len() - i,
        {
            sigs.push(SigSlot { signature: None, accumulated_weight: 0 });
            i = i + 1;
        }
        let b = Builder { params, sigs, signed_weight: 0, participants, party_tree_root };
        proof {
            lemma_signed_cum_unsigned(b.sigs@, b.participants@, b.sigs@.len() as int);
        }
        b
    }

    /// Record a participant's signature. Fails on a position outside the
    /// snapshot, a slot already holding a signature, or a zero-weight
    /// participant; otherwise stores the signature, adds the
    /// participant's stake to the signed weight, and refreshes the slot's
    /// accumulated weight from the slot before it.
    pub fn add_signature(&mut self, pos: usize, signature: Vec<u8>) -> (r: Result<
        (),
        CcokError,
    >)
        requires
            old(self).wf(),
            signature@.len() == DILITHIUM_SIG_LEN,
            old(self).signed_weight as int + (if pos < old(self).participants@.len() {
                old(self).participants@[pos as int].weight as int
            } else {
                0
            }) <= u64::MAX,
            pos < old(self).participants@.len() && pos > 0 ==> old(
                self,
            ).sigs@[pos as int - 1].accumulated_weight as int + old(
                self,
            ).participants@[pos as int - 1].weight as int <= u64::MAX,
        ensures
            final(self).wf(),
            final(self).params == old(self).params,
            final(self).participants == old(self).participants,
            final(self).party_tree_root == old(self).party_tree_root,
            pos >= old(self).sigs@.len() ==> r == Result::<(), CcokError>::Err(
                CcokError::InvalidPosition,
            ) && final(self).sigs@ == old(self).sigs@ && final(self).signed_weight == old(
                self,
            ).signed_weight,
            pos < old(self).sigs@.len() && slot_signed(old(self).sigs@[pos as int]) ==> r
                == Result::<(), CcokError>::Err(CcokError::DuplicateSignature) && final(self).sigs@
                == old(self).sigs@ && final(self).signed_weight == old(self).signed_weight,
            pos < old(self).sigs@.len() && !slot_signed(old(self).sigs@[pos as int]) && old(
                self,
            ).participants@[pos as int].weight == 0 ==> r == Result::<(), CcokError>::Err(
                CcokError::ZeroWeight,
            ) && final(self).sigs@ == old(self).sigs@ && final(self).signed_weight == old(
                self,
            ).signed_weight,
            pos < old(self).sigs@.len() && !slot_signed(old(self).sigs@[pos as int]) && old(
                self,
            ).participants@[pos as int].weight > 0 ==> r == Result::<(), CcokError>::Ok(())
                && final(self).signed_weight == old(self).signed_weight + old(
                self,
            ).participants@[pos as int].weight && final(self).sigs@.len() == old(self).sigs@.len()
                && slot_signed(final(self).sigs@[pos as int]) && slot_sig_bytes(
                final(self).sigs@[pos as int],
            ) == signature@ && final(self).sigs@[pos as int].accumulated_weight == (if pos > 0 {
                (old(self).sigs@[pos as int - 1].accumulated_weight + old(
                    self,
                ).participants@[pos as int - 1].weight) as u64
            } else {
                old(self).sigs@[pos as int].accumulated_weight
            }) && (forall|q: int|
                0 <= q < old(self).sigs@.len() && q != pos ==> final(self).sigs@[q] == old(
                    self,
                ).sigs@[q]),
    {
        if pos >= self.participants.len() {
            return Err(CcokError::InvalidPosition);
        }
        if self.sigs[pos].signature.is_some() {
            return Err(CcokError::DuplicateSignature);
        }
        let w = self.participants[pos].weight;
        if w == 0 {
            return Err(CcokError::ZeroWeight);
        }
        let ghost old_sigs = self.sigs@;
        let acc = if pos > 0 {
            self.sigs[pos - 1].accumulated_weight + self.participants[pos - 1].weight
        } else {
            self.sigs[pos].accumulated_weight
        };
        let slot = SigSlot {
            signature: Some(SerializableSignature(signature)),
            accumulated_weight: acc,
        };
        self.sigs.set(pos, slot);
        self.signed_weight = self.signed_weight + w;
        proof {
            lemma_signed_cum_update(
                old_sigs,
                self.sigs@,
                self.participants@,
                pos as int,
                old_sigs.len() as int,
            );
        }
        Ok(())
    }
}

impl Builder {
    /// Draw coin `index` from the Fiat-Shamir transcript.
    pub fn coin_choice(&self, index: u64, sig_commit: &Vec<u8>) -> (r: u64)
        requires
            self.signed_weight > 0,
        ensures
            r as int == coin_spec(
                index,
                self.signed_weight,
                self.params.proven_weight,
                sig_commit@,
                self.party_tree_root@,
                self.params.msg@,
            ),
    {
        let mut buf: Vec<u8> = Vec::new();
        let idx_le = u64_to_le(index);
        vec_extend(&mut buf, &idx_le);
        let sw_le = u64_to_le(self.signed_weight);
        vec_extend(&mut buf, &sw_le);
        let pw_le = u64_to_le(self.params.proven_weight);
        vec_extend(&mut buf, &pw_le);
        vec_extend(&mut buf, sig_commit);
        vec_extend(&mut buf, &self.party_tree_root);
        vec_extend(&mut buf, &self.params.msg);
        proof {
            assert(buf@ =~= coin_transcript(
                index,
                self.signed_weight,
                self.params.proven_weight,
                sig_commit@,
                self.party_tree_root@,
                self.params.msg@,
            ));
        }
        let digest = keccak_256(&buf);
        let v = le_to_u64(&digest);
        v % self.signed_weight
    }

}

/// One running-sum entry is correct: it names a signed slot and carries
/// the cumulative signed stake through it, continuing the entry before.
pub open spec fn cum_entry_ok(
    entries: Seq<(usize, u64)>,
    sigs: Seq<SigSlot>,
    parts: Seq<Participant>,
    k: int,
) -> bool {
    let q = entries[k].0;
    let c = entries[k].1;
    &&& 0 <= (q as int) < sigs.len()
    &&& slot_signed(sigs[q as int])
    &&& c as int == signed_cum(sigs, parts, q as int + 1)
    &&& signed_cum(sigs, parts, q as int) == (if k == 0 {
        0int
    } else {
        entries[k - 1].1 as int
    })
}

/// The running-sum table over the signed slots: each entry holds a signed
/// slot's index and the cumulative signed stake through it.
pub open spec fn cum_entries_ok(
    entries: Seq<(usize, u64)>,
    sigs: Seq<SigSlot>,
    parts: Seq<Participant>,
) -> bool {
    forall|k: int| 0 <= k < entries.len() ==> #[trigger] cum_entry_ok(entries, sigs, parts, k)
}

/// Every entry's slot index is smaller than the next entry's.
pub open spec fn cum_entries_sorted(entries: Seq<(usize, u64)>) -> bool {
    forall|k: int| 0 <= k < entries.len() - 1 ==> (#[trigger] entries[k]).0 < entries[k + 1].0
}

impl Builder {
    /// Build the running-sum table of the signed slots.
    #[verifier::rlimit(100)]
    fn signed_cumulative(&self) -> (cw: Vec<(usize, u64)>)
        requires
            self.wf(),
        ensures
            cum_entries_ok(cw@, self.sigs@, self.participants@),
            cum_entries_sorted(cw@),
            forall|q: int|
                0 <= q < self.sigs@.len() && slot_signed(#[trigger] self.sigs@[q]) ==> exists|
                    k: int,
                |
                    0 <= k < cw@.len() && (#[trigger] cw@[k]).0 == q,
            cw@.len() > 0 ==> cw@[cw@.len() - 1].1 as int == signed_cum(
                self.sigs@,
                self.participants@,
                self.sigs@.len() as int,
            ),
            cw@.len() == 0 ==> self.signed_weight == 0,
    {
        let ghost sigs = self.sigs@;
        let ghost parts = self.participants@;
        let mut cum_weights: Vec<(usize, u64)> = Vec::new();
        let mut cum: u64 = 0;
        let mut i: usize = 0;
        #[verifier::loop_isolation(false)]
        while i < self.sigs.len()
            invariant
                i <= sigs.len(),
                cum as int == signed_cum(sigs, parts, i as int),
                cum_entries_ok(cum_weights@, sigs, parts),
                cum_entries_sorted(cum_weights@),
                forall|k: int| 0 <= k < cum_weights@.len() ==> (#[trigger] cum_weights@[k]).0 < i,
                cum_weights@.len() > 0 ==> cum == cum_weights@[cum_weights@.len() - 1].1,
                cum_weights@.len() == 0 ==> cum as int == 0,
                forall|q: int|
                    0 <= q < i && slot_signed(#[trigger] sigs[q]) ==> exists|k: int|
                        0 <= k < cum_weights@.len() && (#[trigger] cum_weights@[k]).0 == q,
            decreases sigs.len() - i,
        {
            if self.sigs[i].signature.is_some() {
                let w = self.participants[i].weight;
                proof {
                    lemma_signed_cum_mono(sigs, parts, i + 1, sigs.len() as int);
                    assert(signed_cum(sigs, parts, i + 1) == signed_cum(sigs, parts, i as int)
                        + parts[i as int].weight);
                }
                let ghost prev_entries = cum_weights@;
                let new_cum = cum + w;
                cum_weights.push((i, new_cum));
                cum = new_cum;
                proof {
                    lemma_cum_entries_push(
                        prev_entries,
                        cum_weights@,
                        sigs,
                        parts,
                        i,
                        new_cum,
                    );
                }
            } else {
                proof {
                    assert(signed_cum(sigs, parts, i + 1) == signed_cum(sigs, parts, i as int));
                }
            }
            i = i + 1;
        }
        proof {
            if cum_weights@.len() == 0 {
                assert(self.signed_weight as int == signed_cum(sigs, parts, sigs.len() as int));
            }
        }
        cum_weights
    }

    /// Resolve a coin to the unique signed slot whose cumulative signed
    /// stake spans it, by binary search over the signed slots' running
    /// sums.
    #[verifier::rlimit(100)]
    pub fn find_coin_position(&self, coin_value: u64) -> (r: Result<u64, CcokError>)
        requires
            self.wf(),
            (coin_value as int) < self.signed_weight as int,
        ensures
            match r {
                Ok(p) => covers(self.sigs@, self.participants@, p as int, coin_value as int),
                Err(e) => e == CcokError::InsufficientWeight && self.signed_weight == 0,
            },
    {
        let ghost sigs = self.sigs@;
        let ghost parts = self.participants@;
        let cum_weights = self.signed_cumulative();
        if cum_weights.len() == 0 {
            return Err(CcokError::InsufficientWeight);
        }
        proof {
            lemma_cum_entries_mono_all(cum_weights@, sigs, parts);
        }
        let mut lo: usize = 0;
        let mut hi: usize = cum_weights.len();
        #[verifier::loop_isolation(false)]
        while lo < hi
            invariant
                0 <= lo <= hi <= cum_weights@.len(),
                forall|k: int| 0 <= k < lo ==> (#[trigger] cum_weights@[k]).1 <= coin_value,
                forall|k: int|
                    hi <= k < cum_weights@.len() ==> coin_value < (#[trigger] cum_weights@[k]).1,
            decreases hi - lo,
        {
            let mid = lo + (hi - lo) / 2;
            let (_, weight_mid) = cum_weights[mid];
            if coin_value < weight_mid {
                hi = mid;
            } else {
                lo = mid + 1;
            }
        }
        if lo < cum_weights.len() {
            let (p, _) = cum_weights[lo];
            proof {
                lemma_search_found(cum_weights@, sigs, parts, lo as int, coin_value as int);
            }
            Ok(p as u64)
        } else {
            proof {
                let last = cum_weights@.len() - 1;
                assert((#[trigger] cum_weights@[last]).1 <= coin_value);
                assert(cum_weights@[last].1 as int == signed_cum(sigs, parts, sigs.len() as int));
                assert(false);
            }
            Err(CcokError::InsufficientWeight)
        }
    }
}


/// The entry a successful binary search lands on covers the coin.
proof fn lemma_search_found(
    entries: Seq<(usize, u64)>,
    sigs: Seq<SigSlot>,
    parts: Seq<Participant>,
    lo: int,
    coin: int,
)
    requires
        cum_entries_ok(entries, sigs, parts),
        0 <= lo < entries.len(),
        coin < entries[lo].1,
        lo > 0 ==> entries[lo - 1].1 <= coin,
        coin >= 0,
    ensures
        covers(sigs, parts, entries[lo].0 as int, coin),
{
    assert(cum_entry_ok(entries, sigs, parts, lo));
    let (q, c) = entries[lo];
    if lo == 0 {
        assert(signed_cum(sigs, parts, q as int) == 0);
    } else {
        assert(signed_cum(sigs, parts, q as int) == entries[lo - 1].1 as int);
    }
    assert(signed_cum(sigs, parts, q as int + 1) == signed_cum(sigs, parts, q as int)
        + parts[q as int].weight);
}


/// Appending the next signed slot's running sum keeps the table correct
/// and complete.
#[verifier::rlimit(100)]
proof fn lemma_cum_entries_push(
    prev: Seq<(usize, u64)>,
    entries: Seq<(usize, u64)>,
    sigs: Seq<SigSlot>,
    parts: Seq<Participant>,
    i: usize,
    new_cum: u64,
)
    requires
        cum_entries_ok(prev, sigs, parts),
        0 <= (i as int) < sigs.len(),
        slot_signed(sigs[i as int]),
        entries == prev.push((i, new_cum)),
        new_cum as int == signed_cum(sigs, parts, i as int + 1),
        signed_cum(sigs, parts, i as int) == (if prev.len() == 0 {
            0int
        } else {
            prev[prev.len() - 1].1 as int
        }),
        forall|k: int| 0 <= k < prev.len() ==> (#[trigger] prev[k]).0 < i,
        forall|q: int|
            0 <= q < i && slot_signed(#[trigger] sigs[q]) ==> exists|k: int|
                0 <= k < prev.len() && (#[trigger] prev[k]).0 == q,
        cum_entries_sorted(prev),
    ensures
        cum_entries_ok(entries, sigs, parts),
        cum_entries_sorted(entries),
        forall|q: int|
            0 <= q < i + 1 && slot_signed(#[trigger] sigs[q]) ==> exists|k: int|
                0 <= k < entries.len() && (#[trigger] entries[k]).0 == q,
{
    let n = entries.len() - 1;
    assert((#[trigger] entries[n]).0 == i);
    assert forall|q: int|
        0 <= q < i + 1 && slot_signed(#[trigger] sigs[q]) implies exists|k: int|
        0 <= k < entries.len() && (#[trigger] entries[k]).0 == q by {
        if q < i {
            let k = choose|k: int| 0 <= k < prev.len() && (#[trigger] prev[k]).0 == q;
            assert(entries[k] == prev[k]);
            assert((#[trigger] entries[k]).0 == q);
        } else {
            assert((#[trigger] entries[n]).0 == q);
        }
    }
    assert forall|k: int|
        0 <= k < entries.len() implies #[trigger] cum_entry_ok(entries, sigs, parts, k) by {
        if k < n {
            assert(cum_entry_ok(prev, sigs, parts, k));
            assert(entries[k] == prev[k]);
            if k > 0 {
                assert(entries[k - 1] == prev[k - 1]);
            }
        } else {
            if k > 0 {
                assert(cum_entry_ok(prev, sigs, parts, k - 1));
                assert(entries[k - 1] == prev[k - 1]);
            }
        }
    }
}

/// Running-sum entries grow pairwise along the list.
proof fn lemma_cum_entries_mono_all(
    entries: Seq<(usize, u64)>,
    sigs: Seq<SigSlot>,
    parts: Seq<Participant>,
)
    requires
        cum_entries_ok(entries, sigs, parts),
    ensures
        forall|a: int, b: int|
            0 <= a <= b < entries.len() ==> (#[trigger] entries[a]).1 <= (#[trigger] entries[b]).1,
{
    assert forall|a: int, b: int|
        0 <= a <= b < entries.len() implies (#[trigger] entries[a]).1 <= (
    #[trigger] entries[b]).1 by {
        lemma_cum_entries_mono(entries, sigs, parts, a, b);
    }
}

/// Running-sum entries grow along the list.
proof fn lemma_cum_entries_mono(
    entries: Seq<(usize, u64)>,
    sigs: Seq<SigSlot>,
    parts: Seq<Participant>,
    a: int,
    b: int,
)
    requires
        0 <= a <= b < entries.len(),
        cum_entries_ok(entries, sigs, parts),
    ensures
        entries[a].1 <= entries[b].1,
    decreases b - a,
{
    if a < b {
        lemma_cum_entries_mono(entries, sigs, parts, a, b - 1);
        assert(cum_entry_ok(entries, sigs, parts, b));
        let q = entries[b].0;
        assert(signed_cum(sigs, parts, q as int) == entries[b - 1].1 as int);
        assert(entries[b].1 as int == signed_cum(sigs, parts, q as int + 1));
    }
}

/// Unsigned prefixes accumulate no weight.
proof fn lemma_signed_cum_unsigned(sigs: Seq<SigSlot>, parts: Seq<Participant>, p: int)
    requires
        forall|q: int| 0 <= q < sigs.len() ==> !slot_signed(#[trigger] sigs[q]),
        p <= sigs.len(),
    ensures
        signed_cum(sigs, parts, p) == 0,
    decreases p,
{
    if p > 0 {
        lemma_signed_cum_unsigned(sigs, parts, p - 1);
    }
}

/// Signing one previously empty slot adds exactly its weight to every
/// cumulative sum beyond it.
proof fn lemma_signed_cum_update(
    old_sigs: Seq<SigSlot>,
    new_sigs: Seq<SigSlot>,
    parts: Seq<Participant>,
    pos: int,
    p: int,
)
    requires
        0 <= pos < old_sigs.len(),
        new_sigs.len() == old_sigs.len(),
        !slot_signed(old_sigs[pos]),
        slot_signed(new_sigs[pos]),
        forall|q: int| 0 <= q < old_sigs.len() && q != pos ==> new_sigs[q] == old_sigs[q],
        0 <= p <= old_sigs.len(),
    ensures
        signed_cum(new_sigs, parts, p) == signed_cum(old_sigs, parts, p) + if p > pos {
            parts[pos].weight as int
        } else {
            0
        },
    decreases p,
{
    if p > 0 {
        lemma_signed_cum_update(old_sigs, new_sigs, parts, pos, p - 1);
    }
}

/// The cumulative sum is monotone and bounded by the total.
proof fn lemma_signed_cum_mono(sigs: Seq<SigSlot>, parts: Seq<Participant>, p: int, q: int)
    requires
        0 <= p <= q <= sigs.len(),
    ensures
        signed_cum(sigs, parts, p) <= signed_cum(sigs, parts, q),
    decreases q,
{
    if p < q {
        lemma_signed_cum_mono(sigs, parts, p, q - 1);
    }
}


/// Executable canonical encoding of a signature slot.
pub fn encode_sigslot(s: &SigSlot) -> (r: Vec<u8>)
    ensures
        r@ == sigslot_enc(*s),
{
    let mut r: Vec<u8> = Vec::new();
    match &s.signature {
        Some(sig) => {
            r.push(1);
            let len_le = u64_to_le(sig.0.len() as u64);
            vec_extend(&mut r, &len_le);
            vec_extend(&mut r, &sig.0);
        },
        None => {
            r.push(0);
            let len_le = u64_to_le(0);
            vec_extend(&mut r, &len_le);
        },
    }
    let acc_le = u64_to_le(s.accumulated_weight);
    vec_extend(&mut r, &acc_le);
    proof {
        assert(Seq::<u8>::empty().len() == 0);
        assert(r@ =~= sigslot_enc(*s));
    }
    r
}

/// Executable canonical encoding of a participant.
pub fn encode_participant(p: &Participant) -> (r: Vec<u8>)
    ensures
        r@ == participant_enc(p.public_key@, p.weight),
{
    let mut r: Vec<u8> = Vec::new();
    let len_le = u64_to_le(p.public_key.len() as u64);
    vec_extend(&mut r, &len_le);
    vec_extend(&mut r, &p.public_key);
    let w_le = u64_to_le(p.weight);
    vec_extend(&mut r, &w_le);
    proof {
        assert(r@ =~= participant_enc(p.public_key@, p.weight));
    }
    r
}

/// Encode every slot, in order.
fn encode_all_slots(sigs: &Vec<SigSlot>) -> (r: Vec<Vec<u8>>)
    ensures
        bytes_view(r@) == slots_enc(sigs@),
{
    let mut r: Vec<Vec<u8>> = Vec::new();
    let mut i: usize = 0;
    while i < sigs.len()
        invariant
            i <= sigs@.len(),
            r@.len() == i,
            forall|k: int| 0 <= k < i ==> (#[trigger] r@[k])@ == sigslot_enc(sigs@[k]),
        decreases sigs@.len() - i,
    {
        r.push(encode_sigslot(&sigs[i]));
        i = i + 1;
    }
    proof {
        assert(bytes_view(r@) =~= slots_enc(sigs@));
    }
    r
}

/// Encode every participant, in order.
pub fn encode_participants(parts: &Vec<Participant>) -> (r: Vec<Vec<u8>>)
    ensures
        bytes_view(r@) == parts_enc(parts@),
{
    let mut r: Vec<Vec<u8>> = Vec::new();
    let mut i: usize = 0;
    while i < parts.len()
        invariant
            i <= parts@.len(),
            r@.len() == i,
            forall|k: int|
                0 <= k < i ==> (#[trigger] r@[k])@ == participant_enc(
                    parts@[k].public_key@,
                    parts@[k].weight,
                ),
        decreases parts@.len() - i,
    {
        r.push(encode_participant(&parts[i]));
        i = i + 1;
    }
    proof {
        assert(bytes_view(r@) =~= parts_enc(parts@));
    }
    r
}

/// The slot positions a reveal list names, in order.
pub open spec fn firsts(s: Seq<(usize, u64)>) -> Seq<usize> {
    Seq::new(s.len(), |i: int| s[i].0)
}

/// The coin indices a reveal list names, in order.
pub open spec fn seconds(s: Seq<(usize, u64)>) -> Seq<u64> {
    Seq::new(s.len(), |i: int| s[i].1)
}

/// Insert a reveal entry into a position-sorted list, keeping it sorted.
fn insert_sorted(info: &mut Vec<(usize, u64)>, pos: usize, idx: u64)
    requires
        strict_inc(firsts(old(info)@)),
        forall|k: int| 0 <= k < old(info)@.len() ==> (#[trigger] old(info)@[k]).0 != pos,
    ensures
        strict_inc(firsts(final(info)@)),
        final(info)@.len() == old(info)@.len() + 1,
        forall|k: int|
            0 <= k < final(info)@.len() ==> (#[trigger] final(info)@[k]) == (pos, idx) || old(
                info,
            )@.contains(final(info)@[k]),
        exists|k: int| 0 <= k < final(info)@.len() && (#[trigger] final(info)@[k]) == (pos, idx),
        forall|k: int|
            0 <= k < old(info)@.len() ==> final(info)@.contains(#[trigger] old(info)@[k]),
{
    let ghost orig = info@;
    let mut j: usize = 0;
    while j < info.len() && info[j].0 < pos
        invariant
            j <= orig.len(),
            info@ == orig,
            forall|k: int| 0 <= k < j ==> (#[trigger] orig[k]).0 < pos,
        decreases orig.len() - j,
    {
        j = j + 1;
    }
    info.insert(j, (pos, idx));
    proof {
        assert(info@ == orig.insert(j as int, (pos, idx)));
        assert(forall|k: int| 0 <= k < j ==> (#[trigger] info@[k]) == orig[k]);
        assert(info@[j as int] == (pos, idx));
        assert(forall|k: int|
            j < k < info@.len() ==> (#[trigger] info@[k]) == orig[k - 1]);
        if (j as int) < orig.len() {
            assert(orig[j as int].0 >= pos);
            assert(orig[j as int].0 != pos);
        }
        assert forall|a: int, b: int|
            0 <= a < b < firsts(info@).len() implies firsts(info@)[a] < firsts(info@)[b] by {
            if a < j && b < j {
                assert(firsts(orig)[a] < firsts(orig)[b]);
            } else if a < j && b == j {
                assert(orig[a].0 < pos);
            } else if a < j && b > j {
                assert(firsts(orig)[a] < firsts(orig)[b - 1] || a == b - 1);
                if a < b - 1 {
                    assert(firsts(orig)[a] < firsts(orig)[b - 1]);
                }
            } else if a == j {
                assert(info@[b] == orig[b - 1]);
                if j < orig.len() && b - 1 > j as int - 1 {
                    if b - 1 == j {
                        assert(orig[j as int].0 > pos);
                    } else {
                        assert(firsts(orig)[j as int] < firsts(orig)[b - 1]);
                        assert(orig[j as int].0 > pos);
                    }
                }
            } else {
                assert(info@[a] == orig[a - 1]);
                assert(info@[b] == orig[b - 1]);
                assert(firsts(orig)[a - 1] < firsts(orig)[b - 1]);
            }
        }
        assert forall|k: int|
            0 <= k < info@.len() implies (#[trigger] info@[k]) == (pos, idx) || orig.contains(
            info@[k],
        ) by {
            if k < j {
                assert(info@[k] == orig[k]);
            } else if k > j {
                assert(info@[k] == orig[k - 1]);
            }
        }
        assert forall|k: int| 0 <= k < orig.len() implies info@.contains(#[trigger] orig[k]) by {
            if k < j {
                assert(info@[k] == orig[k]);
            } else {
                assert(info@[k + 1] == orig[k]);
            }
        }
        assert(info@[j as int] == (pos, idx));
    }
}


/// The certificate: commitment to the slots, the chosen reveals, and the
/// Merkle multi-proofs for them.
pub struct Certificate {
    pub sig_commit: Vec<u8>,
    pub signed_weight: u64,
    pub total_sigs: usize,
    pub reveals: HashMap<u64, Reveal>,
    pub sig_proofs: Vec<Vec<u8>>,
    pub party_proofs: Vec<Vec<u8>>,
    pub reveal_positions: Vec<usize>,
    pub reveal_indices: Vec<u64>,
}

/// A reveal carries exactly the builder's slot and participant at `p`.
pub open spec fn reveal_matches(
    sigs: Seq<SigSlot>,
    parts: Seq<Participant>,
    rv: Reveal,
    p: int,
) -> bool {
    &&& slot_signed(rv.sig_slot) == slot_signed(sigs[p])
    &&& slot_sig_bytes(rv.sig_slot) == slot_sig_bytes(sigs[p])
    &&& rv.sig_slot.accumulated_weight == sigs[p].accumulated_weight
    &&& rv.party.public_key@ == parts[p].public_key@
    &&& rv.party.weight == parts[p].weight
}

/// What `build` promises of the certificate it emits.
pub open spec fn built_rel(b: Builder, cert: Certificate) -> bool {
    let slot_layer = hash_leaves(slots_enc(b.sigs@));
    let party_layer = hash_leaves(parts_enc(b.participants@));
    let positions = cert.reveal_positions@;
    &&& cert.signed_weight == b.signed_weight
    &&& cert.total_sigs == b.sigs@.len()
    &&& cert.sig_commit@ == root_spec(slot_layer)
    &&& positions.len() == cert.reveal_indices@.len()
    &&& positions.len() >= 1
    &&& strict_inc(positions)
    &&& positions_in(positions, b.sigs@.len() as nat)
    &&& forall|k: int|
        0 <= k < positions.len() ==> covers(
            b.sigs@,
            b.participants@,
            (#[trigger] positions[k]) as int,
            coin_spec(
                cert.reveal_indices@[k],
                b.signed_weight,
                b.params.proven_weight,
                cert.sig_commit@,
                b.party_tree_root@,
                b.params.msg@,
            ),
        )
    &&& forall|k: int|
        0 <= k < positions.len() ==> cert.reveals@.contains_key(
            (#[trigger] positions[k]) as u64,
        ) && reveal_matches(
            b.sigs@,
            b.participants@,
            cert.reveals@[positions[k] as u64],
            positions[k] as int,
        )
    &&& forall|p64: u64|
        #[trigger] cert.reveals@.contains_key(p64) ==> exists|k: int|
            0 <= k < positions.len() && (#[trigger] positions[k]) as u64 == p64
    &&& forall|ci: u64|
        ci < num_reveals_spec(b.params.security_param, b.params.proven_weight, b.signed_weight)
            ==> #[trigger] some_position_covers(
            b.sigs@,
            b.participants@,
            positions,
            coin_spec(
                ci,
                b.signed_weight,
                b.params.proven_weight,
                cert.sig_commit@,
                b.party_tree_root@,
                b.params.msg@,
            ),
        )
    &&& bytes_view(cert.sig_proofs@) == proof_rec(positions, slot_layer)
    &&& bytes_view(cert.party_proofs@) == proof_rec(positions, party_layer)
}

impl Builder {

    /// Draw `num` coins and record the reveal for each newly hit slot.
    #[verifier::rlimit(100)]
    fn select_reveals(&self, sig_commit: &Vec<u8>, num: u64) -> (r: (
        HashMap<u64, Reveal>,
        Vec<(usize, u64)>,
    ))
        requires
            self.wf(),
            self.signed_weight > 0,
            num >= 1,
        ensures
            ({
                let (reveal_map, info) = r;
                &&& info@.len() >= 1
                &&& strict_inc(firsts(info@))
                &&& forall|k: int|
                    0 <= k < info@.len() ==> {
                        let (p, ci) = #[trigger] info@[k];
                        &&& covers(
                            self.sigs@,
                            self.participants@,
                            p as int,
                            coin_spec(
                                ci,
                                self.signed_weight,
                                self.params.proven_weight,
                                sig_commit@,
                                self.party_tree_root@,
                                self.params.msg@,
                            ),
                        )
                        &&& reveal_map@.contains_key(p as u64)
                        &&& reveal_matches(
                            self.sigs@,
                            self.participants@,
                            reveal_map@[p as u64],
                            p as int,
                        )
                    }
                &&& forall|p64: u64|
                    #[trigger] reveal_map@.contains_key(p64) ==> exists|k: int|
                        0 <= k < info@.len() && (#[trigger] info@[k]).0 as u64 == p64
                &&& forall|ci: u64|
                    ci < num ==> #[trigger] some_entry_covers(
                        self.sigs@,
                        self.participants@,
                        info@,
                        coin_spec(
                            ci,
                            self.signed_weight,
                            self.params.proven_weight,
                            sig_commit@,
                            self.party_tree_root@,
                            self.params.msg@,
                        ),
                    )
            }),
    {
        broadcast use vstd::std_specs::hash::group_hash_axioms;

        let ghost sigs = self.sigs@;
        let ghost parts = self.participants@;
        let mut reveal_map: HashMap<u64, Reveal> = HashMap::new();
        let mut info: Vec<(usize, u64)> = Vec::new();
        let mut i: u64 = 0;
        #[verifier::loop_isolation(false)]
        while i < num
            invariant
                i <= num,
                i >= 1 ==> info@.len() >= 1,
                strict_inc(firsts(info@)),
                forall|p64: u64|
                    #[trigger] reveal_map@.contains_key(p64) ==> exists|k: int|
                        0 <= k < info@.len() && (#[trigger] info@[k]).0 as u64 == p64,
                forall|ci: u64|
                    ci < i ==> #[trigger] some_entry_covers(
                        sigs,
                        parts,
                        info@,
                        coin_spec(
                            ci,
                            self.signed_weight,
                            self.params.proven_weight,
                            sig_commit@,
                            self.party_tree_root@,
                            self.params.msg@,
                        ),
                    ),
                forall|k: int|
                    0 <= k < info@.len() ==> {
                        let (p, ci) = #[trigger] info@[k];
                        &&& covers(
                            sigs,
                            parts,
                            p as int,
                            coin_spec(
                                ci,
                                self.signed_weight,
                                self.params.proven_weight,
                                sig_commit@,
                                self.party_tree_root@,
                                self.params.msg@,
                            ),
                        )
                        &&& reveal_map@.contains_key(p as u64)
                        &&& reveal_matches(sigs, parts, reveal_map@[p as u64], p as int)
                    },
            decreases num - i,
        {
            let coin = self.coin_choice(i, &sig_commit);
            let pos64 = match self.find_coin_position(coin) {
                Ok(p) => p,
                Err(_) => {
                    proof {
                        assert(false);
                    }
                    return (reveal_map, info);
                },
            };
            proof {
                assert((pos64 as int) < self.sigs@.len());
            }
            let nslots = self.sigs.len();
            let pos = pos64 as usize;
            proof {
                assert(pos as int == pos64 as int);
            }
            if !reveal_map.contains_key(&pos64) {
                let rv = Reveal {
                    sig_slot: SigSlot {
                        signature: match &self.sigs[pos].signature {
                            Some(s) => Some(SerializableSignature(bytes_clone(&s.0))),
                            None => None,
                        },
                        accumulated_weight: self.sigs[pos].accumulated_weight,
                    },
                    party: Participant {
                        public_key: bytes_clone(&self.participants[pos].public_key),
                        weight: self.participants[pos].weight,
                    },
                };
                proof {
                    assert(reveal_matches(sigs, parts, rv, pos as int));
                }
                let ghost old_map = reveal_map@;
                let ghost old_info = info@;
                reveal_map.insert(pos64, rv);
                proof {
                    assert forall|k: int|
                        0 <= k < old_info.len() implies (#[trigger] old_info[k]).0 != pos by {
                        if old_info[k].0 == pos {
                            assert(old_map.contains_key(old_info[k].0 as u64));
                        }
                    }
                }
                insert_sorted(&mut info, pos, i);
                proof {
                    assert forall|k: int|
                        0 <= k < info@.len() implies {
                        let (p, ci) = #[trigger] info@[k];
                        &&& covers(
                            sigs,
                            parts,
                            p as int,
                            coin_spec(
                                ci,
                                self.signed_weight,
                                self.params.proven_weight,
                                sig_commit@,
                                self.party_tree_root@,
                                self.params.msg@,
                            ),
                        )
                        &&& reveal_map@.contains_key(p as u64)
                        &&& reveal_matches(sigs, parts, reveal_map@[p as u64], p as int)
                    } by {
                        let (p, ci) = info@[k];
                        if info@[k] == (pos, i) {
                            assert(reveal_map@[pos as u64] == rv);
                        } else {
                            assert(old_info.contains(info@[k]));
                            let k0 = choose|k0: int|
                                0 <= k0 < old_info.len() && old_info[k0] == info@[k];
                            assert((#[trigger] old_info[k0]).0 == p);
                            assert(p as u64 != pos64);
                        }
                    }
                    assert forall|p64: u64|
                        #[trigger] reveal_map@.contains_key(p64) implies exists|k: int|
                        0 <= k < info@.len() && (#[trigger] info@[k]).0 as u64 == p64 by {
                        if p64 == pos64 {
                            let k = choose|k: int|
                                0 <= k < info@.len() && (#[trigger] info@[k]) == (pos, i);
                            assert((#[trigger] info@[k]).0 as u64 == p64);
                        } else {
                            assert(old_map.contains_key(p64));
                            let k0 = choose|k0: int|
                                0 <= k0 < old_info.len() && (#[trigger] old_info[k0]).0 as u64
                                    == p64;
                            assert(info@.contains(old_info[k0]));
                            let k = choose|k: int|
                                0 <= k < info@.len() && info@[k] == old_info[k0];
                            assert((#[trigger] info@[k]).0 as u64 == p64);
                        }
                    }
                    assert forall|ci: u64|
                        ci < i + 1 implies #[trigger] some_entry_covers(
                        sigs,
                        parts,
                        info@,
                        coin_spec(
                            ci,
                            self.signed_weight,
                            self.params.proven_weight,
                            sig_commit@,
                            self.party_tree_root@,
                            self.params.msg@,
                        ),
                    ) by {
                        let coin = coin_spec(
                            ci,
                            self.signed_weight,
                            self.params.proven_weight,
                            sig_commit@,
                            self.party_tree_root@,
                            self.params.msg@,
                        );
                        if ci == i {
                            let k = choose|k: int|
                                0 <= k < info@.len() && (#[trigger] info@[k]) == (pos, i);
                            assert(covers(sigs, parts, (#[trigger] info@[k]).0 as int, coin));
                        } else {
                            assert(some_entry_covers(sigs, parts, old_info, coin));
                            let k0 = choose|k0: int|
                                0 <= k0 < old_info.len() && covers(
                                    sigs,
                                    parts,
                                    (#[trigger] old_info[k0]).0 as int,
                                    coin,
                                );
                            assert(info@.contains(old_info[k0]));
                            let k = choose|k: int|
                                0 <= k < info@.len() && info@[k] == old_info[k0];
                            assert(covers(sigs, parts, (#[trigger] info@[k]).0 as int, coin));
                        }
                    }
                }
            } else {
                proof {
                    assert forall|ci: u64|
                        ci < i + 1 implies #[trigger] some_entry_covers(
                        sigs,
                        parts,
                        info@,
                        coin_spec(
                            ci,
                            self.signed_weight,
                            self.params.proven_weight,
                            sig_commit@,
                            self.party_tree_root@,
                            self.params.msg@,
                        ),
                    ) by {
                        let coin = coin_spec(
                            ci,
                            self.signed_weight,
                            self.params.proven_weight,
                            sig_commit@,
                            self.party_tree_root@,
                            self.params.msg@,
                        );
                        if ci == i {
                            let k = choose|k: int|
                                0 <= k < info@.len() && (#[trigger] info@[k]).0 as u64 == pos64;
                            assert(info@[k].0 == pos);
                            assert(covers(sigs, parts, (#[trigger] info@[k]).0 as int, coin));
                        }
                    }
                }
            }
            i = i + 1;
        }
        (reveal_map, info)
    }

    /// Build the certificate: refuse while the collected stake is short
    /// of the proven weight; otherwise commit, draw the coins, resolve
    /// and record the reveals, and prove them in both trees.
    #[verifier::rlimit(100)]
    pub fn build(&self) -> (r: Result<Certificate, CcokError>)
        requires
            self.wf(),
            self.params.proven_weight > 0 || self.signed_weight > 0,
        ensures
            match r {
                Ok(cert) => self.signed_weight >= self.params.proven_weight && built_rel(
                    *self,
                    cert,
                ),
                Err(e) => e == CcokError::InsufficientWeight && self.signed_weight
                    < self.params.proven_weight,
            },
    {
        if self.signed_weight < self.params.proven_weight {
            return Err(CcokError::InsufficientWeight);
        }
        let ghost sigs = self.sigs@;
        let ghost parts = self.participants@;
        let slot_encs = encode_all_slots(&self.sigs);
        let mut sig_tree = MerkleTreeBuilder::new();
        sig_tree.build(&slot_encs);
        let sig_commit = sig_tree.root();
        let part_encs = encode_participants(&self.participants);
        let mut party_tree = MerkleTreeBuilder::new();
        party_tree.build(&part_encs);
        let num = num_reveals_count(
            self.params.security_param,
            self.params.proven_weight,
            self.signed_weight,
        );
        let ghost slot_layer = hash_leaves(slots_enc(sigs));
        let ghost party_layer = hash_leaves(parts_enc(parts));
        proof {
            assert(sig_tree.leaf_layer() == slot_layer);
            assert(party_tree.leaf_layer() == party_layer);
        }
        let (reveal_map, info) = self.select_reveals(&sig_commit, num);
        let mut positions: Vec<usize> = Vec::new();
        let mut indices: Vec<u64> = Vec::new();
        let mut k: usize = 0;
        #[verifier::loop_isolation(false)]
        while k < info.len()
            invariant
                k <= info@.len(),
                positions@ == firsts(info@).take(k as int),
                indices@ == seconds(info@).take(k as int),
            decreases info@.len() - k,
        {
            let (p, ci) = info[k];
            positions.push(p);
            indices.push(ci);
            proof {
                assert(positions@ =~= firsts(info@).take(k + 1));
                assert(indices@ =~= seconds(info@).take(k + 1));
            }
            k = k + 1;
        }
        proof {
            assert(positions@ =~= firsts(info@));
            assert(indices@ =~= seconds(info@));
            assert(positions@.len() >= 1);
            assert forall|j: int| 0 <= j < positions@.len() implies (#[trigger] positions@[j])
                < sigs.len() by {
                let (p, ci) = info@[j];
                assert(covers(
                    sigs,
                    parts,
                    p as int,
                    coin_spec(
                        ci,
                        self.signed_weight,
                        self.params.proven_weight,
                        sig_commit@,
                        self.party_tree_root@,
                        self.params.msg@,
                    ),
                ));
            }
            assert(sig_tree.leaf_layer().len() == sigs.len());
            assert(party_tree.leaf_layer().len() == parts.len());
        }
        let sig_proofs = sig_tree.prove(&positions);
        let party_proofs = party_tree.prove(&positions);
        let cert = Certificate {
            sig_commit,
            signed_weight: self.signed_weight,
            total_sigs: self.sigs.len(),
            reveals: reveal_map,
            sig_proofs,
            party_proofs,
            reveal_positions: positions,
            reveal_indices: indices,
        };
        proof {
            assert forall|j: int|
                0 <= j < cert.reveal_positions@.len() implies covers(
                sigs,
                parts,
                (#[trigger] cert.reveal_positions@[j]) as int,
                coin_spec(
                    cert.reveal_indices@[j],
                    self.signed_weight,
                    self.params.proven_weight,
                    cert.sig_commit@,
                    self.party_tree_root@,
                    self.params.msg@,
                ),
            ) by {
                let (p, ci) = info@[j];
                assert(cert.reveal_positions@[j] == p);
                assert(cert.reveal_indices@[j] == ci);
            }
            assert forall|j: int|
                0 <= j < cert.reveal_positions@.len() implies cert.reveals@.contains_key(
                (#[trigger] cert.reveal_positions@[j]) as u64,
            ) && reveal_matches(
                sigs,
                parts,
                cert.reveals@[cert.reveal_positions@[j] as u64],
                cert.reveal_positions@[j] as int,
            ) by {
                let (p, ci) = info@[j];
                assert(cert.reveal_positions@[j] == p);
            }
            assert forall|p64: u64|
                #[trigger] cert.reveals@.contains_key(p64) implies exists|k: int|
                0 <= k < cert.reveal_positions@.len() && (#[trigger] cert.reveal_positions@[k])
                    as u64 == p64 by {
                let k0 = choose|k0: int|
                    0 <= k0 < info@.len() && (#[trigger] info@[k0]).0 as u64 == p64;
                assert((#[trigger] cert.reveal_positions@[k0]) as u64 == p64);
            }
            assert forall|ci: u64|
                ci < num_reveals_spec(
                    self.params.security_param,
                    self.params.proven_weight,
                    self.signed_weight,
                ) implies #[trigger] some_position_covers(
                sigs,
                parts,
                cert.reveal_positions@,
                coin_spec(
                    ci,
                    self.signed_weight,
                    self.params.proven_weight,
                    cert.sig_commit@,
                    self.party_tree_root@,
                    self.params.msg@,
                ),
            ) by {
                let coin = coin_spec(
                    ci,
                    self.signed_weight,
                    self.params.proven_weight,
                    cert.sig_commit@,
                    self.party_tree_root@,
                    self.params.msg@,
                );
                assert(ci < num);
                assert(some_entry_covers(sigs, parts, info@, coin));
                let k0 = choose|k0: int|
                    0 <= k0 < info@.len() && covers(
                        sigs,
                        parts,
                        (#[trigger] info@[k0]).0 as int,
                        coin,
                    );
                assert(covers(sigs, parts, (#[trigger] cert.reveal_positions@[k0]) as int, coin));
            }
        }
        Ok(cert)
    }
}


/// The re-derived coin for reveal `k` of a certificate.
pub open spec fn cert_coin(cert: Certificate, params: Params, party_root: Seq<u8>, k: int) -> int {
    coin_spec(
        cert.reveal_indices@[k],
        cert.signed_weight,
        params.proven_weight,
        cert.sig_commit@,
        party_root,
        cert_msg(params),
    )
}

/// The message of the parameters.
pub open spec fn cert_msg(params: Params) -> Seq<u8> {
    params.msg@
}

/// Reveal `k` of the certificate holds a signature that verifies under
/// its participant's key.
pub open spec fn cert_reveal_ok(cert: Certificate, params: Params, k: int) -> bool {
    let pos = cert.reveal_positions@[k];
    &&& cert.reveals@.contains_key(pos as u64)
    &&& slot_signed(cert.reveals@[pos as u64].sig_slot)
    &&& valid_hex(cert.reveals@[pos as u64].party.public_key@)
    &&& hex_parse(cert.reveals@[pos as u64].party.public_key@).len() == DILITHIUM_PK_LEN
    &&& dilithium_ok(
        hex_parse(cert.reveals@[pos as u64].party.public_key@),
        cert_msg(params),
        slot_sig_bytes(cert.reveals@[pos as u64].sig_slot),
    )
}

/// The re-derived coin for reveal `k` falls inside the revealed slot's
/// accumulated-stake range.
pub open spec fn cert_coin_ok(cert: Certificate, params: Params, party_root: Seq<u8>, k: int) -> bool {
    let pos = cert.reveal_positions@[k];
    let rv = cert.reveals@[pos as u64];
    rv.sig_slot.accumulated_weight as int <= cert_coin(cert, params, party_root, k)
        < rv.sig_slot.accumulated_weight + rv.party.weight
}

/// The leaf hashes of the revealed signature slots, in position order.
pub open spec fn reveal_slot_hashes(cert: Certificate) -> Seq<Seq<u8>> {
    Seq::new(
        cert.reveal_positions@.len(),
        |k: int| sha3_of(sigslot_enc(cert.reveals@[cert.reveal_positions@[k] as u64].sig_slot)),
    )
}

/// The leaf hashes of the revealed participants, in position order.
pub open spec fn reveal_party_hashes(cert: Certificate) -> Seq<Seq<u8>> {
    Seq::new(
        cert.reveal_positions@.len(),
        |k: int|
            sha3_of(
                participant_enc(
                    cert.reveals@[cert.reveal_positions@[k] as u64].party.public_key@,
                    cert.reveals@[cert.reveal_positions@[k] as u64].party.weight,
                ),
            ),
    )
}

/// Everything a valid certificate must satisfy against the parameters
/// and the party tree root.
pub open spec fn cert_verify_spec(cert: Certificate, params: Params, party_root: Seq<u8>) -> bool {
    &&& cert.signed_weight >= params.proven_weight
    &&& cert.signed_weight > 0
    &&& cert.reveal_positions@.len() == cert.reveal_indices@.len()
    &&& forall|k: int|
        0 <= k < cert.reveal_positions@.len() ==> #[trigger] cert_reveal_ok(cert, params, k)
    &&& forall|k: int|
        0 <= k < cert.reveal_positions@.len() ==> #[trigger] cert_coin_ok(
            cert,
            params,
            party_root,
            k,
        )
    &&& verify_ok_spec(
        cert.sig_commit@,
        bytes_view(cert.sig_proofs@),
        cert.reveal_positions@,
        cert.total_sigs as nat,
        reveal_slot_hashes(cert),
    )
    &&& verify_ok_spec(
        party_root,
        bytes_view(cert.party_proofs@),
        cert.reveal_positions@,
        cert.total_sigs as nat,
        reveal_party_hashes(cert),
    )
}

/// The coin for transcript index `i`, as both builder and verifier
/// compute it.
pub fn coin_value(
    index: u64,
    signed_weight: u64,
    proven_weight: u64,
    sig_commit: &Vec<u8>,
    party_tree_root: &Vec<u8>,
    msg: &Vec<u8>,
) -> (r: u64)
    requires
        signed_weight > 0,
    ensures
        r as int == coin_spec(
            index,
            signed_weight,
            proven_weight,
            sig_commit@,
            party_tree_root@,
            msg@,
        ),
{
    let mut buf: Vec<u8> = Vec::new();
    let idx_le = u64_to_le(index);
    vec_extend(&mut buf, &idx_le);
    let sw_le = u64_to_le(signed_weight);
    vec_extend(&mut buf, &sw_le);
    let pw_le = u64_to_le(proven_weight);
    vec_extend(&mut buf, &pw_le);
    vec_extend(&mut buf, sig_commit);
    vec_extend(&mut buf, party_tree_root);
    vec_extend(&mut buf, msg);
    proof {
        assert(buf@ =~= coin_transcript(
            index,
            signed_weight,
            proven_weight,
            sig_commit@,
            party_tree_root@,
            msg@,
        ));
    }
    let digest = keccak_256(&buf);
    let v = le_to_u64(&digest);
    v % signed_weight
}

impl Certificate {
    /// Check the certificate against the parameters and party tree root:
    /// the weight threshold, every revealed signature, both Merkle
    /// multi-proofs, and the re-derived coin of every reveal.
    #[verifier::rlimit(100)]
    pub fn verify(&self, params: &Params, party_tree_root: &Vec<u8>) -> (r: bool)
        ensures
            r == cert_verify_spec(*self, *params, party_tree_root@),
    {
        broadcast use vstd::std_specs::hash::group_hash_axioms;

        if self.signed_weight < params.proven_weight || self.signed_weight == 0 {
            return false;
        }
        if self.reveal_positions.len() != self.reveal_indices.len() {
            return false;
        }
        let mut slot_hashes: Vec<Vec<u8>> = Vec::new();
        let mut party_hashes: Vec<Vec<u8>> = Vec::new();
        let mut k: usize = 0;
        #[verifier::loop_isolation(false)]
        while k < self.reveal_positions.len()
            invariant
                k <= self.reveal_positions@.len(),
                slot_hashes@.len() == k,
                party_hashes@.len() == k,
                forall|j: int| 0 <= j < k ==> #[trigger] cert_reveal_ok(*self, *params, j),
                forall|j: int|
                    0 <= j < k ==> #[trigger] cert_coin_ok(*self, *params, party_tree_root@, j),
                forall|j: int|
                    0 <= j < k ==> (#[trigger] slot_hashes@[j])@ == reveal_slot_hashes(*self)[j],
                forall|j: int|
                    0 <= j < k ==> (#[trigger] party_hashes@[j])@ == reveal_party_hashes(*self)[j],
            decreases self.reveal_positions@.len() - k,
        {
            let pos = self.reveal_positions[k];
            let rv = match self.reveals.get(&(pos as u64)) {
                Some(rv) => rv,
                None => {
                    proof {
                        assert(!cert_reveal_ok(*self, *params, k as int));
                    }
                    return false;
                },
            };
            match &rv.sig_slot.signature {
                Some(_) => {},
                None => {
                    proof {
                        assert(!cert_reveal_ok(*self, *params, k as int));
                    }
                    return false;
                },
            }
            let pk = match hex_decode(&rv.party.public_key) {
                Some(pk) => pk,
                None => {
                    proof {
                        assert(!cert_reveal_ok(*self, *params, k as int));
                    }
                    return false;
                },
            };
            if pk.len() != DILITHIUM_PK_LEN {
                proof {
                    assert(!cert_reveal_ok(*self, *params, k as int));
                }
                return false;
            }
            let sig_bytes = match &rv.sig_slot.signature {
                Some(s) => &s.0,
                None => {
                    proof {
                        assert(false);
                    }
                    return false;
                },
            };
            if !dilithium_verify(&pk, &params.msg, sig_bytes) {
                proof {
                    assert(!cert_reveal_ok(*self, *params, k as int));
                }
                return false;
            }
            let coin = coin_value(
                self.reveal_indices[k],
                self.signed_weight,
                params.proven_weight,
                &self.sig_commit,
                party_tree_root,
                &params.msg,
            );
            let acc = rv.sig_slot.accumulated_weight;
            let w = rv.party.weight;
            if !((coin as u128) >= (acc as u128) && (coin as u128) < (acc as u128) + (w as u128)) {
                proof {
                    assert(!cert_coin_ok(*self, *params, party_tree_root@, k as int));
                }
                return false;
            }
            proof {
                assert(cert_reveal_ok(*self, *params, k as int));
                assert(cert_coin_ok(*self, *params, party_tree_root@, k as int));
            }
            let slot_enc = encode_sigslot(&rv.sig_slot);
            slot_hashes.push(crate::crypto::sha3_256(&slot_enc));
            let party_enc = encode_participant(&rv.party);
            party_hashes.push(crate::crypto::sha3_256(&party_enc));
            k = k + 1;
        }
        let ok_sig = MerkleTreeBuilder::verify(
            &self.sig_commit,
            &self.sig_proofs,
            &self.reveal_positions,
            self.total_sigs,
            &slot_hashes,
        );
        proof {
            assert(bytes_view(slot_hashes@) =~= reveal_slot_hashes(*self));
            assert(bytes_view(party_hashes@) =~= reveal_party_hashes(*self));
        }
        if !ok_sig {
            return false;
        }
        let ok_party = MerkleTreeBuilder::verify(
            party_tree_root,
            &self.party_proofs,
            &self.reveal_positions,
            self.total_sigs,
            &party_hashes,
        );
        ok_party
    }

    /// Total bytes of the signature proofs and of the participant proofs.
    pub fn proof_size(&self) -> (r: (usize, usize))
        ensures
            r.0 as int == sat_len_sum(bytes_view(self.sig_proofs@)),
            r.1 as int == sat_len_sum(bytes_view(self.party_proofs@)),
    {
        let a = sum_lengths(&self.sig_proofs);
        let b = sum_lengths(&self.party_proofs);
        (a, b)
    }
}

/// Sum of byte-string lengths, saturating at `usize::MAX`.
pub open spec fn sat_len_sum(s: Seq<Seq<u8>>) -> int
    decreases s.len(),
{
    if s.len() == 0 {
        0
    } else {
        let rest = sat_len_sum(s.drop_last());
        if rest + s.last().len() > usize::MAX {
            usize::MAX as int
        } else {
            rest + s.last().len()
        }
    }
}

/// Add the lengths of all byte strings, saturating at `usize::MAX`.
fn sum_lengths(v: &Vec<Vec<u8>>) -> (r: usize)
    ensures
        r as int == sat_len_sum(bytes_view(v@)),
{
    let mut acc: usize = 0;
    let mut i: usize = 0;
    while i < v.len()
        invariant
            i <= v@.len(),
            acc as int == sat_len_sum(bytes_view(v@).take(i as int)),
        decreases v@.len() - i,
    {
        let l = v[i].len();
        proof {
            assert(bytes_view(v@).take(i + 1).drop_last() =~= bytes_view(v@).take(i as int));
            assert(bytes_view(v@).take(i + 1).last() == v@[i as int]@);
        }
        if l > usize::MAX - acc {
            acc = usize::MAX;
        } else {
            acc = acc + l;
        }
        i = i + 1;
    }
    proof {
        assert(bytes_view(v@).take(v@.len() as int) =~= bytes_view(v@));
    }
    acc
}


/// Total stake of all participants.
pub open spec fn total_weight(parts: Seq<Participant>) -> int
    decreases parts.len(),
{
    if parts.len() == 0 {
        0
    } else {
        total_weight(parts.drop_last()) + parts.last().weight
    }
}

/// The signed stake never exceeds the total stake.
proof fn lemma_signed_le_total(sigs: Seq<SigSlot>, parts: Seq<Participant>, p: int)
    requires
        0 <= p <= sigs.len(),
        sigs.len() == parts.len(),
    ensures
        signed_cum(sigs, parts, p) <= total_weight(parts.take(p)),
    decreases p,
{
    if p > 0 {
        lemma_signed_le_total(sigs, parts, p - 1);
        assert(parts.take(p).drop_last() =~= parts.take(p - 1));
        assert(parts.take(p).last() == parts[p - 1]);
    }
}

/// A builder asked to prove more weight than the whole snapshot carries
/// can never reach the threshold, so `build` always refuses.
pub proof fn lemma_overweight_never_builds(b: Builder)
    requires
        b.wf(),
        b.params.proven_weight > total_weight(b.participants@),
    ensures
        b.signed_weight < b.params.proven_weight,
{
    lemma_signed_le_total(b.sigs@, b.participants@, b.sigs@.len() as int);
    assert(b.participants@.take(b.participants@.len() as int) =~= b.participants@);
}

/// CCoK soundness: a certificate built from a well-formed builder whose
/// stored signatures all verify, and whose accumulated weights agree with
/// the signed running sums, passes verification against the same
/// parameters and the party tree root the builder committed to.
pub proof fn lemma_certificate_soundness(b: Builder, cert: Certificate)
    requires
        b.wf(),
        b.signed_weight >= b.params.proven_weight,
        b.signed_weight > 0,
        built_rel(b, cert),
        b.party_tree_root@ == root_spec(hash_leaves(parts_enc(b.participants@))),
        forall|p: int|
            0 <= p < b.sigs@.len() && slot_signed(#[trigger] b.sigs@[p]) ==> valid_hex(
                b.participants@[p].public_key@,
            ) && hex_parse(b.participants@[p].public_key@).len() == DILITHIUM_PK_LEN
                && dilithium_ok(
                hex_parse(b.participants@[p].public_key@),
                b.params.msg@,
                slot_sig_bytes(b.sigs@[p]),
            ),
        forall|p: int|
            0 <= p < b.sigs@.len() && slot_signed(#[trigger] b.sigs@[p])
                ==> b.sigs@[p].accumulated_weight as int == signed_cum(
                b.sigs@,
                b.participants@,
                p,
            ),
    ensures
        cert_verify_spec(cert, b.params, b.party_tree_root@),
{
    let positions = cert.reveal_positions@;
    let slot_layer = hash_leaves(slots_enc(b.sigs@));
    let party_layer = hash_leaves(parts_enc(b.participants@));
    assert forall|k: int| 0 <= k < positions.len() implies #[trigger] cert_reveal_ok(
        cert,
        b.params,
        k,
    ) by {
        let p = positions[k] as int;
        let rv = cert.reveals@[positions[k] as u64];
        assert(covers(
            b.sigs@,
            b.participants@,
            p,
            coin_spec(
                cert.reveal_indices@[k],
                b.signed_weight,
                b.params.proven_weight,
                cert.sig_commit@,
                b.party_tree_root@,
                b.params.msg@,
            ),
        ));
        assert(reveal_matches(b.sigs@, b.participants@, rv, p));
        assert(slot_signed(b.sigs@[p]));
    }
    assert forall|k: int| 0 <= k < positions.len() implies #[trigger] cert_coin_ok(
        cert,
        b.params,
        b.party_tree_root@,
        k,
    ) by {
        let p = positions[k] as int;
        let rv = cert.reveals@[positions[k] as u64];
        let coin = cert_coin(cert, b.params, b.party_tree_root@, k);
        assert(covers(b.sigs@, b.participants@, p, coin));
        assert(reveal_matches(b.sigs@, b.participants@, rv, p));
        assert(b.sigs@[p].accumulated_weight as int == signed_cum(b.sigs@, b.participants@, p));
    }
    crate::merkle::lemma_proof_complete(positions, slot_layer);
    crate::merkle::lemma_proof_complete(positions, party_layer);
    assert(reveal_slot_hashes(cert) =~= Seq::new(
        positions.len(),
        |k: int| slot_layer[positions[k] as int],
    )) by {
        assert forall|k: int|
            0 <= k < positions.len() implies reveal_slot_hashes(cert)[k] == slot_layer[
        positions[k] as int] by {
            let p = positions[k] as int;
            let rv = cert.reveals@[positions[k] as u64];
            assert(reveal_matches(b.sigs@, b.participants@, rv, p));
            assert(sigslot_enc(rv.sig_slot) =~= sigslot_enc(b.sigs@[p]));
            assert(slot_layer[p] == sha3_of(slots_enc(b.sigs@)[p]));
        }
    }
    assert(reveal_party_hashes(cert) =~= Seq::new(
        positions.len(),
        |k: int| party_layer[positions[k] as int],
    )) by {
        assert forall|k: int|
            0 <= k < positions.len() implies reveal_party_hashes(cert)[k] == party_layer[
        positions[k] as int] by {
            let p = positions[k] as int;
            let rv = cert.reveals@[positions[k] as u64];
            assert(reveal_matches(b.sigs@, b.participants@, rv, p));
            assert(participant_enc(rv.party.public_key@, rv.party.weight) =~= participant_enc(
                b.participants@[p].public_key@,
                b.participants@[p].weight,
            ));
            assert(party_layer[p] == sha3_of(parts_enc(b.participants@)[p]));
        }
    }
    assert(verify_ok_spec(
        cert.sig_commit@,
        bytes_view(cert.sig_proofs@),
        positions,
        cert.total_sigs as nat,
        reveal_slot_hashes(cert),
    ));
    assert(verify_ok_spec(
        b.party_tree_root@,
        bytes_view(cert.party_proofs@),
        positions,
        cert.total_sigs as nat,
        reveal_party_hashes(cert),
    ));
}

/// Cumulative stake of the reveals before position index `k`.
pub open spec fn reveal_cum(cert: Certificate, k: int) -> int
    decreases k,
{
    if k <= 0 {
        0
    } else {
        reveal_cum(cert, k - 1)
            + cert.reveals@[cert.reveal_positions@[k - 1] as u64].party.weight
    }
}

impl Certificate {
    /// Resolve a coin against the revealed slots only: walk the reveals
    /// in position order and return the first whose cumulative revealed
    /// stake range spans the coin. The slot list parameter is unused and
    /// kept for call-shape compatibility.
    pub fn find_coin_position(&self, coin_value: u64, _sig_slots: &Vec<SigSlot>) -> (r: Result<
        u64,
        CcokError,
    >)
        requires
            forall|k: int|
                0 <= k < self.reveal_positions@.len() ==> self.reveals@.contains_key(
                    (#[trigger] self.reveal_positions@[k]) as u64,
                ),
        ensures
            match r {
                Ok(p) => exists|k: int|
                    0 <= k < self.reveal_positions@.len() && ((#[trigger] self.reveal_positions@[k])
                        as u64 == p) && (reveal_cum(*self, k) <= coin_value as int) && ((
                    coin_value as int) < reveal_cum(*self, k) + self.reveals@[self.reveal_positions@[k] as u64].party.weight),
                Err(e) => e == CcokError::InsufficientWeight && coin_value as int >= reveal_cum(
                    *self,
                    self.reveal_positions@.len() as int,
                ),
            },
    {
        broadcast use vstd::std_specs::hash::group_hash_axioms;

        let mut acc: u64 = 0;
        let mut k: usize = 0;
        #[verifier::loop_isolation(false)]
        while k < self.reveal_positions.len()
            invariant
                k <= self.reveal_positions@.len(),
                acc as int == reveal_cum(*self, k as int),
                coin_value as int >= reveal_cum(*self, k as int),
            decreases self.reveal_positions@.len() - k,
        {
            let pos = self.reveal_positions[k];
            let rv = match self.reveals.get(&(pos as u64)) {
                Some(rv) => rv,
                None => {
                    proof {
                        assert(false);
                    }
                    return Err(CcokError::InsufficientWeight);
                },
            };
            let w = rv.party.weight;
            if (coin_value as u128) < (acc as u128) + (w as u128) {
                proof {
                    assert((#[trigger] self.reveal_positions@[k as int]) as u64 == pos as u64);
                }
                return Ok(pos as u64);
            }
            acc = if w > u64::MAX - acc {
                proof {
                    assert(false);
                }
                u64::MAX
            } else {
                acc + w
            };
            k = k + 1;
        }
        Err(CcokError::InsufficientWeight)
    }
}

} // verus!
