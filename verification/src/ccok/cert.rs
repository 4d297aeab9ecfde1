//! Compact-certificate wire structures with canonical byte encodings.
//!
//! These are the plain data forms of the certificate: participants as raw
//! key bytes, signature slots as raw signature bytes with their running
//! weight, and a certificate frame that serialises deterministically with
//! length-prefixed fields. `num_reveals` computes how many reveals a
//! security parameter demands, with saturating 128-bit arithmetic.

use vstd::prelude::*;

use crate::bytesutil::bytes_clone;
use crate::bytesutil::le_value;
use crate::bytesutil::u64_le_spec;
use crate::bytesutil::u64_to_le;
use crate::bytesutil::vec_extend;

verus! {

/// Reveal-count bound from the reference parameters.
pub const MAX_REVEALS: u64 = 1024;

/// Saturation cap of the reveal-count arithmetic.
pub open spec fn sat_cap() -> int {
    u128::MAX as int
}

/// Multiply, saturating at the cap.
pub open spec fn sat_mul(a: int, b: int) -> int {
    if a * b > sat_cap() {
        sat_cap()
    } else {
        a * b
    }
}

/// The reveal-count loop: multiply `lhs` by the signed weight and `rhs`
/// by the proven weight until `lhs` catches up, both saturating; `None`
/// when the bound is hit first.
pub open spec fn nr_loop(lhs: int, rhs: int, n: int, sw: int, pw: int, bound: int) -> Option<int>
    decreases bound - n,
{
    if lhs >= rhs {
        Some(n)
    } else if n >= bound {
        None
    } else {
        nr_loop(sat_mul(lhs, sw), sat_mul(rhs, pw), n + 1, sw, pw, bound)
    }
}

/// 2 raised to `k`, saturating at the cap.
pub open spec fn sat_pow2(k: int) -> int
    decreases k,
{
    if k <= 0 {
        1
    } else {
        sat_mul(sat_pow2(k - 1), 2)
    }
}

/// What `num_reveals` returns for the given inputs.
pub open spec fn num_reveals_spec(sw: u64, pw: u64, sec_kq: u64, bound: u64) -> Option<int> {
    if sw < pw {
        None
    } else {
        nr_loop(1, sat_pow2(sec_kq as int), 0, sw as int, pw as int, bound as int)
    }
}

/// Why the reveal count could not be computed.
#[derive(Clone, Copy, PartialEq, Eq, Structural, Debug)]
pub enum CertError {
    /// The signed weight is below the proven weight.
    WeightShort,
    /// The reveal bound was reached before the target was met.
    BoundExceeded,
}

/// Parameters of the plain certificate form.
pub struct Params {
    pub msg: Vec<u8>,
    pub proven_weight: u64,
    pub sec_kq: u64,
}

/// A participant: raw public key bytes and stake weight.
pub struct Participant {
    pub pk: Vec<u8>,
    pub weight: u64,
}

impl Participant {
    /// Key bytes followed by the weight in little-endian.
    pub fn to_bytes(&self) -> (r: Vec<u8>)
        ensures
            r@ == self.pk@ + u64_le_spec(self.weight),
    {
        let mut bytes = bytes_clone(&self.pk);
        let w = u64_to_le(self.weight);
        vec_extend(&mut bytes, &w);
        bytes
    }
}

/// An ordered participant list.
pub struct Participants(pub Vec<Participant>);

impl Participants {
    pub fn new(participants: Vec<Participant>) -> (r: Participants)
        ensures
            r.0@ == participants@,
    {
        Participants(participants)
    }

    /// The encoding of each participant, in order.
    pub fn to_bytes(&self) -> (r: Vec<Vec<u8>>)
        ensures
            r@.len() == self.0@.len(),
            forall|i: int|
                0 <= i < r@.len() ==> (#[trigger] r@[i])@ == self.0@[i].pk@ + u64_le_spec(
                    self.0@[i].weight,
                ),
    {
        let mut r: Vec<Vec<u8>> = Vec::new();
        let mut i: usize = 0;
        while i < self.0.len()
            invariant
                i <= self.0@.len(),
                r@.len() == i,
                forall|k: int|
                    0 <= k < i ==> (#[trigger] r@[k])@ == self.0@[k].pk@ + u64_le_spec(
                        self.0@[k].weight,
                    ),
            decreases self.0@.len() - i,
        {
            r.push(self.0[i].to_bytes());
            i = i + 1;
        }
        r
    }
}

/// A signature slot: raw signature bytes and the running weight `l`.
pub struct SigSlot {
    pub sig: Vec<u8>,
    pub l: u64,
}

impl SigSlot {
    /// Signature bytes followed by `l` in little-endian.
    pub fn to_bytes(&self) -> (r: Vec<u8>)
        ensures
            r@ == self.sig@ + u64_le_spec(self.l),
    {
        let mut bytes = bytes_clone(&self.sig);
        let w = u64_to_le(self.l);
        vec_extend(&mut bytes, &w);
        bytes
    }
}

/// One revealed participant with its signature slot.
pub struct Reveal {
    pub party: Participant,
    pub sig_slot: SigSlot,
}

impl Reveal {
    /// Bytes of the two encodings together, saturating at `u64::MAX`.
    pub fn size(&self) -> (r: u64)
        ensures
            r as int == sat64(self.party.pk@.len() + self.sig_slot.sig@.len() + 16int),
    {
        let a = sat_add_u64(self.party.pk.len() as u64, 8);
        let b = sat_add_u64(self.sig_slot.sig.len() as u64, 8);
        sat_add_u64(a, b)
    }
}

/// Clip at `u64::MAX`.
pub open spec fn sat64(x: int) -> int {
    if x > u64::MAX {
        u64::MAX as int
    } else {
        x
    }
}

/// Add two lengths, saturating at `u64::MAX`.
pub fn sat_add_u64(a: u64, b: u64) -> (r: u64)
    ensures
        r as int == sat64(a + b),
{
    if b > u64::MAX - a {
        u64::MAX
    } else {
        a + b
    }
}

/// The plain certificate frame.
pub struct Cert {
    pub sig_commit: Vec<u8>,
    pub signed_weight: u64,
    pub sig_proofs: Vec<Vec<u8>>,
    pub party_proofs: Vec<Vec<u8>>,
    pub reveals: Vec<(u64, Reveal)>,
}

/// Saturating total of the lengths of a list of byte strings.
pub open spec fn sat_lens(s: Seq<Vec<u8>>) -> int
    decreases s.len(),
{
    if s.len() == 0 {
        0
    } else {
        sat64(sat_lens(s.drop_last()) + s.last()@.len())
    }
}

/// Saturating total of the reveal sizes.
pub open spec fn sat_reveal_sizes(s: Seq<(u64, Reveal)>) -> int
    decreases s.len(),
{
    if s.len() == 0 {
        0
    } else {
        sat64(
            sat_reveal_sizes(s.drop_last()) + sat64(
                s.last().1.party.pk@.len() + s.last().1.sig_slot.sig@.len() + 16int,
            ),
        )
    }
}

/// Length-prefixed byte string.
pub open spec fn enc_bytes(b: Seq<u8>) -> Seq<u8> {
    u64_le_spec(b.len() as u64) + b
}

/// Encoding of a list of length-prefixed byte strings.
pub open spec fn enc_bytes_list(s: Seq<Vec<u8>>) -> Seq<u8>
    decreases s.len(),
{
    if s.len() == 0 {
        Seq::<u8>::empty()
    } else {
        enc_bytes_list(s.drop_last()) + enc_bytes(s.last()@)
    }
}

/// Encoding of the reveal list.
pub open spec fn enc_reveals(s: Seq<(u64, Reveal)>) -> Seq<u8>
    decreases s.len(),
{
    if s.len() == 0 {
        Seq::<u8>::empty()
    } else {
        enc_reveals(s.drop_last()) + u64_le_spec(s.last().0) + enc_bytes(s.last().1.party.pk@)
            + u64_le_spec(s.last().1.party.weight) + enc_bytes(s.last().1.sig_slot.sig@)
            + u64_le_spec(s.last().1.sig_slot.l)
    }
}

/// The whole canonical certificate frame.
pub open spec fn enc_cert(c: Cert) -> Seq<u8> {
    enc_bytes(c.sig_commit@) + u64_le_spec(c.signed_weight) + u64_le_spec(
        c.sig_proofs@.len() as u64,
    ) + enc_bytes_list(c.sig_proofs@) + u64_le_spec(c.party_proofs@.len() as u64) + enc_bytes_list(
        c.party_proofs@,
    ) + u64_le_spec(c.reveals@.len() as u64) + enc_reveals(c.reveals@)
}

/// Eight bytes are available at the cursor.
pub open spec fn pu64_ok(buf: Seq<u8>, pos: int) -> bool {
    0 <= pos && pos + 8 <= buf.len()
}

/// The value of the eight little-endian bytes at the cursor.
pub open spec fn pu64_val(buf: Seq<u8>, pos: int) -> int {
    le_value(buf.subrange(pos, pos + 8))
}

/// A length-prefixed byte string fits at the cursor.
pub open spec fn pbytes_ok(buf: Seq<u8>, pos: int) -> bool {
    pu64_ok(buf, pos) && pos + 8 + pu64_val(buf, pos) <= buf.len()
}

/// The cursor after the length-prefixed byte string.
pub open spec fn pbytes_end(buf: Seq<u8>, pos: int) -> int {
    pos + 8 + pu64_val(buf, pos)
}

/// `k` length-prefixed byte strings fit in a row at the cursor.
pub open spec fn plist_ok(buf: Seq<u8>, pos: int, k: nat) -> bool
    decreases k,
{
    k == 0 || (pbytes_ok(buf, pos) && plist_ok(buf, pbytes_end(buf, pos), (k - 1) as nat))
}

/// The cursor after `k` length-prefixed byte strings.
pub open spec fn plist_end(buf: Seq<u8>, pos: int, k: nat) -> int
    decreases k,
{
    if k == 0 {
        pos
    } else {
        plist_end(buf, pbytes_end(buf, pos), (k - 1) as nat)
    }
}

/// One reveal entry fits at the cursor: key, key bytes, weight,
/// signature bytes, running weight.
pub open spec fn prev_ok(buf: Seq<u8>, pos: int) -> bool {
    &&& pu64_ok(buf, pos)
    &&& pbytes_ok(buf, pos + 8)
    &&& pu64_ok(buf, pbytes_end(buf, pos + 8))
    &&& pbytes_ok(buf, pbytes_end(buf, pos + 8) + 8)
    &&& pu64_ok(buf, pbytes_end(buf, pbytes_end(buf, pos + 8) + 8))
}

/// The cursor after one reveal entry.
pub open spec fn prev_end(buf: Seq<u8>, pos: int) -> int {
    pbytes_end(buf, pbytes_end(buf, pos + 8) + 8) + 8
}

/// `k` reveal entries fit in a row at the cursor.
pub open spec fn prevs_ok(buf: Seq<u8>, pos: int, k: nat) -> bool
    decreases k,
{
    k == 0 || (prev_ok(buf, pos) && prevs_ok(buf, prev_end(buf, pos), (k - 1) as nat))
}

/// The cursor after `k` reveal entries.
pub open spec fn prevs_end(buf: Seq<u8>, pos: int, k: nat) -> int
    decreases k,
{
    if k == 0 {
        pos
    } else {
        prevs_end(buf, prev_end(buf, pos), (k - 1) as nat)
    }
}

/// A whole certificate frame parses and fills the buffer exactly.
pub open spec fn parse_cert_ok(buf: Seq<u8>) -> bool {
    &&& pbytes_ok(buf, 0)
    &&& {
        let p1 = pbytes_end(buf, 0);
        &&& pu64_ok(buf, p1)
        &&& {
            let p2 = p1 + 8;
            &&& pu64_ok(buf, p2)
            &&& {
                let p3 = p2 + 8;
                &&& plist_ok(buf, p3, pu64_val(buf, p2) as nat)
                &&& {
                    let p4 = plist_end(buf, p3, pu64_val(buf, p2) as nat);
                    &&& pu64_ok(buf, p4)
                    &&& {
                        let p5 = p4 + 8;
                        &&& plist_ok(buf, p5, pu64_val(buf, p4) as nat)
                        &&& {
                            let p6 = plist_end(buf, p5, pu64_val(buf, p4) as nat);
                            &&& pu64_ok(buf, p6)
                            &&& {
                                let p7 = p6 + 8;
                                &&& prevs_ok(buf, p7, pu64_val(buf, p6) as nat)
                                &&& prevs_end(buf, p7, pu64_val(buf, p6) as nat) == buf.len()
                            }
                        }
                    }
                }
            }
        }
    }
}

/// Frame boundary after the commitment field.
pub open spec fn cert_p1(buf: Seq<u8>) -> int {
    pbytes_end(buf, 0)
}

/// Frame boundary after the signed weight.
pub open spec fn cert_p2(buf: Seq<u8>) -> int {
    cert_p1(buf) + 8
}

/// Frame boundary after the signature proofs.
pub open spec fn cert_p4(buf: Seq<u8>) -> int {
    plist_end(buf, cert_p2(buf) + 8, pu64_val(buf, cert_p2(buf)) as nat)
}

/// Frame boundary after the participant proofs.
pub open spec fn cert_p6(buf: Seq<u8>) -> int {
    plist_end(buf, cert_p4(buf) + 8, pu64_val(buf, cert_p4(buf)) as nat)
}

impl Cert {
    /// Total size in bytes of the commitment, the weight field, all
    /// proofs and all reveals, saturating at `u64::MAX`.
    pub fn size(&self) -> (r: u64)
        ensures
            r as int == sat64(
                sat64(
                    sat64(
                        sat64(self.sig_commit@.len() + 8int) + sat_lens(self.sig_proofs@),
                    ) + sat_lens(self.party_proofs@),
                ) + sat_reveal_sizes(self.reveals@),
            ),
    {
        let mut size = sat_add_u64(self.sig_commit.len() as u64, 8);
        size = sat_add_u64(size, sum_vec_lens(&self.sig_proofs));
        size = sat_add_u64(size, sum_vec_lens(&self.party_proofs));
        size = sat_add_u64(size, sum_reveal_sizes(&self.reveals));
        size
    }

    /// Serialize the frame with length-prefixed fields.
    pub fn to_bytes(&self) -> (r: Vec<u8>)
        ensures
            r@ == enc_cert(*self),
    {
        let mut out: Vec<u8> = Vec::new();
        push_bytes(&mut out, &self.sig_commit);
        let sw = u64_to_le(self.signed_weight);
        vec_extend(&mut out, &sw);
        let nsp = u64_to_le(self.sig_proofs.len() as u64);
        vec_extend(&mut out, &nsp);
        push_bytes_list(&mut out, &self.sig_proofs);
        let npp = u64_to_le(self.party_proofs.len() as u64);
        vec_extend(&mut out, &npp);
        push_bytes_list(&mut out, &self.party_proofs);
        let nr = u64_to_le(self.reveals.len() as u64);
        vec_extend(&mut out, &nr);
        push_reveals(&mut out, &self.reveals);
        proof {
            assert(out@ =~= enc_cert(*self));
        }
        out
    }

    /// Parse a frame: succeeds exactly on buffers a whole certificate
    /// frame fills, and any accepted buffer is exactly the canonical
    /// encoding of the returned certificate.
    pub fn from_bytes(bytes: &Vec<u8>) -> (r: Option<Cert>)
        ensures
            r is Some <==> parse_cert_ok(bytes@),
            r is Some ==> enc_cert(r.unwrap()) == bytes@,
            r is Some ==> r.unwrap().sig_commit@ == bytes@.subrange(8, cert_p1(bytes@))
                && r.unwrap().signed_weight as int == pu64_val(bytes@, cert_p1(bytes@))
                && r.unwrap().sig_proofs@.len() as int == pu64_val(bytes@, cert_p2(bytes@))
                && r.unwrap().party_proofs@.len() as int == pu64_val(bytes@, cert_p4(bytes@))
                && r.unwrap().reveals@.len() as int == pu64_val(bytes@, cert_p6(bytes@)),
    {
        let mut pos: usize = 0;
        let sig_commit = match read_bytes(bytes, &mut pos) {
            Some(v) => v,
            None => {
                proof {
                    assert(!parse_cert_ok(bytes@));
                }
                return None;
            },
        };
        let ghost q1 = pos as int;
        let signed_weight = match read_u64(bytes, &mut pos) {
            Some(v) => v,
            None => {
                proof {
                    assert(!parse_cert_ok(bytes@));
                }
                return None;
            },
        };
        let ghost q2 = pos as int;
        let sig_proofs = match read_bytes_list(bytes, &mut pos) {
            Some(v) => v,
            None => {
                proof {
                    assert(!parse_cert_ok(bytes@));
                }
                return None;
            },
        };
        let ghost q3 = pos as int;
        let party_proofs = match read_bytes_list(bytes, &mut pos) {
            Some(v) => v,
            None => {
                proof {
                    assert(!parse_cert_ok(bytes@));
                }
                return None;
            },
        };
        let ghost q4 = pos as int;
        let reveals = match read_reveals(bytes, &mut pos) {
            Some(v) => v,
            None => {
                proof {
                    assert(!parse_cert_ok(bytes@));
                }
                return None;
            },
        };
        let ghost q5 = pos as int;
        if pos != bytes.len() {
            proof {
                assert(!parse_cert_ok(bytes@));
            }
            return None;
        }
        proof {
            assert(parse_cert_ok(bytes@));
        }
        let c = Cert { sig_commit, signed_weight, sig_proofs, party_proofs, reveals };
        proof {
            assert(enc_bytes(c.sig_commit@) == bytes@.subrange(0, q1));
            assert(u64_le_spec(c.signed_weight) == bytes@.subrange(q1, q2));
            assert(u64_le_spec(c.sig_proofs@.len() as u64) + enc_bytes_list(c.sig_proofs@)
                == bytes@.subrange(q2, q3));
            assert(u64_le_spec(c.party_proofs@.len() as u64) + enc_bytes_list(c.party_proofs@)
                == bytes@.subrange(q3, q4));
            assert(u64_le_spec(c.reveals@.len() as u64) + enc_reveals(c.reveals@)
                == bytes@.subrange(q4, q5));
            assert(bytes@ =~= bytes@.subrange(0, q1) + bytes@.subrange(q1, q2) + bytes@.subrange(
                q2,
                q3,
            ) + bytes@.subrange(q3, q4) + bytes@.subrange(q4, q5));
            assert(enc_cert(c) =~= bytes@);
        }
        Some(c)
    }
}

/// Saturating total of byte-string lengths, executable form.
fn sum_vec_lens(v: &Vec<Vec<u8>>) -> (r: u64)
    ensures
        r as int == sat_lens(v@),
{
    let mut acc: u64 = 0;
    let mut i: usize = 0;
    while i < v.len()
        invariant
            i <= v@.len(),
            acc as int == sat_lens(v@.take(i as int)),
        decreases v@.len() - i,
    {
        proof {
            assert(v@.take(i + 1).drop_last() =~= v@.take(i as int));
            assert(v@.take(i + 1).last() == v@[i as int]);
        }
        acc = sat_add_u64(acc, v[i].len() as u64);
        i = i + 1;
    }
    proof {
        assert(v@.take(v@.len() as int) =~= v@);
    }
    acc
}

/// Saturating total of reveal sizes, executable form. Both proof lists
/// are summed by the caller; this covers only the reveals.
fn sum_reveal_sizes(v: &Vec<(u64, Reveal)>) -> (r: u64)
    ensures
        r as int == sat_reveal_sizes(v@),
{
    let mut acc: u64 = 0;
    let mut i: usize = 0;
    while i < v.len()
        invariant
            i <= v@.len(),
            acc as int == sat_reveal_sizes(v@.take(i as int)),
        decreases v@.len() - i,
    {
        proof {
            assert(v@.take(i + 1).drop_last() =~= v@.take(i as int));
            assert(v@.take(i + 1).last() == v@[i as int]);
        }
        let s = v[i].1.size();
        acc = sat_add_u64(acc, s);
        i = i + 1;
    }
    proof {
        assert(v@.take(v@.len() as int) =~= v@);
    }
    acc
}

/// Append a length-prefixed byte string.
fn push_bytes(out: &mut Vec<u8>, b: &Vec<u8>)
    ensures
        final(out)@ == old(out)@ + enc_bytes(b@),
{
    let len_le = u64_to_le(b.len() as u64);
    vec_extend(out, &len_le);
    vec_extend(out, b);
    proof {
        assert(final(out)@ =~= old(out)@ + enc_bytes(b@));
    }
}

/// Append each byte string, length-prefixed.
fn push_bytes_list(out: &mut Vec<u8>, v: &Vec<Vec<u8>>)
    ensures
        final(out)@ == old(out)@ + enc_bytes_list(v@),
{
    let mut i: usize = 0;
    while i < v.len()
        invariant
            i <= v@.len(),
            out@ == old(out)@ + enc_bytes_list(v@.take(i as int)),
        decreases v@.len() - i,
    {
        proof {
            assert(v@.take(i + 1).drop_last() =~= v@.take(i as int));
            assert(v@.take(i + 1).last() == v@[i as int]);
        }
        push_bytes(out, &v[i]);
        proof {
            assert(out@ =~= old(out)@ + enc_bytes_list(v@.take(i + 1)));
        }
        i = i + 1;
    }
    proof {
        assert(v@.take(v@.len() as int) =~= v@);
    }
}

/// Append each reveal entry.
fn push_reveals(out: &mut Vec<u8>, v: &Vec<(u64, Reveal)>)
    ensures
        final(out)@ == old(out)@ + enc_reveals(v@),
{
    let mut i: usize = 0;
    while i < v.len()
        invariant
            i <= v@.len(),
            out@ == old(out)@ + enc_reveals(v@.take(i as int)),
        decreases v@.len() - i,
    {
        proof {
            assert(v@.take(i + 1).drop_last() =~= v@.take(i as int));
            assert(v@.take(i + 1).last() == v@[i as int]);
        }
        let key_le = u64_to_le(v[i].0);
        vec_extend(out, &key_le);
        push_bytes(out, &v[i].1.party.pk);
        let w_le = u64_to_le(v[i].1.party.weight);
        vec_extend(out, &w_le);
        push_bytes(out, &v[i].1.sig_slot.sig);
        let l_le = u64_to_le(v[i].1.sig_slot.l);
        vec_extend(out, &l_le);
        proof {
            assert(out@ =~= old(out)@ + enc_reveals(v@.take(i + 1)));
        }
        i = i + 1;
    }
    proof {
        assert(v@.take(v@.len() as int) =~= v@);
    }
}

/// Read 8 little-endian bytes at the cursor.
fn read_u64(buf: &Vec<u8>, pos: &mut usize) -> (r: Option<u64>)
    ensures
        r is Some <==> pu64_ok(buf@, *old(pos) as int),
        match r {
            Some(v) => {
                &&& *old(pos) + 8 <= buf@.len()
                &&& *final(pos) == *old(pos) + 8
                &&& u64_le_spec(v) == buf@.subrange(*old(pos) as int, *old(pos) + 8)
                &&& v as int == pu64_val(buf@, *old(pos) as int)
            },
            None => *final(pos) == *old(pos),
        },
{
    let p: usize = *pos;
    if buf.len() < 8 || p > buf.len() - 8 {
        return None;
    }
    let mut chunk: Vec<u8> = Vec::new();
    let mut i: usize = 0;
    while i < 8
        invariant
            i <= 8,
            p + 8 <= buf@.len(),
            buf@.len() <= usize::MAX,
            chunk@ == buf@.subrange(p as int, p + i),
        decreases 8 - i,
    {
        chunk.push(buf[p + i]);
        proof {
            assert(buf@.subrange(p as int, p + i) + seq![buf@[p + i]] =~= buf@.subrange(
                p as int,
                p + i + 1,
            ));
        }
        i = i + 1;
    }
    let v = crate::bytesutil::le_to_u64(&chunk);
    proof {
        assert(chunk@.take(8) =~= chunk@);
        crate::bytesutil::lemma_le_roundtrip_value(chunk@);
        assert(u64_le_spec(v) =~= buf@.subrange(p as int, p + 8));
        assert(chunk@ =~= buf@.subrange(p as int, p + 8));
    }
    *pos = p + 8;
    Some(v)
}

/// Read a length-prefixed byte string at the cursor.
fn read_bytes(buf: &Vec<u8>, pos: &mut usize) -> (r: Option<Vec<u8>>)
    ensures
        r is Some <==> pbytes_ok(buf@, *old(pos) as int),
        match r {
            Some(v) => {
                &&& *old(pos) <= *final(pos) <= buf@.len()
                &&& enc_bytes(v@) == buf@.subrange(*old(pos) as int, *final(pos) as int)
                &&& *final(pos) == pbytes_end(buf@, *old(pos) as int)
                &&& v@ == buf@.subrange(*old(pos) + 8, *final(pos) as int)
            },
            None => true,
        },
{
    let ghost p0 = *pos;
    let len = match read_u64(buf, pos) {
        Some(v) => v,
        None => {
            return None;
        },
    };
    let p: usize = *pos;
    if (len as u128) > (buf.len() as u128) - (p as u128) {
        return None;
    }
    let n = len as usize;
    let mut v: Vec<u8> = Vec::new();
    let mut i: usize = 0;
    while i < n
        invariant
            i <= n,
            p + n <= buf@.len(),
            buf@.len() <= usize::MAX,
            v@ == buf@.subrange(p as int, p + i),
        decreases n - i,
    {
        v.push(buf[p + i]);
        proof {
            assert(buf@.subrange(p as int, p + i) + seq![buf@[p + i]] =~= buf@.subrange(
                p as int,
                p + i + 1,
            ));
        }
        i = i + 1;
    }
    proof {
        assert(v@.len() == len as int);
        assert(enc_bytes(v@) =~= buf@.subrange(p0 as int, p + n));
    }
    *pos = p + n;
    Some(v)
}

/// Read a counted list of length-prefixed byte strings at the cursor.
fn read_bytes_list(buf: &Vec<u8>, pos: &mut usize) -> (r: Option<Vec<Vec<u8>>>)
    ensures
        r is Some <==> (pu64_ok(buf@, *old(pos) as int) && plist_ok(
            buf@,
            *old(pos) + 8,
            pu64_val(buf@, *old(pos) as int) as nat,
        )),
        match r {
            Some(v) => {
                &&& *old(pos) <= *final(pos) <= buf@.len()
                &&& u64_le_spec(v@.len() as u64) + enc_bytes_list(v@) == buf@.subrange(
                    *old(pos) as int,
                    *final(pos) as int,
                )
                &&& v@.len() as int == pu64_val(buf@, *old(pos) as int)
                &&& *final(pos) == plist_end(
                    buf@,
                    *old(pos) + 8,
                    pu64_val(buf@, *old(pos) as int) as nat,
                )
            },
            None => true,
        },
{
    let ghost p0 = *pos;
    let count = match read_u64(buf, pos) {
        Some(v) => v,
        None => {
            return None;
        },
    };
    let mut v: Vec<Vec<u8>> = Vec::new();
    let mut i: u64 = 0;
    let mut cursor: usize = *pos;
    let ghost pc = cursor;
    while i < count
        invariant
            i <= count,
            cursor <= buf@.len(),
            v@.len() == i,
            enc_bytes_list(v@) == buf@.subrange(pc as int, cursor as int),
            pc <= cursor,
            pc == p0 + 8,
            p0 == *old(pos),
            pu64_ok(buf@, p0 as int),
            count as int == pu64_val(buf@, p0 as int),
            plist_ok(buf@, pc as int, count as nat) <==> plist_ok(
                buf@,
                cursor as int,
                (count - i) as nat,
            ),
            plist_ok(buf@, pc as int, count as nat) ==> plist_end(buf@, pc as int, count as nat)
                == plist_end(buf@, cursor as int, (count - i) as nat),
        decreases count - i,
    {
        let ghost vprev = v@;
        let mut inner: usize = cursor;
        let item = match read_bytes(buf, &mut inner) {
            Some(x) => x,
            None => {
                proof {
                    assert(!plist_ok(buf@, cursor as int, (count - i) as nat));
                    assert(!plist_ok(buf@, p0 + 8, pu64_val(buf@, p0 as int) as nat));
                }
                return None;
            },
        };
        cursor = inner;
        v.push(item);
        proof {
            assert(v@.drop_last() =~= vprev);
            assert(enc_bytes_list(v@) == enc_bytes_list(vprev) + enc_bytes(v@.last()@));
            assert(enc_bytes_list(v@) =~= buf@.subrange(pc as int, cursor as int));
        }
        i = i + 1;
    }
    *pos = cursor;
    proof {
        assert(u64_le_spec(count) + enc_bytes_list(v@) =~= buf@.subrange(p0 as int, cursor as int));
        assert(plist_ok(buf@, cursor as int, 0));
    }
    Some(v)
}

/// Read a counted list of reveal entries at the cursor.
fn read_reveals(buf: &Vec<u8>, pos: &mut usize) -> (r: Option<Vec<(u64, Reveal)>>)
    ensures
        r is Some <==> (pu64_ok(buf@, *old(pos) as int) && prevs_ok(
            buf@,
            *old(pos) + 8,
            pu64_val(buf@, *old(pos) as int) as nat,
        )),
        match r {
            Some(v) => {
                &&& *old(pos) <= *final(pos) <= buf@.len()
                &&& u64_le_spec(v@.len() as u64) + enc_reveals(v@) == buf@.subrange(
                    *old(pos) as int,
                    *final(pos) as int,
                )
                &&& v@.len() as int == pu64_val(buf@, *old(pos) as int)
                &&& *final(pos) == prevs_end(
                    buf@,
                    *old(pos) + 8,
                    pu64_val(buf@, *old(pos) as int) as nat,
                )
            },
            None => true,
        },
{
    let ghost p0 = *pos;
    let count = match read_u64(buf, pos) {
        Some(v) => v,
        None => {
            return None;
        },
    };
    let mut v: Vec<(u64, Reveal)> = Vec::new();
    let mut i: u64 = 0;
    let mut cursor: usize = *pos;
    let ghost pc = cursor;
    while i < count
        invariant
            i <= count,
            cursor <= buf@.len(),
            v@.len() == i,
            enc_reveals(v@) == buf@.subrange(pc as int, cursor as int),
            pc <= cursor,
            pc == p0 + 8,
            p0 == *old(pos),
            pu64_ok(buf@, p0 as int),
            count as int == pu64_val(buf@, p0 as int),
            prevs_ok(buf@, pc as int, count as nat) <==> prevs_ok(
                buf@,
                cursor as int,
                (count - i) as nat,
            ),
            prevs_ok(buf@, pc as int, count as nat) ==> prevs_end(buf@, pc as int, count as nat)
                == prevs_end(buf@, cursor as int, (count - i) as nat),
        decreases count - i,
    {
        let ghost vprev = v@;
        let mut inner: usize = cursor;
        let key = match read_u64(buf, &mut inner) {
            Some(x) => x,
            None => {
                proof {
                    assert(!prev_ok(buf@, cursor as int));
                    assert(!prevs_ok(buf@, cursor as int, (count - i) as nat));
                }
                return None;
            },
        };
        let pk = match read_bytes(buf, &mut inner) {
            Some(x) => x,
            None => {
                proof {
                    assert(!prev_ok(buf@, cursor as int));
                    assert(!prevs_ok(buf@, cursor as int, (count - i) as nat));
                }
                return None;
            },
        };
        let weight = match read_u64(buf, &mut inner) {
            Some(x) => x,
            None => {
                proof {
                    assert(!prev_ok(buf@, cursor as int));
                    assert(!prevs_ok(buf@, cursor as int, (count - i) as nat));
                }
                return None;
            },
        };
        let sig = match read_bytes(buf, &mut inner) {
            Some(x) => x,
            None => {
                proof {
                    assert(!prev_ok(buf@, cursor as int));
                    assert(!prevs_ok(buf@, cursor as int, (count - i) as nat));
                }
                return None;
            },
        };
        let l = match read_u64(buf, &mut inner) {
            Some(x) => x,
            None => {
                proof {
                    assert(!prev_ok(buf@, cursor as int));
                    assert(!prevs_ok(buf@, cursor as int, (count - i) as nat));
                }
                return None;
            },
        };
        proof {
            assert(prev_ok(buf@, cursor as int));
            assert(inner as int == prev_end(buf@, cursor as int));
        }
        let entry = (key, Reveal { party: Participant { pk, weight }, sig_slot: SigSlot { sig, l } });
        cursor = inner;
        v.push(entry);
        proof {
            assert(v@.drop_last() =~= vprev);
            assert(enc_reveals(v@) =~= buf@.subrange(pc as int, cursor as int));
        }
        i = i + 1;
    }
    *pos = cursor;
    proof {
        assert(u64_le_spec(count) + enc_reveals(v@) =~= buf@.subrange(p0 as int, cursor as int));
        assert(prevs_ok(buf@, cursor as int, 0));
    }
    Some(v)
}

impl Params {
    /// The number of reveals needed for the given signed weight, bounded
    /// by `MAX_REVEALS`.
    pub fn num_reveals(&self, signed_weight: u64) -> (r: Result<u64, CertError>)
        ensures
            match r {
                Ok(n) => num_reveals_spec(signed_weight, self.proven_weight, self.sec_kq, MAX_REVEALS)
                    == Some(n as int),
                Err(CertError::WeightShort) => signed_weight < self.proven_weight,
                Err(CertError::BoundExceeded) => num_reveals_spec(
                    signed_weight,
                    self.proven_weight,
                    self.sec_kq,
                    MAX_REVEALS,
                ) is None && signed_weight >= self.proven_weight,
            },
    {
        num_reveals(signed_weight, self.proven_weight, self.sec_kq, MAX_REVEALS)
    }
}

/// Multiply saturating at `u128::MAX`, matching `sat_mul`.
fn sat_mul_u128(a: u128, b: u128) -> (r: u128)
    requires
        b >= 1,
    ensures
        r as int == sat_mul(a as int, b as int),
{
    if a > u128::MAX / b {
        proof {
            assert((a as int) * (b as int) > u128::MAX) by (nonlinear_arith)
                requires
                    a > (u128::MAX as int) / (b as int),
                    b >= 1,
            {
            }
        }
        u128::MAX
    } else {
        proof {
            assert((a as int) * (b as int) <= u128::MAX) by (nonlinear_arith)
                requires
                    a <= (u128::MAX as int) / (b as int),
                    b >= 1,
            {
            }
        }
        a * b
    }
}

/// Smallest number of reveals for which the saturating weight ratio
/// overtakes `2^sec_kq`, bounded by `bound`.
#[verifier::loop_isolation(false)]
pub fn num_reveals(signed_weight: u64, proven_weight: u64, sec_kq: u64, bound: u64) -> (r: Result<
    u64,
    CertError,
>)
    ensures
        match r {
            Ok(n) => num_reveals_spec(signed_weight, proven_weight, sec_kq, bound) == Some(
                n as int,
            ),
            Err(CertError::WeightShort) => signed_weight < proven_weight,
            Err(CertError::BoundExceeded) => num_reveals_spec(
                signed_weight,
                proven_weight,
                sec_kq,
                bound,
            ) is None && signed_weight >= proven_weight,
        },
{
    if signed_weight < proven_weight {
        return Err(CertError::WeightShort);
    }
    let mut rhs: u128 = 1;
    let mut k: u64 = 0;
    while k < sec_kq
        invariant
            k <= sec_kq,
            rhs as int == sat_pow2(k as int),
            rhs >= 1,
        decreases sec_kq - k,
    {
        rhs = sat_mul_u128(rhs, 2);
        k = k + 1;
    }
    let mut lhs: u128 = 1;
    let mut n: u64 = 0;
    let sw = signed_weight as u128;
    let pw = proven_weight as u128;
    while lhs < rhs
        invariant
            n <= bound,
            num_reveals_spec(signed_weight, proven_weight, sec_kq, bound) == nr_loop(
                lhs as int,
                rhs as int,
                n as int,
                signed_weight as int,
                proven_weight as int,
                bound as int,
            ),
        decreases bound - n,
    {
        if n >= bound {
            proof {
                assert(nr_loop(
                    lhs as int,
                    rhs as int,
                    n as int,
                    signed_weight as int,
                    proven_weight as int,
                    bound as int,
                ) is None);
            }
            return Err(CertError::BoundExceeded);
        }
        let ghost old_lhs = lhs as int;
        let ghost old_rhs = rhs as int;
        let ghost old_n = n as int;
        let new_lhs = if sw >= 1 {
            sat_mul_u128(lhs, sw)
        } else {
            proof {
                assert(sat_mul(lhs as int, 0) == 0);
            }
            0
        };
        let new_rhs = if pw >= 1 {
            sat_mul_u128(rhs, pw)
        } else {
            proof {
                assert(sat_mul(rhs as int, 0) == 0);
            }
            0
        };
        lhs = new_lhs;
        rhs = new_rhs;
        n = n + 1;
        proof {
            assert(nr_loop(
                old_lhs,
                old_rhs,
                old_n,
                signed_weight as int,
                proven_weight as int,
                bound as int,
            ) == nr_loop(
                sat_mul(old_lhs, signed_weight as int),
                sat_mul(old_rhs, proven_weight as int),
                old_n + 1,
                signed_weight as int,
                proven_weight as int,
                bound as int,
            ));
            assert(lhs as int == sat_mul(old_lhs, signed_weight as int));
            assert(rhs as int == sat_mul(old_rhs, proven_weight as int));
        }
    }
    Ok(n)
}


/// A slice of a buffer region equals the same slice of the region.
proof fn lemma_subrange_slice(buf: Seq<u8>, pos: int, region: Seq<u8>, a: int, b: int)
    requires
        0 <= pos,
        pos + region.len() <= buf.len(),
        buf.subrange(pos, pos + region.len()) == region,
        0 <= a <= b <= region.len(),
    ensures
        buf.subrange(pos + a, pos + b) == region.subrange(a, b),
{
    assert forall|k: int|
        0 <= k < b - a implies buf.subrange(pos + a, pos + b)[k] == region.subrange(a, b)[k] by {
        assert(buf.subrange(pos, pos + region.len())[a + k] == region[a + k]);
    }
    assert(buf.subrange(pos + a, pos + b) =~= region.subrange(a, b));
}

/// A non-empty list's encoding starts with its first item's encoding.
proof fn lemma_enc_list_head(s: Seq<Vec<u8>>)
    requires
        s.len() > 0,
    ensures
        enc_bytes_list(s) == enc_bytes(s[0]@) + enc_bytes_list(s.drop_first()),
    decreases s.len(),
{
    if s.len() == 1 {
        assert(s.drop_last() =~= Seq::<Vec<u8>>::empty());
        assert(s.drop_first() =~= Seq::<Vec<u8>>::empty());
        assert(enc_bytes_list(s) == enc_bytes_list(s.drop_last()) + enc_bytes(s.last()@));
        assert(enc_bytes_list(s) =~= enc_bytes(s[0]@) + enc_bytes_list(s.drop_first()));
    } else {
        let dl = s.drop_last();
        lemma_enc_list_head(dl);
        assert(s.drop_first().drop_last() =~= dl.drop_first());
        assert(s.drop_first().last() == s.last());
        assert(dl[0] == s[0]);
        assert(enc_bytes_list(s.drop_first()) == enc_bytes_list(dl.drop_first()) + enc_bytes(
            s.last()@,
        ));
        assert(enc_bytes_list(s) =~= enc_bytes(s[0]@) + enc_bytes_list(s.drop_first()));
    }
}

/// A non-empty reveal list's encoding starts with its first entry's
/// encoding.
proof fn lemma_enc_reveals_head(s: Seq<(u64, Reveal)>)
    requires
        s.len() > 0,
    ensures
        enc_reveals(s) == u64_le_spec(s[0].0) + enc_bytes(s[0].1.party.pk@) + u64_le_spec(
            s[0].1.party.weight,
        ) + enc_bytes(s[0].1.sig_slot.sig@) + u64_le_spec(s[0].1.sig_slot.l) + enc_reveals(
            s.drop_first(),
        ),
    decreases s.len(),
{
    if s.len() == 1 {
        assert(s.drop_last() =~= Seq::<(u64, Reveal)>::empty());
        assert(s.drop_first() =~= Seq::<(u64, Reveal)>::empty());
        assert(enc_reveals(s) =~= u64_le_spec(s[0].0) + enc_bytes(s[0].1.party.pk@) + u64_le_spec(
            s[0].1.party.weight,
        ) + enc_bytes(s[0].1.sig_slot.sig@) + u64_le_spec(s[0].1.sig_slot.l) + enc_reveals(
            s.drop_first(),
        ));
    } else {
        let dl = s.drop_last();
        lemma_enc_reveals_head(dl);
        assert(s.drop_first().drop_last() =~= dl.drop_first());
        assert(s.drop_first().last() == s.last());
        assert(dl[0] == s[0]);
        assert(enc_reveals(s) =~= u64_le_spec(s[0].0) + enc_bytes(s[0].1.party.pk@) + u64_le_spec(
            s[0].1.party.weight,
        ) + enc_bytes(s[0].1.sig_slot.sig@) + u64_le_spec(s[0].1.sig_slot.l) + enc_reveals(
            s.drop_first(),
        ));
    }
}

/// An eight-byte segment of the buffer holding a little-endian value
/// reads back as that value.
proof fn lemma_val_at(buf: Seq<u8>, pos: int, x: u64)
    requires
        0 <= pos,
        pos + 8 <= buf.len(),
        buf.subrange(pos, pos + 8) == u64_le_spec(x),
    ensures
        pu64_ok(buf, pos),
        pu64_val(buf, pos) == x,
{
    crate::bytesutil::lemma_le_of_u64(x);
}

/// A buffer region holding an encoded list parses as that many items.
proof fn lemma_plist_of_enc(buf: Seq<u8>, pos: int, items: Seq<Vec<u8>>)
    requires
        0 <= pos,
        pos + enc_bytes_list(items).len() <= buf.len(),
        buf.subrange(pos, pos + enc_bytes_list(items).len()) == enc_bytes_list(items),
        forall|i: int| 0 <= i < items.len() ==> (#[trigger] items[i])@.len() <= u64::MAX,
    ensures
        plist_ok(buf, pos, items.len()),
        plist_end(buf, pos, items.len()) == pos + enc_bytes_list(items).len(),
    decreases items.len(),
{
    if items.len() == 0 {
        assert(enc_bytes_list(items).len() == 0);
    } else {
        lemma_enc_list_head(items);
        let head = items[0]@;
        let head_enc = enc_bytes(head);
        let region = enc_bytes_list(items);
        let total = region.len() as int;
        let rest = items.drop_first();
        assert(head_enc.len() == 8 + head.len());
        assert(region == head_enc + enc_bytes_list(rest));
        lemma_subrange_slice(buf, pos, region, 0, 8);
        assert(region.subrange(0, 8) =~= u64_le_spec(head.len() as u64));
        lemma_val_at(buf, pos, head.len() as u64);
        assert(pbytes_ok(buf, pos));
        assert(pbytes_end(buf, pos) == pos + 8 + head.len());
        assert(forall|i: int| 0 <= i < rest.len() ==> rest[i] == items[i + 1]);
        let rpos = pos + head_enc.len();
        lemma_subrange_slice(buf, pos, region, head_enc.len() as int, total);
        assert(region.subrange(head_enc.len() as int, total) =~= enc_bytes_list(rest));
        lemma_plist_of_enc(buf, rpos, rest);
    }
}

/// A buffer region holding encoded reveals parses as that many entries.
proof fn lemma_prevs_of_enc(buf: Seq<u8>, pos: int, items: Seq<(u64, Reveal)>)
    requires
        0 <= pos,
        pos + enc_reveals(items).len() <= buf.len(),
        buf.subrange(pos, pos + enc_reveals(items).len()) == enc_reveals(items),
        forall|i: int|
            0 <= i < items.len() ==> (#[trigger] items[i]).1.party.pk@.len() <= u64::MAX
                && items[i].1.sig_slot.sig@.len() <= u64::MAX,
    ensures
        prevs_ok(buf, pos, items.len()),
        prevs_end(buf, pos, items.len()) == pos + enc_reveals(items).len(),
    decreases items.len(),
{
    if items.len() == 0 {
        assert(enc_reveals(items).len() == 0);
    } else {
        lemma_enc_reveals_head(items);
        let key = items[0].0;
        let pk = items[0].1.party.pk@;
        let weight = items[0].1.party.weight;
        let sig = items[0].1.sig_slot.sig@;
        let l = items[0].1.sig_slot.l;
        let head_enc = u64_le_spec(key) + enc_bytes(pk) + u64_le_spec(weight) + enc_bytes(sig)
            + u64_le_spec(l);
        let region = enc_reveals(items);
        let rest = items.drop_first();
        assert(head_enc.len() == 8 + (8 + pk.len()) + 8 + (8 + sig.len()) + 8);
        assert(region == head_enc + enc_reveals(rest));
        let a1 = 8int;
        let a2 = a1 + 8 + pk.len() as int;
        let a3 = a2 + 8;
        let a4 = a3 + 8 + sig.len() as int;
        let q1 = pos + a1;
        let q2 = pos + a2;
        let q3 = pos + a3;
        let q4 = pos + a4;
        lemma_subrange_slice(buf, pos, region, 0, 8);
        assert(region.subrange(0, 8) =~= u64_le_spec(key));
        lemma_val_at(buf, pos, key);
        lemma_subrange_slice(buf, pos, region, a1, a1 + 8);
        assert(region.subrange(a1, a1 + 8) =~= u64_le_spec(pk.len() as u64));
        lemma_val_at(buf, q1, pk.len() as u64);
        assert(pbytes_ok(buf, q1));
        assert(pbytes_end(buf, q1) == q2);
        lemma_subrange_slice(buf, pos, region, a2, a2 + 8);
        assert(region.subrange(a2, a2 + 8) =~= u64_le_spec(weight));
        lemma_val_at(buf, q2, weight);
        lemma_subrange_slice(buf, pos, region, a3, a3 + 8);
        assert(region.subrange(a3, a3 + 8) =~= u64_le_spec(sig.len() as u64));
        lemma_val_at(buf, q3, sig.len() as u64);
        assert(pbytes_ok(buf, q3));
        assert(pbytes_end(buf, q3) == q4);
        lemma_subrange_slice(buf, pos, region, a4, a4 + 8);
        assert(region.subrange(a4, a4 + 8) =~= u64_le_spec(l));
        lemma_val_at(buf, q4, l);
        assert(prev_ok(buf, pos));
        assert(prev_end(buf, pos) == q4 + 8);
        assert(forall|i: int| 0 <= i < rest.len() ==> rest[i] == items[i + 1]);
        let rpos = pos + head_enc.len();
        lemma_subrange_slice(buf, pos, region, head_enc.len() as int, region.len() as int);
        assert(region.subrange(head_enc.len() as int, region.len() as int) =~= enc_reveals(rest));
        lemma_prevs_of_enc(buf, rpos, rest);
    }
}

/// Every canonically encoded certificate frame parses back: the frame
/// `to_bytes` writes is accepted by `from_bytes`.
pub proof fn lemma_canonical_parses(c: Cert)
    requires
        c.sig_commit@.len() <= u64::MAX,
        c.sig_proofs@.len() <= u64::MAX,
        c.party_proofs@.len() <= u64::MAX,
        c.reveals@.len() <= u64::MAX,
        forall|i: int|
            0 <= i < c.sig_proofs@.len() ==> (#[trigger] c.sig_proofs@[i])@.len() <= u64::MAX,
        forall|i: int|
            0 <= i < c.party_proofs@.len() ==> (#[trigger] c.party_proofs@[i])@.len() <= u64::MAX,
        forall|i: int|
            0 <= i < c.reveals@.len() ==> (#[trigger] c.reveals@[i]).1.party.pk@.len() <= u64::MAX
                && c.reveals@[i].1.sig_slot.sig@.len() <= u64::MAX,
    ensures
        parse_cert_ok(enc_cert(c)),
        cert_p1(enc_cert(c)) == 8 + c.sig_commit@.len(),
        enc_cert(c).subrange(8, cert_p1(enc_cert(c))) == c.sig_commit@,
        pu64_val(enc_cert(c), cert_p1(enc_cert(c))) == c.signed_weight,
        pu64_val(enc_cert(c), cert_p2(enc_cert(c))) == c.sig_proofs@.len(),
        pu64_val(enc_cert(c), cert_p4(enc_cert(c))) == c.party_proofs@.len(),
        pu64_val(enc_cert(c), cert_p6(enc_cert(c))) == c.reveals@.len(),
{
    let buf = enc_cert(c);
    let e1 = enc_bytes(c.sig_commit@);
    let e2 = u64_le_spec(c.signed_weight);
    let e3 = u64_le_spec(c.sig_proofs@.len() as u64);
    let e4 = enc_bytes_list(c.sig_proofs@);
    let e5 = u64_le_spec(c.party_proofs@.len() as u64);
    let e6 = enc_bytes_list(c.party_proofs@);
    let e7 = u64_le_spec(c.reveals@.len() as u64);
    let e8 = enc_reveals(c.reveals@);
    let p1 = e1.len() as int;
    let p2 = p1 + 8;
    let p3 = p2 + 8;
    let p4 = p3 + e4.len() as int;
    let p5 = p4 + 8;
    let p6 = p5 + e6.len() as int;
    let p7 = p6 + 8;
    let p8 = p7 + e8.len() as int;
    assert(buf.len() == p8);
    assert(buf.subrange(0, 8) =~= u64_le_spec(c.sig_commit@.len() as u64));
    lemma_val_at(buf, 0, c.sig_commit@.len() as u64);
    assert(pbytes_ok(buf, 0));
    assert(pbytes_end(buf, 0) == p1);
    assert(buf.subrange(p1, p2) =~= e2);
    lemma_val_at(buf, p1, c.signed_weight);
    assert(buf.subrange(p2, p3) =~= e3);
    lemma_val_at(buf, p2, c.sig_proofs@.len() as u64);
    assert(buf.subrange(p3, p4) =~= e4);
    lemma_plist_of_enc(buf, p3, c.sig_proofs@);
    assert(plist_end(buf, p3, pu64_val(buf, p2) as nat) == p4);
    assert(buf.subrange(p4, p5) =~= e5);
    lemma_val_at(buf, p4, c.party_proofs@.len() as u64);
    assert(buf.subrange(p5, p6) =~= e6);
    lemma_plist_of_enc(buf, p5, c.party_proofs@);
    assert(plist_end(buf, p5, pu64_val(buf, p4) as nat) == p6);
    assert(buf.subrange(p6, p7) =~= e7);
    lemma_val_at(buf, p6, c.reveals@.len() as u64);
    assert(buf.subrange(p7, p8) =~= e8);
    lemma_prevs_of_enc(buf, p7, c.reveals@);
    assert(prevs_end(buf, p7, pu64_val(buf, p6) as nat) == p8);
    assert(cert_p1(buf) == p1);
    assert(cert_p2(buf) == p2);
    assert(cert_p4(buf) == p4);
    assert(cert_p6(buf) == p6);
    assert(buf.subrange(8, p1) =~= c.sig_commit@);
}

} // verus!
