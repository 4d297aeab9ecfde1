//! Byte layout of Schnorr signatures: two 32-byte scalars, `s` then `e`.
//!
//! Key generation, signing and verification over secp256k1 live outside
//! the library; only the serialized form is handled here.

use vstd::prelude::*;

use crate::bytesutil::bytes_clone;
use crate::bytesutil::vec_extend;

verus! {

/// Byte length of one serialized scalar.
pub const SCALAR_LEN: usize = 32;

/// A Schnorr signature: the scalar `s` and the challenge `e`.
pub struct SchnorrSignature {
    s: Vec<u8>,
    e: Vec<u8>,
}

impl SchnorrSignature {
    /// The `s` scalar bytes.
    pub closed spec fn s_view(&self) -> Seq<u8> {
        self.s@
    }

    /// The `e` scalar bytes.
    pub closed spec fn e_view(&self) -> Seq<u8> {
        self.e@
    }

    /// Both scalars hold exactly 32 bytes.
    pub open spec fn wf(&self) -> bool {
        self.s_view().len() == SCALAR_LEN && self.e_view().len() == SCALAR_LEN
    }

    /// The 64-byte serialized form: `s` followed by `e`.
    pub fn to_bytes(&self) -> (r: Vec<u8>)
        ensures
            r@ == self.s_view() + self.e_view(),
    {
        let mut r: Vec<u8> = Vec::new();
        vec_extend(&mut r, &self.s);
        vec_extend(&mut r, &self.e);
        proof {
            assert(r@ =~= self.s_view() + self.e_view());
        }
        r
    }

    /// Parse a signature from a buffer holding at least 64 bytes; a
    /// shorter buffer is rejected.
    pub fn from_bytes(buf: &Vec<u8>) -> (r: Option<SchnorrSignature>)
        ensures
            r is Some <==> buf@.len() >= 2 * SCALAR_LEN,
            r is Some ==> r.unwrap().s_view() == buf@.take(SCALAR_LEN as int) && r.unwrap().e_view()
                == buf@.subrange(SCALAR_LEN as int, 2 * SCALAR_LEN as int),
            r is Some ==> r.unwrap().wf(),
    {
        if buf.len() < 2 * SCALAR_LEN {
            return None;
        }
        let mut s: Vec<u8> = Vec::new();
        let mut e: Vec<u8> = Vec::new();
        let mut i: usize = 0;
        while i < SCALAR_LEN
            invariant
                i <= SCALAR_LEN,
                buf@.len() >= 2 * SCALAR_LEN,
                s@ == buf@.subrange(0, i as int),
            decreases SCALAR_LEN - i,
        {
            s.push(buf[i]);
            proof {
                assert(buf@.subrange(0, i as int) + seq![buf@[i as int]] =~= buf@.subrange(
                    0,
                    i + 1,
                ));
            }
            i = i + 1;
        }
        let mut j: usize = SCALAR_LEN;
        while j < 2 * SCALAR_LEN
            invariant
                SCALAR_LEN <= j <= 2 * SCALAR_LEN,
                buf@.len() >= 2 * SCALAR_LEN,
                e@ == buf@.subrange(SCALAR_LEN as int, j as int),
            decreases 2 * SCALAR_LEN - j,
        {
            e.push(buf[j]);
            proof {
                assert(buf@.subrange(SCALAR_LEN as int, j as int) + seq![buf@[j as int]]
                    =~= buf@.subrange(SCALAR_LEN as int, j + 1));
            }
            j = j + 1;
        }
        proof {
            assert(buf@.subrange(0, SCALAR_LEN as int) =~= buf@.take(SCALAR_LEN as int));
        }
        Some(SchnorrSignature { s, e })
    }

    /// Build a signature from its two scalars.
    pub fn from_scalars(s: &Vec<u8>, e: &Vec<u8>) -> (r: SchnorrSignature)
        requires
            s@.len() == SCALAR_LEN,
            e@.len() == SCALAR_LEN,
        ensures
            r.s_view() == s@,
            r.e_view() == e@,
            r.wf(),
    {
        SchnorrSignature { s: bytes_clone(s), e: bytes_clone(e) }
    }
}

/// Serialization round trip: parsing the 64 bytes written by `to_bytes`
/// gives the two scalars back.
pub proof fn lemma_schnorr_round_trip(s: Seq<u8>, e: Seq<u8>)
    requires
        s.len() == SCALAR_LEN,
        e.len() == SCALAR_LEN,
    ensures
        (s + e).take(SCALAR_LEN as int) == s,
        (s + e).subrange(SCALAR_LEN as int, 2 * SCALAR_LEN as int) == e,
{
    assert((s + e).take(SCALAR_LEN as int) =~= s);
    assert((s + e).subrange(SCALAR_LEN as int, 2 * SCALAR_LEN as int) =~= e);
}

} // verus!
