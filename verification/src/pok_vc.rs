//! Proof of knowledge of the opening of a multi-base commitment in the
//! verkey group (Schnorr over a vector commitment): commit to blindings,
//! answer a challenge with one response scalar per base, verify by a
//! single multi-scalar equation.  The proof of knowledge of a signature
//! instantiates this protocol over the verkey group.

use vstd::prelude::*;
use vstd::slice::slice_index_get;
use vstd::string::StringExecFns;
use crate::algebra::{
    dot, in_r, lemma_dot_take_all, lemma_dot_take_step, lemma_mod_r_add_right, mod_r,
    schnorr_passes,
};
use crate::backend::{
    fe_add, fe_clone, fe_mul, fe_random, fr_of, ser_vg, vg_add, vg_clone, vg_eq, vg_identity,
    vg_mul, vg_of, vg_to_bytes,
};
use crate::errors::PSError;
use crate::keys::{all_in_r, fr_seq, vg_seq};
use amcl_wrapper::field_elem::FieldElement;
use amcl_wrapper::group_elem_g2::G2;

verus! {

/// The byte image of a sequence of verkey-group views: each element's
/// canonical bytes, concatenated in order.
pub open spec fn vg_seq_bytes(vs: Seq<int>) -> Seq<u8>
    decreases vs.len(),
{
    if vs.len() == 0 {
        Seq::empty()
    } else {
        vg_seq_bytes(vs.drop_last()) + ser_vg(vs.last())
    }
}

/// Serialize a list of verkey-group elements in order.
pub(crate) fn vg_elems_to_bytes(gs: &[G2]) -> (r: Vec<u8>)
    ensures
        r@ == vg_seq_bytes(vg_seq(gs@)),
{
    let mut bytes: Vec<u8> = Vec::new();
    let n = gs.len();
    let mut i: usize = 0;
    while i < n
        invariant
            i <= n,
            n == gs@.len(),
            bytes@ == vg_seq_bytes(vg_seq(gs@).take(i as int)),
        decreases n - i,
    {
        let mut chunk = vg_to_bytes(slice_index_get(gs, i));
        bytes.append(&mut chunk);
        proof {
            let vs = vg_seq(gs@);
            assert(vs.take(i + 1).drop_last() =~= vs.take(i as int));
            assert(vs.take(i + 1).last() == vs[i as int]);
        }
        i = i + 1;
    }
    proof {
        assert(vg_seq(gs@).take(gs@.len() as int) =~= vg_seq(gs@));
    }
    bytes
}

/// Multi-scalar multiplication in the verkey group:
/// `prod bases[j]^{scalars[j]}`.
pub(crate) fn vg_msm(bases: &[G2], scalars: &[FieldElement]) -> (r: G2)
    requires
        bases@.len() == scalars@.len(),
    ensures
        all_in_r(vg_seq(bases@)) ==> in_r(vg_of(r)) && vg_of(r) == mod_r(
            dot(vg_seq(bases@), fr_seq(scalars@)),
        ),
{
    let ghost bv = vg_seq(bases@);
    let ghost sv = fr_seq(scalars@);
    let n = bases.len();
    let mut acc = vg_identity();
    let mut i: usize = 0;
    while i < n
        invariant
            i <= n,
            n == bases@.len(),
            n == scalars@.len(),
            bv == vg_seq(bases@),
            sv == fr_seq(scalars@),
            all_in_r(bv) ==> in_r(vg_of(acc)),
            all_in_r(bv) ==> vg_of(acc) == mod_r(dot(bv.take(i as int), sv.take(i as int))),
        decreases n - i,
    {
        let term = vg_mul(slice_index_get(bases, i), slice_index_get(scalars, i));
        let next = vg_add(&acc, &term);
        proof {
            if all_in_r(bv) {
                let d = dot(bv.take(i as int), sv.take(i as int));
                lemma_dot_take_step(bv, sv, i as int);
                lemma_mod_r_add_right(d, sv[i as int] * bv[i as int]);
                lemma_mod_r_add_right(mod_r(sv[i as int] * bv[i as int]), d);
                lemma_mod_r_add_right(sv[i as int] * bv[i as int], d);
                assert(sv[i as int] * bv[i as int] == bv[i as int] * sv[i as int])
                    by (nonlinear_arith);
            }
        }
        acc = next;
        i = i + 1;
    }
    proof {
        if all_in_r(bv) {
            lemma_dot_take_all(bv, sv);
            assert(bv.take(bv.len() as int) =~= bv.take(n as int));
            assert(sv.take(sv.len() as int) =~= sv.take(n as int));
        }
    }
    acc
}

/// The commit phase under construction: bases and their blindings, added
/// pairwise.
pub struct ProverCommitting {
    pub gens: Vec<G2>,
    pub blindings: Vec<FieldElement>,
}

/// The finished commit phase: the bases, their blindings, and the Schnorr
/// commitment `T = prod gens[j]^{blindings[j]}`.
pub struct ProverCommitted {
    pub gens: Vec<G2>,
    pub blindings: Vec<FieldElement>,
    pub commitment: G2,
}

/// The on-wire proof: the commitment `T` and one response scalar per base.
pub struct PoKVCProof {
    pub commitment: G2,
    pub responses: Vec<FieldElement>,
}

impl ProverCommitting {
    /// Start with no bases.
    pub fn new() -> (r: ProverCommitting)
        ensures
            r.gens@.len() == 0,
            r.blindings@.len() == 0,
    {
        ProverCommitting { gens: Vec::new(), blindings: Vec::new() }
    }

    /// Add a base with its blinding; a caller that supplies no blinding
    /// gets a fresh random one.  Returns the index of the new base.
    pub fn commit(&mut self, gen: &G2, blinding: Option<&FieldElement>) -> (idx: usize)
        ensures
            idx == old(self).gens@.len(),
            final(self).gens@.len() == old(self).gens@.len() + 1,
            final(self).blindings@.len() == old(self).blindings@.len() + 1,
            final(self).gens@.drop_last() == old(self).gens@,
            final(self).blindings@.drop_last() == old(self).blindings@,
            vg_of(final(self).gens@.last()) == vg_of(*gen),
            blinding is Some ==> fr_of(final(self).blindings@.last()) == fr_of(*blinding->0),
            blinding is None ==> in_r(fr_of(final(self).blindings@.last())) && fr_of(
                final(self).blindings@.last(),
            ) != 0,
    {
        let idx = self.gens.len();
        self.gens.push(vg_clone(gen));
        match blinding {
            Some(b) => self.blindings.push(fe_clone(b)),
            None => self.blindings.push(fe_random()),
        }
        proof {
            assert(final(self).gens@.drop_last() =~= old(self).gens@);
            assert(final(self).blindings@.drop_last() =~= old(self).blindings@);
        }
        idx
    }

    /// Compute the Schnorr commitment `T` over the collected bases and
    /// blindings.
    pub fn finish(self) -> (r: ProverCommitted)
        requires
            self.gens@.len() == self.blindings@.len(),
        ensures
            r.gens@ == self.gens@,
            r.blindings@ == self.blindings@,
            all_in_r(vg_seq(self.gens@)) ==> in_r(vg_of(r.commitment)) && vg_of(r.commitment)
                == mod_r(dot(vg_seq(self.gens@), fr_seq(self.blindings@))),
    {
        let commitment = vg_msm(self.gens.as_slice(), self.blindings.as_slice());
        ProverCommitted { gens: self.gens, blindings: self.blindings, commitment }
    }
}

impl ProverCommitted {
    /// The transcript contribution of the commit phase: the bases in
    /// order, then the commitment.
    pub fn to_bytes(&self) -> (r: Vec<u8>)
        ensures
            r@ == vg_seq_bytes(vg_seq(self.gens@)) + ser_vg(vg_of(self.commitment)),
    {
        let mut bytes = vg_elems_to_bytes(self.gens.as_slice());
        let mut c = vg_to_bytes(&self.commitment);
        bytes.append(&mut c);
        bytes
    }

    /// Answer a challenge: `s_j = r_j + c * x_j` for each secret, an error
    /// exactly when the secret count does not match the base count.
    pub fn gen_proof(self, challenge: &FieldElement, secrets: &[FieldElement]) -> (r: Result<
        PoKVCProof,
        PSError,
    >)
        requires
            self.gens@.len() == self.blindings@.len(),
        ensures
            r is Ok <==> secrets@.len() == self.gens@.len(),
            r is Err ==> r->Err_0 == (PSError::UnequalNoOfBasesExponents {
                bases: self.gens@.len() as usize,
                exponents: secrets@.len() as usize,
            }),
            r is Ok ==> {
                &&& vg_of(r->Ok_0.commitment) == vg_of(self.commitment)
                &&& r->Ok_0.responses@.len() == self.gens@.len()
                &&& forall|j: int|
                    0 <= j < self.gens@.len() ==> fr_of(#[trigger] r->Ok_0.responses@[j]) == mod_r(
                        fr_of(self.blindings@[j]) + fr_of(*challenge) * fr_of(secrets@[j]),
                    )
            },
    {
        let n = self.gens.len();
        if secrets.len() != n {
            return Err(
                PSError::UnequalNoOfBasesExponents { bases: n, exponents: secrets.len() },
            );
        }
        let mut responses: Vec<FieldElement> = Vec::new();
        let mut j: usize = 0;
        while j < n
            invariant
                j <= n,
                n == self.gens@.len(),
                n == self.blindings@.len(),
                n == secrets@.len(),
                responses@.len() == j,
                forall|k: int|
                    0 <= k < j ==> fr_of(#[trigger] responses@[k]) == mod_r(
                        fr_of(self.blindings@[k]) + fr_of(*challenge) * fr_of(secrets@[k]),
                    ),
            decreases n - j,
        {
            let term = fe_mul(challenge, slice_index_get(secrets, j));
            let resp = fe_add(&self.blindings[j], &term);
            proof {
                lemma_mod_r_add_right(
                    fr_of(self.blindings@[j as int]),
                    fr_of(*challenge) * fr_of(secrets@[j as int]),
                );
            }
            responses.push(resp);
            j = j + 1;
        }
        Ok(PoKVCProof { commitment: self.commitment, responses })
    }
}

impl PoKVCProof {
    /// Check the Schnorr equation `prod bases[j]^{s_j} == T * C^c` for a
    /// claimed commitment `C` and challenge `c`: an error for no bases or
    /// for a response count that does not match, the equation's truth
    /// value otherwise.
    pub fn verify(&self, bases: &[G2], commitment: &G2, challenge: &FieldElement) -> (r: Result<
        bool,
        PSError,
    >)
        ensures
            bases@.len() == 0 ==> r is Err && r->Err_0 is GeneralError,
            bases@.len() > 0 ==> (r is Ok <==> bases@.len() == self.responses@.len()),
            bases@.len() > 0 && bases@.len() != self.responses@.len() ==> r == Err::<
                bool,
                PSError,
            >(
                PSError::UnequalNoOfBasesExponents {
                    bases: bases@.len() as usize,
                    exponents: self.responses@.len() as usize,
                },
            ),
            r is Ok && all_in_r(vg_seq(bases@)) && in_r(vg_of(self.commitment)) && in_r(
                vg_of(*commitment),
            ) ==> r == Ok::<bool, PSError>(
                schnorr_passes(
                    vg_seq(bases@),
                    fr_seq(self.responses@),
                    vg_of(self.commitment),
                    vg_of(*commitment),
                    fr_of(*challenge),
                ),
            ),
    {
        if bases.len() == 0 {
            return Err(
                PSError::GeneralError { msg: String::from_str("At least one base is needed") },
            );
        }
        if bases.len() != self.responses.len() {
            return Err(
                PSError::UnequalNoOfBasesExponents {
                    bases: bases.len(),
                    exponents: self.responses.len(),
                },
            );
        }
        let lhs = vg_msm(bases, self.responses.as_slice());
        let scaled = vg_mul(commitment, challenge);
        let rhs = vg_add(&self.commitment, &scaled);
        let r = vg_eq(&lhs, &rhs);
        proof {
            if all_in_r(vg_seq(bases@)) && in_r(vg_of(self.commitment)) && in_r(
                vg_of(*commitment),
            ) {
                lemma_mod_r_add_right(
                    vg_of(self.commitment),
                    fr_of(*challenge) * vg_of(*commitment),
                );
            }
        }
        Ok(r)
    }
}

} // verus!
