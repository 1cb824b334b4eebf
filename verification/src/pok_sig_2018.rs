//! Proof of knowledge of a 2018 signature: the protocol of `pok_sig` run
//! on the message vector extended by `m_prime`, whose slot is always
//! hidden and always gets a fresh blinding.

use vstd::prelude::*;
use std::collections::HashSet;
use crate::backend::{fe_clone, fr_of, vg_of};
use crate::errors::PSError;
use crate::keys::{fr_seq, vg_seq, Params, Verkey};
use crate::pok_sig::{
    count_hidden, pok_transcript, PoKOfSignature as PoKOfSignature16, PoKOfSignatureProof,
};
use crate::signature_2018::Signature;
use amcl_wrapper::field_elem::FieldElement;

verus! {

/// The prover state of the 2018 proof: the 2016 state over the extended
/// message vector.
pub struct PoKOfSignature(pub PoKOfSignature16);

impl PoKOfSignature {
    /// Start a proof of knowledge of a 2018 signature on `messages`,
    /// revealing exactly the indices in `revealed_msg_indices`; the
    /// auxiliary scalar `m_prime` is appended as one more hidden exponent
    /// whose blinding is always fresh, so it can never be revealed.
    pub fn init(
        sig: &Signature,
        vk: &Verkey,
        params: &Params,
        messages: Vec<FieldElement>,
        blindings: Option<&[FieldElement]>,
        revealed_msg_indices: HashSet<usize>,
    ) -> (r: Result<PoKOfSignature, PSError>)
        requires
            messages.len() < usize::MAX,
        ensures
            r is Ok <==> (messages@.len() + 1 == vk.Y_tilde@.len() && (forall|idx: usize|
                revealed_msg_indices@.contains(idx) ==> idx < messages@.len()) && (blindings is Some
                ==> blindings->0@.len() == count_hidden(
                revealed_msg_indices@,
                messages@.len() as int,
            ))),
            messages@.len() + 1 != vk.Y_tilde@.len() ==> r == Err::<PoKOfSignature, PSError>(
                PSError::UnsupportedNoOfMessages {
                    expected: (messages@.len() + 1) as usize,
                    given: vk.Y_tilde@.len() as usize,
                },
            ),
            r is Err ==> (r->Err_0 is UnsupportedNoOfMessages || r->Err_0 is GeneralError),
            r is Ok ==> r->Ok_0.0.links(
                sig.sig,
                *vk,
                *params,
                sig.extended(messages@),
                revealed_msg_indices@,
            ),
    {
        Signature::check_verkey_and_messages_compat(messages.as_slice(), vk)?;
        // m_prime occupies the extra slot and is never revealed
        PoKOfSignature16::validate_revealed_indices(messages.as_slice(), &revealed_msg_indices)?;
        let mut blindings_vec = PoKOfSignature16::get_blindings(
            blindings,
            messages.as_slice(),
            &revealed_msg_indices,
        )?;
        let (t, sigma_prime) = PoKOfSignature16::transform_sig(&sig.sig);
        let ghost user_msgs = messages@;
        let mut messages = messages;
        messages.push(fe_clone(&sig.m_prime));
        blindings_vec.push(None);
        proof {
            assert(fr_seq(messages@) =~= sig.extended(user_msgs));
        }
        let (exponents, j, committed) = PoKOfSignature16::commit_for_pok(
            messages,
            blindings_vec,
            &revealed_msg_indices,
            t,
            vk,
            params,
        );
        proof {
            let ms = sig.extended(user_msgs);
            let rev = revealed_msg_indices@;
            let ev = fr_seq(exponents@);
            assert(ev.len() == exponents@.len());
            assert(ev[0] == fr_of(t));
            assert(fr_of(exponents@[0]) == ev[0]);
            assert(ev.skip(1) =~= crate::pok_sig::hidden_views(ms, rev));
            crate::pok_sig::lemma_hidden_views_len(ms, rev);
        }
        Ok(PoKOfSignature(
            PoKOfSignature16 { secrets: exponents, sig: sigma_prime, J: j, pok_vc: committed },
        ))
    }

    /// The challenge transcript of the prover; byte-equal to what the
    /// verifier rebuilds with
    /// `PoKOfSignatureProof::get_bytes_for_challenge` on matching inputs.
    pub fn to_bytes(&self) -> (r: Vec<u8>)
        ensures
            r@ == pok_transcript(
                self.0.sig.s1v(),
                self.0.sig.s2v(),
                vg_of(self.0.J),
                vg_seq(self.0.pok_vc.gens@),
                vg_of(self.0.pok_vc.commitment),
            ),
    {
        self.0.to_bytes()
    }

    /// Answer the challenge, consuming the prover state.  The resulting
    /// proof is a 2016 proof over the extended message vector and is
    /// verified with that scheme's `verify`.
    pub fn gen_proof(self, challenge: &FieldElement) -> (r: Result<PoKOfSignatureProof, PSError>)
        requires
            self.0.pok_vc.gens@.len() == self.0.pok_vc.blindings@.len(),
        ensures
            r is Ok <==> self.0.secrets@.len() == self.0.pok_vc.gens@.len(),
            r is Err ==> r->Err_0 is UnequalNoOfBasesExponents,
            r is Ok ==> {
                &&& r->Ok_0.sig == self.0.sig
                &&& r->Ok_0.J == self.0.J
                &&& vg_of(r->Ok_0.proof_vc.commitment) == vg_of(self.0.pok_vc.commitment)
                &&& r->Ok_0.proof_vc.responses@.len() == self.0.pok_vc.gens@.len()
                &&& forall|j: int|
                    0 <= j < self.0.pok_vc.gens@.len() ==> fr_of(
                        #[trigger] r->Ok_0.proof_vc.responses@[j],
                    ) == crate::algebra::mod_r(
                        fr_of(self.0.pok_vc.blindings@[j]) + fr_of(*challenge) * fr_of(
                            self.0.secrets@[j],
                        ),
                    )
            },
    {
        self.0.gen_proof(challenge)
    }
}

} // verus!
