//! Proof of knowledge of a 2016 signature with selective disclosure: the
//! holder randomizes the signature, commits to the hidden messages and to
//! the blinding exponent with the verkey-group Schnorr protocol of
//! `pok_vc`, and answers a Fiat-Shamir challenge; the verifier recomputes
//! the commitment from the revealed messages and checks one Schnorr
//! equation and one pairing equation.

use vstd::prelude::*;
use vstd::slice::slice_index_get;
use vstd::string::StringExecFns;
use vstd::calc;
use std::collections::{HashMap, HashSet};
use crate::algebra::{
    dot, in_r, lemma_mod_r_add_right, lemma_mod_r_bound, lemma_mod_r_mul, lemma_mod_r_small,
    lemma_pairing_check_form, lemma_schnorr_completeness, mod_r, schnorr_passes,
};
use crate::backend::{
    ate_2_pairing, fe_clone, fe_random, fr_of, gt_is_one, hashset_len, ser_sg, ser_vg, sg_add,
    sg_is_identity, sg_mul, sg_neg, sg_of, vg_add, vg_clone, vg_mul, vg_neg, vg_of, vg_to_bytes,
};
use crate::errors::PSError;
use crate::keys::{all_in_r, fr_seq, vg_seq, Params, Verkey};
use crate::pok_vc::{vg_seq_bytes, PoKVCProof, ProverCommitted, ProverCommitting};
use crate::signature::Signature;
use amcl_wrapper::field_elem::FieldElement;
use amcl_wrapper::group_elem_g2::G2;

verus! {

/// The subsequence of `vs` at the indices that are not revealed, in index
/// order.
pub open spec fn hidden_views(vs: Seq<int>, revealed: Set<usize>) -> Seq<int>
    decreases vs.len(),
{
    if vs.len() == 0 {
        Seq::empty()
    } else {
        let pre = hidden_views(vs.drop_last(), revealed);
        if revealed.contains((vs.len() - 1) as usize) {
            pre
        } else {
            pre.push(vs.last())
        }
    }
}

/// How many of the indices below `n` are not revealed.
pub open spec fn count_hidden(revealed: Set<usize>, n: int) -> int
    decreases n,
{
    if n <= 0 {
        0
    } else {
        count_hidden(revealed, n - 1) + if revealed.contains((n - 1) as usize) {
            0int
        } else {
            1int
        }
    }
}

/// Extending by one index extends the hidden subsequence exactly when the
/// index is not revealed.
pub proof fn lemma_hidden_views_take_step(vs: Seq<int>, revealed: Set<usize>, i: int)
    requires
        0 <= i < vs.len(),
    ensures
        hidden_views(vs.take(i + 1), revealed) == if revealed.contains(i as usize) {
            hidden_views(vs.take(i), revealed)
        } else {
            hidden_views(vs.take(i), revealed).push(vs[i])
        },
{
    assert(vs.take(i + 1).drop_last() =~= vs.take(i));
    assert(vs.take(i + 1).last() == vs[i]);
}

/// Taking all elements leaves the hidden subsequence unchanged.
pub proof fn lemma_hidden_views_take_all(vs: Seq<int>, revealed: Set<usize>)
    ensures
        hidden_views(vs.take(vs.len() as int), revealed) == hidden_views(vs, revealed),
{
    assert(vs.take(vs.len() as int) =~= vs);
}

/// The hidden subsequence has one entry per unrevealed index.
pub proof fn lemma_hidden_views_len(vs: Seq<int>, revealed: Set<usize>)
    ensures
        hidden_views(vs, revealed).len() == count_hidden(revealed, vs.len() as int),
    decreases vs.len(),
{
    if vs.len() > 0 {
        lemma_hidden_views_len(vs.drop_last(), revealed);
    }
}

/// The residues held by a map of revealed messages.
pub open spec fn map_views(m: Map<usize, FieldElement>) -> Map<usize, int> {
    Map::new(|k: usize| m.dom().contains(k), |k: usize| fr_of(m[k]))
}

/// The revealed part of the verification dot product:
/// the sum of `ytv[i] * vals[i]` over the revealed indices below `n`.
pub open spec fn rev_sum(ytv: Seq<int>, vals: Map<usize, int>, n: int) -> int
    decreases n,
{
    if n <= 0 {
        0
    } else {
        rev_sum(ytv, vals, n - 1) + if vals.dom().contains((n - 1) as usize) {
            ytv[n - 1] * vals[(n - 1) as usize]
        } else {
            0int
        }
    }
}

/// The commitment the verifier reconstructs: `J` minus `X_tilde` minus the
/// revealed contributions.
pub open spec fn verifier_commitment(jv: int, xtv: int, ytv: Seq<int>, vals: Map<usize, int>, n: int)
    -> int {
    mod_r(jv - xtv - rev_sum(ytv, vals, n))
}

/// The pairing equation of the proof: `e(sigma'_1, J) == e(sigma'_2,
/// g_tilde)`.
pub open spec fn pairing_j_passes(s1: int, s2: int, jv: int, tau: int) -> bool {
    mod_r(s1 * jv) == mod_r(s2 * tau)
}

/// The challenge transcript: the randomized signature, `J`, the Schnorr
/// bases in index order, and the Schnorr commitment `T`, all in canonical
/// bytes.
pub open spec fn pok_transcript(s1: int, s2: int, jv: int, bases: Seq<int>, tv: int) -> Seq<u8> {
    ser_sg(s1) + ser_sg(s2) + ser_vg(jv) + vg_seq_bytes(bases) + ser_vg(tv)
}

/// The prover's state between `init` and `gen_proof`: the hidden
/// exponents (the blinding exponent `t`, then the hidden messages), the
/// randomized signature, the public element `J`, and the committed
/// Schnorr state.  Consumed by `gen_proof`; not reusable.
pub struct PoKOfSignature {
    pub secrets: Vec<FieldElement>,
    pub sig: Signature,
    pub J: G2,
    pub pok_vc: ProverCommitted,
}

/// The on-wire proof: the randomized signature, `J`, and the Schnorr
/// commitment with its responses.
pub struct PoKOfSignatureProof {
    pub sig: Signature,
    pub J: G2,
    pub proof_vc: PoKVCProof,
}

impl PoKOfSignature {
    /// An error exactly when some revealed index is not an index into the
    /// messages.
    pub fn validate_revealed_indices(
        messages: &[FieldElement],
        revealed_msg_indices: &HashSet<usize>,
    ) -> (r: Result<(), PSError>)
        ensures
            r is Ok <==> (forall|idx: usize|
                revealed_msg_indices@.contains(idx) ==> idx < messages@.len()),
            r is Err ==> r->Err_0 is GeneralError,
    {
        let ghost s = revealed_msg_indices@;
        let n = messages.len();
        let total = hashset_len(revealed_msg_indices);
        let mut cnt: usize = 0;
        let ghost mut tset: Set<usize> = Set::empty();
        let mut i: usize = 0;
        while i < n
            invariant
                i <= n,
                n == messages@.len(),
                s == revealed_msg_indices@,
                s.finite(),
                tset.finite(),
                tset.len() == cnt,
                cnt <= i,
                forall|u: usize| tset.contains(u) <==> (s.contains(u) && u < i),
            decreases n - i,
        {
            if revealed_msg_indices.contains(&i) {
                proof {
                    assert(!tset.contains(i));
                    tset = tset.insert(i);
                }
                cnt = cnt + 1;
            }
            proof {
                assert(forall|u: usize| tset.contains(u) <==> (s.contains(u) && u < i + 1));
            }
            i = i + 1;
        }
        proof {
            lemma_count_in_range(s, tset, n as int);
        }
        if cnt != total {
            return Err(
                PSError::GeneralError {
                    msg: String::from_str("A revealed index is out of range"),
                },
            );
        }
        Ok(())
    }

    /// Arrange one blinding slot per message: `None` for revealed indices
    /// (no blinding is needed there), the caller's blindings in index
    /// order for hidden ones, or fresh slots if the caller supplied none.
    /// An error exactly when supplied blindings do not number the hidden
    /// messages.
    pub fn get_blindings(
        blindings: Option<&[FieldElement]>,
        messages: &[FieldElement],
        revealed_msg_indices: &HashSet<usize>,
    ) -> (r: Result<Vec<Option<FieldElement>>, PSError>)
        ensures
            r is Ok <==> (blindings is Some ==> blindings->0@.len() == count_hidden(
                revealed_msg_indices@,
                messages@.len() as int,
            )),
            r is Err ==> r->Err_0 is GeneralError,
            r is Ok ==> {
                &&& r->Ok_0@.len() == messages@.len()
                &&& forall|i: int|
                    0 <= i < messages@.len() ==> ((#[trigger] r->Ok_0@[i]) is Some
                        <==> !revealed_msg_indices@.contains(i as usize))
                &&& blindings is Some ==> forall|i: int|
                    0 <= i < messages@.len() && !revealed_msg_indices@.contains(i as usize)
                        ==> fr_of((#[trigger] r->Ok_0@[i])->0) == fr_of(
                        blindings->0@[count_hidden(revealed_msg_indices@, i)],
                    )
            },
    {
        let n = messages.len();
        let mut out: Vec<Option<FieldElement>> = Vec::new();
        match blindings {
            Some(bs) => {
                let mut hidden: usize = 0;
                let mut i: usize = 0;
                while i < n
                    invariant
                        i <= n,
                        n == messages@.len(),
                        hidden == count_hidden(revealed_msg_indices@, i as int),
                        hidden <= i,
                    decreases n - i,
                {
                    if !revealed_msg_indices.contains(&i) {
                        hidden = hidden + 1;
                    }
                    i = i + 1;
                }
                if bs.len() != hidden {
                    return Err(
                        PSError::GeneralError {
                            msg: String::from_str(
                                "The blinding count must match the hidden message count",
                            ),
                        },
                    );
                }
                let mut k: usize = 0;
                let mut i: usize = 0;
                while i < n
                    invariant
                        i <= n,
                        n == messages@.len(),
                        bs@.len() == count_hidden(revealed_msg_indices@, n as int),
                        k == count_hidden(revealed_msg_indices@, i as int),
                        k <= i,
                        out@.len() == i,
                        forall|j: int|
                            0 <= j < i ==> ((#[trigger] out@[j]) is Some
                                <==> !revealed_msg_indices@.contains(j as usize)),
                        forall|j: int|
                            0 <= j < i && !revealed_msg_indices@.contains(j as usize) ==> fr_of(
                                (#[trigger] out@[j])->0,
                            ) == fr_of(bs@[count_hidden(revealed_msg_indices@, j)]),
                    decreases n - i,
                {
                    if revealed_msg_indices.contains(&i) {
                        out.push(None);
                    } else {
                        proof {
                            lemma_count_hidden_bound(revealed_msg_indices@, n as int, i as int);
                        }
                        out.push(Some(fe_clone(slice_index_get(bs, k))));
                        k = k + 1;
                    }
                    i = i + 1;
                }
                Ok(out)
            },
            None => {
                let mut i: usize = 0;
                while i < n
                    invariant
                        i <= n,
                        n == messages@.len(),
                        out@.len() == i,
                        forall|j: int|
                            0 <= j < i ==> ((#[trigger] out@[j]) is Some
                                <==> !revealed_msg_indices@.contains(j as usize)),
                    decreases n - i,
                {
                    if revealed_msg_indices.contains(&i) {
                        out.push(None);
                    } else {
                        out.push(Some(fe_random()));
                    }
                    i = i + 1;
                }
                Ok(out)
            },
        }
    }

    /// Randomize the signature: sample `r != 0` and `t`, return `t` and
    /// `(sigma_1^r, (sigma_2 * sigma_1^t)^r)`.  The result is unlinkable
    /// to the original but satisfies the related pairing equation with
    /// `g_tilde^t` folded in.
    pub fn transform_sig(sig: &Signature) -> (r: (FieldElement, Signature))
        ensures
            in_r(fr_of(r.0)),
            sig.wf() ==> r.1.wf(),
            sig.wf() && sig.s1v() != 0 ==> r.1.s1v() != 0,
            sig.wf() ==> exists|rv: int|
                in_r(rv) && rv != 0 && r.1.s1v() == mod_r(#[trigger] (rv * sig.s1v()))
                    && r.1.s2v() == mod_r(rv * (sig.s2v() + fr_of(r.0) * sig.s1v())),
    {
        let rr = fe_random();
        let t = fe_random();
        let blinded = sg_mul(&sig.sigma_1, &t);
        let summed = sg_add(&sig.sigma_2, &blinded);
        let sigma_1 = sg_mul(&sig.sigma_1, &rr);
        let sigma_2 = sg_mul(&summed, &rr);
        proof {
            if sig.wf() {
                let rv = fr_of(rr);
                let tv = fr_of(t);
                lemma_mod_r_small(rv);
                // fold the reductions of the inner sum into one residue
                calc! {
                    (==)
                    mod_r(rv * mod_r(sig.s2v() + mod_r(tv * sig.s1v()))); {
                        lemma_mod_r_add_right(sig.s2v(), tv * sig.s1v());
                        lemma_mod_r_mul(rv, sig.s2v() + tv * sig.s1v());
                    }
                    mod_r(rv * (sig.s2v() + tv * sig.s1v()));
                }
                assert(exists|rvw: int|
                    in_r(rvw) && rvw != 0 && sg_of(sigma_1) == mod_r(rvw * sig.s1v()) && sg_of(
                        sigma_2,
                    ) == mod_r(#[trigger] (rvw * (sig.s2v() + tv * sig.s1v())))) by {
                    assert(sg_of(sigma_2) == mod_r((rv * (sig.s2v() + tv * sig.s1v()))));
                }
            }
        }
        (t, Signature { sigma_1, sigma_2 })
    }
}

impl PoKOfSignature {
    /// Whether a prover state carries a correct commitment for `sig` on
    /// `ms` under `vk`, `params` and the revealed set: the secrets are the
    /// blinding exponent followed by the hidden messages, the bases are
    /// `g_tilde` followed by the hidden `Y_tilde` elements, `J` folds the
    /// whole message vector and the blinding exponent, and the randomized
    /// signature is a non-degenerate transform of `sig`.
    pub open spec fn links(
        self,
        sig: Signature,
        vk: Verkey,
        params: Params,
        ms: Seq<int>,
        revealed: Set<usize>,
    ) -> bool {
        &&& self.secrets@.len() == 1 + count_hidden(revealed, ms.len() as int)
        &&& fr_seq(self.secrets@).skip(1) == hidden_views(ms, revealed)
        &&& vg_seq(self.pok_vc.gens@) == seq![params.tv()] + hidden_views(vk.ytv(), revealed)
        &&& self.pok_vc.gens@.len() == self.pok_vc.blindings@.len()
        &&& self.pok_vc.gens@.len() == self.secrets@.len()
        &&& (sig.wf() && vk.wf() && params.wf()) ==> {
            &&& self.sig.wf()
            &&& (sig.s1v() != 0 ==> self.sig.s1v() != 0)
            &&& in_r(vg_of(self.J))
            &&& in_r(fr_of(self.secrets@[0]))
            &&& vg_of(self.J) == mod_r(
                vk.xtv() + dot(vk.ytv(), ms) + fr_of(self.secrets@[0]) * params.tv(),
            )
            &&& in_r(vg_of(self.pok_vc.commitment))
            &&& vg_of(self.pok_vc.commitment) == mod_r(
                dot(vg_seq(self.pok_vc.gens@), fr_seq(self.pok_vc.blindings@)),
            )
            &&& exists|rv: int|
                in_r(rv) && rv != 0 && self.sig.s1v() == mod_r(rv * sig.s1v()) && self.sig.s2v()
                    == mod_r(
                    #[trigger] (rv * (sig.s2v() + fr_of(self.secrets@[0]) * sig.s1v())),
                )
        }
    }

    /// Build the ordered hidden exponents (the blinding exponent `t`, then
    /// the hidden messages), the matching bases (`g_tilde`, then the
    /// hidden `Y_tilde` elements), the public element
    /// `J = X_tilde * prod Y_tilde[i]^{m_i} * g_tilde^t`, and the
    /// committed Schnorr state.
    pub fn commit_for_pok(
        messages: Vec<FieldElement>,
        blindings: Vec<Option<FieldElement>>,
        revealed_msg_indices: &HashSet<usize>,
        t: FieldElement,
        vk: &Verkey,
        params: &Params,
    ) -> (r: (Vec<FieldElement>, G2, ProverCommitted))
        requires
            messages@.len() == vk.Y_tilde@.len(),
            blindings@.len() == messages@.len(),
        ensures
            fr_seq(r.0@) == seq![fr_of(t)] + hidden_views(
                fr_seq(messages@),
                revealed_msg_indices@,
            ),
            vg_seq(r.2.gens@) == seq![params.tv()] + hidden_views(
                vk.ytv(),
                revealed_msg_indices@,
            ),
            r.2.gens@.len() == r.2.blindings@.len(),
            r.2.gens@.len() == r.0@.len(),
            (vk.wf() && params.wf()) ==> {
                &&& in_r(vg_of(r.1))
                &&& vg_of(r.1) == mod_r(
                    vk.xtv() + dot(vk.ytv(), fr_seq(messages@)) + fr_of(t) * params.tv(),
                )
                &&& in_r(vg_of(r.2.commitment))
                &&& vg_of(r.2.commitment) == mod_r(
                    dot(vg_seq(r.2.gens@), fr_seq(r.2.blindings@)),
                )
            },
    {
        let n = messages.len();
        let ghost msv = fr_seq(messages@);
        let ghost ytv = vk.ytv();
        let ghost rev = revealed_msg_indices@;
        let mut committing = ProverCommitting::new();
        committing.commit(&params.g_tilde, None);
        let mut exponents: Vec<FieldElement> = Vec::new();
        exponents.push(fe_clone(&t));
        proof {
            assert(fr_seq(exponents@) =~= seq![fr_of(t)] + hidden_views(msv.take(0), rev));
            assert(vg_seq(committing.gens@) =~= seq![params.tv()] + hidden_views(
                ytv.take(0),
                rev,
            ));
        }
        let mut i: usize = 0;
        while i < n
            invariant
                i <= n,
                n == messages@.len(),
                n == vk.Y_tilde@.len(),
                n == blindings@.len(),
                msv == fr_seq(messages@),
                ytv == vk.ytv(),
                rev == revealed_msg_indices@,
                committing.gens@.len() == committing.blindings@.len(),
                exponents@.len() == committing.gens@.len(),
                fr_seq(exponents@) == seq![fr_of(t)] + hidden_views(msv.take(i as int), rev),
                vg_seq(committing.gens@) == seq![params.tv()] + hidden_views(
                    ytv.take(i as int),
                    rev,
                ),
            decreases n - i,
        {
            let ghost old_gens = committing.gens@;
            let ghost old_exps = exponents@;
            if !revealed_msg_indices.contains(&i) {
                committing.commit(&vk.Y_tilde[i], blindings[i].as_ref());
                exponents.push(fe_clone(&messages[i]));
                proof {
                    assert(vg_seq(committing.gens@) =~= vg_seq(old_gens).push(ytv[i as int]));
                    assert(fr_seq(exponents@) =~= fr_seq(old_exps).push(msv[i as int]));
                }
            }
            proof {
                lemma_hidden_views_take_step(msv, rev, i as int);
                lemma_hidden_views_take_step(ytv, rev, i as int);
                if !rev.contains(i) {
                    assert(fr_seq(exponents@) =~= seq![fr_of(t)] + hidden_views(
                        msv.take(i + 1),
                        rev,
                    ));
                    assert(vg_seq(committing.gens@) =~= seq![params.tv()] + hidden_views(
                        ytv.take(i + 1),
                        rev,
                    ));
                }
            }
            i = i + 1;
        }
        proof {
            lemma_hidden_views_take_all(msv, rev);
            lemma_hidden_views_take_all(ytv, rev);
            assert(msv.take(msv.len() as int) == msv.take(n as int));
            assert(ytv.take(ytv.len() as int) == ytv.take(n as int));
        }
        // J = X_tilde * prod Y_tilde[i]^{m_i} * g_tilde^t
        let mut j_acc = vg_clone(&vk.X_tilde);
        proof {
            if vk.wf() && params.wf() {
                lemma_mod_r_small(vk.xtv());
                assert(ytv.take(0) =~= Seq::<int>::empty());
                assert(msv.take(0) =~= Seq::<int>::empty());
            }
        }
        let mut i: usize = 0;
        while i < n
            invariant
                i <= n,
                n == messages@.len(),
                n == vk.Y_tilde@.len(),
                msv == fr_seq(messages@),
                ytv == vk.ytv(),
                vk.wf() && params.wf() ==> in_r(vg_of(j_acc)),
                vk.wf() && params.wf() ==> vg_of(j_acc) == mod_r(
                    vk.xtv() + dot(ytv.take(i as int), msv.take(i as int)),
                ),
            decreases n - i,
        {
            let term = vg_mul(&vk.Y_tilde[i], &messages[i]);
            let next = vg_add(&j_acc, &term);
            proof {
                if vk.wf() && params.wf() {
                    let xt = vk.xtv();
                    let d = dot(ytv.take(i as int), msv.take(i as int));
                    crate::algebra::lemma_dot_take_step(ytv, msv, i as int);
                    lemma_mod_r_add_right(xt + d, msv[i as int] * ytv[i as int]);
                    lemma_mod_r_add_right(mod_r(msv[i as int] * ytv[i as int]), xt + d);
                    lemma_mod_r_add_right(msv[i as int] * ytv[i as int], xt + d);
                    assert(msv[i as int] * ytv[i as int] == ytv[i as int] * msv[i as int])
                        by (nonlinear_arith);
                }
            }
            j_acc = next;
            i = i + 1;
        }
        proof {
            if vk.wf() && params.wf() {
                crate::algebra::lemma_dot_take_all(ytv, msv);
                assert(ytv.take(ytv.len() as int) == ytv.take(n as int));
                assert(msv.take(msv.len() as int) == msv.take(n as int));
            }
        }
        let t_term = vg_mul(&params.g_tilde, &t);
        let j = vg_add(&j_acc, &t_term);
        proof {
            if vk.wf() && params.wf() {
                let base = vk.xtv() + dot(ytv, msv);
                lemma_mod_r_add_right(base, fr_of(t) * params.tv());
                lemma_mod_r_add_right(mod_r(fr_of(t) * params.tv()), base);
                lemma_mod_r_add_right(fr_of(t) * params.tv(), base);
            }
        }
        let committed = committing.finish();
        proof {
            if vk.wf() && params.wf() {
                lemma_hidden_views_in_r(ytv, rev);
                assert(crate::keys::all_in_r(vg_seq(committed.gens@))) by {
                    let gv = seq![params.tv()] + hidden_views(ytv, rev);
                    assert(forall|k: int|
                        1 <= k < gv.len() ==> #[trigger] gv[k] == hidden_views(ytv, rev)[k - 1]);
                }
            }
        }
        (exponents, j, committed)
    }
}

impl PoKOfSignature {
    /// Start a proof of knowledge of `sig` on `messages` under `vk`,
    /// revealing exactly the indices in `revealed_msg_indices`: validate
    /// the inputs, randomize the signature, and commit to the blinding
    /// exponent and the hidden messages.
    pub fn init(
        sig: &Signature,
        vk: &Verkey,
        params: &Params,
        messages: Vec<FieldElement>,
        blindings: Option<&[FieldElement]>,
        revealed_msg_indices: HashSet<usize>,
    ) -> (r: Result<PoKOfSignature, PSError>)
        ensures
            r is Ok <==> (messages@.len() == vk.Y_tilde@.len() && (forall|idx: usize|
                revealed_msg_indices@.contains(idx) ==> idx < messages@.len()) && (blindings is Some
                ==> blindings->0@.len() == count_hidden(
                revealed_msg_indices@,
                messages@.len() as int,
            ))),
            messages@.len() != vk.Y_tilde@.len() ==> r == Err::<PoKOfSignature, PSError>(
                PSError::UnsupportedNoOfMessages {
                    expected: messages@.len() as usize,
                    given: vk.Y_tilde@.len() as usize,
                },
            ),
            r is Err ==> (r->Err_0 is UnsupportedNoOfMessages || r->Err_0 is GeneralError),
            r is Ok ==> r->Ok_0.links(
                *sig,
                *vk,
                *params,
                fr_seq(messages@),
                revealed_msg_indices@,
            ),
    {
        Signature::check_verkey_and_messages_compat(messages.as_slice(), vk)?;
        Self::validate_revealed_indices(messages.as_slice(), &revealed_msg_indices)?;
        let blindings_vec = Self::get_blindings(
            blindings,
            messages.as_slice(),
            &revealed_msg_indices,
        )?;
        let (t, sigma_prime) = Self::transform_sig(sig);
        let ghost tv = fr_of(t);
        let (exponents, j, committed) = Self::commit_for_pok(
            messages,
            blindings_vec,
            &revealed_msg_indices,
            t,
            vk,
            params,
        );
        proof {
            let ev = fr_seq(exponents@);
            assert(ev.len() == exponents@.len());
            assert(ev[0] == tv);
            assert(fr_of(exponents@[0]) == ev[0]);
            assert(ev.skip(1) =~= hidden_views(fr_seq(messages@), revealed_msg_indices@));
            lemma_hidden_views_len(fr_seq(messages@), revealed_msg_indices@);
        }
        Ok(PoKOfSignature { secrets: exponents, sig: sigma_prime, J: j, pok_vc: committed })
    }

    /// The challenge transcript of the prover: the randomized signature,
    /// `J`, the Schnorr bases in order, and the Schnorr commitment, in
    /// canonical bytes.  Byte-equal to what the verifier rebuilds with
    /// `PoKOfSignatureProof::get_bytes_for_challenge` on matching inputs.
    pub fn to_bytes(&self) -> (r: Vec<u8>)
        ensures
            r@ == pok_transcript(
                self.sig.s1v(),
                self.sig.s2v(),
                vg_of(self.J),
                vg_seq(self.pok_vc.gens@),
                vg_of(self.pok_vc.commitment),
            ),
    {
        let mut bytes = self.sig.to_bytes();
        let mut jb = vg_to_bytes(&self.J);
        bytes.append(&mut jb);
        let mut vcb = self.pok_vc.to_bytes();
        bytes.append(&mut vcb);
        proof {
            assert(bytes@ =~= pok_transcript(
                self.sig.s1v(),
                self.sig.s2v(),
                vg_of(self.J),
                vg_seq(self.pok_vc.gens@),
                vg_of(self.pok_vc.commitment),
            ));
        }
        bytes
    }

    /// Answer the challenge, consuming the prover state: one response per
    /// hidden exponent.
    pub fn gen_proof(self, challenge: &FieldElement) -> (r: Result<PoKOfSignatureProof, PSError>)
        requires
            self.pok_vc.gens@.len() == self.pok_vc.blindings@.len(),
        ensures
            r is Ok <==> self.secrets@.len() == self.pok_vc.gens@.len(),
            r is Err ==> r->Err_0 is UnequalNoOfBasesExponents,
            r is Ok ==> {
                &&& r->Ok_0.sig == self.sig
                &&& r->Ok_0.J == self.J
                &&& vg_of(r->Ok_0.proof_vc.commitment) == vg_of(self.pok_vc.commitment)
                &&& r->Ok_0.proof_vc.responses@.len() == self.pok_vc.gens@.len()
                &&& forall|j: int|
                    0 <= j < self.pok_vc.gens@.len() ==> fr_of(
                        #[trigger] r->Ok_0.proof_vc.responses@[j],
                    ) == mod_r(
                        fr_of(self.pok_vc.blindings@[j]) + fr_of(*challenge) * fr_of(
                            self.secrets@[j],
                        ),
                    )
            },
    {
        let PoKOfSignature { secrets, sig, J, pok_vc } = self;
        let proof_vc = pok_vc.gen_proof(challenge, secrets.as_slice())?;
        Ok(PoKOfSignatureProof { sig, J, proof_vc })
    }
}

impl PoKOfSignatureProof {
    /// Rebuild the challenge transcript from public data: the randomized
    /// signature, `J`, the bases `g_tilde` and the unrevealed `Y_tilde`
    /// elements in index order, and the Schnorr commitment.
    pub fn get_bytes_for_challenge(
        &self,
        revealed_msg_indices: HashSet<usize>,
        vk: &Verkey,
        params: &Params,
    ) -> (r: Vec<u8>)
        ensures
            r@ == pok_transcript(
                self.sig.s1v(),
                self.sig.s2v(),
                vg_of(self.J),
                seq![params.tv()] + hidden_views(vk.ytv(), revealed_msg_indices@),
                vg_of(self.proof_vc.commitment),
            ),
    {
        let ghost ytv = vk.ytv();
        let ghost rev = revealed_msg_indices@;
        let mut bytes = self.sig.to_bytes();
        let mut jb = vg_to_bytes(&self.J);
        bytes.append(&mut jb);
        let mut bb = vg_to_bytes(&params.g_tilde);
        bytes.append(&mut bb);
        let ghost prefix = ser_sg(self.sig.s1v()) + ser_sg(self.sig.s2v()) + ser_vg(vg_of(self.J));
        proof {
            let s0 = seq![params.tv()] + hidden_views(ytv.take(0), rev);
            assert(hidden_views(ytv.take(0), rev) =~= Seq::<int>::empty());
            assert(s0 =~= seq![params.tv()]);
            assert(s0.drop_last() =~= Seq::<int>::empty());
            assert(vg_seq_bytes(s0.drop_last()) =~= Seq::<u8>::empty());
            assert(s0.len() == 1 && s0.last() == params.tv());
            assert(vg_seq_bytes(s0) =~= ser_vg(params.tv()));
            assert(bytes@ =~= prefix + vg_seq_bytes(s0));
        }
        let n = vk.Y_tilde.len();
        let mut i: usize = 0;
        while i < n
            invariant
                i <= n,
                n == vk.Y_tilde@.len(),
                ytv == vk.ytv(),
                rev == revealed_msg_indices@,
                bytes@ == prefix + vg_seq_bytes(seq![params.tv()] + hidden_views(
                    ytv.take(i as int),
                    rev,
                )),
            decreases n - i,
        {
            let ghost old_bases = seq![params.tv()] + hidden_views(ytv.take(i as int), rev);
            if !revealed_msg_indices.contains(&i) {
                let mut gb = vg_to_bytes(&vk.Y_tilde[i]);
                bytes.append(&mut gb);
                proof {
                    let nb = old_bases.push(ytv[i as int]);
                    assert(nb.drop_last() =~= old_bases);
                    assert(vg_seq_bytes(nb) == vg_seq_bytes(old_bases) + ser_vg(ytv[i as int]));
                }
            }
            proof {
                lemma_hidden_views_take_step(ytv, rev, i as int);
                if !rev.contains(i) {
                    assert(seq![params.tv()] + hidden_views(ytv.take(i + 1), rev) =~= old_bases.push(
                        ytv[i as int],
                    ));
                }
                assert(bytes@ =~= prefix + vg_seq_bytes(
                    seq![params.tv()] + hidden_views(ytv.take(i + 1), rev),
                ));
            }
            i = i + 1;
        }
        let mut tb = vg_to_bytes(&self.proof_vc.commitment);
        bytes.append(&mut tb);
        proof {
            lemma_hidden_views_take_all(ytv, rev);
            assert(ytv.take(ytv.len() as int) == ytv.take(n as int));
            assert(bytes@ =~= pok_transcript(
                self.sig.s1v(),
                self.sig.s2v(),
                vg_of(self.J),
                seq![params.tv()] + hidden_views(ytv, rev),
                vg_of(self.proof_vc.commitment),
            ));
        }
        bytes
    }

    /// Verify the proof against the revealed messages and the challenge:
    /// an error for a revealed index that is out of range or for a
    /// response count that does not match the hidden exponents; otherwise
    /// `true` exactly when the randomized signature is non-degenerate, the
    /// Schnorr equation holds against the reconstructed commitment, and
    /// the pairing equation holds.
    pub fn verify(
        &self,
        vk: &Verkey,
        params: &Params,
        revealed_msgs: HashMap<usize, FieldElement>,
        challenge: &FieldElement,
    ) -> (r: Result<bool, PSError>)
        ensures
            r is Ok <==> ((forall|k: usize|
                revealed_msgs@.dom().contains(k) ==> k < vk.Y_tilde@.len()) && (self.sig.s1v() == 0
                || 1 + count_hidden(revealed_msgs@.dom(), vk.Y_tilde@.len() as int)
                == self.proof_vc.responses@.len())),
            !(forall|k: usize| revealed_msgs@.dom().contains(k) ==> k < vk.Y_tilde@.len()) ==> r
                is Err && r->Err_0 is GeneralError,
            r is Err ==> (r->Err_0 is GeneralError || r->Err_0 is UnequalNoOfBasesExponents),
            r is Ok && self.sig.wf() && vk.wf() && params.wf() && in_r(vg_of(self.J)) && in_r(
                vg_of(self.proof_vc.commitment),
            ) ==> r == Ok::<bool, PSError>(
                self.sig.s1v() != 0 && schnorr_passes(
                    seq![params.tv()] + hidden_views(vk.ytv(), revealed_msgs@.dom()),
                    fr_seq(self.proof_vc.responses@),
                    vg_of(self.proof_vc.commitment),
                    verifier_commitment(
                        vg_of(self.J),
                        vk.xtv(),
                        vk.ytv(),
                        map_views(revealed_msgs@),
                        vk.Y_tilde@.len() as int,
                    ),
                    fr_of(*challenge),
                ) && pairing_j_passes(
                    self.sig.s1v(),
                    self.sig.s2v(),
                    vg_of(self.J),
                    params.tv(),
                ),
            ),
    {
        let ghost dom = revealed_msgs@.dom();
        let ghost vals = map_views(revealed_msgs@);
        let ghost ytv = vk.ytv();
        let n = vk.Y_tilde.len();
        // every revealed index must be an index into the key
        let total = revealed_msgs.len();
        let mut cnt: usize = 0;
        let ghost mut tset: Set<usize> = Set::empty();
        let mut i: usize = 0;
        while i < n
            invariant
                i <= n,
                n == vk.Y_tilde@.len(),
                dom == revealed_msgs@.dom(),
                dom.finite(),
                total == dom.len(),
                tset.finite(),
                tset.len() == cnt,
                cnt <= i,
                forall|u: usize| tset.contains(u) <==> (dom.contains(u) && u < i),
            decreases n - i,
        {
            if revealed_msgs.contains_key(&i) {
                proof {
                    assert(!tset.contains(i));
                    tset = tset.insert(i);
                }
                cnt = cnt + 1;
            }
            proof {
                assert(forall|u: usize| tset.contains(u) <==> (dom.contains(u) && u < i + 1));
            }
            i = i + 1;
        }
        proof {
            lemma_count_in_range(dom, tset, n as int);
        }
        if cnt != total {
            return Err(
                PSError::GeneralError {
                    msg: String::from_str("A revealed index is out of range"),
                },
            );
        }
        if sg_is_identity(&self.sig.sigma_1) {
            return Ok(false);
        }
        // the bases: g_tilde, then the unrevealed Y_tilde elements
        let mut bases: Vec<G2> = Vec::new();
        bases.push(vg_clone(&params.g_tilde));
        proof {
            assert(vg_seq(bases@) =~= seq![params.tv()] + hidden_views(ytv.take(0), dom));
        }
        let mut i: usize = 0;
        while i < n
            invariant
                i <= n,
                n == vk.Y_tilde@.len(),
                dom == revealed_msgs@.dom(),
                ytv == vk.ytv(),
                vg_seq(bases@) == seq![params.tv()] + hidden_views(ytv.take(i as int), dom),
            decreases n - i,
        {
            let ghost old_bases = bases@;
            if !revealed_msgs.contains_key(&i) {
                bases.push(vg_clone(&vk.Y_tilde[i]));
                proof {
                    assert(vg_seq(bases@) =~= vg_seq(old_bases).push(ytv[i as int]));
                }
            }
            proof {
                lemma_hidden_views_take_step(ytv, dom, i as int);
                if !dom.contains(i) {
                    assert(vg_seq(bases@) =~= seq![params.tv()] + hidden_views(
                        ytv.take(i + 1),
                        dom,
                    ));
                }
            }
            i = i + 1;
        }
        proof {
            lemma_hidden_views_take_all(ytv, dom);
            assert(ytv.take(ytv.len() as int) == ytv.take(n as int));
            lemma_hidden_views_len(ytv, dom);
            if vk.wf() && params.wf() {
                lemma_hidden_views_in_r(ytv, dom);
                assert(crate::keys::all_in_r(vg_seq(bases@))) by {
                    let gv = seq![params.tv()] + hidden_views(ytv, dom);
                    assert(forall|k: int|
                        1 <= k < gv.len() ==> #[trigger] gv[k] == hidden_views(ytv, dom)[k - 1]);
                }
            }
        }
        // the commitment the prover opened: J minus X_tilde minus the
        // revealed contributions
        let neg_xt = vg_neg(&vk.X_tilde);
        let mut c_acc = vg_add(&self.J, &neg_xt);
        let ghost wfv = vk.wf() && params.wf() && in_r(vg_of(self.J));
        proof {
            if wfv {
                crate::algebra::lemma_mod_r_sub(vg_of(self.J), vk.xtv());
                lemma_mod_r_bound(vg_of(self.J) - vk.xtv());
            }
        }
        let mut i: usize = 0;
        while i < n
            invariant
                i <= n,
                n == vk.Y_tilde@.len(),
                dom == revealed_msgs@.dom(),
                vals == map_views(revealed_msgs@),
                ytv == vk.ytv(),
                wfv == (vk.wf() && params.wf() && in_r(vg_of(self.J))),
                wfv ==> in_r(vg_of(c_acc)),
                wfv ==> vg_of(c_acc) == mod_r(
                    vg_of(self.J) - vk.xtv() - rev_sum(ytv, vals, i as int),
                ),
            decreases n - i,
        {
            if revealed_msgs.contains_key(&i) {
                match revealed_msgs.get(&i) {
                    Some(m) => {
                        let term = vg_mul(&vk.Y_tilde[i], m);
                        let neg_term = vg_neg(&term);
                        let next = vg_add(&c_acc, &neg_term);
                        proof {
                            if wfv {
                                let base = vg_of(self.J) - vk.xtv() - rev_sum(
                                    ytv,
                                    vals,
                                    i as int,
                                );
                                let tv_ = fr_of(*m) * ytv[i as int];
                                crate::algebra::lemma_mod_r_sub(vg_of(c_acc), mod_r(tv_));
                                crate::algebra::lemma_mod_r_equivalence(
                                    vg_of(c_acc) - mod_r(tv_),
                                    base - tv_,
                                );
                                crate::algebra::lemma_mod_r_equivalence(base - mod_r(tv_), base - tv_);
                                assert(mod_r(mod_r(tv_) - tv_) == 0) by {
                                    lemma_mod_r_bound(tv_);
                                    crate::algebra::lemma_mod_r_equivalence(mod_r(tv_), tv_);
                                }
                                assert(mod_r(vg_of(c_acc) - mod_r(tv_)) == mod_r(base - tv_)) by {
                                    crate::algebra::lemma_mod_r_equivalence(vg_of(c_acc), base);
                                    lemma_mod_r_bound(base);
                                    crate::algebra::lemma_mod_r_equivalence(
                                        vg_of(c_acc) - mod_r(tv_),
                                        base - mod_r(tv_),
                                    );
                                    crate::algebra::lemma_mod_r_equivalence(
                                        base - mod_r(tv_),
                                        base - tv_,
                                    );
                                }
                                assert(vals.dom().contains(i));
                                assert(vals[i] == fr_of(revealed_msgs@[i]));
                                assert(fr_of(*m) == fr_of(revealed_msgs@[i]));
                                assert(rev_sum(ytv, vals, i + 1) == rev_sum(ytv, vals, i as int)
                                    + ytv[i as int] * vals[i]);
                                assert(fr_of(*m) * ytv[i as int] == ytv[i as int] * fr_of(*m))
                                    by (nonlinear_arith);
                            }
                        }
                        c_acc = next;
                    },
                    None => {
                        proof {
                            assert(false);
                        }
                    },
                }
            } else {
                proof {
                    if wfv {
                        assert(!vals.dom().contains(i));
                        assert(rev_sum(ytv, vals, i + 1) == rev_sum(ytv, vals, i as int));
                    }
                }
            }
            i = i + 1;
        }
        // the Schnorr equation against the reconstructed commitment
        let vc_ok = self.proof_vc.verify(bases.as_slice(), &c_acc, challenge)?;
        if !vc_ok {
            return Ok(false);
        }
        // the pairing equation e(sigma'_1, J) == e(sigma'_2, g_tilde)
        let neg_s2 = sg_neg(&self.sig.sigma_2);
        let e = ate_2_pairing(&self.sig.sigma_1, &self.J, &neg_s2, &params.g_tilde);
        let pairing_ok = gt_is_one(&e);
        proof {
            if self.sig.wf() && wfv {
                lemma_pairing_check_form(
                    self.sig.s1v(),
                    self.sig.s2v(),
                    vg_of(self.J),
                    params.tv(),
                );
            }
        }
        Ok(pairing_ok)
    }
}

/// Unrevealed indices below `i` number at most `i`, and no more than the
/// unrevealed indices below any larger bound.
pub proof fn lemma_count_hidden_bound(revealed: Set<usize>, n: int, i: int)
    requires
        0 <= i < n,
    ensures
        count_hidden(revealed, i) + if revealed.contains(i as usize) {
            0int
        } else {
            1int
        } <= count_hidden(revealed, n),
    decreases n,
{
    if i + 1 < n {
        lemma_count_hidden_bound(revealed, n - 1, i);
        lemma_count_hidden_monotone_step(revealed, n - 1);
    }
}

/// Counting one more index never shrinks the count.
pub proof fn lemma_count_hidden_monotone_step(revealed: Set<usize>, n: int)
    requires
        n >= 0,
    ensures
        count_hidden(revealed, n) <= count_hidden(revealed, n + 1),
{
}

/// Every entry of the hidden subsequence is an entry of the original, so
/// canonical ranges carry over.
pub proof fn lemma_hidden_views_in_r(vs: Seq<int>, revealed: Set<usize>)
    requires
        crate::keys::all_in_r(vs),
    ensures
        crate::keys::all_in_r(hidden_views(vs, revealed)),
    decreases vs.len(),
{
    if vs.len() > 0 {
        assert(crate::keys::all_in_r(vs.drop_last())) by {
            assert(forall|i: int|
                0 <= i < vs.len() - 1 ==> vs.drop_last()[i] == #[trigger] vs[i]);
        }
        lemma_hidden_views_in_r(vs.drop_last(), revealed);
    }
}

/// A finite set has as many members below `n` as members overall exactly
/// when every member lies below `n`.
pub proof fn lemma_count_in_range(s: Set<usize>, tset: Set<usize>, n: int)
    requires
        s.finite(),
        tset.finite(),
        forall|u: usize| tset.contains(u) <==> (s.contains(u) && u < n),
    ensures
        (tset.len() == s.len()) <==> (forall|u: usize| s.contains(u) ==> u < n),
{
    if forall|u: usize| s.contains(u) ==> u < n {
        assert(tset =~= s);
    } else {
        let u0 = choose|u0: usize| s.contains(u0) && !(u0 < n);
        let s1 = s.remove(u0);
        assert(tset.subset_of(s1));
        vstd::set_lib::lemma_len_subset(tset, s1);
        assert(s1.len() == s.len() - 1);
    }
}

/// Dot product of sequences extended at the front.
pub proof fn lemma_dot_cons(a: int, b: int, s: Seq<int>, t: Seq<int>)
    requires
        s.len() == t.len(),
    ensures
        dot(seq![a] + s, seq![b] + t) == a * b + dot(s, t),
    decreases s.len(),
{
    let aa = seq![a] + s;
    let bb = seq![b] + t;
    if s.len() == 0 {
        assert(aa =~= seq![a]);
        assert(bb =~= seq![b]);
        assert(aa.drop_last() =~= Seq::<int>::empty());
        assert(bb.drop_last() =~= Seq::<int>::empty());
        assert(dot(aa.drop_last(), bb.drop_last()) == 0);
        assert(aa.last() == a);
        assert(bb.last() == b);
        assert(dot(aa, bb) == dot(aa.drop_last(), bb.drop_last()) + aa.last() * bb.last());
    } else {
        let s1 = s.drop_last();
        let t1 = t.drop_last();
        lemma_dot_cons(a, b, s1, t1);
        assert(aa.drop_last() =~= seq![a] + s1);
        assert(bb.drop_last() =~= seq![b] + t1);
        assert(aa.last() == s.last());
        assert(bb.last() == t.last());
        assert(dot(aa, bb) == dot(aa.drop_last(), bb.drop_last()) + aa.last() * bb.last());
        assert(dot(s, t) == dot(s1, t1) + s.last() * t.last());
    }
}

/// The verification dot product splits into the revealed part and the
/// hidden part, when the revealed values agree with the messages.
pub proof fn lemma_dot_split_revealed(
    yts: Seq<int>,
    ms: Seq<int>,
    revealed: Set<usize>,
    vals: Map<usize, int>,
    n: int,
)
    requires
        yts.len() == ms.len(),
        ms.len() <= usize::MAX,
        0 <= n <= ms.len(),
        forall|k: usize| vals.dom().contains(k) ==> revealed.contains(k),
        forall|k: usize|
            #![trigger revealed.contains(k)]
            k < ms.len() && revealed.contains(k) ==> vals.dom().contains(k) && vals[k] == ms[k as int],
    ensures
        dot(yts.take(n), ms.take(n)) == rev_sum(yts, vals, n) + dot(
            hidden_views(yts.take(n), revealed),
            hidden_views(ms.take(n), revealed),
        ),
    decreases n,
{
    if n == 0 {
        assert(yts.take(0) =~= Seq::<int>::empty());
        assert(ms.take(0) =~= Seq::<int>::empty());
    } else {
        lemma_dot_split_revealed(yts, ms, revealed, vals, n - 1);
        assert((n - 1) as usize as int == n - 1);
        crate::algebra::lemma_dot_take_step(yts, ms, n - 1);
        lemma_hidden_views_take_step(yts, revealed, n - 1);
        lemma_hidden_views_take_step(ms, revealed, n - 1);
        lemma_hidden_views_len(yts.take(n - 1), revealed);
        lemma_hidden_views_len(ms.take(n - 1), revealed);
        if !revealed.contains((n - 1) as usize) {
            let hy = hidden_views(yts.take(n - 1), revealed);
            let hm = hidden_views(ms.take(n - 1), revealed);
            assert(hidden_views(yts.take(n), revealed) == hy.push(yts[n - 1]));
            assert(hidden_views(ms.take(n), revealed) == hm.push(ms[n - 1]));
            assert(hy.push(yts[n - 1]).drop_last() =~= hy);
            assert(hm.push(ms[n - 1]).drop_last() =~= hm);
            assert(dot(hy.push(yts[n - 1]), hm.push(ms[n - 1])) == dot(hy, hm) + yts[n - 1] * ms[n
                - 1]);
            assert(!vals.dom().contains((n - 1) as usize));
        } else {
            assert(vals[(n - 1) as usize] == ms[n - 1]);
        }
    }
}

/// Completeness of the proof of knowledge: an honest prover who holds a
/// signature satisfying the signing equation, randomizes it, commits to
/// the blinding exponent and the hidden messages, and answers the
/// challenge honestly, passes both of the verifier's checks against the
/// commitment reconstructed from correctly revealed messages.
pub proof fn lemma_pok_completeness(
    x: int,
    ys: Seq<int>,
    ms: Seq<int>,
    xt: int,
    yts: Seq<int>,
    tau: int,
    s1: int,
    s2: int,
    rv: int,
    t: int,
    s1p: int,
    s2p: int,
    jv: int,
    revealed: Set<usize>,
    vals: Map<usize, int>,
    bs: Seq<int>,
    c: int,
    resp: Seq<int>,
    tv: int,
)
    requires
        yts.len() == ys.len(),
        ms.len() == ys.len(),
        ms.len() <= usize::MAX,
        xt == mod_r(x * tau),
        forall|i: int| 0 <= i < ys.len() ==> yts[i] == mod_r(#[trigger] ys[i] * tau),
        s2 == mod_r(s1 * crate::algebra::sig_exp(x, ys, ms)),
        s1p == mod_r(rv * s1),
        s2p == mod_r(rv * (s2 + t * s1)),
        jv == mod_r(xt + dot(yts, ms) + t * tau),
        forall|k: usize| vals.dom().contains(k) ==> revealed.contains(k),
        forall|k: usize|
            #![trigger revealed.contains(k)]
            k < ms.len() && revealed.contains(k) ==> vals.dom().contains(k) && vals[k] == ms[k as int],
        bs.len() == 1 + hidden_views(ms, revealed).len(),
        resp.len() == bs.len(),
        forall|j: int|
            0 <= j < bs.len() ==> resp[j] == mod_r(
                #[trigger] bs[j] + c * (seq![t] + hidden_views(ms, revealed))[j],
            ),
        tv == mod_r(dot(seq![tau] + hidden_views(yts, revealed), bs)),
    ensures
        schnorr_passes(
            seq![tau] + hidden_views(yts, revealed),
            resp,
            tv,
            verifier_commitment(jv, xt, yts, vals, ms.len() as int),
            c,
        ),
        pairing_j_passes(s1p, s2p, jv, tau),
{
    let bases = seq![tau] + hidden_views(yts, revealed);
    let secrets = seq![t] + hidden_views(ms, revealed);
    let hy = hidden_views(yts, revealed);
    let hm = hidden_views(ms, revealed);
    lemma_hidden_views_len(yts, revealed);
    lemma_hidden_views_len(ms, revealed);
    // The reconstructed commitment opens to the secrets over the bases.
    let cv = verifier_commitment(jv, xt, yts, vals, ms.len() as int);
    assert(cv == mod_r(dot(bases, secrets))) by {
        lemma_dot_split_revealed(yts, ms, revealed, vals, ms.len() as int);
        crate::algebra::lemma_dot_take_all(yts, ms);
        lemma_hidden_views_take_all(yts, revealed);
        lemma_hidden_views_take_all(ms, revealed);
        let rs = rev_sum(yts, vals, ms.len() as int);
        assert(dot(yts, ms) == rs + dot(hy, hm));
        lemma_dot_cons(tau, t, hy, hm);
        assert(dot(bases, secrets) == tau * t + dot(hy, hm));
        // cv = mod_r(jv - xt - rs) with jv = mod_r(xt + dot(yts, ms) + t*tau)
        let full = xt + dot(yts, ms) + t * tau;
        crate::algebra::lemma_mod_r_equivalence(full, jv);
        lemma_mod_r_bound(full);
        crate::algebra::lemma_mod_r_equivalence(jv - xt - rs, full - xt - rs);
        assert(full - xt - rs == tau * t + dot(hy, hm)) by (nonlinear_arith)
            requires
                full == xt + (rs + dot(hy, hm)) + t * tau,
        ;
    }
    lemma_schnorr_completeness(bases, secrets, bs, c, resp, tv, cv);
    // The pairing equation carries over from the signing equation.
    let d = x + dot(ys, ms);
    assert(pairing_j_passes(s1p, s2p, jv, tau)) by {
        crate::algebra::lemma_dot_key_factor(x, xt, ys, yts, ms, tau);
        // jv == mod_r(d * tau + t * tau)
        assert(jv == mod_r(d * tau + t * tau)) by {
            lemma_mod_r_add_right(t * tau, xt + dot(yts, ms));
            lemma_mod_r_add_right(t * tau, d * tau);
        }
        // left side: rv * s1 * (d*tau + t*tau)
        calc! {
            (==)
            mod_r(s1p * jv); {
                lemma_mod_r_mul(rv * s1, jv);
            }
            mod_r((rv * s1) * jv); {
                lemma_mod_r_mul(rv * s1, d * tau + t * tau);
            }
            mod_r((rv * s1) * (d * tau + t * tau));
        }
        // right side: the same product
        assert(s2 == mod_r(s1 * d)) by {
            lemma_mod_r_mul(s1, d);
        }
        calc! {
            (==)
            mod_r(s2p * tau); {
                lemma_mod_r_mul(rv * (s2 + t * s1), tau);
            }
            mod_r((rv * (s2 + t * s1)) * tau); {
                assert((rv * (s2 + t * s1)) * tau == (rv * tau) * (s2 + t * s1))
                    by (nonlinear_arith);
            }
            mod_r((rv * tau) * (s2 + t * s1)); {
                lemma_mod_r_mul(rv * tau, s2 + t * s1);
                lemma_mod_r_add_right(t * s1, s1 * d);
                lemma_mod_r_mul(rv * tau, s1 * d + t * s1);
            }
            mod_r((rv * tau) * (s1 * d + t * s1)); {
                assert((rv * tau) * (s1 * d + t * s1) == (rv * s1) * (d * tau + t * tau))
                    by (nonlinear_arith);
            }
            mod_r((rv * s1) * (d * tau + t * tau));
        }
    }
}

/// Changing one revealed value shifts the revealed sum by exactly the
/// changed term.
pub proof fn lemma_rev_sum_single_change(
    ytv: Seq<int>,
    vals_a: Map<usize, int>,
    vals_b: Map<usize, int>,
    k: usize,
    n: int,
)
    requires
        n <= usize::MAX,
        vals_b.dom() == vals_a.dom(),
        vals_a.dom().contains(k),
        forall|q: usize|
            vals_a.dom().contains(q) && q != k ==> vals_b[q] == #[trigger] vals_a[q],
    ensures
        rev_sum(ytv, vals_a, n) - rev_sum(ytv, vals_b, n) == if k < n {
            ytv[k as int] * (vals_a[k] - vals_b[k])
        } else {
            0int
        },
    decreases n,
{
    if n > 0 {
        lemma_rev_sum_single_change(ytv, vals_a, vals_b, k, n - 1);
        assert((n - 1) as usize as int == n - 1);
        if vals_a.dom().contains((n - 1) as usize) && (n - 1) as usize == k {
            assert(ytv[n - 1] * vals_a[k] - ytv[n - 1] * vals_b[k] == ytv[n - 1] * (vals_a[k]
                - vals_b[k])) by (nonlinear_arith);
        }
    }
}

/// Soundness sanity of selective disclosure: a proof that passes for the
/// correctly revealed values fails after one revealed value is replaced,
/// whenever the challenge does not annihilate the changed contribution.
/// (A zero challenge, or a key whose `Y_tilde[k]` exponent annihilates the
/// difference, cannot see the change; such values arise only with
/// negligible probability.)
pub proof fn lemma_pok_rejects_wrong_revealed_value(
    bases: Seq<int>,
    resp: Seq<int>,
    tv: int,
    jv: int,
    xtv: int,
    ytv: Seq<int>,
    vals_a: Map<usize, int>,
    vals_b: Map<usize, int>,
    k: usize,
    n: int,
    c: int,
)
    requires
        n <= usize::MAX,
        schnorr_passes(bases, resp, tv, verifier_commitment(jv, xtv, ytv, vals_a, n), c),
        vals_b.dom() == vals_a.dom(),
        vals_a.dom().contains(k),
        k < n,
        forall|q: usize|
            vals_a.dom().contains(q) && q != k ==> vals_b[q] == #[trigger] vals_a[q],
        mod_r(c * (ytv[k as int] * (vals_b[k] - vals_a[k]))) != 0,
    ensures
        !schnorr_passes(bases, resp, tv, verifier_commitment(jv, xtv, ytv, vals_b, n), c),
{
    let cv_a = verifier_commitment(jv, xtv, ytv, vals_a, n);
    let cv_b = verifier_commitment(jv, xtv, ytv, vals_b, n);
    lemma_rev_sum_single_change(ytv, vals_a, vals_b, k, n);
    let ra = rev_sum(ytv, vals_a, n);
    let rb = rev_sum(ytv, vals_b, n);
    // cv_a - cv_b is congruent to the changed contribution
    assert(mod_r(cv_a - cv_b) == mod_r(ytv[k as int] * (vals_b[k] - vals_a[k]))) by {
        crate::algebra::lemma_mod_r_equivalence(jv - xtv - ra, cv_a);
        lemma_mod_r_bound(jv - xtv - ra);
        crate::algebra::lemma_mod_r_equivalence(jv - xtv - rb, cv_b);
        lemma_mod_r_bound(jv - xtv - rb);
        crate::algebra::lemma_mod_r_equivalence(cv_a - cv_b, (jv - xtv - ra) - (jv - xtv - rb));
        assert((jv - xtv - ra) - (jv - xtv - rb) == rb - ra);
        crate::algebra::lemma_mod_r_equivalence(cv_a - cv_b, rb - ra);
        assert(rb - ra == ytv[k as int] * (vals_b[k] - vals_a[k])) by (nonlinear_arith)
            requires
                ra - rb == ytv[k as int] * (vals_a[k] - vals_b[k]),
        ;
        crate::algebra::lemma_mod_r_equivalence(
            ytv[k as int] * (vals_b[k] - vals_a[k]),
            rb - ra,
        );
    }
    // the hypothesis says exactly that c times the change survives
    assert(mod_r(c * (cv_a - cv_b)) != 0) by {
        crate::algebra::lemma_mod_r_mul(c, cv_a - cv_b);
        crate::algebra::lemma_mod_r_mul(c, ytv[k as int] * (vals_b[k] - vals_a[k]));
    }
    lemma_schnorr_commitment_binding(bases, resp, tv, cv_a, cv_b, c);
}

/// Binding of the Schnorr check to the commitment: a proof that passes
/// for one commitment fails for another whenever the challenge does not
/// annihilate their difference.  Changing a revealed message changes the
/// reconstructed commitment, so the check then fails.
pub proof fn lemma_schnorr_commitment_binding(
    bases: Seq<int>,
    resp: Seq<int>,
    tv: int,
    cv_a: int,
    cv_b: int,
    c: int,
)
    requires
        schnorr_passes(bases, resp, tv, cv_a, c),
        mod_r(c * (cv_a - cv_b)) != 0,
    ensures
        !schnorr_passes(bases, resp, tv, cv_b, c),
{
    if schnorr_passes(bases, resp, tv, cv_b, c) {
        crate::algebra::lemma_mod_r_equivalence(tv + c * cv_a, tv + c * cv_b);
        assert((tv + c * cv_a) - (tv + c * cv_b) == c * (cv_a - cv_b)) by (nonlinear_arith);
    }
}

} // verus!
