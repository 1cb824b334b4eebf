//! The CT-RSA 2016 Pointcheval-Sanders signature: signing (randomized and
//! deterministic), verification by a two-pairing check, randomization, and
//! canonical serialization.

use vstd::prelude::*;
use vstd::slice::slice_index_get;
use vstd::string::StringExecFns;
use vstd::calc;
use crate::algebra::{
    dot, in_r, lemma_dot_take_all, lemma_dot_take_step, lemma_mod_r_bound, lemma_mod_r_mul,
    lemma_mod_r_small, lemma_pairing_check_form, lemma_randomization_iff, mod_r, pairing_passes,
    sig_exp, sig_verifies,
};
use crate::backend::{
    ate_2_pairing, fe_add, fe_clone, fe_inverse, fe_mul, fe_random, fe_to_bytes, fr_of, gt_is_one,
    hash_sg, ser_fr, ser_sg, sg_from_bytes, sg_from_msg_hash, sg_is_identity, sg_mul, sg_neg,
    sg_of, sg_to_bytes, vg_add, vg_clone, vg_mul, vg_of, SG_BYTES,
};
use crate::errors::PSError;
use crate::keys::{fr_seq, vk_matches_sk, Params, Sigkey, Verkey};
use amcl_wrapper::field_elem::FieldElement;
use amcl_wrapper::group_elem_g1::G1;

verus! {

/// The canonical byte image of a message vector: the concatenation of the
/// canonical bytes of each scalar, in order.  Scalars serialize to a fixed
/// width, so no separator is needed.
pub open spec fn messages_bytes(ms: Seq<FieldElement>) -> Seq<u8>
    decreases ms.len(),
{
    if ms.len() == 0 {
        Seq::empty()
    } else {
        messages_bytes(ms.drop_last()) + ser_fr(fr_of(ms.last()))
    }
}

/// A signature of the 2016 scheme: a pair of signature-group elements.
/// A valid signature has no identity component.
pub struct Signature {
    pub sigma_1: G1,
    pub sigma_2: G1,
}

/// Serialize the messages: the byte image of `messages_bytes`, used by the
/// deterministic signing variants to derive pseudorandom values.
pub(crate) fn messages_to_bytes(messages: &[FieldElement]) -> (r: Vec<u8>)
    ensures
        r@ == messages_bytes(messages@),
{
    let mut bytes: Vec<u8> = Vec::new();
    let n = messages.len();
    let mut i: usize = 0;
    while i < n
        invariant
            i <= n,
            n == messages@.len(),
            bytes@ == messages_bytes(messages@.take(i as int)),
        decreases n - i,
    {
        let mut chunk = fe_to_bytes(slice_index_get(messages, i));
        bytes.append(&mut chunk);
        proof {
            assert(messages@.take(i + 1).drop_last() =~= messages@.take(i as int));
            assert(messages@.take(i + 1).last() == messages@[i as int]);
        }
        i = i + 1;
    }
    proof {
        assert(messages@.take(n as int) =~= messages@);
    }
    bytes
}

impl Signature {
    /// The discrete log of `sigma_1`.
    pub open spec fn s1v(self) -> int {
        sg_of(self.sigma_1)
    }

    /// The discrete log of `sigma_2`.
    pub open spec fn s2v(self) -> int {
        sg_of(self.sigma_2)
    }

    /// Both components lie in the prime-order subgroup; true of every
    /// signature this library produces.
    pub open spec fn wf(self) -> bool {
        in_r(self.s1v()) && in_r(self.s2v())
    }

    /// Create a signature with a random `sigma_1 = g^u`.  Different calls
    /// on the same inputs give different signatures.
    pub fn new(messages: &[FieldElement], sigkey: &Sigkey, params: &Params) -> (r: Result<
        Signature,
        PSError,
    >)
        ensures
            r is Ok <==> sigkey.y@.len() == messages@.len(),
            r is Err ==> r->Err_0 == (PSError::UnsupportedNoOfMessages {
                expected: messages@.len() as usize,
                given: sigkey.y@.len() as usize,
            }),
            r is Ok && in_r(params.gv()) ==> {
                &&& r->Ok_0.wf()
                &&& r->Ok_0.s2v() == mod_r(
                    r->Ok_0.s1v() * sig_exp(sigkey.xv(), sigkey.yv(), fr_seq(messages@)),
                )
                &&& exists|uv: int|
                    in_r(uv) && uv != 0 && r->Ok_0.s1v() == mod_r(#[trigger] (uv * params.gv()))
            },
            r is Ok && in_r(params.gv()) && params.gv() != 0 ==> r->Ok_0.s1v() != 0,
    {
        Self::check_sigkey_and_messages_compat(messages, sigkey)?;
        let u = fe_random();
        let (sigma_1, sigma_2) = Self::sign_with_sigma_1_generated_from_given_exp(
            messages,
            sigkey,
            &u,
            0,
            &params.g,
        )?;
        proof {
            assert(sigkey.yv().skip(0) =~= sigkey.yv());
        }
        Ok(Signature { sigma_1, sigma_2 })
    }

    /// Create a signature whose `sigma_1` is the hash of the messages, so
    /// that the same messages and key always give the same signature.
    /// Required for multi-signature aggregation; unsafe if a signer can be
    /// tricked into signing the same messages under related keys.
    pub fn new_deterministic(messages: &[FieldElement], sigkey: &Sigkey) -> (r: Result<
        Signature,
        PSError,
    >)
        ensures
            r is Ok <==> sigkey.y@.len() == messages@.len(),
            r is Err ==> r->Err_0 == (PSError::UnsupportedNoOfMessages {
                expected: messages@.len() as usize,
                given: sigkey.y@.len() as usize,
            }),
            r is Ok ==> {
                &&& r->Ok_0.wf()
                &&& r->Ok_0.s1v() == hash_sg(messages_bytes(messages@))
                &&& r->Ok_0.s2v() == mod_r(
                    r->Ok_0.s1v() * sig_exp(sigkey.xv(), sigkey.yv(), fr_seq(messages@)),
                )
            },
    {
        Self::check_sigkey_and_messages_compat(messages, sigkey)?;
        let sigma_1 = Self::generate_sigma_1_from_messages(messages);
        let sigma_2 = Self::sign_with_given_sigma_1(messages, sigkey, 0, &sigma_1)?;
        proof {
            assert(sigkey.yv().skip(0) =~= sigkey.yv());
        }
        Ok(Signature { sigma_1, sigma_2 })
    }

    /// Produce `(h, h^e)` with `h = g^u`, where `e` folds the key with the
    /// messages starting at `offset` into the key's `y` vector.
    pub fn sign_with_sigma_1_generated_from_given_exp(
        messages: &[FieldElement],
        sigkey: &Sigkey,
        u: &FieldElement,
        offset: usize,
        g: &G1,
    ) -> (r: Result<(G1, G1), PSError>)
        requires
            offset + messages.len() <= usize::MAX,
        ensures
            r is Ok <==> sigkey.y@.len() == offset + messages@.len(),
            r is Err ==> r->Err_0 == (PSError::UnsupportedNoOfMessages {
                expected: (offset + messages@.len()) as usize,
                given: sigkey.y@.len() as usize,
            }),
            r is Ok && in_r(sg_of(*g)) ==> {
                &&& in_r(sg_of(r->Ok_0.0))
                &&& in_r(sg_of(r->Ok_0.1))
                &&& sg_of(r->Ok_0.0) == mod_r(fr_of(*u) * sg_of(*g))
                &&& sg_of(r->Ok_0.1) == mod_r(
                    sg_of(r->Ok_0.0) * sig_exp(
                        sigkey.xv(),
                        sigkey.yv().skip(offset as int),
                        fr_seq(messages@),
                    ),
                )
            },
            r is Ok && in_r(sg_of(*g)) && sg_of(*g) != 0 && in_r(fr_of(*u)) && fr_of(*u) != 0
                ==> sg_of(r->Ok_0.0) != 0,
    {
        let h = sg_mul(g, u);
        proof {
            if in_r(sg_of(*g)) && in_r(fr_of(*u)) {
                lemma_mod_r_small(fr_of(*u));
            }
        }
        let h_exp = Self::sign_with_given_sigma_1(messages, sigkey, offset, &h)?;
        Ok((h, h_exp))
    }

    /// Produce `h^e` for a given first component `h`, where `e` folds the
    /// key with the messages starting at `offset` into the key's `y`
    /// vector.
    pub fn sign_with_given_sigma_1(
        messages: &[FieldElement],
        sigkey: &Sigkey,
        offset: usize,
        h: &G1,
    ) -> (r: Result<G1, PSError>)
        requires
            offset + messages.len() <= usize::MAX,
        ensures
            r is Ok <==> sigkey.y@.len() == offset + messages@.len(),
            r is Err ==> r->Err_0 == (PSError::UnsupportedNoOfMessages {
                expected: (offset + messages@.len()) as usize,
                given: sigkey.y@.len() as usize,
            }),
            r is Ok && in_r(sg_of(*h)) ==> {
                &&& in_r(sg_of(r->Ok_0))
                &&& sg_of(r->Ok_0) == mod_r(
                    sg_of(*h) * sig_exp(
                        sigkey.xv(),
                        sigkey.yv().skip(offset as int),
                        fr_seq(messages@),
                    ),
                )
            },
    {
        let n = messages.len();
        if sigkey.y.len() != offset + n {
            return Err(
                PSError::UnsupportedNoOfMessages { expected: offset + n, given: sigkey.y.len() },
            );
        }
        let ghost x = sigkey.xv();
        let ghost ys = sigkey.yv().skip(offset as int);
        let ghost msv = fr_seq(messages@);
        let mut exp = fe_clone(&sigkey.x);
        let mut i: usize = 0;
        while i < n
            invariant
                i <= n,
                n == messages@.len(),
                offset + n <= usize::MAX,
                sigkey.y@.len() == offset + n,
                x == sigkey.xv(),
                ys == sigkey.yv().skip(offset as int),
                msv == fr_seq(messages@),
                mod_r(fr_of(exp)) == mod_r(
                    x + crate::algebra::dot(ys.take(i as int), msv.take(i as int)),
                ),
            decreases n - i,
        {
            let term = fe_mul(&sigkey.y[offset + i], slice_index_get(messages, i));
            let next = fe_add(&exp, &term);
            proof {
                let d = crate::algebra::dot(ys.take(i as int), msv.take(i as int));
                lemma_dot_take_step(ys, msv, i as int);
                assert(ys[i as int] == fr_of(sigkey.y@[offset + i]));
                assert(msv[i as int] == fr_of(messages@[i as int]));
                let t = ys[i as int] * msv[i as int];
                // next == mod_r(exp + mod_r(t)) == mod_r(x + d + t)
                calc! {
                    (==)
                    mod_r(fr_of(exp) + mod_r(t)); {
                        crate::algebra::lemma_mod_r_add_right(fr_of(exp), t);
                    }
                    mod_r(fr_of(exp) + t); {
                        crate::algebra::lemma_mod_r_add_right(t, fr_of(exp));
                        crate::algebra::lemma_mod_r_add_right(t, x + d);
                    }
                    mod_r(x + d + t);
                }
                lemma_mod_r_bound(fr_of(next));
            }
            exp = next;
            i = i + 1;
        }
        proof {
            lemma_dot_take_all(ys, msv);
            assert(ys.take(ys.len() as int) =~= ys.take(n as int));
            assert(msv.take(msv.len() as int) =~= msv.take(n as int));
        }
        let h_exp = sg_mul(h, &exp);
        proof {
            if in_r(sg_of(*h)) {
                // the wrapper reduces the exponent, so it may be replaced
                // by its residue, which is exactly `sig_exp`
                let e = x + crate::algebra::dot(ys, msv);
                lemma_mod_r_mul(fr_of(exp), sg_of(*h));
                assert(mod_r(e) * sg_of(*h) == sg_of(*h) * mod_r(e)) by (nonlinear_arith);
            }
        }
        Ok(h_exp)
    }

    /// Verify the signature: an error exactly when the message count does
    /// not match the key, `false` for identity components or a failing
    /// pairing equation, `true` otherwise.
    pub fn verify(&self, messages: Vec<FieldElement>, vk: &Verkey, params: &Params) -> (r: Result<
        bool,
        PSError,
    >)
        ensures
            r is Ok <==> vk.Y_tilde@.len() == messages@.len(),
            r is Err ==> r->Err_0 == (PSError::UnsupportedNoOfMessages {
                expected: vk.Y_tilde@.len() as usize,
                given: messages@.len() as usize,
            }),
            r is Ok && self.wf() && vk.wf() && params.wf() ==> r == Ok::<bool, PSError>(
                sig_verifies(
                    self.s1v(),
                    self.s2v(),
                    vk.xtv(),
                    vk.ytv(),
                    fr_seq(messages@),
                    params.tv(),
                ),
            ),
    {
        if vk.Y_tilde.len() != messages.len() {
            return Err(
                PSError::UnsupportedNoOfMessages {
                    expected: vk.Y_tilde.len(),
                    given: messages.len(),
                },
            );
        }
        if self.is_identity() {
            return Ok(false);
        }
        Ok(self.pairing_check(messages, vk, params))
    }

    /// The canonical bytes of the signature: `sigma_1` then `sigma_2`,
    /// 97 bytes each.
    pub fn to_bytes(&self) -> (r: Vec<u8>)
        ensures
            r@ == ser_sg(self.s1v()) + ser_sg(self.s2v()),
            ser_sg(self.s1v()).len() == SG_BYTES,
            ser_sg(self.s2v()).len() == SG_BYTES,
            r@.len() == 2 * SG_BYTES,
    {
        let mut bytes: Vec<u8> = Vec::new();
        let mut b1 = sg_to_bytes(&self.sigma_1);
        let mut b2 = sg_to_bytes(&self.sigma_2);
        bytes.append(&mut b1);
        bytes.append(&mut b2);
        proof {
            assert(bytes@ =~= ser_sg(self.s1v()) + ser_sg(self.s2v()));
        }
        bytes
    }

    /// Rebuild a signature from the canonical bytes that `to_bytes`
    /// produces; an error exactly when the length is wrong.
    pub fn from_bytes(bytes: &[u8]) -> (r: Result<Signature, PSError>)
        ensures
            r is Ok <==> bytes@.len() == 2 * SG_BYTES,
            r is Err ==> r->Err_0 is GeneralError,
            forall|v1: int, v2: int|
                in_r(v1) && in_r(v2) && (#[trigger] ser_sg(v1)).len() == SG_BYTES && (
                #[trigger] ser_sg(v2)).len() == SG_BYTES && bytes@ == ser_sg(v1) + ser_sg(v2)
                    ==> r is Ok && r->Ok_0.s1v() == v1 && r->Ok_0.s2v() == v2,
    {
        if bytes.len() != 2 * SG_BYTES {
            return Err(
                PSError::GeneralError { msg: String::from_str("Incorrect byte length for a signature") },
            );
        }
        let mut b1: Vec<u8> = Vec::new();
        let mut i: usize = 0;
        while i < SG_BYTES
            invariant
                i <= SG_BYTES,
                bytes@.len() == 2 * SG_BYTES,
                b1@ == bytes@.subrange(0, i as int),
            decreases SG_BYTES - i,
        {
            b1.push(*slice_index_get(bytes, i));
            proof {
                assert(b1@ =~= bytes@.subrange(0, i + 1));
            }
            i = i + 1;
        }
        let mut b2: Vec<u8> = Vec::new();
        let mut j: usize = SG_BYTES;
        while j < 2 * SG_BYTES
            invariant
                SG_BYTES <= j <= 2 * SG_BYTES,
                bytes@.len() == 2 * SG_BYTES,
                b2@ == bytes@.subrange(SG_BYTES as int, j as int),
            decreases 2 * SG_BYTES - j,
        {
            b2.push(*slice_index_get(bytes, j));
            proof {
                assert(b2@ =~= bytes@.subrange(SG_BYTES as int, j + 1));
            }
            j = j + 1;
        }
        let s1 = sg_from_bytes(b1.as_slice());
        let s2 = sg_from_bytes(b2.as_slice());
        proof {
            assert forall|v1: int, v2: int|
                in_r(v1) && in_r(v2) && (#[trigger] ser_sg(v1)).len() == SG_BYTES && (
                #[trigger] ser_sg(v2)).len() == SG_BYTES && bytes@ == ser_sg(v1) + ser_sg(v2)
                    implies b1@ == ser_sg(v1) && b2@ == ser_sg(v2) by {
                assert(b1@ =~= ser_sg(v1));
                assert(b2@ =~= ser_sg(v2));
            }
        }
        match (s1, s2) {
            (Some(sigma_1), Some(sigma_2)) => Ok(Signature { sigma_1, sigma_2 }),
            _ => Err(PSError::GeneralError { msg: String::from_str("Incorrect byte length for a signature") }),
        }
    }

    /// An error exactly when the message count does not match the key.
    pub fn check_verkey_and_messages_compat(messages: &[FieldElement], verkey: &Verkey) -> (r:
        Result<(), PSError>)
        ensures
            r is Ok <==> messages@.len() == verkey.Y_tilde@.len(),
            r is Err ==> r->Err_0 == (PSError::UnsupportedNoOfMessages {
                expected: messages@.len() as usize,
                given: verkey.Y_tilde@.len() as usize,
            }),
    {
        if messages.len() != verkey.Y_tilde.len() {
            return Err(
                PSError::UnsupportedNoOfMessages {
                    expected: messages.len(),
                    given: verkey.Y_tilde.len(),
                },
            );
        }
        Ok(())
    }

    /// An error exactly when the message count does not match the key.
    pub fn check_sigkey_and_messages_compat(messages: &[FieldElement], sigkey: &Sigkey) -> (r:
        Result<(), PSError>)
        ensures
            r is Ok <==> messages@.len() == sigkey.y@.len(),
            r is Err ==> r->Err_0 == (PSError::UnsupportedNoOfMessages {
                expected: messages@.len() as usize,
                given: sigkey.y@.len() as usize,
            }),
    {
        if sigkey.y.len() != messages.len() {
            return Err(
                PSError::UnsupportedNoOfMessages {
                    expected: messages.len(),
                    given: sigkey.y.len(),
                },
            );
        }
        Ok(())
    }

    /// Whether either component is the identity; a valid signature has
    /// none.
    pub fn is_identity(&self) -> (r: bool)
        ensures
            r == (self.s1v() == 0 || self.s2v() == 0),
    {
        sg_is_identity(&self.sigma_1) || sg_is_identity(&self.sigma_2)
    }

    /// The two-pairing check of verification:
    /// `e(sigma_1, X_tilde * prod Y_tilde[i]^{m_i}) * e(-sigma_2, g_tilde)`
    /// compared against the unit of the target group.
    pub(crate) fn pairing_check(&self, messages: Vec<FieldElement>, vk: &Verkey, params: &Params)
        -> (r: bool)
        requires
            vk.Y_tilde@.len() == messages@.len(),
        ensures
            self.wf() && vk.wf() && params.wf() ==> r == pairing_passes(
                self.s1v(),
                self.s2v(),
                vk.xtv(),
                vk.ytv(),
                fr_seq(messages@),
                params.tv(),
            ),
    {
        let ghost yts = vk.ytv();
        let ghost msv = fr_seq(messages@);
        let n = messages.len();
        let mut Y_m = vg_clone(&vk.X_tilde);
        proof {
            if vk.wf() {
                lemma_mod_r_small(vk.xtv());
                assert(yts.take(0) =~= Seq::<int>::empty());
                assert(msv.take(0) =~= Seq::<int>::empty());
            }
        }
        let mut i: usize = 0;
        while i < n
            invariant
                i <= n,
                n == messages@.len(),
                vk.Y_tilde@.len() == n,
                yts == vk.ytv(),
                msv == fr_seq(messages@),
                vk.wf() ==> in_r(vg_of(Y_m)),
                vk.wf() ==> vg_of(Y_m) == mod_r(
                    vk.xtv() + crate::algebra::dot(yts.take(i as int), msv.take(i as int)),
                ),
            decreases n - i,
        {
            let term = vg_mul(&vk.Y_tilde[i], &messages[i]);
            let next = vg_add(&Y_m, &term);
            proof {
                if vk.wf() {
                    let xt = vk.xtv();
                    let d = crate::algebra::dot(yts.take(i as int), msv.take(i as int));
                    lemma_dot_take_step(yts, msv, i as int);
                    assert(in_r(yts[i as int]));
                    // term view: mod_r(m_i * yt_i); fold into the accumulator
                    crate::algebra::lemma_mod_r_add_right(
                        xt + d,
                        msv[i as int] * yts[i as int],
                    );
                    crate::algebra::lemma_mod_r_add_right(
                        mod_r(msv[i as int] * yts[i as int]),
                        xt + d,
                    );
                    crate::algebra::lemma_mod_r_add_right(
                        msv[i as int] * yts[i as int],
                        xt + d,
                    );
                    assert(msv[i as int] * yts[i as int] == yts[i as int] * msv[i as int])
                        by (nonlinear_arith);
                }
            }
            Y_m = next;
            i = i + 1;
        }
        proof {
            if vk.wf() {
                lemma_dot_take_all(yts, msv);
                assert(yts.take(yts.len() as int) == yts.take(n as int));
                assert(msv.take(msv.len() as int) == msv.take(n as int));
            }
        }
        let neg_sigma_2 = sg_neg(&self.sigma_2);
        let e = ate_2_pairing(&self.sigma_1, &Y_m, &neg_sigma_2, &params.g_tilde);
        let r = gt_is_one(&e);
        proof {
            if self.wf() && vk.wf() && params.wf() {
                lemma_pairing_check_form(
                    self.s1v(),
                    self.s2v(),
                    mod_r(vk.xtv() + crate::algebra::dot(yts, msv)),
                    params.tv(),
                );
            }
        }
        r
    }

    /// Raise both components to the power `r`: the PS randomization that
    /// produces an unlinkable signature on the same messages.  For any
    /// canonical non-zero `r` (as `FieldElement::random` draws them) the
    /// result verifies in exactly the contexts in which the original
    /// does.
    pub fn randomize(&self, r: &FieldElement) -> (s: Signature)
        requires
            in_r(fr_of(*r)),
            fr_of(*r) != 0,
        ensures
            self.wf() ==> {
                &&& s.wf()
                &&& s.s1v() == mod_r(fr_of(*r) * self.s1v())
                &&& s.s2v() == mod_r(fr_of(*r) * self.s2v())
                &&& forall|xt: int, yts: Seq<int>, ms: Seq<int>, tau: int|
                    sig_verifies(s.s1v(), s.s2v(), xt, yts, ms, tau) <==> sig_verifies(
                        self.s1v(),
                        self.s2v(),
                        xt,
                        yts,
                        ms,
                        tau,
                    )
            },
    {
        let sigma_1 = sg_mul(&self.sigma_1, r);
        let sigma_2 = sg_mul(&self.sigma_2, r);
        let inverse = fe_inverse(r);
        proof {
            if self.wf() {
                assert forall|xt: int, yts: Seq<int>, ms: Seq<int>, tau: int|
                    sig_verifies(sg_of(sigma_1), sg_of(sigma_2), xt, yts, ms, tau) <==> sig_verifies(
                        self.s1v(),
                        self.s2v(),
                        xt,
                        yts,
                        ms,
                        tau,
                    ) by {
                    lemma_randomization_iff(
                        self.s1v(),
                        self.s2v(),
                        sg_of(sigma_1),
                        sg_of(sigma_2),
                        xt,
                        yts,
                        ms,
                        tau,
                        fr_of(*r),
                        fr_of(inverse),
                    );
                }
            }
        }
        Signature { sigma_1, sigma_2 }
    }

    /// Hash the messages into the signature group to obtain the common
    /// deterministic `sigma_1`.
    fn generate_sigma_1_from_messages(messages: &[FieldElement]) -> (r: G1)
        ensures
            sg_of(r) == hash_sg(messages_bytes(messages@)),
            in_r(sg_of(r)),
    {
        let msg_bytes = messages_to_bytes(messages);
        sg_from_msg_hash(msg_bytes.as_slice())
    }
}

/// Completeness: for every key pair whose verification key matches the
/// signing key under the parameters, a signature that carries the signing
/// equation verifies for the signed messages.  The two degenerate cases
/// where a component is the identity are excluded, as verification
/// rejects them by design.
pub proof fn lemma_sign_then_verify(
    sk: Sigkey,
    vk: Verkey,
    params: Params,
    sig: Signature,
    ms: Seq<int>,
)
    requires
        vk_matches_sk(sk, vk, params),
        ms.len() == sk.yv().len(),
        sig.s2v() == mod_r(sig.s1v() * sig_exp(sk.xv(), sk.yv(), ms)),
        sig.s1v() != 0,
        sig.s2v() != 0,
    ensures
        sig_verifies(sig.s1v(), sig.s2v(), vk.xtv(), vk.ytv(), ms, params.tv()),
{
    crate::algebra::lemma_signing_equation_verifies(
        sk.xv(),
        sk.yv(),
        ms,
        vk.xtv(),
        vk.ytv(),
        params.tv(),
        sig.s1v(),
        sig.s2v(),
    );
}

/// Determinism: two deterministic signatures on the same messages under
/// the same key are equal as group elements and serialize to the same
/// bytes.
pub proof fn lemma_deterministic_signatures_agree(
    sk: Sigkey,
    ms: Seq<FieldElement>,
    a: Signature,
    b: Signature,
)
    requires
        a.s1v() == hash_sg(messages_bytes(ms)),
        a.s2v() == mod_r(a.s1v() * sig_exp(sk.xv(), sk.yv(), fr_seq(ms))),
        b.s1v() == hash_sg(messages_bytes(ms)),
        b.s2v() == mod_r(b.s1v() * sig_exp(sk.xv(), sk.yv(), fr_seq(ms))),
    ensures
        a.s1v() == b.s1v(),
        a.s2v() == b.s2v(),
        ser_sg(a.s1v()) + ser_sg(a.s2v()) == ser_sg(b.s1v()) + ser_sg(b.s2v()),
{
}

/// Tamper resistance for the messages: a signature that verifies for one
/// message vector fails for another whenever the signature's first
/// component does not annihilate the difference of the folded messages.
/// (A key with a zero `y[i]` cannot see a change confined to `m[i]`, so
/// that hypothesis cannot be dropped.)
pub proof fn lemma_verify_rejects_changed_messages(
    s1: int,
    s2: int,
    xt: int,
    yts: Seq<int>,
    ms_a: Seq<int>,
    ms_b: Seq<int>,
    tau: int,
)
    requires
        pairing_passes(s1, s2, xt, yts, ms_a, tau),
        mod_r(s1 * (dot(yts, ms_a) - dot(yts, ms_b))) != 0,
    ensures
        !pairing_passes(s1, s2, xt, yts, ms_b, tau),
{
    let a = xt + dot(yts, ms_a);
    let b = xt + dot(yts, ms_b);
    if pairing_passes(s1, s2, xt, yts, ms_b, tau) {
        assert(mod_r(s1 * mod_r(a)) == mod_r(s1 * mod_r(b)));
        lemma_mod_r_mul(s1, a);
        lemma_mod_r_mul(s1, b);
        crate::algebra::lemma_mod_r_equivalence(s1 * a, s1 * b);
        assert(s1 * a - s1 * b == s1 * (dot(yts, ms_a) - dot(yts, ms_b))) by (nonlinear_arith)
            requires
                a == xt + dot(yts, ms_a),
                b == xt + dot(yts, ms_b),
        ;
    }
}

/// Tamper resistance for the second component: a signature that verifies
/// fails after its second component is changed, whenever the generator
/// does not annihilate the change.
pub proof fn lemma_verify_rejects_changed_sigma_2(
    s1: int,
    s2_a: int,
    s2_b: int,
    xt: int,
    yts: Seq<int>,
    ms: Seq<int>,
    tau: int,
)
    requires
        pairing_passes(s1, s2_a, xt, yts, ms, tau),
        mod_r((s2_a - s2_b) * tau) != 0,
    ensures
        !pairing_passes(s1, s2_b, xt, yts, ms, tau),
{
    if pairing_passes(s1, s2_b, xt, yts, ms, tau) {
        crate::algebra::lemma_mod_r_equivalence(s2_a * tau, s2_b * tau);
        assert(s2_a * tau - s2_b * tau == (s2_a - s2_b) * tau) by (nonlinear_arith);
    }
}

} // verus!
