//! The CT-RSA 2018 Pointcheval-Sanders signature: a signer-chosen scalar
//! `m_prime` is bound into the signing exponent, and verification reuses
//! the 2016 pairing check on the message vector extended by `m_prime`.

use vstd::prelude::*;
use vstd::slice::slice_index_get;
use vstd::string::StringExecFns;
use crate::algebra::{in_r, mod_r, sig_exp, sig_verifies};
use crate::backend::{
    fe_clone, fe_from_bytes, fe_from_msg_hash, fe_random, fr_of, hash_fr, hash_sg, ser_fr, ser_sg,
    sg_of, sg_random, FR_BYTES, SG_BYTES,
};
use crate::errors::PSError;
use crate::keys::{fr_seq, Params, Sigkey, Verkey};
use crate::signature::{messages_bytes, messages_to_bytes, Signature as Sig16};
use amcl_wrapper::field_elem::FieldElement;
use amcl_wrapper::group_elem_g1::G1;

verus! {

/// A signature of the 2018 scheme: the auxiliary scalar `m_prime` and the
/// 2016 signature pair it is bound into.
pub struct Signature {
    pub m_prime: FieldElement,
    pub sig: Sig16,
}

/// Clone the messages and append `m_prime`, producing the extended vector
/// on which the 2016 scheme operates.
fn messages_with_m_prime(messages: &[FieldElement], m_prime: &FieldElement) -> (r: Vec<
    FieldElement,
>)
    ensures
        r@.len() == messages@.len() + 1,
        fr_seq(r@) == fr_seq(messages@).push(fr_of(*m_prime)),
{
    let mut out: Vec<FieldElement> = Vec::new();
    let n = messages.len();
    let mut i: usize = 0;
    while i < n
        invariant
            i <= n,
            n == messages@.len(),
            out@.len() == i,
            forall|j: int| 0 <= j < i ==> fr_of(#[trigger] out@[j]) == fr_of(messages@[j]),
        decreases n - i,
    {
        out.push(fe_clone(slice_index_get(messages, i)));
        i = i + 1;
    }
    out.push(fe_clone(m_prime));
    proof {
        assert(fr_seq(out@) =~= fr_seq(messages@).push(fr_of(*m_prime)));
    }
    out
}

impl Signature {
    /// The residue of `m_prime`.
    pub open spec fn mv(self) -> int {
        fr_of(self.m_prime)
    }

    /// The discrete log of `sigma_1`.
    pub open spec fn s1v(self) -> int {
        self.sig.s1v()
    }

    /// The discrete log of `sigma_2`.
    pub open spec fn s2v(self) -> int {
        self.sig.s2v()
    }

    /// The signature pair lies in the prime-order subgroup and `m_prime`
    /// is canonical; true of every signature this library produces.
    pub open spec fn wf(self) -> bool {
        self.sig.wf() && in_r(self.mv())
    }

    /// The message views extended by `m_prime`, as the pairing check sees
    /// them.
    pub open spec fn extended(self, ms: Seq<FieldElement>) -> Seq<int> {
        fr_seq(ms).push(self.mv())
    }

    /// Create a signature with random `m_prime` and random `sigma_1`.
    /// Different calls on the same inputs give different signatures.
    pub fn new(messages: &[FieldElement], sigkey: &Sigkey) -> (r: Result<Signature, PSError>)
        requires
            messages.len() < usize::MAX,
        ensures
            r is Ok <==> sigkey.y@.len() == messages@.len() + 1,
            r is Err ==> r->Err_0 == (PSError::UnsupportedNoOfMessages {
                expected: (messages@.len() + 1) as usize,
                given: sigkey.y@.len() as usize,
            }),
            r is Ok ==> {
                &&& r->Ok_0.wf()
                &&& r->Ok_0.s1v() != 0
                &&& r->Ok_0.mv() != 0
                &&& r->Ok_0.s2v() == mod_r(
                    r->Ok_0.s1v() * sig_exp(
                        sigkey.xv(),
                        sigkey.yv(),
                        r->Ok_0.extended(messages@),
                    ),
                )
            },
    {
        let m_prime = fe_random();
        let sigma_1 = sg_random();
        let sigma_2 = Self::sign_with_given_sigma_1(messages, &m_prime, sigkey, 0, &sigma_1)?;
        proof {
            assert(sigkey.yv().skip(0) =~= sigkey.yv());
        }
        Ok(Signature { m_prime, sig: Sig16 { sigma_1, sigma_2 } })
    }

    /// Create a signature whose `m_prime` is the hash of the messages but
    /// whose `sigma_1` is random, so repeated calls still differ.
    pub fn new_with_deterministic_m(messages: &[FieldElement], sigkey: &Sigkey) -> (r: Result<
        Signature,
        PSError,
    >)
        requires
            messages.len() < usize::MAX,
        ensures
            r is Ok <==> sigkey.y@.len() == messages@.len() + 1,
            r is Err ==> r->Err_0 == (PSError::UnsupportedNoOfMessages {
                expected: (messages@.len() + 1) as usize,
                given: sigkey.y@.len() as usize,
            }),
            r is Ok ==> {
                &&& r->Ok_0.wf()
                &&& r->Ok_0.s1v() != 0
                &&& r->Ok_0.mv() == hash_fr(messages_bytes(messages@))
                &&& r->Ok_0.s2v() == mod_r(
                    r->Ok_0.s1v() * sig_exp(
                        sigkey.xv(),
                        sigkey.yv(),
                        r->Ok_0.extended(messages@),
                    ),
                )
            },
    {
        let m_prime = Self::generate_m_prime_from_messages(messages);
        let sigma_1 = sg_random();
        let sigma_2 = Self::sign_with_given_sigma_1(messages, &m_prime, sigkey, 0, &sigma_1)?;
        proof {
            assert(sigkey.yv().skip(0) =~= sigkey.yv());
        }
        Ok(Signature { m_prime, sig: Sig16 { sigma_1, sigma_2 } })
    }

    /// Create a fully deterministic signature: both `m_prime` and
    /// `sigma_1` are derived by hashing the messages, so the same messages
    /// and key always give the same signature.  Required for aggregation.
    pub fn new_deterministic(messages: &[FieldElement], sigkey: &Sigkey) -> (r: Result<
        Signature,
        PSError,
    >)
        requires
            messages.len() < usize::MAX,
        ensures
            r is Ok <==> sigkey.y@.len() == messages@.len() + 1,
            r is Err ==> r->Err_0 == (PSError::UnsupportedNoOfMessages {
                expected: (messages@.len() + 1) as usize,
                given: sigkey.y@.len() as usize,
            }),
            r is Ok ==> {
                &&& r->Ok_0.wf()
                &&& r->Ok_0.mv() == hash_fr(messages_bytes(messages@))
                &&& r->Ok_0.s1v() == hash_sg(messages_bytes(messages@))
                &&& r->Ok_0.s2v() == mod_r(
                    r->Ok_0.s1v() * sig_exp(
                        sigkey.xv(),
                        sigkey.yv(),
                        r->Ok_0.extended(messages@),
                    ),
                )
            },
    {
        let (m_prime, sigma_1) = Self::generate_m_prime_and_sigma_1_from_messages(messages);
        let sigma_2 = Self::sign_with_given_sigma_1(messages, &m_prime, sigkey, 0, &sigma_1)?;
        proof {
            assert(sigkey.yv().skip(0) =~= sigkey.yv());
        }
        Ok(Signature { m_prime, sig: Sig16 { sigma_1, sigma_2 } })
    }

    /// Verify the signature: an error exactly when the key does not
    /// support one more slot than there are messages, `false` for identity
    /// components or a failing pairing equation, `true` otherwise.
    pub fn verify(&self, messages: Vec<FieldElement>, vk: &Verkey, params: &Params) -> (r: Result<
        bool,
        PSError,
    >)
        requires
            messages.len() < usize::MAX,
        ensures
            r is Ok <==> vk.Y_tilde@.len() == messages@.len() + 1,
            r is Err ==> r->Err_0 == (PSError::UnsupportedNoOfMessages {
                expected: vk.Y_tilde@.len() as usize,
                given: (messages@.len() + 1) as usize,
            }),
            r is Ok && self.wf() && vk.wf() && params.wf() ==> r == Ok::<bool, PSError>(
                sig_verifies(
                    self.s1v(),
                    self.s2v(),
                    vk.xtv(),
                    vk.ytv(),
                    self.extended(messages@),
                    params.tv(),
                ),
            ),
    {
        let ghost orig = messages@;
        let mut messages = messages;
        if vk.Y_tilde.len() != messages.len() + 1 {
            return Err(
                PSError::UnsupportedNoOfMessages {
                    expected: vk.Y_tilde.len(),
                    given: messages.len() + 1,
                },
            );
        }
        if self.sig.is_identity() {
            return Ok(false);
        }
        messages.push(fe_clone(&self.m_prime));
        proof {
            assert(fr_seq(messages@) =~= self.extended(orig));
        }
        Ok(self.sig.pairing_check(messages, vk, params))
    }

    /// The canonical bytes of the signature: `m_prime`, then `sigma_1`,
    /// then `sigma_2`.
    pub fn to_bytes(&self) -> (r: Vec<u8>)
        ensures
            r@ == ser_fr(self.mv()) + ser_sg(self.s1v()) + ser_sg(self.s2v()),
            ser_fr(self.mv()).len() == FR_BYTES,
            ser_sg(self.s1v()).len() == SG_BYTES,
            ser_sg(self.s2v()).len() == SG_BYTES,
            r@.len() == FR_BYTES + 2 * SG_BYTES,
    {
        let mut bytes = crate::backend::fe_to_bytes(&self.m_prime);
        let mut rest = self.sig.to_bytes();
        bytes.append(&mut rest);
        proof {
            assert(bytes@ =~= ser_fr(self.mv()) + ser_sg(self.s1v()) + ser_sg(self.s2v()));
        }
        bytes
    }

    /// Rebuild a signature from the canonical bytes that `to_bytes`
    /// produces; an error exactly when the length is wrong.
    pub fn from_bytes(bytes: &[u8]) -> (r: Result<Signature, PSError>)
        ensures
            r is Ok <==> bytes@.len() == FR_BYTES + 2 * SG_BYTES,
            r is Err ==> r->Err_0 is GeneralError,
            forall|v0: int, v1: int, v2: int|
                in_r(v0) && in_r(v1) && in_r(v2) && (#[trigger] ser_fr(v0)).len() == FR_BYTES && (
                #[trigger] ser_sg(v1)).len() == SG_BYTES && (#[trigger] ser_sg(v2)).len()
                    == SG_BYTES && bytes@ == ser_fr(v0) + ser_sg(v1) + ser_sg(v2) ==> r is Ok
                    && r->Ok_0.mv() == v0 && r->Ok_0.s1v() == v1 && r->Ok_0.s2v() == v2,
    {
        if bytes.len() != FR_BYTES + 2 * SG_BYTES {
            return Err(
                PSError::GeneralError { msg: String::from_str("Incorrect byte length for a signature") },
            );
        }
        let mut b0: Vec<u8> = Vec::new();
        let mut i: usize = 0;
        while i < FR_BYTES
            invariant
                i <= FR_BYTES,
                bytes@.len() == FR_BYTES + 2 * SG_BYTES,
                b0@ == bytes@.subrange(0, i as int),
            decreases FR_BYTES - i,
        {
            b0.push(*slice_index_get(bytes, i));
            proof {
                assert(b0@ =~= bytes@.subrange(0, i + 1));
            }
            i = i + 1;
        }
        let mut b1: Vec<u8> = Vec::new();
        let mut j: usize = FR_BYTES;
        while j < FR_BYTES + 2 * SG_BYTES
            invariant
                FR_BYTES <= j <= FR_BYTES + 2 * SG_BYTES,
                bytes@.len() == FR_BYTES + 2 * SG_BYTES,
                b1@ == bytes@.subrange(FR_BYTES as int, j as int),
            decreases FR_BYTES + 2 * SG_BYTES - j,
        {
            b1.push(*slice_index_get(bytes, j));
            proof {
                assert(b1@ =~= bytes@.subrange(FR_BYTES as int, j + 1));
            }
            j = j + 1;
        }
        let m = fe_from_bytes(b0.as_slice());
        let s = Sig16::from_bytes(b1.as_slice());
        proof {
            assert forall|v0: int, v1: int, v2: int|
                in_r(v0) && in_r(v1) && in_r(v2) && (#[trigger] ser_fr(v0)).len() == FR_BYTES && (
                #[trigger] ser_sg(v1)).len() == SG_BYTES && (#[trigger] ser_sg(v2)).len()
                    == SG_BYTES && bytes@ == ser_fr(v0) + ser_sg(v1) + ser_sg(v2) implies b0@
                == ser_fr(v0) && b1@ == ser_sg(v1) + ser_sg(v2) by {
                assert(b0@ =~= ser_fr(v0));
                assert(b1@ =~= ser_sg(v1) + ser_sg(v2));
            }
        }
        match (m, s) {
            (Some(m_prime), Ok(sig)) => Ok(Signature { m_prime, sig }),
            _ => Err(
                PSError::GeneralError { msg: String::from_str("Incorrect byte length for a signature") },
            ),
        }
    }

    /// Produce `h^e` for a given first component `h`, where `e` folds the
    /// key with the messages and with `m_prime`, whose `y` slot sits right
    /// after the messages'.
    fn sign_with_given_sigma_1(
        messages: &[FieldElement],
        m_prime: &FieldElement,
        sigkey: &Sigkey,
        offset: usize,
        h: &G1,
    ) -> (r: Result<G1, PSError>)
        requires
            offset + messages.len() + 1 <= usize::MAX,
        ensures
            r is Ok <==> sigkey.y@.len() == offset + messages@.len() + 1,
            r is Err ==> r->Err_0 == (PSError::UnsupportedNoOfMessages {
                expected: (offset + messages@.len() + 1) as usize,
                given: sigkey.y@.len() as usize,
            }),
            r is Ok && in_r(sg_of(*h)) ==> {
                &&& in_r(sg_of(r->Ok_0))
                &&& sg_of(r->Ok_0) == mod_r(
                    sg_of(*h) * sig_exp(
                        sigkey.xv(),
                        sigkey.yv().skip(offset as int),
                        fr_seq(messages@).push(fr_of(*m_prime)),
                    ),
                )
            },
    {
        let extended = messages_with_m_prime(messages, m_prime);
        Sig16::sign_with_given_sigma_1(extended.as_slice(), sigkey, offset, h)
    }

    /// An error exactly when the key does not carry one more `Y_tilde`
    /// element than there are messages.
    pub fn check_verkey_and_messages_compat(messages: &[FieldElement], verkey: &Verkey) -> (r:
        Result<(), PSError>)
        requires
            messages.len() < usize::MAX,
        ensures
            r is Ok <==> messages@.len() + 1 == verkey.Y_tilde@.len(),
            r is Err ==> r->Err_0 == (PSError::UnsupportedNoOfMessages {
                expected: (messages@.len() + 1) as usize,
                given: verkey.Y_tilde@.len() as usize,
            }),
    {
        if messages.len() + 1 != verkey.Y_tilde.len() {
            return Err(
                PSError::UnsupportedNoOfMessages {
                    expected: messages.len() + 1,
                    given: verkey.Y_tilde.len(),
                },
            );
        }
        Ok(())
    }

    /// An error exactly when the key does not carry one more `y` scalar
    /// than there are messages.
    pub fn check_sigkey_and_messages_compat(messages: &[FieldElement], sigkey: &Sigkey) -> (r:
        Result<(), PSError>)
        requires
            messages.len() < usize::MAX,
        ensures
            r is Ok <==> sigkey.y@.len() == messages@.len() + 1,
            r is Err ==> r->Err_0 == (PSError::UnsupportedNoOfMessages {
                expected: (messages@.len() + 1) as usize,
                given: sigkey.y@.len() as usize,
            }),
    {
        if sigkey.y.len() != messages.len() + 1 {
            return Err(
                PSError::UnsupportedNoOfMessages {
                    expected: messages.len() + 1,
                    given: sigkey.y.len(),
                },
            );
        }
        Ok(())
    }

    /// Hash the messages into the scalar field to obtain the
    /// deterministic `m_prime`.
    fn generate_m_prime_from_messages(messages: &[FieldElement]) -> (r: FieldElement)
        ensures
            fr_of(r) == hash_fr(messages_bytes(messages@)),
            in_r(fr_of(r)),
    {
        let msg_bytes = messages_to_bytes(messages);
        fe_from_msg_hash(msg_bytes.as_slice())
    }

    /// Hash the messages once into the scalar field and once into the
    /// signature group to obtain the deterministic `m_prime` and
    /// `sigma_1`.
    fn generate_m_prime_and_sigma_1_from_messages(messages: &[FieldElement]) -> (r: (
        FieldElement,
        G1,
    ))
        ensures
            fr_of(r.0) == hash_fr(messages_bytes(messages@)),
            in_r(fr_of(r.0)),
            sg_of(r.1) == hash_sg(messages_bytes(messages@)),
            in_r(sg_of(r.1)),
    {
        let msg_bytes = messages_to_bytes(messages);
        let m_prime = fe_from_msg_hash(msg_bytes.as_slice());
        let sigma_1 = crate::backend::sg_from_msg_hash(msg_bytes.as_slice());
        (m_prime, sigma_1)
    }
}

} // verus!
