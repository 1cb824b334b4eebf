//! BLS-style multi-signatures over the PS scheme: aggregation of
//! verification keys and of signatures from independent signers who signed
//! the same message vector, and verification of the aggregate.
//!
//! Aggregating signatures requires that every signer used the same
//! `sigma_1` (and, for the 2018 scheme, the same `m_prime`), which the
//! deterministic signing variants guarantee for a common message vector.

use vstd::prelude::*;
use vstd::string::StringExecFns;
use vstd::calc;
use crate::algebra::{
    in_r, lemma_mod_r_add_right, lemma_sum_take_all, lemma_sum_take_step, mod_r, sig_verifies, sum,
};
use crate::backend::{fe_eq, sg_add, sg_clone, sg_identity, sg_of, vg_add, vg_identity, vg_of};
use crate::errors::PSError;
use crate::keys::{fr_seq, Params, Verkey};
use crate::signature::Signature;
use crate::signature_2018::Signature as Signature18;
use amcl_wrapper::field_elem::FieldElement;
use amcl_wrapper::group_elem_g2::G2;

verus! {

/// The `X_tilde` views of a sequence of verkeys.
pub open spec fn xt_views(vks: Seq<&Verkey>) -> Seq<int> {
    vks.map_values(|vk: &Verkey| vk.xtv())
}

/// The `Y_tilde[i]` views of a sequence of verkeys: one column.
pub open spec fn yt_col(vks: Seq<&Verkey>, i: int) -> Seq<int> {
    vks.map_values(|vk: &Verkey| vk.ytv()[i])
}

/// Whether every verkey of the sequence is well formed.
pub open spec fn all_vks_wf(vks: Seq<&Verkey>) -> bool {
    forall|j: int| 0 <= j < vks.len() ==> (#[trigger] vks[j]).wf()
}

/// Whether every verkey of the sequence supports exactly `l` messages.
pub open spec fn all_vks_len(vks: Seq<&Verkey>, l: int) -> bool {
    forall|j: int| 0 <= j < vks.len() ==> (#[trigger] vks[j]).Y_tilde@.len() == l
}

/// The `sigma_2` views of a sequence of 2016 signatures.
pub open spec fn s2_views(sigs: Seq<&Signature>) -> Seq<int> {
    sigs.map_values(|s: &Signature| s.s2v())
}

/// Whether every signature of the sequence is well formed.
pub open spec fn all_sigs_wf(sigs: Seq<&Signature>) -> bool {
    forall|j: int| 0 <= j < sigs.len() ==> (#[trigger] sigs[j]).wf()
}

/// Whether every signature of the sequence shares the first one's
/// `sigma_1`.
pub open spec fn all_same_s1(sigs: Seq<&Signature>) -> bool {
    forall|j: int| 0 <= j < sigs.len() ==> (#[trigger] sigs[j]).s1v() == sigs[0].s1v()
}

/// The `sigma_2` views of a sequence of 2018 signatures.
pub open spec fn s2_views_18(sigs: Seq<&Signature18>) -> Seq<int> {
    sigs.map_values(|s: &Signature18| s.s2v())
}

/// Whether every 2018 signature of the sequence is well formed.
pub open spec fn all_sigs_wf_18(sigs: Seq<&Signature18>) -> bool {
    forall|j: int| 0 <= j < sigs.len() ==> (#[trigger] sigs[j]).wf()
}

/// Whether every 2018 signature shares the first one's `sigma_1`.
pub open spec fn all_same_s1_18(sigs: Seq<&Signature18>) -> bool {
    forall|j: int| 0 <= j < sigs.len() ==> (#[trigger] sigs[j]).s1v() == sigs[0].s1v()
}

/// Whether every 2018 signature shares the first one's `m_prime`.
pub open spec fn all_same_m(sigs: Seq<&Signature18>) -> bool {
    forall|j: int| 0 <= j < sigs.len() ==> (#[trigger] sigs[j]).mv() == sigs[0].mv()
}

/// The aggregate of the `Y_tilde` columns: entry `i` is the reduced sum of
/// the signers' `Y_tilde[i]` views.
pub open spec fn agg_yt_views(vks: Seq<&Verkey>, l: int) -> Seq<int> {
    Seq::new(l as nat, |i: int| mod_r(sum(yt_col(vks, i))))
}

/// Builds the aggregate of several verification keys.
pub struct AggregatedVerkeyFast {}

impl AggregatedVerkeyFast {
    /// Sum the keys elementwise: an error for an empty list or for keys
    /// of differing lengths, otherwise the key whose elements are the
    /// group sums of the signers' elements.
    pub fn from_verkeys(ver_keys: Vec<&Verkey>) -> (r: Result<Verkey, PSError>)
        ensures
            ver_keys@.len() == 0 ==> r is Err && r->Err_0 is GeneralError,
            ver_keys@.len() > 0 ==> (r is Ok <==> all_vks_len(
                ver_keys@,
                ver_keys@[0].Y_tilde@.len() as int,
            )),
            ver_keys@.len() > 0 && !all_vks_len(ver_keys@, ver_keys@[0].Y_tilde@.len() as int)
                ==> r == Err::<Verkey, PSError>(PSError::IncompatibleVerkeysForAggregation),
            r is Ok ==> r->Ok_0.Y_tilde@.len() == ver_keys@[0].Y_tilde@.len(),
            r is Ok && all_vks_wf(ver_keys@) ==> {
                &&& r->Ok_0.wf()
                &&& r->Ok_0.xtv() == mod_r(sum(xt_views(ver_keys@)))
                &&& r->Ok_0.ytv() =~= agg_yt_views(
                    ver_keys@,
                    ver_keys@[0].Y_tilde@.len() as int,
                )
            },
    {
        let n = ver_keys.len();
        if n == 0 {
            return Err(PSError::GeneralError { msg: String::from_str("Provide at least one key") });
        }
        let y_len = ver_keys[0].Y_tilde.len();
        let mut j: usize = 0;
        while j < n
            invariant
                j <= n,
                n == ver_keys@.len(),
                y_len == ver_keys@[0].Y_tilde@.len(),
                forall|k: int| 0 <= k < j ==> (#[trigger] ver_keys@[k]).Y_tilde@.len() == y_len,
            decreases n - j,
        {
            if ver_keys[j].Y_tilde.len() != y_len {
                return Err(PSError::IncompatibleVerkeysForAggregation);
            }
            j = j + 1;
        }
        let mut X_tilde = vg_identity();
        let mut j: usize = 0;
        while j < n
            invariant
                j <= n,
                n == ver_keys@.len(),
                all_vks_wf(ver_keys@) ==> in_r(vg_of(X_tilde)),
                all_vks_wf(ver_keys@) ==> vg_of(X_tilde) == mod_r(
                    sum(xt_views(ver_keys@).take(j as int)),
                ),
            decreases n - j,
        {
            let next = vg_add(&X_tilde, &ver_keys[j].X_tilde);
            proof {
                if all_vks_wf(ver_keys@) {
                    let s = xt_views(ver_keys@);
                    lemma_sum_take_step(s, j as int);
                    lemma_mod_r_add_right(s[j as int], sum(s.take(j as int)));
                    lemma_mod_r_add_right(s[j as int], mod_r(sum(s.take(j as int))));
                }
            }
            X_tilde = next;
            j = j + 1;
        }
        proof {
            if all_vks_wf(ver_keys@) {
                lemma_sum_take_all(xt_views(ver_keys@));
            }
        }
        let mut Y_tilde: Vec<G2> = Vec::new();
        let mut i: usize = 0;
        while i < y_len
            invariant
                i <= y_len,
                n == ver_keys@.len(),
                n > 0,
                y_len == ver_keys@[0].Y_tilde@.len(),
                forall|k: int| 0 <= k < n ==> (#[trigger] ver_keys@[k]).Y_tilde@.len() == y_len,
                Y_tilde@.len() == i,
                all_vks_wf(ver_keys@) ==> forall|ii: int|
                    0 <= ii < i ==> in_r(vg_of(#[trigger] Y_tilde@[ii])) && vg_of(Y_tilde@[ii])
                        == mod_r(sum(yt_col(ver_keys@, ii))),
            decreases y_len - i,
        {
            let mut acc = vg_identity();
            let mut j: usize = 0;
            while j < n
                invariant
                    j <= n,
                    i < y_len,
                    n == ver_keys@.len(),
                    forall|k: int| 0 <= k < n ==> (#[trigger] ver_keys@[k]).Y_tilde@.len() == y_len,
                    all_vks_wf(ver_keys@) ==> in_r(vg_of(acc)),
                    all_vks_wf(ver_keys@) ==> vg_of(acc) == mod_r(
                        sum(yt_col(ver_keys@, i as int).take(j as int)),
                    ),
                decreases n - j,
            {
                let next = vg_add(&acc, &ver_keys[j].Y_tilde[i]);
                proof {
                    if all_vks_wf(ver_keys@) {
                        let s = yt_col(ver_keys@, i as int);
                        assert(s[j as int] == ver_keys@[j as int].ytv()[i as int]);
                        lemma_sum_take_step(s, j as int);
                        lemma_mod_r_add_right(s[j as int], sum(s.take(j as int)));
                        lemma_mod_r_add_right(s[j as int], mod_r(sum(s.take(j as int))));
                    }
                }
                acc = next;
                j = j + 1;
            }
            proof {
                if all_vks_wf(ver_keys@) {
                    lemma_sum_take_all(yt_col(ver_keys@, i as int));
                }
            }
            Y_tilde.push(acc);
            i = i + 1;
        }
        Ok(Verkey { X_tilde, Y_tilde })
    }
}

/// Builds and verifies multi-signatures.
pub struct MultiSignatureFast {}

impl MultiSignatureFast {
    /// Aggregate 2016 signatures: an error for an empty list or for
    /// signatures with differing `sigma_1`, otherwise the common `sigma_1`
    /// paired with the group sum of the `sigma_2` components.
    pub fn from_sigs(sigs: Vec<&Signature>) -> (r: Result<Signature, PSError>)
        ensures
            sigs@.len() == 0 ==> r is Err && r->Err_0 is GeneralError,
            sigs@.len() > 0 ==> (r is Ok <==> all_same_s1(sigs@)),
            sigs@.len() > 0 && !all_same_s1(sigs@) ==> r == Err::<Signature, PSError>(
                PSError::IncompatibleSigsForAggregation,
            ),
            r is Ok ==> r->Ok_0.s1v() == sigs@[0].s1v(),
            r is Ok && all_sigs_wf(sigs@) ==> r->Ok_0.wf() && r->Ok_0.s2v() == mod_r(
                sum(s2_views(sigs@)),
            ),
    {
        if sigs.len() == 0 {
            return Err(
                PSError::GeneralError { msg: String::from_str("Provide at least one signature") },
            );
        }
        Self::combine(sigs)
    }

    /// Aggregate 2018 signatures: additionally every signer must have used
    /// the same `m_prime`, which is carried through.
    pub fn from_sigs_2018(sigs: Vec<&Signature18>) -> (r: Result<Signature18, PSError>)
        ensures
            sigs@.len() == 0 ==> r is Err && r->Err_0 is GeneralError,
            sigs@.len() > 0 ==> (r is Ok <==> all_same_m(sigs@) && all_same_s1_18(sigs@)),
            sigs@.len() > 0 && !(all_same_m(sigs@) && all_same_s1_18(sigs@)) ==> r == Err::<
                Signature18,
                PSError,
            >(PSError::IncompatibleSigsForAggregation),
            r is Ok ==> r->Ok_0.mv() == sigs@[0].mv() && r->Ok_0.s1v() == sigs@[0].s1v(),
            r is Ok && all_sigs_wf_18(sigs@) ==> r->Ok_0.wf() && r->Ok_0.s2v() == mod_r(
                sum(s2_views_18(sigs@)),
            ),
    {
        let n = sigs.len();
        if n == 0 {
            return Err(
                PSError::GeneralError { msg: String::from_str("Provide at least one signature") },
            );
        }
        let mut j: usize = 0;
        while j < n
            invariant
                j <= n,
                n == sigs@.len(),
                forall|k: int| 0 <= k < j ==> (#[trigger] sigs@[k]).mv() == sigs@[0].mv(),
            decreases n - j,
        {
            if !fe_eq(&sigs[j].m_prime, &sigs[0].m_prime) {
                return Err(PSError::IncompatibleSigsForAggregation);
            }
            j = j + 1;
        }
        let m_prime = crate::backend::fe_clone(&sigs[0].m_prime);
        let mut inner: Vec<&Signature> = Vec::new();
        let mut j: usize = 0;
        while j < n
            invariant
                j <= n,
                n == sigs@.len(),
                inner@.len() == j,
                forall|k: int| 0 <= k < j ==> inner@[k] == &(#[trigger] sigs@[k]).sig,
            decreases n - j,
        {
            inner.push(&sigs[j].sig);
            j = j + 1;
        }
        proof {
            assert(s2_views(inner@) =~= s2_views_18(sigs@));
            assert forall|k: int| 0 <= k < sigs@.len() implies (#[trigger] inner@[k]).s1v()
                == sigs@[k].s1v() && (sigs@[k].wf() ==> inner@[k].wf()) by {
                assert(inner@[k] == &sigs@[k].sig);
            }
            if all_same_s1(inner@) {
                assert forall|j: int| 0 <= j < sigs@.len() implies (#[trigger] sigs@[j]).s1v()
                    == sigs@[0].s1v() by {
                    assert(inner@[j].s1v() == inner@[0].s1v());
                }
            }
            if all_same_s1_18(sigs@) {
                assert forall|j: int| 0 <= j < inner@.len() implies (#[trigger] inner@[j]).s1v()
                    == inner@[0].s1v() by {
                    assert(sigs@[j].s1v() == sigs@[0].s1v());
                }
            }
            if all_sigs_wf_18(sigs@) {
                assert forall|j: int| 0 <= j < inner@.len() implies (#[trigger] inner@[j]).wf() by {
                    assert(sigs@[j].wf());
                }
            }
        }
        let sig = Self::combine(inner)?;
        Ok(Signature18 { m_prime, sig })
    }

    /// The common step of aggregation: check that every `sigma_1` agrees
    /// and sum the `sigma_2` components.
    fn combine(sigs: Vec<&Signature>) -> (r: Result<Signature, PSError>)
        requires
            sigs@.len() > 0,
        ensures
            r is Ok <==> all_same_s1(sigs@),
            r is Err ==> r->Err_0 == PSError::IncompatibleSigsForAggregation,
            r is Ok ==> r->Ok_0.s1v() == sigs@[0].s1v(),
            r is Ok && all_sigs_wf(sigs@) ==> r->Ok_0.wf() && r->Ok_0.s2v() == mod_r(
                sum(s2_views(sigs@)),
            ),
    {
        let n = sigs.len();
        let mut j: usize = 0;
        while j < n
            invariant
                j <= n,
                n == sigs@.len(),
                n > 0,
                forall|k: int| 0 <= k < j ==> (#[trigger] sigs@[k]).s1v() == sigs@[0].s1v(),
            decreases n - j,
        {
            if !crate::backend::sg_eq(&sigs[j].sigma_1, &sigs[0].sigma_1) {
                return Err(PSError::IncompatibleSigsForAggregation);
            }
            j = j + 1;
        }
        let mut sigma_2 = sg_identity();
        let mut j: usize = 0;
        while j < n
            invariant
                j <= n,
                n == sigs@.len(),
                all_sigs_wf(sigs@) ==> in_r(sg_of(sigma_2)),
                all_sigs_wf(sigs@) ==> sg_of(sigma_2) == mod_r(
                    sum(s2_views(sigs@).take(j as int)),
                ),
            decreases n - j,
        {
            let next = sg_add(&sigma_2, &sigs[j].sigma_2);
            proof {
                if all_sigs_wf(sigs@) {
                    let s = s2_views(sigs@);
                    lemma_sum_take_step(s, j as int);
                    lemma_mod_r_add_right(s[j as int], sum(s.take(j as int)));
                    lemma_mod_r_add_right(s[j as int], mod_r(sum(s.take(j as int))));
                }
            }
            sigma_2 = next;
            j = j + 1;
        }
        proof {
            if all_sigs_wf(sigs@) {
                lemma_sum_take_all(s2_views(sigs@));
            }
        }
        let sigma_1 = sg_clone(&sigs[0].sigma_1);
        Ok(Signature { sigma_1, sigma_2 })
    }

    /// Verify a 2016 multi-signature by aggregating the keys and running
    /// the single-signature verification against the aggregate.
    pub fn verify(
        sig: &Signature,
        messages: Vec<FieldElement>,
        ver_keys: Vec<&Verkey>,
        params: &Params,
    ) -> (r: Result<bool, PSError>)
        ensures
            ver_keys@.len() == 0 ==> r is Err && r->Err_0 is GeneralError,
            ver_keys@.len() > 0 && !all_vks_len(ver_keys@, ver_keys@[0].Y_tilde@.len() as int)
                ==> r == Err::<bool, PSError>(PSError::IncompatibleVerkeysForAggregation),
            ver_keys@.len() > 0 && all_vks_len(ver_keys@, ver_keys@[0].Y_tilde@.len() as int)
                && ver_keys@[0].Y_tilde@.len() != messages@.len() ==> r == Err::<bool, PSError>(
                PSError::UnsupportedNoOfMessages {
                    expected: ver_keys@[0].Y_tilde@.len() as usize,
                    given: messages@.len() as usize,
                },
            ),
            r is Ok <==> ver_keys@.len() > 0 && all_vks_len(
                ver_keys@,
                ver_keys@[0].Y_tilde@.len() as int,
            ) && ver_keys@[0].Y_tilde@.len() == messages@.len(),
            r is Ok && sig.wf() && all_vks_wf(ver_keys@) && params.wf() ==> r == Ok::<
                bool,
                PSError,
            >(
                sig_verifies(
                    sig.s1v(),
                    sig.s2v(),
                    mod_r(sum(xt_views(ver_keys@))),
                    agg_yt_views(ver_keys@, ver_keys@[0].Y_tilde@.len() as int),
                    fr_seq(messages@),
                    params.tv(),
                ),
            ),
    {
        let avk = AggregatedVerkeyFast::from_verkeys(ver_keys)?;
        sig.verify(messages, &avk, params)
    }

    /// Verify a 2018 multi-signature by aggregating the keys and running
    /// the single-signature verification against the aggregate.
    pub fn verify_2018(
        sig: &Signature18,
        messages: Vec<FieldElement>,
        ver_keys: Vec<&Verkey>,
        params: &Params,
    ) -> (r: Result<bool, PSError>)
        requires
            messages.len() < usize::MAX,
        ensures
            ver_keys@.len() == 0 ==> r is Err && r->Err_0 is GeneralError,
            ver_keys@.len() > 0 && !all_vks_len(ver_keys@, ver_keys@[0].Y_tilde@.len() as int)
                ==> r == Err::<bool, PSError>(PSError::IncompatibleVerkeysForAggregation),
            ver_keys@.len() > 0 && all_vks_len(ver_keys@, ver_keys@[0].Y_tilde@.len() as int)
                && ver_keys@[0].Y_tilde@.len() != messages@.len() + 1 ==> r == Err::<
                bool,
                PSError,
            >(
                PSError::UnsupportedNoOfMessages {
                    expected: ver_keys@[0].Y_tilde@.len() as usize,
                    given: (messages@.len() + 1) as usize,
                },
            ),
            r is Ok <==> ver_keys@.len() > 0 && all_vks_len(
                ver_keys@,
                ver_keys@[0].Y_tilde@.len() as int,
            ) && ver_keys@[0].Y_tilde@.len() == messages@.len() + 1,
            r is Ok && sig.wf() && all_vks_wf(ver_keys@) && params.wf() ==> r == Ok::<
                bool,
                PSError,
            >(
                sig_verifies(
                    sig.s1v(),
                    sig.s2v(),
                    mod_r(sum(xt_views(ver_keys@))),
                    agg_yt_views(ver_keys@, ver_keys@[0].Y_tilde@.len() as int),
                    sig.extended(messages@),
                    params.tv(),
                ),
            ),
    {
        let avk = AggregatedVerkeyFast::from_verkeys(ver_keys)?;
        sig.verify(messages, &avk, params)
    }
}

/// The column `i` of a sequence of per-signer `y` view sequences.
pub open spec fn col(yss: Seq<Seq<int>>, i: int) -> Seq<int> {
    Seq::new(yss.len(), |j: int| yss[j][i])
}

/// Aggregation soundness: when every signer signs the same message vector
/// with the same deterministic `sigma_1`, the aggregate signature (the
/// common `sigma_1` with the summed `sigma_2`) satisfies the pairing
/// equation under the aggregate of the signers' verification keys.
pub proof fn lemma_aggregation_soundness(
    xs: Seq<int>,
    yss: Seq<Seq<int>>,
    xts: Seq<int>,
    ytss: Seq<Seq<int>>,
    ms: Seq<int>,
    tau: int,
    s1: int,
    s2s: Seq<int>,
)
    requires
        xs.len() > 0,
        yss.len() == xs.len(),
        xts.len() == xs.len(),
        ytss.len() == xs.len(),
        s2s.len() == xs.len(),
        forall|j: int| 0 <= j < xs.len() ==> (#[trigger] yss[j]).len() == ms.len(),
        forall|j: int| 0 <= j < xs.len() ==> (#[trigger] ytss[j]).len() == ms.len(),
        forall|j: int| 0 <= j < xs.len() ==> #[trigger] xts[j] == mod_r(xs[j] * tau),
        forall|j: int, i: int|
            0 <= j < xs.len() && 0 <= i < ms.len() ==> #[trigger] ytss[j][i] == mod_r(
                yss[j][i] * tau,
            ),
        forall|j: int|
            0 <= j < xs.len() ==> #[trigger] s2s[j] == mod_r(
                s1 * crate::algebra::sig_exp(xs[j], yss[j], ms),
            ),
    ensures
        crate::algebra::pairing_passes(
            s1,
            mod_r(sum(s2s)),
            mod_r(sum(xts)),
            Seq::new(ms.len(), |i: int| mod_r(sum(col(ytss, i)))),
            ms,
            tau,
        ),
{
    let k = xs.len();
    let big_x = sum(xs);
    let big_ys = Seq::new(ms.len(), |i: int| sum(col(yss, i)));
    let agg_yts = Seq::new(ms.len(), |i: int| mod_r(sum(col(ytss, i))));
    // The aggregate X_tilde is the image of the summed x secrets.
    assert(mod_r(sum(xts)) == mod_r(big_x * tau)) by {
        let txs = Seq::new(k, |j: int| xs[j] * tau);
        crate::algebra::lemma_sum_of_mods(xts, txs);
        assert(forall|j: int| 0 <= j < k ==> #[trigger] txs[j] == tau * xs[j]) by {
            assert forall|j: int| 0 <= j < k implies #[trigger] txs[j] == tau * xs[j] by {
                assert(xs[j] * tau == tau * xs[j]) by (nonlinear_arith);
            }
        }
        crate::algebra::lemma_sum_scaled(xs, tau, txs);
        crate::algebra::lemma_mod_r_mul(big_x, tau);
        assert(tau * big_x == big_x * tau) by (nonlinear_arith);
    }
    // Each aggregate Y_tilde column is the image of the summed y secrets.
    assert(forall|i: int|
        0 <= i < ms.len() ==> #[trigger] agg_yts[i] == mod_r(big_ys[i] * tau)) by {
        assert forall|i: int| 0 <= i < ms.len() implies #[trigger] agg_yts[i] == mod_r(
            big_ys[i] * tau,
        ) by {
            let colt = col(ytss, i);
            let cols = col(yss, i);
            let tcols = Seq::new(k, |j: int| cols[j] * tau);
            assert(forall|j: int| 0 <= j < k ==> #[trigger] colt[j] == mod_r(tcols[j]));
            crate::algebra::lemma_sum_of_mods(colt, tcols);
            assert(forall|j: int| 0 <= j < k ==> #[trigger] tcols[j] == tau * cols[j]) by {
                assert forall|j: int| 0 <= j < k implies #[trigger] tcols[j] == tau * cols[j] by {
                    assert(cols[j] * tau == tau * cols[j]) by (nonlinear_arith);
                }
            }
            crate::algebra::lemma_sum_scaled(cols, tau, tcols);
            assert(sum(tcols) == tau * sum(cols));
            assert(tau * sum(cols) == sum(cols) * tau) by (nonlinear_arith);
        }
    }
    // The summed sigma_2 carries the signing equation of the summed key.
    assert(mod_r(sum(s2s)) == mod_r(s1 * crate::algebra::sig_exp(big_x, big_ys, ms))) by {
        let es = Seq::new(k, |j: int| crate::algebra::sig_exp(xs[j], yss[j], ms));
        let ses = Seq::new(k, |j: int| s1 * es[j]);
        assert(forall|j: int| 0 <= j < k ==> #[trigger] s2s[j] == mod_r(ses[j]));
        crate::algebra::lemma_sum_of_mods(s2s, ses);
        crate::algebra::lemma_sum_scaled(es, s1, ses);
        // the reduced exponents sum to the exponent of the summed key
        let raw = Seq::new(k, |j: int| xs[j] + crate::algebra::dot(yss[j], ms));
        assert(forall|j: int| 0 <= j < k ==> #[trigger] es[j] == mod_r(raw[j]));
        crate::algebra::lemma_sum_of_mods(es, raw);
        let dots = Seq::new(k, |j: int| crate::algebra::dot(yss[j], ms));
        crate::algebra::lemma_sum_pointwise_add(xs, dots, raw);
        crate::algebra::lemma_dot_col_sum(yss, ms);
        assert(Seq::new(ms.len(), |i: int| sum(Seq::new(yss.len(), |j: int| yss[j][i]))) =~= big_ys);
        assert(sum(raw) == big_x + crate::algebra::dot(big_ys, ms));
        calc! {
            (==)
            mod_r(sum(s2s)); {}
            mod_r(sum(ses)); {}
            mod_r(s1 * sum(es)); {
                crate::algebra::lemma_mod_r_mul(s1, sum(es));
            }
            mod_r(s1 * mod_r(sum(es))); {}
            mod_r(s1 * mod_r(sum(raw))); {}
            mod_r(s1 * crate::algebra::sig_exp(big_x, big_ys, ms));
        }
    }
    crate::algebra::lemma_signing_equation_verifies(
        big_x,
        big_ys,
        ms,
        mod_r(sum(xts)),
        agg_yts,
        tau,
        s1,
        mod_r(sum(s2s)),
    );
}

} // verus!
