//! System parameters and key generation for both scheme variants.

use vstd::prelude::*;
use vstd::slice::slice_to_vec;
use crate::algebra::{in_r, mod_r};
use crate::backend::{
    fe_random, fr_of, hash_sg, hash_vg, sg_from_msg_hash, sg_of, vg_from_msg_hash, vg_mul, vg_of,
};
use amcl_wrapper::field_elem::FieldElement;
use amcl_wrapper::group_elem_g1::G1;
use amcl_wrapper::group_elem_g2::G2;

verus! {

/// The system parameters: a generator of the signature group and a
/// generator of the verkey group, both derived from a label by
/// hash-to-curve with domain separation. Shared by all parties.
pub struct Params {
    pub g: G1,
    pub g_tilde: G2,
}

/// The view of a sequence of scalars: their canonical residues.
pub open spec fn fr_seq(ms: Seq<FieldElement>) -> Seq<int> {
    ms.map_values(|m: FieldElement| fr_of(m))
}

/// The view of a sequence of verkey-group elements: their discrete logs.
pub open spec fn vg_seq(gs: Seq<G2>) -> Seq<int> {
    gs.map_values(|g: G2| vg_of(g))
}

/// Whether every entry of a view sequence is a canonical residue.
pub open spec fn all_in_r(vs: Seq<int>) -> bool {
    forall|i: int| 0 <= i < vs.len() ==> in_r(#[trigger] vs[i])
}

impl Params {
    /// The discrete log of the signature-group generator.
    pub open spec fn gv(self) -> int {
        sg_of(self.g)
    }

    /// The discrete log of the verkey-group generator.
    pub open spec fn tv(self) -> int {
        vg_of(self.g_tilde)
    }

    /// Both generators lie in their prime-order subgroups, which holds of
    /// every value this library constructs.
    pub open spec fn wf(self) -> bool {
        in_r(self.gv()) && in_r(self.tv())
    }

    /// The domain-separation tag appended to the label for `g`: `"g"`.
    pub open spec fn g_tag() -> Seq<u8> {
        seq![103u8]
    }

    /// The domain-separation tag appended to the label for `g_tilde`:
    /// `"g_tilde"`.
    pub open spec fn g_tilde_tag() -> Seq<u8> {
        seq![103u8, 95u8, 116u8, 105u8, 108u8, 100u8, 101u8]
    }

    /// Derive the parameters from a label, deterministically: each
    /// generator is the hash-to-curve image of the label with its own
    /// domain-separation tag.
    pub fn new(label: &[u8]) -> (r: Params)
        ensures
            r.wf(),
            r.gv() == hash_sg(label@ + Self::g_tag()),
            r.tv() == hash_vg(label@ + Self::g_tilde_tag()),
    {
        let mut gb: Vec<u8> = slice_to_vec(label);
        gb.push(103u8);
        proof {
            assert(gb@ =~= label@ + Self::g_tag());
        }
        let mut tb: Vec<u8> = slice_to_vec(label);
        tb.push(103u8);
        tb.push(95u8);
        tb.push(116u8);
        tb.push(105u8);
        tb.push(108u8);
        tb.push(100u8);
        tb.push(101u8);
        proof {
            assert(tb@ =~= label@ + Self::g_tilde_tag());
        }
        let g = sg_from_msg_hash(gb.as_slice());
        let g_tilde = vg_from_msg_hash(tb.as_slice());
        Params { g, g_tilde }
    }
}

/// The signing key: `x` and one `y` scalar per supported message slot
/// (one extra slot, for `m_prime`, in the 2018 scheme).
pub struct Sigkey {
    pub x: FieldElement,
    pub y: Vec<FieldElement>,
}

impl Sigkey {
    /// The residue of `x`.
    pub open spec fn xv(self) -> int {
        fr_of(self.x)
    }

    /// The residues of the `y` scalars.
    pub open spec fn yv(self) -> Seq<int> {
        fr_seq(self.y@)
    }

    /// All scalars are canonical residues; true of every key this
    /// library generates.
    pub open spec fn wf(self) -> bool {
        in_r(self.xv()) && all_in_r(self.yv())
    }
}

/// The verification key: `X_tilde = g_tilde^x` and
/// `Y_tilde[i] = g_tilde^{y[i]}`.
pub struct Verkey {
    pub X_tilde: G2,
    pub Y_tilde: Vec<G2>,
}

impl Verkey {
    /// The discrete log of `X_tilde`.
    pub open spec fn xtv(self) -> int {
        vg_of(self.X_tilde)
    }

    /// The discrete logs of the `Y_tilde` elements.
    pub open spec fn ytv(self) -> Seq<int> {
        vg_seq(self.Y_tilde@)
    }

    /// All elements lie in the prime-order subgroup; true of every key
    /// this library generates or aggregates.
    pub open spec fn wf(self) -> bool {
        in_r(self.xtv()) && all_in_r(self.ytv())
    }
}

/// Whether `vk` is the verification key of `sk` under `params`:
/// `X_tilde = g_tilde^x` and `Y_tilde[i] = g_tilde^{y[i]}`, elementwise in
/// the discrete-log model.
pub open spec fn vk_matches_sk(sk: Sigkey, vk: Verkey, params: Params) -> bool {
    &&& vk.ytv().len() == sk.yv().len()
    &&& vk.xtv() == mod_r(sk.xv() * params.tv())
    &&& forall|i: int|
        0 <= i < sk.yv().len() ==> vk.ytv()[i] == mod_r(#[trigger] sk.yv()[i] * params.tv())
}

/// Generate a fresh key pair supporting `count_messages` messages: sample
/// `x` and each `y[i]` uniformly and publish `g_tilde^x` and the
/// `g_tilde^{y[i]}`.
pub fn keygen(count_messages: usize, params: &Params) -> (kp: (Sigkey, Verkey))
    ensures
        kp.0.y@.len() == count_messages,
        kp.1.Y_tilde@.len() == count_messages,
        kp.0.wf(),
        kp.0.xv() != 0,
        forall|i: int| 0 <= i < count_messages ==> #[trigger] kp.0.yv()[i] != 0,
        params.wf() ==> kp.1.wf() && vk_matches_sk(kp.0, kp.1, *params),
{
    let x = fe_random();
    let X_tilde = vg_mul(&params.g_tilde, &x);
    let mut y: Vec<FieldElement> = Vec::new();
    let mut Y_tilde: Vec<G2> = Vec::new();
    let mut i: usize = 0;
    while i < count_messages
        invariant
            i <= count_messages,
            y@.len() == i,
            Y_tilde@.len() == i,
            forall|j: int| 0 <= j < i ==> in_r(fr_of(#[trigger] y@[j])) && fr_of(y@[j]) != 0,
            params.wf() ==> forall|j: int|
                0 <= j < i ==> in_r(vg_of(#[trigger] Y_tilde@[j])) && vg_of(Y_tilde@[j]) == mod_r(
                    fr_of(y@[j]) * vg_of(params.g_tilde),
                ),
        decreases count_messages - i,
    {
        let yi = fe_random();
        let Yi = vg_mul(&params.g_tilde, &yi);
        y.push(yi);
        Y_tilde.push(Yi);
        i = i + 1;
    }
    let sk = Sigkey { x, y };
    let vk = Verkey { X_tilde, Y_tilde };
    (sk, vk)
}

/// Generate a key pair for the 2018 scheme supporting `count_messages`
/// user messages: one extra `y` slot carries the auxiliary scalar
/// `m_prime`.
pub fn keygen_2018(count_messages: usize, params: &Params) -> (kp: (Sigkey, Verkey))
    requires
        count_messages < usize::MAX,
    ensures
        kp.0.y@.len() == count_messages + 1,
        kp.1.Y_tilde@.len() == count_messages + 1,
        kp.0.wf(),
        kp.0.xv() != 0,
        forall|i: int| 0 <= i < count_messages + 1 ==> #[trigger] kp.0.yv()[i] != 0,
        params.wf() ==> kp.1.wf() && vk_matches_sk(kp.0, kp.1, *params),
{
    keygen(count_messages + 1, params)
}

} // verus!
