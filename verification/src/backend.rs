//! Trusted facade over the `amcl_wrapper` pairing backend.
//!
//! Each function here wraps exactly one operation of the backend and states
//! its effect in the model of `crate::algebra`: scalars are canonical
//! residues modulo `r_ord()`, group elements are discrete logarithms with
//! respect to a fixed generator of the prime-order subgroup.  An element
//! that lies outside that subgroup (only reachable by deserializing hostile
//! bytes) has a view of at least `r_ord()`, so the clauses below that are
//! guarded by canonicity (`in_r`) claim nothing about it.

use vstd::prelude::*;
use crate::algebra::{in_r, mod_r, r_ord};
use amcl_wrapper::field_elem::FieldElement;
use amcl_wrapper::group_elem::GroupElement;
use amcl_wrapper::group_elem_g1::G1;
use amcl_wrapper::group_elem_g2::G2;
use amcl_wrapper::extension_field_gt::GT;

verus! {

#[verifier::external_type_specification]
#[verifier::external_body]
pub struct ExFieldElement(FieldElement);

#[verifier::external_type_specification]
#[verifier::external_body]
pub struct ExG1(G1);

#[verifier::external_type_specification]
#[verifier::external_body]
pub struct ExG2(G2);

#[verifier::external_type_specification]
#[verifier::external_body]
pub struct ExGT(GT);

/// The canonical residue modulo `r_ord()` held by a scalar.
pub uninterp spec fn fr_of(e: FieldElement) -> int;

/// The discrete logarithm of a G1 element in the prime-order subgroup,
/// base a fixed generator; at least `r_ord()` outside the subgroup.
pub uninterp spec fn sg_of(e: G1) -> int;

/// The discrete logarithm of a G2 element in the prime-order subgroup,
/// base a fixed generator; at least `r_ord()` outside the subgroup.
pub uninterp spec fn vg_of(e: G2) -> int;

/// The discrete logarithm of a target-group element, base the pairing of
/// the two fixed generators.
pub uninterp spec fn gt_of(e: GT) -> int;

/// The scalar that `FieldElement::from_msg_hash` derives from a message.
pub uninterp spec fn hash_fr(msg: Seq<u8>) -> int;

/// The G1 subgroup element that `G1::from_msg_hash` derives from a message.
pub uninterp spec fn hash_sg(msg: Seq<u8>) -> int;

/// The G2 subgroup element that `G2::from_msg_hash` derives from a message.
pub uninterp spec fn hash_vg(msg: Seq<u8>) -> int;

/// The canonical bytes of a scalar, as `FieldElement::to_bytes` writes them.
pub uninterp spec fn ser_fr(v: int) -> Seq<u8>;

/// The canonical uncompressed bytes of a G1 element (`G1::to_bytes`).
pub uninterp spec fn ser_sg(v: int) -> Seq<u8>;

/// The canonical uncompressed bytes of a G2 element (`G2::to_bytes`).
pub uninterp spec fn ser_vg(v: int) -> Seq<u8>;

/// Byte length of a serialized scalar.
pub const FR_BYTES: usize = 48;

/// Byte length of a serialized G1 element.
pub const SG_BYTES: usize = 97;

/// Byte length of a serialized G2 element.
pub const VG_BYTES: usize = 193;

/// Relies on `FieldElement::random`: a uniformly random non-zero scalar,
/// already reduced modulo the curve order.
#[verifier::external_body]
pub fn fe_random() -> (r: FieldElement)
    ensures
        fr_of(r) != 0,
        in_r(fr_of(r)),
{
    FieldElement::random()
}

/// Relies on `FieldElement::plus`: addition modulo the curve order.
#[verifier::external_body]
pub fn fe_add(a: &FieldElement, b: &FieldElement) -> (r: FieldElement)
    ensures
        fr_of(r) == mod_r(fr_of(*a) + fr_of(*b)),
        in_r(fr_of(r)),
{
    a.plus(b)
}

/// Relies on `FieldElement::multiply`: multiplication modulo the curve order.
#[verifier::external_body]
pub fn fe_mul(a: &FieldElement, b: &FieldElement) -> (r: FieldElement)
    ensures
        fr_of(r) == mod_r(fr_of(*a) * fr_of(*b)),
        in_r(fr_of(r)),
{
    a.multiply(b)
}

/// Relies on `FieldElement::clone`: the copy holds the same residue.
#[verifier::external_body]
pub fn fe_clone(a: &FieldElement) -> (r: FieldElement)
    ensures
        fr_of(r) == fr_of(*a),
{
    a.clone()
}

/// Relies on `FieldElement`'s `PartialEq`: scalars are equal exactly when
/// their canonical residues are.
#[verifier::external_body]
pub fn fe_eq(a: &FieldElement, b: &FieldElement) -> (r: bool)
    ensures
        r == (fr_of(*a) == fr_of(*b)),
{
    a == b
}

/// Relies on `FieldElement::inverse`: the modular inverse of a canonical
/// non-zero scalar, and zero for zero.  The inverse clause is guarded by
/// canonicity: the backend's bit operations can build an unreduced scalar
/// whose value is a non-zero multiple of the order, and inversion reduces
/// it to zero first.
#[verifier::external_body]
pub fn fe_inverse(a: &FieldElement) -> (r: FieldElement)
    ensures
        in_r(fr_of(*a)) && fr_of(*a) != 0 ==> mod_r(fr_of(*a) * fr_of(r)) == 1,
        fr_of(*a) == 0 ==> fr_of(r) == 0,
        in_r(fr_of(r)),
{
    a.inverse()
}

/// Relies on `FieldElement::to_bytes`: 48 canonical bytes, a function of
/// the residue alone.
#[verifier::external_body]
pub fn fe_to_bytes(a: &FieldElement) -> (r: Vec<u8>)
    ensures
        r@ == ser_fr(fr_of(*a)),
        r@.len() == FR_BYTES,
{
    a.to_bytes()
}

/// Relies on `FieldElement::from_bytes`: exactly 48 bytes are accepted and
/// reduced modulo the curve order, so the canonical bytes of a scalar come
/// back as that scalar.
#[verifier::external_body]
pub fn fe_from_bytes(b: &[u8]) -> (r: Option<FieldElement>)
    ensures
        r is Some <==> b@.len() == FR_BYTES,
        r is Some ==> in_r(fr_of(r->0)),
        forall|v: int| in_r(v) && b@ == ser_fr(v) ==> r is Some && fr_of(r->0) == v,
{
    match FieldElement::from_bytes(b) {
        Ok(f) => Some(f),
        Err(_) => None,
    }
}

/// Relies on `FieldElement::from_msg_hash`: a scalar derived from the
/// message alone, reduced modulo the curve order.
#[verifier::external_body]
pub fn fe_from_msg_hash(msg: &[u8]) -> (r: FieldElement)
    ensures
        fr_of(r) == hash_fr(msg@),
        in_r(fr_of(r)),
{
    FieldElement::from_msg_hash(msg)
}

/// Relies on `G1::identity`.
#[verifier::external_body]
pub fn sg_identity() -> (r: G1)
    ensures
        sg_of(r) == 0,
{
    G1::identity()
}

/// Relies on `G1::random`: a non-zero random scalar times the generator,
/// so a subgroup element that is never the identity.
#[verifier::external_body]
pub fn sg_random() -> (r: G1)
    ensures
        in_r(sg_of(r)),
        sg_of(r) != 0,
{
    G1::random()
}

/// Relies on `G1::plus`: the group law, addition of discrete logarithms.
#[verifier::external_body]
pub fn sg_add(a: &G1, b: &G1) -> (r: G1)
    ensures
        in_r(sg_of(*a)) && in_r(sg_of(*b)) ==> {
            &&& sg_of(r) == mod_r(sg_of(*a) + sg_of(*b))
            &&& in_r(sg_of(r))
        },
{
    a.plus(b)
}

/// Relies on `G1::scalar_mul_const_time`: multiplication of the discrete
/// logarithm by the scalar.  The subgroup has prime order, so a scalar
/// that does not reduce to zero keeps a non-identity element away from
/// the identity.
#[verifier::external_body]
pub fn sg_mul(g: &G1, e: &FieldElement) -> (r: G1)
    ensures
        in_r(sg_of(*g)) ==> {
            &&& sg_of(r) == mod_r(fr_of(*e) * sg_of(*g))
            &&& in_r(sg_of(r))
        },
        in_r(sg_of(*g)) && sg_of(*g) != 0 && mod_r(fr_of(*e)) != 0 ==> sg_of(r) != 0,
{
    g.scalar_mul_const_time(e)
}

/// Relies on `G1::negation`: negation of the discrete logarithm.
#[verifier::external_body]
pub fn sg_neg(a: &G1) -> (r: G1)
    ensures
        in_r(sg_of(*a)) ==> {
            &&& sg_of(r) == mod_r(r_ord() - sg_of(*a))
            &&& in_r(sg_of(r))
        },
{
    a.negation()
}

/// Relies on `G1::is_identity`: only the subgroup element with discrete
/// logarithm zero is the point at infinity.
#[verifier::external_body]
pub fn sg_is_identity(a: &G1) -> (r: bool)
    ensures
        r == (sg_of(*a) == 0),
{
    a.is_identity()
}

/// Relies on `G1`'s `PartialEq`: point equality, equality of views.
#[verifier::external_body]
pub fn sg_eq(a: &G1, b: &G1) -> (r: bool)
    ensures
        r == (sg_of(*a) == sg_of(*b)),
{
    a == b
}

/// Relies on `G1::clone`.
#[verifier::external_body]
pub fn sg_clone(a: &G1) -> (r: G1)
    ensures
        sg_of(r) == sg_of(*a),
{
    a.clone()
}

/// Relies on `G1::from_msg_hash`: hash-to-curve with cofactor clearing,
/// a subgroup element derived from the message alone.
#[verifier::external_body]
pub fn sg_from_msg_hash(msg: &[u8]) -> (r: G1)
    ensures
        sg_of(r) == hash_sg(msg@),
        in_r(sg_of(r)),
{
    G1::from_msg_hash(msg)
}

/// Relies on `G1::to_bytes` (uncompressed): 97 canonical bytes, a function
/// of the point alone.
#[verifier::external_body]
pub fn sg_to_bytes(a: &G1) -> (r: Vec<u8>)
    ensures
        r@ == ser_sg(sg_of(*a)),
        r@.len() == SG_BYTES,
{
    a.to_bytes(false)
}

/// Relies on `G1::from_bytes`: 97 uncompressed bytes are accepted, and the
/// canonical bytes of a subgroup element come back as that element.  Only
/// full-width inputs are admitted: the deserializer indexes past the end
/// of some shorter (compressed-width) inputs.
#[verifier::external_body]
pub fn sg_from_bytes(b: &[u8]) -> (r: Option<G1>)
    requires
        b@.len() == SG_BYTES,
    ensures
        r is Some,
        forall|v: int| in_r(v) && b@ == ser_sg(v) ==> r is Some && sg_of(r->0) == v,
{
    match G1::from_bytes(b) {
        Ok(g) => Some(g),
        Err(_) => None,
    }
}

/// Relies on `G2::new`, which is the identity.
#[verifier::external_body]
pub fn vg_identity() -> (r: G2)
    ensures
        vg_of(r) == 0,
{
    G2::new()
}

/// Relies on `G2::plus`: the group law, addition of discrete logarithms.
#[verifier::external_body]
pub fn vg_add(a: &G2, b: &G2) -> (r: G2)
    ensures
        in_r(vg_of(*a)) && in_r(vg_of(*b)) ==> {
            &&& vg_of(r) == mod_r(vg_of(*a) + vg_of(*b))
            &&& in_r(vg_of(r))
        },
{
    a.plus(b)
}

/// Relies on `G2::scalar_mul_const_time`: multiplication of the discrete
/// logarithm by the scalar.
#[verifier::external_body]
pub fn vg_mul(g: &G2, e: &FieldElement) -> (r: G2)
    ensures
        in_r(vg_of(*g)) ==> {
            &&& vg_of(r) == mod_r(fr_of(*e) * vg_of(*g))
            &&& in_r(vg_of(r))
        },
{
    g.scalar_mul_const_time(e)
}

/// Relies on `G2::negation`: negation of the discrete logarithm.
#[verifier::external_body]
pub fn vg_neg(a: &G2) -> (r: G2)
    ensures
        in_r(vg_of(*a)) ==> {
            &&& vg_of(r) == mod_r(r_ord() - vg_of(*a))
            &&& in_r(vg_of(r))
        },
{
    a.negation()
}

/// Relies on `G2`'s `PartialEq`: point equality, equality of views.
#[verifier::external_body]
pub fn vg_eq(a: &G2, b: &G2) -> (r: bool)
    ensures
        r == (vg_of(*a) == vg_of(*b)),
{
    a == b
}

/// Relies on `G2::clone`.
#[verifier::external_body]
pub fn vg_clone(a: &G2) -> (r: G2)
    ensures
        vg_of(r) == vg_of(*a),
{
    a.clone()
}

/// Relies on `G2::from_msg_hash`: hash-to-curve with cofactor clearing,
/// a subgroup element derived from the message alone.
#[verifier::external_body]
pub fn vg_from_msg_hash(msg: &[u8]) -> (r: G2)
    ensures
        vg_of(r) == hash_vg(msg@),
        in_r(vg_of(r)),
{
    G2::from_msg_hash(msg)
}

/// Relies on `G2::to_bytes` (uncompressed): 193 canonical bytes, a function
/// of the point alone.
#[verifier::external_body]
pub fn vg_to_bytes(a: &G2) -> (r: Vec<u8>)
    ensures
        r@ == ser_vg(vg_of(*a)),
        r@.len() == VG_BYTES,
{
    a.to_bytes(false)
}

/// What `HashSet::len` returns: the cardinality of the view, which is
/// finite.
pub open spec fn is_finite_card(s: Set<usize>, n: usize) -> bool {
    s.finite() && n == s.len()
}

/// Relies on `std::collections::HashSet::len`: the number of keys the set
/// holds, which is finite.  vstd specifies the count but not the
/// finiteness of the view.
#[verifier::external_body]
pub fn hashset_len(s: &std::collections::HashSet<usize>) -> (n: usize)
    ensures
        is_finite_card(s@, n),
{
    s.len()
}

/// Relies on `GT::ate_2_pairing`, the product of two ate pairings: by
/// bilinearity its discrete logarithm is the sum of the products of the
/// arguments' discrete logarithms.
#[verifier::external_body]
pub fn ate_2_pairing(g1: &G1, g2: &G2, h1: &G1, h2: &G2) -> (r: GT)
    ensures
        in_r(sg_of(*g1)) && in_r(vg_of(*g2)) && in_r(sg_of(*h1)) && in_r(vg_of(*h2)) ==> gt_of(r)
            == mod_r(sg_of(*g1) * vg_of(*g2) + sg_of(*h1) * vg_of(*h2)),
{
    GT::ate_2_pairing(g1, g2, h1, h2)
}

/// Relies on `GT::is_one`: by non-degeneracy of the pairing, exactly the
/// element with discrete logarithm zero is the unit.
#[verifier::external_body]
pub fn gt_is_one(t: &GT) -> (r: bool)
    ensures
        r == (gt_of(*t) == 0),
{
    t.is_one()
}

} // verus!
