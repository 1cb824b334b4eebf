//! The mathematical model of the pairing groups.
//!
//! Every element of the scalar field, of G1, of G2 and of the target group
//! is modelled by an integer: scalars by their canonical residue modulo
//! the group order, group elements by their discrete logarithm with
//! respect to a fixed generator of the respective prime-order subgroup.
//! Under that model every group operation is modular arithmetic.

use vstd::prelude::*;
use vstd::calc;
use vstd::arithmetic::div_mod::{
    lemma_mod_add_multiples_vanish,
    lemma_add_mod_noop_right, lemma_mod_bound, lemma_mod_equivalence, lemma_mod_twice,
    lemma_mul_mod_noop_general, lemma_small_mod,
};

verus! {

/// The order of the scalar field and of each prime-order subgroup of
/// BLS12-381.
pub open spec fn r_ord() -> int {
    0x73eda753299d7d483339d80809a1d80553bda402fffe5bfeffffffff00000001int
}

/// Whether `v` is a canonical residue: the view of every scalar and of
/// every subgroup element lies in this range.
pub open spec fn in_r(v: int) -> bool {
    0 <= v < r_ord()
}

/// The canonical residue of an integer modulo the group order.
pub open spec fn mod_r(x: int) -> int {
    x % r_ord()
}

/// Dot product of two sequences of the same length:
/// `ys[0]*ms[0] + ... + ys[n-1]*ms[n-1]`.
pub open spec fn dot(ys: Seq<int>, ms: Seq<int>) -> int
    decreases ys.len(),
{
    if ys.len() == 0 || ms.len() == 0 {
        0
    } else {
        dot(ys.drop_last(), ms.drop_last()) + ys.last() * ms.last()
    }
}

/// Sum of a sequence of integers.
pub open spec fn sum(s: Seq<int>) -> int
    decreases s.len(),
{
    if s.len() == 0 {
        0
    } else {
        sum(s.drop_last()) + s.last()
    }
}

/// The exponent of the second signature component: the signing key folded
/// with the messages, `x + y[0]*m[0] + ... + y[L-1]*m[L-1]`, reduced.
pub open spec fn sig_exp(x: int, ys: Seq<int>, ms: Seq<int>) -> int {
    mod_r(x + dot(ys, ms))
}

/// The pairing equation of verification, in the discrete-logarithm model:
/// `e(sigma_1, X_tilde * prod Y_tilde[i]^{m_i}) == e(sigma_2, g_tilde)`.
pub open spec fn pairing_passes(
    s1: int,
    s2: int,
    xt: int,
    yts: Seq<int>,
    ms: Seq<int>,
    tau: int,
) -> bool {
    mod_r(s1 * mod_r(xt + dot(yts, ms))) == mod_r(s2 * tau)
}

/// Whether a signature with views `(s1, s2)` verifies for the message
/// views `ms` under a verkey with views `(xt, yts)` and the verkey-group
/// generator view `tau`: neither component is the identity and the pairing
/// equation holds.
pub open spec fn sig_verifies(
    s1: int,
    s2: int,
    xt: int,
    yts: Seq<int>,
    ms: Seq<int>,
    tau: int,
) -> bool {
    s1 != 0 && s2 != 0 && pairing_passes(s1, s2, xt, yts, ms, tau)
}

/// The residue of a residue is itself.
pub proof fn lemma_mod_r_bound(x: int)
    ensures
        in_r(mod_r(x)),
        mod_r(mod_r(x)) == mod_r(x),
{
    lemma_mod_bound(x, r_ord());
    lemma_mod_twice(x, r_ord());
}

/// A canonical residue is its own residue.
pub proof fn lemma_mod_r_small(x: int)
    requires
        in_r(x),
    ensures
        mod_r(x) == x,
{
    lemma_small_mod(x as nat, r_ord() as nat);
}

/// Reducing the right summand first does not change the residue of a sum.
pub proof fn lemma_mod_r_add_right(a: int, b: int)
    ensures
        mod_r(a + mod_r(b)) == mod_r(a + b),
{
    lemma_add_mod_noop_right(a, b, r_ord());
}

/// Reducing either factor first does not change the residue of a product.
pub proof fn lemma_mod_r_mul(a: int, b: int)
    ensures
        mod_r(mod_r(a) * b) == mod_r(a * b),
        mod_r(a * mod_r(b)) == mod_r(a * b),
{
    lemma_mul_mod_noop_general(a, b, r_ord());
}

/// Adding the reduced negation `r_ord() - v` subtracts `v`, modulo the
/// order.
pub proof fn lemma_mod_r_sub(a: int, v: int)
    ensures
        mod_r(a + mod_r(r_ord() - v)) == mod_r(a - v),
{
    lemma_mod_r_add_right(a, r_ord() - v);
    lemma_mod_add_multiples_vanish(a - v, r_ord());
    assert(a + (r_ord() - v) == r_ord() + (a - v));
}

/// Two integers have the same residue exactly when their difference
/// reduces to zero.
pub proof fn lemma_mod_r_equivalence(a: int, b: int)
    ensures
        (mod_r(a) == mod_r(b)) <==> mod_r(a - b) == 0,
{
    lemma_mod_equivalence(a, b, r_ord());
}

/// Taking one more element of both sequences extends the dot product by
/// one more term.
pub proof fn lemma_dot_take_step(ys: Seq<int>, ms: Seq<int>, i: int)
    requires
        0 <= i < ys.len(),
        i < ms.len(),
    ensures
        dot(ys.take(i + 1), ms.take(i + 1)) == dot(ys.take(i), ms.take(i)) + ys[i] * ms[i],
{
    let a = ys.take(i + 1);
    let b = ms.take(i + 1);
    assert(a.drop_last() =~= ys.take(i));
    assert(b.drop_last() =~= ms.take(i));
    assert(a.last() == ys[i]);
    assert(b.last() == ms[i]);
}

/// Taking one more element extends the sum by one more term.
pub proof fn lemma_sum_take_step(s: Seq<int>, i: int)
    requires
        0 <= i < s.len(),
    ensures
        sum(s.take(i + 1)) == sum(s.take(i)) + s[i],
{
    let a = s.take(i + 1);
    assert(a.drop_last() =~= s.take(i));
    assert(a.last() == s[i]);
}

/// Taking all elements leaves the sum unchanged.
pub proof fn lemma_sum_take_all(s: Seq<int>)
    ensures
        sum(s.take(s.len() as int)) == sum(s),
{
    assert(s.take(s.len() as int) =~= s);
}

/// Taking all elements leaves the dot product unchanged.
pub proof fn lemma_dot_take_all(ys: Seq<int>, ms: Seq<int>)
    ensures
        dot(ys.take(ys.len() as int), ms.take(ms.len() as int)) == dot(ys, ms),
{
    assert(ys.take(ys.len() as int) =~= ys);
    assert(ms.take(ms.len() as int) =~= ms);
}

/// A dot product against key elements that are all `tau`-multiples of the
/// underlying secrets is, modulo the order, the `tau`-multiple of the dot
/// product against the secrets themselves.  This is the heart of the
/// pairing-based verification equation.
pub proof fn lemma_dot_key_factor(x: int, xt: int, ys: Seq<int>, yts: Seq<int>, ms: Seq<int>, tau: int)
    requires
        yts.len() == ys.len(),
        ms.len() == ys.len(),
        xt == mod_r(x * tau),
        forall|i: int| 0 <= i < ys.len() ==> yts[i] == mod_r(ys[i] * tau),
    ensures
        mod_r(xt + dot(yts, ms)) == mod_r((x + dot(ys, ms)) * tau),
    decreases ms.len(),
{
    if ms.len() == 0 {
        lemma_mod_r_bound(x * tau);
        assert(mod_r(xt + 0) == mod_r(mod_r(x * tau)));
        assert((x + 0) * tau == x * tau) by (nonlinear_arith);
    } else {
        let ys1 = ys.drop_last();
        let yts1 = yts.drop_last();
        let ms1 = ms.drop_last();
        let yl = ys.last();
        let ml = ms.last();
        lemma_dot_key_factor(x, xt, ys1, yts1, ms1, tau);
        let d1 = dot(yts1, ms1);
        let e1 = dot(ys1, ms1);
        // dot(yts, ms) == d1 + mod_r(yl * tau) * ml
        assert(yts.last() == mod_r(yl * tau));
        calc! {
            (==)
            mod_r(xt + dot(yts, ms)); {
                assert(dot(yts, ms) == d1 + mod_r(yl * tau) * ml);
            }
            mod_r(xt + d1 + mod_r(yl * tau) * ml); {
                lemma_mod_r_add_right(xt + d1, mod_r(yl * tau) * ml);
                lemma_mod_r_mul(yl * tau, ml);
                lemma_mod_r_add_right(xt + d1, (yl * tau) * ml);
                lemma_mod_r_add_right(xt + d1, mod_r((yl * tau) * ml));
            }
            mod_r(xt + d1 + (yl * tau) * ml); {
                lemma_mod_r_add_right(mod_r(xt + d1), (yl * tau) * ml);
                lemma_mod_r_bound(xt + d1);
                lemma_mod_r_add_right(mod_r((x + e1) * tau), (yl * tau) * ml);
                lemma_mod_r_bound((x + e1) * tau);
            }
            mod_r((x + e1) * tau + (yl * tau) * ml); {
                assert((x + e1) * tau + (yl * tau) * ml == (x + (e1 + yl * ml)) * tau)
                    by (nonlinear_arith);
            }
            mod_r((x + (e1 + yl * ml)) * tau); {
                assert(dot(ys, ms) == e1 + yl * ml);
            }
            mod_r((x + dot(ys, ms)) * tau);
        }
    }
}

/// The executable pairing check computes
/// `e(sigma_1, Y) * e(-sigma_2, g_tilde)` and compares with the unit; in
/// the discrete-log model that is equivalent to the two pairings agreeing.
pub proof fn lemma_pairing_check_form(s1: int, s2: int, y: int, tau: int)
    requires
        in_r(s2),
    ensures
        (mod_r(s1 * y + mod_r(r_ord() - s2) * tau) == 0) <==> (mod_r(s1 * y) == mod_r(s2 * tau)),
{
    lemma_mod_add_multiples_vanish(-s2, r_ord());
    assert(mod_r(r_ord() - s2) == mod_r(-s2));
    calc! {
        (==)
        mod_r(s1 * y + mod_r(r_ord() - s2) * tau); {
            lemma_mod_r_add_right(s1 * y, mod_r(-s2) * tau);
            lemma_mod_r_mul(-s2, tau);
            lemma_mod_r_add_right(s1 * y, (-s2) * tau);
        }
        mod_r(s1 * y + (-s2) * tau); {
            assert((-s2) * tau == -(s2 * tau)) by (nonlinear_arith);
        }
        mod_r(s1 * y - s2 * tau);
    }
    lemma_mod_r_equivalence(s1 * y, s2 * tau);
}

/// A signature whose second component carries the signing exponent over
/// the first satisfies the pairing equation under the matching verkey.
/// This is the completeness core of the scheme: signing, aggregation and
/// the proof of knowledge all discharge their verification equations here.
pub proof fn lemma_signing_equation_verifies(
    x: int,
    ys: Seq<int>,
    ms: Seq<int>,
    xt: int,
    yts: Seq<int>,
    tau: int,
    s1: int,
    s2: int,
)
    requires
        yts.len() == ys.len(),
        ms.len() == ys.len(),
        xt == mod_r(x * tau),
        forall|i: int| 0 <= i < ys.len() ==> yts[i] == mod_r(ys[i] * tau),
        s2 == mod_r(s1 * sig_exp(x, ys, ms)),
    ensures
        pairing_passes(s1, s2, xt, yts, ms, tau),
{
    let e = x + dot(ys, ms);
    lemma_dot_key_factor(x, xt, ys, yts, ms, tau);
    calc! {
        (==)
        mod_r(s1 * mod_r(xt + dot(yts, ms))); {}
        mod_r(s1 * mod_r(e * tau)); {
            lemma_mod_r_mul(s1, e * tau);
        }
        mod_r(s1 * (e * tau)); {
            assert(s1 * (e * tau) == (s1 * tau) * e) by (nonlinear_arith);
        }
        mod_r((s1 * tau) * e); {
            lemma_mod_r_mul(s1 * tau, e);
        }
        mod_r((s1 * tau) * mod_r(e)); {
            assert((s1 * tau) * mod_r(e) == (s1 * mod_r(e)) * tau) by (nonlinear_arith);
        }
        mod_r((s1 * mod_r(e)) * tau); {
            lemma_mod_r_mul(s1 * mod_r(e), tau);
        }
        mod_r(mod_r(s1 * mod_r(e)) * tau); {}
        mod_r(s2 * tau);
    }
}

/// The Schnorr verification equation over a multi-base commitment, in the
/// discrete-log model: `prod B_j^{s_j} == T * C^c`.
pub open spec fn schnorr_passes(bases: Seq<int>, resp: Seq<int>, tv: int, cv: int, c: int) -> bool {
    mod_r(dot(bases, resp)) == mod_r(tv + c * cv)
}

/// Folding the responses `s_j = r_j + c*x_j` against the bases splits the
/// dot product into the blinding part and `c` times the secret part.
pub proof fn lemma_schnorr_response_dot(
    bases: Seq<int>,
    xs: Seq<int>,
    bs: Seq<int>,
    c: int,
    resp: Seq<int>,
)
    requires
        xs.len() == bases.len(),
        bs.len() == bases.len(),
        resp.len() == bases.len(),
        forall|j: int| 0 <= j < bases.len() ==> resp[j] == mod_r(#[trigger] bs[j] + c * xs[j]),
    ensures
        mod_r(dot(bases, resp)) == mod_r(dot(bases, bs) + c * dot(bases, xs)),
    decreases bases.len(),
{
    if bases.len() == 0 {
    } else {
        let bases1 = bases.drop_last();
        let xs1 = xs.drop_last();
        let bs1 = bs.drop_last();
        let resp1 = resp.drop_last();
        lemma_schnorr_response_dot(bases1, xs1, bs1, c, resp1);
        let bl = bases.last();
        let xl = xs.last();
        let rl = bs.last();
        let dr = dot(bases1, resp1);
        let db = dot(bases1, bs1);
        let dx = dot(bases1, xs1);
        assert(resp.last() == mod_r(rl + c * xl));
        calc! {
            (==)
            mod_r(dot(bases, resp)); {
                assert(dot(bases, resp) == dr + bl * mod_r(rl + c * xl));
            }
            mod_r(dr + bl * mod_r(rl + c * xl)); {
                lemma_mod_r_add_right(dr, bl * mod_r(rl + c * xl));
                lemma_mod_r_mul(bl, rl + c * xl);
                lemma_mod_r_add_right(dr, bl * (rl + c * xl));
                lemma_mod_r_add_right(dr, mod_r(bl * (rl + c * xl)));
            }
            mod_r(dr + bl * (rl + c * xl)); {
                lemma_mod_r_add_right(bl * (rl + c * xl), dr);
                lemma_mod_r_add_right(bl * (rl + c * xl), db + c * dx);
            }
            mod_r(db + c * dx + bl * (rl + c * xl)); {
                assert(db + c * dx + bl * (rl + c * xl) == (db + bl * rl) + c * (dx + bl * xl))
                    by (nonlinear_arith);
            }
            mod_r((db + bl * rl) + c * (dx + bl * xl)); {
                assert(dot(bases, bs) == db + bl * rl);
                assert(dot(bases, xs) == dx + bl * xl);
            }
            mod_r(dot(bases, bs) + c * dot(bases, xs));
        }
    }
}

/// Schnorr completeness: honest responses make the verification equation
/// hold against the commitment `T` of the blindings and the commitment
/// `C` of the secrets.
pub proof fn lemma_schnorr_completeness(
    bases: Seq<int>,
    xs: Seq<int>,
    bs: Seq<int>,
    c: int,
    resp: Seq<int>,
    tv: int,
    cv: int,
)
    requires
        xs.len() == bases.len(),
        bs.len() == bases.len(),
        resp.len() == bases.len(),
        forall|j: int| 0 <= j < bases.len() ==> resp[j] == mod_r(#[trigger] bs[j] + c * xs[j]),
        tv == mod_r(dot(bases, bs)),
        cv == mod_r(dot(bases, xs)),
    ensures
        schnorr_passes(bases, resp, tv, cv, c),
{
    lemma_schnorr_response_dot(bases, xs, bs, c, resp);
    let db = dot(bases, bs);
    let dx = dot(bases, xs);
    calc! {
        (==)
        mod_r(db + c * dx); {
            lemma_mod_r_add_right(c * dx, db);
            lemma_mod_r_add_right(c * dx, mod_r(db));
        }
        mod_r(tv + c * dx); {
            lemma_mod_r_add_right(tv, c * dx);
            lemma_mod_r_mul(c, dx);
            lemma_mod_r_add_right(tv, c * mod_r(dx));
        }
        mod_r(tv + c * cv);
    }
}

/// Summing reduced terms gives the same residue as summing the terms.
pub proof fn lemma_sum_of_mods(s: Seq<int>, t: Seq<int>)
    requires
        s.len() == t.len(),
        forall|j: int| 0 <= j < s.len() ==> s[j] == mod_r(#[trigger] t[j]),
    ensures
        mod_r(sum(s)) == mod_r(sum(t)),
    decreases s.len(),
{
    if s.len() > 0 {
        let s1 = s.drop_last();
        let t1 = t.drop_last();
        lemma_sum_of_mods(s1, t1);
        calc! {
            (==)
            mod_r(sum(s)); {}
            mod_r(sum(s1) + mod_r(t.last())); {
                lemma_mod_r_add_right(sum(s1), t.last());
            }
            mod_r(sum(s1) + t.last()); {
                lemma_mod_r_add_right(t.last(), sum(s1));
                lemma_mod_r_add_right(t.last(), sum(t1));
            }
            mod_r(sum(t1) + t.last()); {}
            mod_r(sum(t));
        }
    }
}

/// A common factor moves out of a sum.
pub proof fn lemma_sum_scaled(vals: Seq<int>, c: int, scaled: Seq<int>)
    requires
        scaled.len() == vals.len(),
        forall|j: int| 0 <= j < vals.len() ==> #[trigger] scaled[j] == c * vals[j],
    ensures
        sum(scaled) == c * sum(vals),
    decreases vals.len(),
{
    if vals.len() == 0 {
        assert(c * 0 == 0) by (nonlinear_arith);
    } else {
        lemma_sum_scaled(vals.drop_last(), c, scaled.drop_last());
        assert(c * sum(vals.drop_last()) + c * vals.last() == c * (sum(vals.drop_last())
            + vals.last())) by (nonlinear_arith);
    }
}

/// Sums add pointwise.
pub proof fn lemma_sum_pointwise_add(a: Seq<int>, b: Seq<int>, c: Seq<int>)
    requires
        a.len() == c.len(),
        b.len() == c.len(),
        forall|j: int| 0 <= j < c.len() ==> #[trigger] c[j] == a[j] + b[j],
    ensures
        sum(c) == sum(a) + sum(b),
    decreases c.len(),
{
    if c.len() > 0 {
        lemma_sum_pointwise_add(a.drop_last(), b.drop_last(), c.drop_last());
    }
}

/// Dot products add pointwise in the left argument.
pub proof fn lemma_dot_pointwise_add_left(a: Seq<int>, b: Seq<int>, ab: Seq<int>, ms: Seq<int>)
    requires
        a.len() == ms.len(),
        b.len() == ms.len(),
        ab.len() == ms.len(),
        forall|i: int| 0 <= i < ms.len() ==> #[trigger] ab[i] == a[i] + b[i],
    ensures
        dot(ab, ms) == dot(a, ms) + dot(b, ms),
    decreases ms.len(),
{
    if ms.len() > 0 {
        lemma_dot_pointwise_add_left(a.drop_last(), b.drop_last(), ab.drop_last(), ms.drop_last());
        assert((a.last() + b.last()) * ms.last() == a.last() * ms.last() + b.last() * ms.last())
            by (nonlinear_arith);
    }
}

/// A dot product against zeros vanishes.
pub proof fn lemma_dot_zero_left(z: Seq<int>, ms: Seq<int>)
    requires
        z.len() == ms.len(),
        forall|i: int| 0 <= i < z.len() ==> #[trigger] z[i] == 0,
    ensures
        dot(z, ms) == 0,
    decreases ms.len(),
{
    if ms.len() > 0 {
        lemma_dot_zero_left(z.drop_last(), ms.drop_last());
        assert(0 * ms.last() == 0) by (nonlinear_arith);
    }
}

/// Summing per-signer dot products against a common message vector is the
/// dot product of the columnwise sums against it.
pub proof fn lemma_dot_col_sum(yss: Seq<Seq<int>>, ms: Seq<int>)
    requires
        forall|j: int| 0 <= j < yss.len() ==> (#[trigger] yss[j]).len() == ms.len(),
    ensures
        sum(Seq::new(yss.len(), |j: int| dot(yss[j], ms))) == dot(
            Seq::new(ms.len(), |i: int| sum(Seq::new(yss.len(), |j: int| yss[j][i]))),
            ms,
        ),
    decreases yss.len(),
{
    let k = yss.len();
    let dots = Seq::new(k, |j: int| dot(yss[j], ms));
    let cols = Seq::new(ms.len(), |i: int| sum(Seq::new(k, |j: int| yss[j][i])));
    if k == 0 {
        assert(forall|i: int|
            0 <= i < ms.len() ==> #[trigger] cols[i] == sum(Seq::new(0, |j: int| yss[j][i])));
        lemma_dot_zero_left(cols, ms);
    } else {
        let yss1 = yss.drop_last();
        let last = yss.last();
        lemma_dot_col_sum(yss1, ms);
        let dots1 = Seq::new((k - 1) as nat, |j: int| dot(yss1[j], ms));
        let cols1 = Seq::new(ms.len(), |i: int| sum(Seq::new((k - 1) as nat, |j: int| yss1[j][i])));
        assert(dots.drop_last() =~= dots1);
        assert(dots.last() == dot(last, ms));
        assert(sum(dots) == sum(dots1) + dot(last, ms));
        assert(forall|i: int| 0 <= i < ms.len() ==> #[trigger] cols[i] == cols1[i] + last[i]) by {
            assert forall|i: int| 0 <= i < ms.len() implies #[trigger] cols[i] == cols1[i]
                + last[i] by {
                let colf = Seq::new(k, |j: int| yss[j][i]);
                let col1 = Seq::new((k - 1) as nat, |j: int| yss1[j][i]);
                assert(colf.drop_last() =~= col1);
                assert(colf.last() == last[i]);
            }
        }
        lemma_dot_pointwise_add_left(cols1, last, cols, ms);
    }
}

/// Multiplying by `rv` and then by its inverse `kv` leaves every residue
/// unchanged.
pub proof fn lemma_scale_cancel(rv: int, kv: int, a: int)
    requires
        mod_r(rv * kv) == 1,
    ensures
        mod_r(kv * mod_r(rv * a)) == mod_r(a),
{
    calc! {
        (==)
        mod_r(kv * mod_r(rv * a)); {
            lemma_mod_r_mul(kv, rv * a);
        }
        mod_r(kv * (rv * a)); {
            assert(kv * (rv * a) == (rv * kv) * a) by (nonlinear_arith);
        }
        mod_r((rv * kv) * a); {
            lemma_mod_r_mul(rv * kv, a);
        }
        mod_r(mod_r(rv * kv) * a); {}
        mod_r(1 * a); {}
        mod_r(a);
    }
}

/// Randomization invariance: raising both signature components to a power
/// `rv` that has a modular inverse `kv` preserves verification in every
/// context, in both directions.
pub proof fn lemma_randomization_iff(
    s1: int,
    s2: int,
    t1: int,
    t2: int,
    xt: int,
    yts: Seq<int>,
    ms: Seq<int>,
    tau: int,
    rv: int,
    kv: int,
)
    requires
        in_r(s1),
        in_r(s2),
        t1 == mod_r(rv * s1),
        t2 == mod_r(rv * s2),
        mod_r(rv * kv) == 1,
    ensures
        sig_verifies(t1, t2, xt, yts, ms, tau) <==> sig_verifies(s1, s2, xt, yts, ms, tau),
{
    let y = mod_r(xt + dot(yts, ms));
    // The scaled components are zero exactly when the originals are.
    if s1 == 0 {
        assert(t1 == mod_r(0));
        assert(mod_r(0) == 0);
    }
    if t1 == 0 && s1 != 0 {
        lemma_scale_cancel(rv, kv, s1);
        lemma_mod_r_small(s1);
        assert(mod_r(kv * 0) == 0);
    }
    if s2 == 0 {
        assert(t2 == mod_r(0));
        assert(mod_r(0) == 0);
    }
    if t2 == 0 && s2 != 0 {
        lemma_scale_cancel(rv, kv, s2);
        lemma_mod_r_small(s2);
        assert(mod_r(kv * 0) == 0);
    }
    // The scaled pairing products are the `rv`-multiples of the originals.
    assert(mod_r(t1 * y) == mod_r(rv * (s1 * y))) by {
        lemma_mod_r_mul(rv * s1, y);
        assert((rv * s1) * y == rv * (s1 * y)) by (nonlinear_arith);
    }
    assert(mod_r(t2 * tau) == mod_r(rv * (s2 * tau))) by {
        lemma_mod_r_mul(rv * s2, tau);
        assert((rv * s2) * tau == rv * (s2 * tau)) by (nonlinear_arith);
    }
    if mod_r(s1 * y) == mod_r(s2 * tau) {
        lemma_mod_r_mul(rv, s1 * y);
        lemma_mod_r_mul(rv, s2 * tau);
        assert(mod_r(t1 * y) == mod_r(t2 * tau));
    }
    if mod_r(t1 * y) == mod_r(t2 * tau) {
        lemma_scale_cancel(rv, kv, s1 * y);
        lemma_scale_cancel(rv, kv, s2 * tau);
        assert(mod_r(s1 * y) == mod_r(s2 * tau));
    }
}

} // verus!
