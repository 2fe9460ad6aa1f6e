//! Integer arithmetic behind the protocol: divisibility of linear factors,
//! products of linear factors at a point, the coefficients of such products,
//! and what multiplying polynomials out does to them.

use vstd::arithmetic::power::{lemma_pow0, lemma_pow1, lemma_pow_adds, pow};
use vstd::prelude::*;

verus! {

/// Whether `v` can be held in an `i64`.
pub open spec fn fits_i64(v: int) -> bool {
    i64::MIN <= v <= i64::MAX
}

/// Whether the factor `a*x + b` has an integral root: `a` is not zero and
/// divides `b`.
pub open spec fn divides(a: int, b: int) -> bool {
    a != 0 && b % a == 0
}

/// The value of the factor `a*x + b` at `x`.
pub open spec fn linear_at(root: (int, int), x: int) -> int {
    root.0 * x + root.1
}

/// The product of the factors `a*x + b` of `roots`, all taken at `x`. The
/// empty product is one.
pub open spec fn product_at(roots: Seq<(int, int)>, x: int) -> int
    decreases roots.len(),
{
    if roots.len() == 0 {
        1
    } else {
        product_at(roots.drop_last(), x) * linear_at(roots.last(), x)
    }
}

/// The product of the first `k` factors of `roots` at `x`.
pub open spec fn partial_product_at(roots: Seq<(int, int)>, k: int, x: int) -> int {
    product_at(roots.take(k), x)
}

/// The coefficients of `(a*x + b) * c(x)`, where `c` lists the coefficients
/// of a polynomial from the constant term upwards.
pub open spec fn times_linear(c: Seq<int>, root: (int, int)) -> Seq<int> {
    Seq::new(
        c.len() + 1,
        |j: int|
            (if j < c.len() {
                root.1 * c[j]
            } else {
                0
            }) + (if j > 0 {
                root.0 * c[j - 1]
            } else {
                0
            }),
    )
}

/// The coefficients of the product of the factors `a*x + b` of `roots`,
/// from the constant term upwards. No factors give no coefficients.
pub open spec fn product_coefficients(roots: Seq<(int, int)>) -> Seq<int>
    decreases roots.len(),
{
    if roots.len() == 0 {
        Seq::empty()
    } else if roots.len() == 1 {
        seq![roots[0].1, roots[0].0]
    } else {
        times_linear(product_coefficients(roots.drop_last()), roots.last())
    }
}

/// The entry `j` of `v`, or zero where `v` has no such entry.
pub open spec fn entry_or_zero(v: Seq<int>, j: int) -> int {
    if 0 <= j < v.len() {
        v[j]
    } else {
        0
    }
}

/// The sum of `u[i] * v[j - i]` over the first `n` indices `i`: the share of
/// the first `n` coefficients of `u` in the coefficient `j` of the product
/// of `u` and `v`.
pub open spec fn convolution(u: Seq<int>, v: Seq<int>, j: int, n: int) -> int
    decreases n,
{
    if n <= 0 {
        0
    } else {
        convolution(u, v, j, n - 1) + u[n - 1] * entry_or_zero(v, j - (n - 1))
    }
}

/// The coefficients of the product of the polynomials with coefficients `u`
/// and `v`, multiplied out, from the constant term upwards.
pub open spec fn poly_mul(u: Seq<int>, v: Seq<int>) -> Seq<int> {
    if u.len() == 0 || v.len() == 0 {
        Seq::empty()
    } else {
        Seq::new((u.len() + v.len() - 1) as nat, |j: int| convolution(u, v, j, u.len() as int))
    }
}

/// The sum of `basis[i] * c[i]` over the first `n` indices.
pub open spec fn weighted_sum(basis: Seq<int>, c: Seq<int>, n: int) -> int
    decreases n,
{
    if n <= 0 {
        0
    } else {
        weighted_sum(basis, c, n - 1) + basis[n - 1] * c[n - 1]
    }
}

/// The smaller of two lengths.
pub open spec fn shorter(m: nat, n: nat) -> int {
    if m <= n {
        m as int
    } else {
        n as int
    }
}

/// The powers `x^0, x^1, ..., x^(n-1)`.
pub open spec fn power_basis(x: int, n: nat) -> Seq<int> {
    Seq::new(n, |i: int| pow(x, i as nat))
}

/// The value at `x` of the polynomial with coefficients `c`, listed from the
/// constant term upwards.
pub open spec fn poly_at(c: Seq<int>, x: int) -> int {
    weighted_sum(power_basis(x, c.len()), c, c.len() as int)
}

/// Whether the product of `roots` at `x` can be computed in `i64` factor by
/// factor: each factor's value and each partial product fits.
pub open spec fn product_fits(roots: Seq<(int, int)>, x: int) -> bool {
    &&& forall|k: int|
        0 <= k < roots.len() ==> fits_i64((#[trigger] roots[k]).0 * x) && fits_i64(
            linear_at(roots[k], x),
        )
    &&& forall|k: int|
        0 <= k <= roots.len() ==> fits_i64(#[trigger] partial_product_at(roots, k, x))
}

/// The quotient of `n` by `d` rounded towards zero, as machine division
/// computes it.
pub open spec fn truncated_quotient(n: int, d: int) -> int {
    if n >= 0 {
        n / d
    } else {
        -((-n) / d)
    }
}

/// A remainder is never negative, whatever the sign of the divisor.
pub proof fn lemma_mod_nonnegative(a: int, b: int)
    by (nonlinear_arith)
    requires
        a != 0,
    ensures
        0 <= b % a,
{
}

/// A remainder is smaller than the magnitude of the divisor.
pub proof fn lemma_mod_below_magnitude(a: int, b: int)
    by (nonlinear_arith)
    requires
        a != 0,
    ensures
        b % a < a || b % a < -a,
{
}

/// A number is its quotient times the divisor, plus its remainder.
pub proof fn lemma_div_mod_identity(a: int, b: int)
    by (nonlinear_arith)
    requires
        a != 0,
    ensures
        b == a * (b / a) + b % a,
{
}

/// A multiple of `a` that is smaller than `a` in magnitude is zero.
pub proof fn lemma_small_multiple_is_zero(a: int, k: int, r: int)
    by (nonlinear_arith)
    requires
        a != 0,
        a * k == r,
        -a < r < a || a < r < -a,
    ensures
        r == 0,
{
}

/// Dividing a nonnegative number never increases its magnitude, and only
/// division by minus one reaches the negated dividend.
pub proof fn lemma_quotient_magnitude(n: int, d: int)
    requires
        n >= 0,
        d != 0,
    ensures
        -n <= n / d <= n,
        n > 0 && d != -1 ==> -n < n / d,
{
    lemma_div_mod_identity(d, n);
    lemma_mod_nonnegative(d, n);
    lemma_mod_below_magnitude(d, n);
    let q = n / d;
    let r = n % d;
    assert(-n <= q <= n && (n > 0 && d != -1 ==> -n < q)) by (nonlinear_arith)
        requires
            n >= 0,
            d != 0,
            n == d * q + r,
            0 <= r,
            r < d || r < -d,
    ;
}

/// Divisibility does not depend on the sign of the dividend.
pub proof fn lemma_divides_negated(a: int, b: int)
    requires
        a != 0,
    ensures
        (-b) % a == 0 <==> b % a == 0,
{
    lemma_mod_nonnegative(a, b);
    lemma_mod_nonnegative(a, -b);
    lemma_mod_below_magnitude(a, b);
    lemma_mod_below_magnitude(a, -b);
    lemma_div_mod_identity(a, b);
    lemma_div_mod_identity(a, -b);
    let k = b / a + (-b) / a;
    let r = -(b % a) - ((-b) % a);
    assert(a * k == r) by (nonlinear_arith)
        requires
            b == a * (b / a) + b % a,
            -b == a * ((-b) / a) + (-b) % a,
            k == b / a + (-b) / a,
            r == -(b % a) - ((-b) % a),
    ;
    if b % a == 0 || (-b) % a == 0 {
        lemma_small_multiple_is_zero(a, k, r);
    }
}

/// An exact multiple divided by its factor gives the other factor, with
/// division rounding towards zero.
pub proof fn lemma_truncated_quotient_of_multiple(d: int, h: int)
    requires
        d != 0,
    ensures
        truncated_quotient(d * h, d) == h,
{
    let n = d * h;
    lemma_div_mod_identity(d, n);
    lemma_div_mod_identity(d, -n);
    lemma_mod_nonnegative(d, n);
    lemma_mod_nonnegative(d, -n);
    lemma_mod_below_magnitude(d, n);
    lemma_mod_below_magnitude(d, -n);
    if n >= 0 {
        let q = n / d;
        assert(d * (h - q) == n % d) by (nonlinear_arith)
            requires
                n == d * h,
                n == d * q + n % d,
        ;
        lemma_small_multiple_is_zero(d, h - q, n % d);
        assert(h == q) by (nonlinear_arith)
            requires
                d != 0,
                d * (h - q) == 0,
        ;
    } else {
        let q = (-n) / d;
        assert(d * (-h - q) == (-n) % d) by (nonlinear_arith)
            requires
                n == d * h,
                -n == d * q + (-n) % d,
        ;
        lemma_small_multiple_is_zero(d, -h - q, (-n) % d);
        assert(-h == q) by (nonlinear_arith)
            requires
                d != 0,
                d * (-h - q) == 0,
        ;
    }
}

/// The product over a concatenation is the product of the two products.
pub proof fn lemma_product_at_concat(front: Seq<(int, int)>, back: Seq<(int, int)>, x: int)
    ensures
        product_at(front + back, x) == product_at(front, x) * product_at(back, x),
    decreases back.len(),
{
    if back.len() == 0 {
        assert(front + back =~= front);
    } else {
        let all = front + back;
        assert(all.drop_last() =~= front + back.drop_last());
        assert(all.last() == back.last());
        lemma_product_at_concat(front, back.drop_last(), x);
        let f = product_at(front, x);
        let b = product_at(back.drop_last(), x);
        let l = linear_at(back.last(), x);
        assert((f * b) * l == f * (b * l)) by (nonlinear_arith);
    }
}

/// The product over all roots is the product over the first `k` times the
/// product over the rest.
pub proof fn lemma_product_at_split(roots: Seq<(int, int)>, k: int, x: int)
    requires
        0 <= k <= roots.len(),
    ensures
        product_at(roots, x) == product_at(roots.take(k), x) * product_at(roots.skip(k), x),
{
    assert(roots =~= roots.take(k) + roots.skip(k));
    lemma_product_at_concat(roots.take(k), roots.skip(k), x);
}

/// Extending the first `k` factors by the next one multiplies the partial
/// product by that factor's value.
pub proof fn lemma_partial_product_step(roots: Seq<(int, int)>, k: int, x: int)
    requires
        0 <= k < roots.len(),
    ensures
        partial_product_at(roots, k + 1, x) == partial_product_at(roots, k, x) * linear_at(
            roots[k],
            x,
        ),
{
    assert(roots.take(k + 1).drop_last() =~= roots.take(k));
    assert(roots.take(k + 1).last() == roots[k]);
}

/// A product divided by the product of its first `k` factors leaves no
/// remainder: the quotient times the divisor is the product again.
pub proof fn lemma_quotient_by_prefix_is_exact(roots: Seq<(int, int)>, k: int, x: int)
    requires
        0 <= k <= roots.len(),
        product_at(roots.take(k), x) != 0,
    ensures
        truncated_quotient(product_at(roots, x), product_at(roots.take(k), x)) == product_at(
            roots.skip(k),
            x,
        ),
        truncated_quotient(product_at(roots, x), product_at(roots.take(k), x)) * product_at(
            roots.take(k),
            x,
        ) == product_at(roots, x),
{
    lemma_product_at_split(roots, k, x);
    let t = product_at(roots.take(k), x);
    let h = product_at(roots.skip(k), x);
    lemma_truncated_quotient_of_multiple(t, h);
    assert(h * t == t * h) by (nonlinear_arith);
}

/// The next power is the last one times the base.
pub proof fn lemma_power_step(x: int, n: nat)
    ensures
        pow(x, n + 1) == pow(x, n) * x,
{
    lemma_pow_adds(x, n, 1);
    lemma_pow1(x);
}

/// Scaling every basis entry by `k` scales the weighted sum by `k`.
pub proof fn lemma_weighted_sum_scaled(basis: Seq<int>, scaled: Seq<int>, c: Seq<int>, k: int, n: int)
    requires
        forall|i: int| 0 <= i < n ==> scaled[i] == k * basis[i],
    ensures
        weighted_sum(scaled, c, n) == k * weighted_sum(basis, c, n),
    decreases n,
{
    if n > 0 {
        lemma_weighted_sum_scaled(basis, scaled, c, k, n - 1);
        let w = weighted_sum(basis, c, n - 1);
        let p = basis[n - 1];
        let v = c[n - 1];
        assert(k * w + (k * p) * v == k * (w + p * v)) by (nonlinear_arith);
    } else {
        assert(k * 0 == 0);
    }
}

/// The sum of the first `n` terms `c[i] * x^i`.
pub open spec fn power_sum(c: Seq<int>, x: int, n: int) -> int {
    weighted_sum(power_basis(x, c.len()), c, n)
}

/// The first `n + 1` terms of `(a*x + b) * c(x)` are `a*x + b` times the
/// first `n` terms of `c(x)`, and `b * c[n] * x^n` where `c` has an entry
/// `n`.
proof fn lemma_times_linear_terms(c: Seq<int>, root: (int, int), x: int, n: int)
    requires
        0 <= n <= c.len(),
    ensures
        power_sum(times_linear(c, root), x, n + 1) == linear_at(root, x) * power_sum(c, x, n) + (
        if n < c.len() {
            root.1 * c[n] * pow(x, n as nat)
        } else {
            0
        }),
    decreases n,
{
    let t = times_linear(c, root);
    let a = root.0;
    let b = root.1;
    let lin = linear_at(root, x);
    if n == 0 {
        lemma_pow0(x);
        assert(power_sum(t, x, 0) == 0);
        assert(power_sum(c, x, 0) == 0);
        assert(lin * 0 == 0);
        if c.len() > 0 {
            assert(t[0] == b * c[0] + 0);
            assert(1 * (b * c[0]) == b * c[0] * 1) by (nonlinear_arith);
        } else {
            assert(t[0] == 0);
        }
    } else {
        lemma_times_linear_terms(c, root, x, n - 1);
        lemma_power_step(x, (n - 1) as nat);
        let low = pow(x, (n - 1) as nat);
        let high = pow(x, n as nat);
        let before = power_sum(c, x, n - 1);
        let last = c[n - 1];
        assert(power_sum(c, x, n) == before + low * last);
        assert(power_sum(t, x, n + 1) == power_sum(t, x, n) + high * t[n]);
        let u = low * last;
        assert(lin * (before + u) == lin * before + lin * u) by (nonlinear_arith);
        assert(lin * u == (a * x) * u + b * u) by (nonlinear_arith)
            requires
                lin == a * x + b,
        ;
        assert(high * (a * last) == (a * x) * u) by (nonlinear_arith)
            requires
                high == low * x,
                u == low * last,
        ;
        assert(b * last * low == b * u) by (nonlinear_arith)
            requires
                u == low * last,
        ;
        if n < c.len() {
            let next = c[n];
            assert(t[n] == b * next + a * last);
            assert(high * (b * next + a * last) == b * next * high + high * (a * last))
                by (nonlinear_arith);
        } else {
            assert(t[n] == 0 + a * last);
        }
    }
}

/// Multiplying a polynomial by `a*x + b` multiplies its value at every
/// point by the value of `a*x + b` there.
pub proof fn lemma_times_linear_at(c: Seq<int>, root: (int, int), x: int)
    ensures
        poly_at(times_linear(c, root), x) == linear_at(root, x) * poly_at(c, x),
{
    lemma_times_linear_terms(c, root, x, c.len() as int);
}

/// The coefficients of a product of factors describe the same polynomial as
/// the factors do: its value at every point is the product of the factors'
/// values there.
pub proof fn lemma_product_coefficients_at(roots: Seq<(int, int)>, x: int)
    requires
        roots.len() > 0,
    ensures
        poly_at(product_coefficients(roots), x) == product_at(roots, x),
    decreases roots.len(),
{
    let c = product_coefficients(roots);
    if roots.len() == 1 {
        let basis = power_basis(x, 2);
        lemma_pow0(x);
        lemma_pow1(x);
        assert(weighted_sum(basis, c, 0) == 0);
        assert(weighted_sum(basis, c, 1) == 0 + basis[0] * c[0]);
        assert(weighted_sum(basis, c, 2) == weighted_sum(basis, c, 1) + basis[1] * c[1]);
        assert(roots.drop_last().len() == 0);
        assert(product_at(roots.drop_last(), x) == 1);
        assert(roots.last() == roots[0]);
        assert(1 * roots[0].1 + x * roots[0].0 == 1 * (roots[0].0 * x + roots[0].1))
            by (nonlinear_arith);
    } else {
        lemma_product_coefficients_at(roots.drop_last(), x);
        lemma_times_linear_at(product_coefficients(roots.drop_last()), roots.last(), x);
        let p = product_at(roots.drop_last(), x);
        let l = linear_at(roots.last(), x);
        assert(l * p == p * l) by (nonlinear_arith);
    }
}

/// Outside the range of the product's coefficients the convolution is zero.
proof fn lemma_convolution_outside(u: Seq<int>, v: Seq<int>, j: int, n: int)
    requires
        0 <= n <= u.len(),
        j < 0 || j >= n + v.len() - 1,
        n > 0 || j < 0 || v.len() > 0,
    ensures
        convolution(u, v, j, n) == 0,
    decreases n,
{
    if n > 0 {
        if n > 1 || j < 0 {
            lemma_convolution_outside(u, v, j, n - 1);
        } else {
            assert(convolution(u, v, j, 0) == 0);
        }
        assert(entry_or_zero(v, j - (n - 1)) == 0);
        assert(u[n - 1] * 0 == 0);
    }
}

/// Multiplying the second factor by `a*x + b` acts on every convolution as
/// it acts on coefficients.
proof fn lemma_convolution_times_linear(u: Seq<int>, v: Seq<int>, root: (int, int), j: int, n: int)
    requires
        0 <= n <= u.len(),
    ensures
        convolution(u, times_linear(v, root), j, n) == root.1 * convolution(u, v, j, n) + root.0
            * convolution(u, v, j - 1, n),
    decreases n,
{
    let a = root.0;
    let b = root.1;
    if n > 0 {
        lemma_convolution_times_linear(u, v, root, j, n - 1);
        let m = j - (n - 1);
        let t = times_linear(v, root);
        assert(entry_or_zero(t, m) == b * entry_or_zero(v, m) + a * entry_or_zero(v, m - 1));
        let c0 = convolution(u, v, j, n - 1);
        let c1 = convolution(u, v, j - 1, n - 1);
        let w = u[n - 1];
        let e0 = entry_or_zero(v, m);
        let e1 = entry_or_zero(v, m - 1);
        assert(b * c0 + a * c1 + w * (b * e0 + a * e1) == b * (c0 + w * e0) + a * (c1 + w * e1))
            by (nonlinear_arith);
    } else {
        assert(b * 0 + a * 0 == 0);
    }
}

/// Multiplying out commutes with a further linear factor:
/// `u * ((a*x + b) * v) == (a*x + b) * (u * v)`.
pub proof fn lemma_poly_mul_times_linear(u: Seq<int>, v: Seq<int>, root: (int, int))
    requires
        u.len() > 0,
        v.len() > 0,
    ensures
        poly_mul(u, times_linear(v, root)) == times_linear(poly_mul(u, v), root),
{
    let n = u.len() as int;
    let left = poly_mul(u, times_linear(v, root));
    let inner = poly_mul(u, v);
    let right = times_linear(inner, root);
    assert(left.len() == right.len());
    assert forall|j: int| 0 <= j < left.len() implies left[j] == right[j] by {
        lemma_convolution_times_linear(u, v, root, j, n);
        if j >= inner.len() {
            lemma_convolution_outside(u, v, j, n);
        }
        if j == 0 {
            lemma_convolution_outside(u, v, -1, n);
        }
    }
    assert(left =~= right);
}

/// Multiplying out with the constant polynomial one changes nothing.
pub proof fn lemma_poly_mul_one(u: Seq<int>)
    requires
        u.len() > 0,
    ensures
        poly_mul(u, seq![1int]) == u,
{
    let one = seq![1int];
    assert forall|j: int| 0 <= j < u.len() implies convolution(u, one, j, u.len() as int)
        == u[j] by {
        lemma_convolution_one(u, j, u.len() as int);
    }
    assert(poly_mul(u, one) =~= u);
}

/// The convolution with the constant polynomial one picks the entry `j`.
proof fn lemma_convolution_one(u: Seq<int>, j: int, n: int)
    requires
        0 <= n <= u.len(),
        0 <= j,
    ensures
        convolution(u, seq![1int], j, n) == (if j < n {
            u[j]
        } else {
            0
        }),
    decreases n,
{
    if n > 0 {
        lemma_convolution_one(u, j, n - 1);
        let e = entry_or_zero(seq![1int], j - (n - 1));
        if j == n - 1 {
            assert(e == 1);
            assert(u[n - 1] * 1 == u[n - 1]);
        } else {
            assert(e == 0);
            assert(u[n - 1] * 0 == 0);
        }
    }
}

/// The coefficients of the product of all factors of `front + back` are the
/// coefficients of the product of `front` and those of the product of
/// `back`, multiplied out.
pub proof fn lemma_product_coefficients_concat(front: Seq<(int, int)>, back: Seq<(int, int)>)
    requires
        front.len() > 0,
        back.len() > 0,
    ensures
        product_coefficients(front + back) == poly_mul(
            product_coefficients(front),
            product_coefficients(back),
        ),
    decreases back.len(),
{
    let all = front + back;
    let u = product_coefficients(front);
    lemma_product_coefficients_len(front);
    assert(all.drop_last() =~= front + back.drop_last());
    assert(all.last() == back.last());
    if back.len() == 1 {
        assert(front + back.drop_last() =~= front);
        let one = seq![1int];
        let t = times_linear(one, back[0]);
        assert(one[0] == 1);
        assert(t[0] == back[0].1 * one[0] + 0);
        assert(t[1] == 0 + back[0].0 * one[0]);
        assert(t =~= product_coefficients(back));
        lemma_poly_mul_one(u);
        lemma_poly_mul_times_linear(u, one, back[0]);
    } else {
        lemma_product_coefficients_concat(front, back.drop_last());
        lemma_product_coefficients_len(back.drop_last());
        lemma_poly_mul_times_linear(u, product_coefficients(back.drop_last()), back.last());
    }
}

/// The coefficients of the product of all `roots` are the coefficients of
/// the product of the first `k` and those of the product of the others,
/// multiplied out.
pub proof fn lemma_product_coefficients_split(roots: Seq<(int, int)>, k: int)
    requires
        0 < k < roots.len(),
    ensures
        product_coefficients(roots) == poly_mul(
            product_coefficients(roots.take(k)),
            product_coefficients(roots.skip(k)),
        ),
{
    assert(roots =~= roots.take(k) + roots.skip(k));
    lemma_product_coefficients_concat(roots.take(k), roots.skip(k));
}

/// A product of `n >= 1` factors has `n + 1` coefficients.
pub proof fn lemma_product_coefficients_len(roots: Seq<(int, int)>)
    ensures
        product_coefficients(roots).len() == (if roots.len() == 0 {
            0
        } else {
            roots.len() + 1
        }),
    decreases roots.len(),
{
    if roots.len() > 1 {
        lemma_product_coefficients_len(roots.drop_last());
    }
}

} // verus!
