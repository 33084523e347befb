use vstd::arithmetic::power::pow;
use vstd::prelude::*;

verus! {

/// Whether an integer is representable as an `i128`.
pub open spec fn fits_i128(x: int) -> bool {
    i128::MIN <= x <= i128::MAX
}

/// The integers held by a coefficient vector.
pub open spec fn as_ints(v: Seq<i128>) -> Seq<int> {
    v.map_values(|c: i128| c as int)
}

/// Coefficient of `x^j` in the polynomial with coefficient sequence `p`
/// (lowest degree first); zero outside the sequence.
pub open spec fn coeff_at(p: Seq<int>, j: int) -> int {
    if 0 <= j < p.len() {
        p[j]
    } else {
        0
    }
}

/// Coefficient `j` of `alpha * cur(x) + beta * x * cur(x) + gamma * prev(x)`.
pub open spec fn three_term_coeff(
    prev: Seq<int>,
    cur: Seq<int>,
    alpha: int,
    beta: int,
    gamma: int,
    j: int,
) -> int {
    alpha * coeff_at(cur, j) + beta * coeff_at(cur, j - 1) + gamma * coeff_at(prev, j)
}

/// One step of a three-term recurrence on polynomials:
/// `alpha * cur(x) + beta * x * cur(x) + gamma * prev(x)`, one degree above `cur`.
pub open spec fn three_term(
    prev: Seq<int>,
    cur: Seq<int>,
    alpha: int,
    beta: int,
    gamma: int,
) -> Seq<int> {
    Seq::new(cur.len() + 1, |j: int| three_term_coeff(prev, cur, alpha, beta, gamma, j))
}

/// Every product and partial sum that forms coefficient `j` of a three-term step fits in `i128`.
pub open spec fn three_term_coeff_fits(
    prev: Seq<int>,
    cur: Seq<int>,
    alpha: int,
    beta: int,
    gamma: int,
    j: int,
) -> bool {
    &&& fits_i128(alpha * coeff_at(cur, j))
    &&& fits_i128(beta * coeff_at(cur, j - 1))
    &&& fits_i128(gamma * coeff_at(prev, j))
    &&& fits_i128(alpha * coeff_at(cur, j) + beta * coeff_at(cur, j - 1))
    &&& fits_i128(three_term_coeff(prev, cur, alpha, beta, gamma, j))
}

/// A whole three-term step can be carried out in `i128` arithmetic.
pub open spec fn three_term_fits(
    prev: Seq<int>,
    cur: Seq<int>,
    alpha: int,
    beta: int,
    gamma: int,
) -> bool {
    forall|j: int|
        0 <= j <= cur.len() ==> #[trigger] three_term_coeff_fits(prev, cur, alpha, beta, gamma, j)
}

fn coeff_of(v: &Vec<i128>, j: usize) -> (r: i128)
    ensures
        r as int == coeff_at(as_ints(v@), j as int),
{
    if j < v.len() {
        v[j]
    } else {
        0
    }
}

/// Computes `alpha * cur(x) + beta * x * cur(x) + gamma * prev(x)` exactly,
/// or `None` when some intermediate value leaves the range of `i128`.
pub fn three_term_step(
    prev: &Vec<i128>,
    cur: &Vec<i128>,
    alpha: i128,
    beta: i128,
    gamma: i128,
) -> (r: Option<Vec<i128>>)
    requires
        cur.len() < usize::MAX,
    ensures
        r is Some <==> three_term_fits(
            as_ints(prev@),
            as_ints(cur@),
            alpha as int,
            beta as int,
            gamma as int,
        ),
        r matches Some(v) ==> as_ints(v@) == three_term(
            as_ints(prev@),
            as_ints(cur@),
            alpha as int,
            beta as int,
            gamma as int,
        ),
{
    let ghost p = as_ints(prev@);
    let ghost c = as_ints(cur@);
    let mut out: Vec<i128> = Vec::new();
    let mut j: usize = 0;
    while j <= cur.len()
        invariant
            j <= cur.len() + 1,
            cur.len() < usize::MAX,
            p == as_ints(prev@),
            c == as_ints(cur@),
            out.len() == j,
            forall|t: int|
                0 <= t < j ==> out@[t] as int == three_term_coeff(
                    p,
                    c,
                    alpha as int,
                    beta as int,
                    gamma as int,
                    t,
                ),
            forall|t: int|
                0 <= t < j ==> #[trigger] three_term_coeff_fits(
                    p,
                    c,
                    alpha as int,
                    beta as int,
                    gamma as int,
                    t,
                ),
        decreases cur.len() + 1 - j,
    {
        let here = coeff_of(cur, j);
        let below = if j == 0 {
            0
        } else {
            coeff_of(cur, j - 1)
        };
        let older = coeff_of(prev, j);
        let next = match alpha.checked_mul(here) {
            None => None,
            Some(a) => match beta.checked_mul(below) {
                None => None,
                Some(b) => match gamma.checked_mul(older) {
                    None => None,
                    Some(g) => match a.checked_add(b) {
                        None => None,
                        Some(ab) => ab.checked_add(g),
                    },
                },
            },
        };
        match next {
            None => {
                assert(!three_term_coeff_fits(p, c, alpha as int, beta as int, gamma as int, j as int));
                return None;
            },
            Some(v) => {
                out.push(v);
                j = j + 1;
            },
        }
    }
    let ghost want = three_term(p, c, alpha as int, beta as int, gamma as int);
    assert(as_ints(out@) =~= want);
    Some(out)
}

/// Coefficients (lowest degree first) of `i! * L_i^(k)(x)`, the generalized Laguerre
/// polynomial of degree `i` and order `k` scaled to integer coefficients.
/// Multiplying `(i+1) L_{i+1} = (2i+k+1-x) L_i - (i+k) L_{i-1}` through by `i!` gives
/// `M_{i+1} = (2i+k+1) M_i - x M_i - (i+k) i M_{i-1}`, starting from `M_0 = 1`.
pub open spec fn laguerre_poly(i: nat, k: int) -> Seq<int>
    decreases i,
{
    if i == 0 {
        seq![1int]
    } else {
        let p = (i - 1) as nat;
        three_term(
            if p == 0 {
                Seq::empty()
            } else {
                laguerre_poly((p - 1) as nat, k)
            },
            laguerre_poly(p, k),
            2 * p + k + 1,
            -1,
            -((p + k) * p),
        )
    }
}

/// The scaled Laguerre polynomial one degree below `i` (empty below degree zero).
pub open spec fn laguerre_prev(i: nat, k: int) -> Seq<int> {
    if i == 0 {
        Seq::empty()
    } else {
        laguerre_poly((i - 1) as nat, k)
    }
}

/// The step from degree `p` to degree `p + 1` can be carried out in `i128`.
pub open spec fn laguerre_step_fits(p: nat, k: int) -> bool {
    three_term_fits(laguerre_prev(p, k), laguerre_poly(p, k), 2 * p + k + 1, -1, -((p + k) * p))
}

/// Every step up to degree `n` can be carried out in `i128`.
pub open spec fn laguerre_fits(n: nat, k: int) -> bool {
    forall|p: nat| p < n ==> #[trigger] laguerre_step_fits(p, k)
}

pub proof fn lemma_laguerre_len(i: nat, k: int)
    ensures
        laguerre_poly(i, k).len() == i + 1,
    decreases i,
{
    if i > 0 {
        lemma_laguerre_len((i - 1) as nat, k);
    }
}

/// The coefficients of `n! * L_n^(k)(x)`, lowest degree first, computed by the
/// three-term recurrence in exact integer arithmetic; `None` when an intermediate
/// value of the recurrence leaves the range of `i128`.
pub fn assoc_laguerre(n: u8, k: u16) -> (r: Option<Vec<i128>>)
    ensures
        r is Some <==> laguerre_fits(n as nat, k as int),
        r matches Some(v) ==> as_ints(v@) == laguerre_poly(n as nat, k as int),
{
    let mut prev: Vec<i128> = Vec::new();
    let mut cur: Vec<i128> = vec![1];
    let mut i: u8 = 0;
    proof {
        assert(as_ints(cur@) =~= laguerre_poly(0, k as int));
        assert(as_ints(prev@) =~= laguerre_prev(0, k as int));
    }
    while i < n
        invariant
            i <= n,
            cur.len() == i + 1,
            as_ints(cur@) == laguerre_poly(i as nat, k as int),
            as_ints(prev@) == laguerre_prev(i as nat, k as int),
            forall|p: nat| p < i ==> #[trigger] laguerre_step_fits(p, k as int),
        decreases n - i,
    {
        let ii = i as i128;
        let kk = k as i128;
        proof {
            assert((ii + kk) * ii <= 65790 * 255) by (nonlinear_arith)
                requires
                    0 <= ii <= 255,
                    0 <= kk <= 65535,
            ;
            assert((ii + kk) * ii >= 0) by (nonlinear_arith)
                requires
                    0 <= ii,
                    0 <= kk,
            ;
        }
        let alpha: i128 = 2 * ii + kk + 1;
        let gamma: i128 = -((ii + kk) * ii);
        match three_term_step(&prev, &cur, alpha, -1, gamma) {
            None => {
                assert(!laguerre_step_fits(i as nat, k as int));
                return None;
            },
            Some(next) => {
                proof {
                    lemma_laguerre_len((i + 1) as nat, k as int);
                    assert(laguerre_poly((i + 1) as nat, k as int) == three_term(
                        laguerre_prev(i as nat, k as int),
                        laguerre_poly(i as nat, k as int),
                        alpha as int,
                        -1,
                        gamma as int,
                    ));
                    assert(laguerre_step_fits(i as nat, k as int));
                    assert forall|p: nat| p < i + 1 implies #[trigger] laguerre_step_fits(
                        p,
                        k as int,
                    ) by {
                        if p == i as nat {
                        }
                    }
                }
                prev = cur;
                cur = next;
                i = i + 1;
            },
        }
    }
    Some(cur)
}

/// `P(m, m, x) / (1 - x^2)^(m/2)`: the seed `(-1)^m (2m-1)!!` of the upward
/// recurrence in the degree, accumulated as `-(2t-1)` for `t = 1..m`.
pub open spec fn legendre_seed(m: nat) -> int
    decreases m,
{
    if m == 0 {
        1
    } else {
        -(2 * m - 1) * legendre_seed((m - 1) as nat)
    }
}

/// Coefficients (lowest degree first) of `d! * P(m+d, m, x) / (1 - x^2)^(m/2)`.
/// Multiplying `(ll-m) P(ll) = x (2ll-1) P(ll-1) - (ll+m-1) P(ll-2)` through by
/// `(ll-m-1)!` gives `R_{p+1} = (2m+2p+1) x R_p - (2m+p) p R_{p-1}` with `ll = m+p+1`.
pub open spec fn legendre_poly(d: nat, m: nat) -> Seq<int>
    decreases d,
{
    if d == 0 {
        seq![legendre_seed(m)]
    } else {
        let p = (d - 1) as nat;
        three_term(
            if p == 0 {
                Seq::empty()
            } else {
                legendre_poly((p - 1) as nat, m)
            },
            legendre_poly(p, m),
            0,
            (2 * m + 2 * p + 1) as int,
            -((2 * m + p) * p),
        )
    }
}

/// The scaled Legendre polynomial one step below `d` (empty below the seed).
pub open spec fn legendre_prev(d: nat, m: nat) -> Seq<int> {
    if d == 0 {
        Seq::empty()
    } else {
        legendre_poly((d - 1) as nat, m)
    }
}

/// Coefficients `c` with `P(l, m, x) = (1 - x^2)^(m/2) * (sum_j c_j x^j) / (l-m)!`,
/// the associated Legendre function as the upward recurrence produces it;
/// the zero polynomial (no coefficients) when `m > l`.
pub open spec fn associated_legendre_poly(l: nat, m: nat) -> Seq<int> {
    if m > l {
        Seq::empty()
    } else {
        legendre_poly((l - m) as nat, m)
    }
}

/// The seed for order `m` can be accumulated in `i128`.
pub open spec fn legendre_seed_fits(m: nat) -> bool {
    forall|t: nat| 1 <= t <= m ==> fits_i128(#[trigger] legendre_seed(t))
}

/// The step from `d` to `d + 1` can be carried out in `i128`.
pub open spec fn legendre_step_fits(p: nat, m: nat) -> bool {
    three_term_fits(
        legendre_prev(p, m),
        legendre_poly(p, m),
        0,
        (2 * m + 2 * p + 1) as int,
        -((2 * m + p) * p),
    )
}

/// The whole computation of the degree `l`, order `m` function can be carried out in `i128`.
pub open spec fn legendre_fits(l: nat, m: nat) -> bool {
    m > l || {
        &&& legendre_seed_fits(m)
        &&& forall|p: nat| p < l - m ==> #[trigger] legendre_step_fits(p, m)
    }
}

pub proof fn lemma_legendre_len(d: nat, m: nat)
    ensures
        legendre_poly(d, m).len() == d + 1,
    decreases d,
{
    if d > 0 {
        lemma_legendre_len((d - 1) as nat, m);
    }
}

/// The coefficients of `P(l, m, x)` as [`associated_legendre_poly`] describes them,
/// computed by the upward recurrence in exact integer arithmetic; `None` when an
/// intermediate value leaves the range of `i128`.
pub fn associated_p(l: u8, m: u8) -> (r: Option<Vec<i128>>)
    ensures
        r is Some <==> legendre_fits(l as nat, m as nat),
        r matches Some(v) ==> as_ints(v@) == associated_legendre_poly(l as nat, m as nat),
{
    if m > l {
        let none: Vec<i128> = Vec::new();
        assert(as_ints(none@) =~= associated_legendre_poly(l as nat, m as nat));
        return Some(none);
    }
    let mut seed: i128 = 1;
    let mut t: u8 = 0;
    while t < m
        invariant
            t <= m,
            m <= l,
            seed as int == legendre_seed(t as nat),
            forall|u: nat| 1 <= u <= t ==> fits_i128(#[trigger] legendre_seed(u)),
        decreases m - t,
    {
        let factor: i128 = -(2 * (t as i128) + 1);
        proof {
            let tn = t as nat;
            assert(legendre_seed(tn + 1) == -(2 * (tn + 1) - 1) * legendre_seed(tn));
            assert(-(2 * (tn + 1) - 1) == factor as int);
            assert(legendre_seed(tn + 1) == seed * factor) by (nonlinear_arith)
                requires
                    legendre_seed(tn + 1) == factor * legendre_seed(tn),
                    seed as int == legendre_seed(tn),
            ;
        }
        match seed.checked_mul(factor) {
            None => {
                assert(!fits_i128(legendre_seed((t + 1) as nat)));
                assert(!legendre_seed_fits(m as nat));
                assert(!legendre_fits(l as nat, m as nat));
                return None;
            },
            Some(s) => {
                seed = s;
                t = t + 1;
            },
        }
    }
    let degrees: u8 = l - m;
    let mut prev: Vec<i128> = Vec::new();
    let mut cur: Vec<i128> = vec![seed];
    let mut d: u8 = 0;
    proof {
        assert(as_ints(cur@) =~= legendre_poly(0, m as nat));
        assert(as_ints(prev@) =~= legendre_prev(0, m as nat));
    }
    while d < degrees
        invariant
            d <= degrees,
            degrees == l - m,
            legendre_seed_fits(m as nat),
            cur.len() == d + 1,
            as_ints(cur@) == legendre_poly(d as nat, m as nat),
            as_ints(prev@) == legendre_prev(d as nat, m as nat),
            forall|p: nat| p < d ==> #[trigger] legendre_step_fits(p, m as nat),
        decreases degrees - d,
    {
        let dd = d as i128;
        let mm = m as i128;
        proof {
            assert((2 * mm + dd) * dd <= 765 * 255) by (nonlinear_arith)
                requires
                    0 <= dd <= 255,
                    0 <= mm <= 255,
            ;
            assert((2 * mm + dd) * dd >= 0) by (nonlinear_arith)
                requires
                    0 <= dd,
                    0 <= mm,
            ;
        }
        let beta: i128 = 2 * mm + 2 * dd + 1;
        let gamma: i128 = -((2 * mm + dd) * dd);
        match three_term_step(&prev, &cur, 0, beta, gamma) {
            None => {
                assert(!legendre_step_fits(d as nat, m as nat));
                return None;
            },
            Some(next) => {
                proof {
                    lemma_legendre_len((d + 1) as nat, m as nat);
                    assert(legendre_step_fits(d as nat, m as nat));
                    assert forall|p: nat| p < d + 1 implies #[trigger] legendre_step_fits(
                        p,
                        m as nat,
                    ) by {
                        if p == d as nat {
                        }
                    }
                }
                prev = cur;
                cur = next;
                d = d + 1;
            },
        }
    }
    Some(cur)
}

/// The Laguerre polynomials of degree zero and one: `L(0, k, x) = 1` and
/// `L(1, k, x) = 1 + k - x` (scale factors `0! = 1! = 1`), both computed without overflow.
pub proof fn lemma_laguerre_low_degrees(k: int)
    requires
        0 <= k <= 255,
    ensures
        laguerre_poly(0, k) == seq![1int],
        laguerre_poly(1, k) == seq![1 + k, -1],
        laguerre_fits(0, k),
        laguerre_fits(1, k),
{
    reveal_with_fuel(laguerre_poly, 2);
    assert(laguerre_poly(0, k) =~= seq![1int]);
    let one = laguerre_poly(1, k);
    assert(one == three_term(Seq::empty(), seq![1int], k + 1, -1, 0));
    assert(coeff_at(seq![1int], 0) == 1);
    assert(coeff_at(seq![1int], -1) == 0);
    assert(one[0] == (k + 1) * 1 + (-1) * 0 + 0 * 0);
    assert(one[1] == -1);
    assert(one =~= seq![1 + k, -1]);
    assert forall|p: nat| p < 1 implies #[trigger] laguerre_step_fits(p, k) by {
        assert(laguerre_prev(0, k) =~= Seq::empty());
    }
}

/// `L(2, 0, x) = (x^2 - 4x + 2) / 2`: with the scale factor `2! = 2`, the
/// coefficients are `2, -4, 1`.
pub proof fn lemma_laguerre_degree_two()
    ensures
        laguerre_poly(2, 0) == seq![2int, -4, 1],
        laguerre_fits(2, 0),
{
    lemma_laguerre_low_degrees(0);
    let two = laguerre_poly(2, 0);
    assert(two == three_term(seq![1int], seq![1int, -1], 3, -1, -1));
    assert(two =~= seq![2int, -4, 1]);
    assert forall|p: nat| p < 2 implies #[trigger] laguerre_step_fits(p, 0) by {
        assert(laguerre_prev(0, 0) =~= Seq::empty());
        assert(laguerre_prev(1, 0) =~= seq![1int]);
    }
}

/// The lowest associated Legendre functions: `P(0, 0, x) = 1`, `P(1, 0, x) = x` and
/// `P(1, 1, x) = -(1 - x^2)^(1/2)`, all computed without overflow.
pub proof fn lemma_legendre_low_degrees()
    ensures
        associated_legendre_poly(0, 0) == seq![1int],
        associated_legendre_poly(1, 0) == seq![0int, 1],
        associated_legendre_poly(1, 1) == seq![-1int],
        legendre_fits(0, 0),
        legendre_fits(1, 0),
        legendre_fits(1, 1),
{
    reveal_with_fuel(legendre_seed, 2);
    reveal_with_fuel(legendre_poly, 2);
    assert(legendre_seed(1) == -1);
    assert(associated_legendre_poly(0, 0) =~= seq![1int]);
    assert(associated_legendre_poly(1, 0) =~= seq![0int, 1]);
    assert(associated_legendre_poly(1, 1) =~= seq![-1int]);
    assert forall|p: nat| p < 1 implies #[trigger] legendre_step_fits(p, 0) by {
        assert(legendre_prev(0, 0) =~= Seq::empty());
    }
}

/// `sum_{j < d} p_j x^j`: the terms of `p` below degree `d` at `x`.
pub open spec fn poly_sum(p: Seq<int>, x: int, d: nat) -> int
    decreases d,
{
    if d == 0 {
        0
    } else {
        poly_sum(p, x, (d - 1) as nat) + coeff_at(p, d - 1) * pow(x, (d - 1) as nat)
    }
}

/// The value at `x` of the polynomial with coefficient sequence `p`.
pub open spec fn poly_value(p: Seq<int>, x: int) -> int {
    poly_sum(p, x, p.len())
}

proof fn lemma_poly_sum_past_end(p: Seq<int>, x: int, d: nat)
    requires
        p.len() <= d,
    ensures
        poly_sum(p, x, d) == poly_value(p, x),
    decreases d,
{
    if d > p.len() {
        lemma_poly_sum_past_end(p, x, (d - 1) as nat);
    }
}

proof fn lemma_three_term_sum(
    prev: Seq<int>,
    cur: Seq<int>,
    alpha: int,
    beta: int,
    gamma: int,
    x: int,
    d: nat,
)
    requires
        d <= cur.len() + 1,
    ensures
        poly_sum(three_term(prev, cur, alpha, beta, gamma), x, d) == alpha * poly_sum(cur, x, d)
            + beta * x * (if d == 0 {
            0
        } else {
            poly_sum(cur, x, (d - 1) as nat)
        }) + gamma * poly_sum(prev, x, d),
    decreases d,
{
    if d > 0 {
        let e = (d - 1) as nat;
        lemma_three_term_sum(prev, cur, alpha, beta, gamma, x, e);
        let t = three_term(prev, cur, alpha, beta, gamma);
        let xe = pow(x, e);
        let ce = coeff_at(cur, e as int);
        let cb = coeff_at(cur, e - 1);
        let pe = coeff_at(prev, e as int);
        let below = if e == 0 {
            0
        } else {
            poly_sum(cur, x, (e - 1) as nat)
        };
        assert(coeff_at(t, e as int) == alpha * ce + beta * cb + gamma * pe);
        if e > 0 {
            let f = (e - 1) as nat;
            assert(pow(x, e) == x * pow(x, f)) by {
                reveal(pow);
            }
            assert(poly_sum(cur, x, e) == below + cb * pow(x, f));
            assert(beta * x * poly_sum(cur, x, e) == beta * x * below + beta * cb * xe)
                by (nonlinear_arith)
                requires
                    poly_sum(cur, x, e) == below + cb * pow(x, f),
                    xe == x * pow(x, f),
            ;
        } else {
            assert(cb == 0);
            assert(poly_sum(cur, x, e) == 0);
            assert(beta * x * poly_sum(cur, x, e) == beta * x * below + beta * cb * xe)
                by (nonlinear_arith)
                requires
                    poly_sum(cur, x, e) == 0,
                    below == 0,
                    cb == 0,
            ;
        }
        assert(poly_sum(cur, x, d) == poly_sum(cur, x, e) + ce * xe);
        assert(poly_sum(prev, x, d) == poly_sum(prev, x, e) + pe * xe);
        assert(poly_sum(t, x, e) == alpha * poly_sum(cur, x, e) + beta * x * below + gamma
            * poly_sum(prev, x, e));
        assert(poly_sum(t, x, d) == poly_sum(t, x, e) + (alpha * ce + beta * cb + gamma * pe)
            * xe);
        assert((alpha * ce + beta * cb + gamma * pe) * xe == alpha * (ce * xe) + beta * cb * xe
            + gamma * (pe * xe)) by (nonlinear_arith);
        assert(alpha * poly_sum(cur, x, d) == alpha * poly_sum(cur, x, e) + alpha * (ce * xe))
            by (nonlinear_arith)
            requires
                poly_sum(cur, x, d) == poly_sum(cur, x, e) + ce * xe,
        ;
        assert(gamma * poly_sum(prev, x, d) == gamma * poly_sum(prev, x, e) + gamma * (pe * xe))
            by (nonlinear_arith)
            requires
                poly_sum(prev, x, d) == poly_sum(prev, x, e) + pe * xe,
        ;
    }
}

/// The value of a three-term step is the same combination of the values of its inputs:
/// `value(step) = alpha * value(cur) + beta * x * value(cur) + gamma * value(prev)`.
pub proof fn lemma_three_term_value(
    prev: Seq<int>,
    cur: Seq<int>,
    alpha: int,
    beta: int,
    gamma: int,
    x: int,
)
    requires
        prev.len() <= cur.len() + 1,
    ensures
        poly_value(three_term(prev, cur, alpha, beta, gamma), x) == alpha * poly_value(cur, x)
            + beta * x * poly_value(cur, x) + gamma * poly_value(prev, x),
{
    let d = cur.len() + 1;
    lemma_three_term_sum(prev, cur, alpha, beta, gamma, x, d);
    lemma_poly_sum_past_end(cur, x, d);
    lemma_poly_sum_past_end(prev, x, d);
}

/// The scaled Laguerre values obey the recurrence they come from: at every integer `x`,
/// with `M_i = i! L_i^(k)`, `M_0 = 1`, `M_1 = 1 + k - x` and
/// `M_{i+1} = (2i+k+1-x) M_i - (i+k) i M_{i-1}`, which is
/// `(i+1) L_{i+1} = (2i+k+1-x) L_i - (i+k) L_{i-1}` multiplied by `i!`.
pub proof fn lemma_laguerre_values(i: nat, k: int, x: int)
    requires
        i >= 1,
    ensures
        poly_value(laguerre_poly(0, k), x) == 1,
        poly_value(laguerre_poly(1, k), x) == 1 + k - x,
        poly_value(laguerre_poly(i + 1, k), x) == (2 * i + k + 1 - x) * poly_value(
            laguerre_poly(i, k),
            x,
        ) - (i + k) * i * poly_value(laguerre_poly((i - 1) as nat, k), x),
{
    reveal_with_fuel(poly_sum, 3);
    lemma_laguerre_low_degrees_values(k, x);
    lemma_laguerre_len(i, k);
    lemma_laguerre_len((i - 1) as nat, k);
    let cur = laguerre_poly(i, k);
    let prev = laguerre_poly((i - 1) as nat, k);
    assert(laguerre_poly(i + 1, k) == three_term(prev, cur, 2 * i + k + 1, -1, -((i + k) * i)));
    lemma_three_term_value(prev, cur, 2 * i + k + 1, -1, -((i + k) * i), x);
    let vc = poly_value(cur, x);
    let vp = poly_value(prev, x);
    assert((2 * i + k + 1) * vc + (-1) * x * vc + (-((i + k) * i)) * vp == (2 * i + k + 1 - x)
        * vc - (i + k) * i * vp) by (nonlinear_arith);
}

proof fn lemma_laguerre_low_degrees_values(k: int, x: int)
    ensures
        poly_value(laguerre_poly(0, k), x) == 1,
        poly_value(laguerre_poly(1, k), x) == 1 + k - x,
{
    reveal_with_fuel(poly_sum, 3);
    reveal_with_fuel(laguerre_poly, 2);
    assert(laguerre_poly(0, k) =~= seq![1int]);
    let one = laguerre_poly(1, k);
    assert(one == three_term(Seq::empty(), seq![1int], k + 1, -1, 0));
    lemma_three_term_value(Seq::empty(), seq![1int], k + 1, -1, 0, x);
    assert(pow(x, 0) == 1) by {
        vstd::arithmetic::power::lemma_pow0(x);
    }
    assert(poly_value(seq![1int], x) == 1);
    assert(poly_value(Seq::<int>::empty(), x) == 0);
}

/// The scaled Legendre values obey the upward recurrence they come from: at every
/// integer `x`, with `R_d = d! P(m+d, m, x) / (1 - x^2)^(m/2)`, `R_0` is the seed,
/// `R_1 = (2m+1) x R_0` and `R_{d+1} = (2m+2d+1) x R_d - (2m+d) d R_{d-1}`.
pub proof fn lemma_legendre_values(d: nat, m: nat, x: int)
    requires
        d >= 1,
    ensures
        poly_value(legendre_poly(0, m), x) == legendre_seed(m),
        poly_value(legendre_poly(1, m), x) == (2 * m + 1) * x * legendre_seed(m),
        poly_value(legendre_poly(d + 1, m), x) == (2 * m + 2 * d + 1) * x * poly_value(
            legendre_poly(d, m),
            x,
        ) - (2 * m + d) * d * poly_value(legendre_poly((d - 1) as nat, m), x),
{
    reveal_with_fuel(poly_sum, 2);
    assert(pow(x, 0) == 1) by {
        vstd::arithmetic::power::lemma_pow0(x);
    }
    let s = legendre_seed(m);
    assert(legendre_poly(0, m) =~= seq![s]);
    assert(poly_value(seq![s], x) == s);
    assert(legendre_poly(1, m) == three_term(Seq::empty(), seq![s], 0, (2 * m + 1) as int, 0));
    lemma_three_term_value(Seq::empty(), seq![s], 0, (2 * m + 1) as int, 0, x);
    assert(poly_value(Seq::<int>::empty(), x) == 0);
    assert(0 * s + (2 * m + 1) * x * s + 0 * 0 == (2 * m + 1) * x * s) by (nonlinear_arith);
    lemma_legendre_len(d, m);
    lemma_legendre_len((d - 1) as nat, m);
    let cur = legendre_poly(d, m);
    let prev = legendre_poly((d - 1) as nat, m);
    let beta = (2 * m + 2 * d + 1) as int;
    let gamma = -((2 * m + d) * d);
    assert(legendre_poly(d + 1, m) == three_term(prev, cur, 0, beta, gamma));
    lemma_three_term_value(prev, cur, 0, beta, gamma, x);
    let vc = poly_value(cur, x);
    let vp = poly_value(prev, x);
    assert(0 * vc + beta * x * vc + gamma * vp == (2 * m + 2 * d + 1) * x * vc - (2 * m + d) * d
        * vp) by (nonlinear_arith)
        requires
            beta == 2 * m + 2 * d + 1,
            gamma == -((2 * m + d) * d),
    ;
}

} // verus!
