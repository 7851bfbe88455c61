//! Coefficient layout of a SIP polynomial.
use vstd::prelude::*;

verus! {

/// `0 + 1 + ... + n`, the number of coefficients of a bivariate polynomial
/// of order `n` (that is, of degree `n - 1`).
pub open spec fn triangular(n: nat) -> nat
    decreases n,
{
    if n == 0 {
        0
    } else {
        n + triangular((n - 1) as nat)
    }
}

/// Largest order that the `u16` order of a polynomial can hold.
pub const MAX_ORDER: u16 = 32767;

/// `triangular` never decreases.
pub proof fn lemma_triangular_monotone(a: nat, b: nat)
    requires
        a <= b,
    ensures
        triangular(a) <= triangular(b),
    decreases b,
{
    if a < b {
        lemma_triangular_monotone(a, (b - 1) as nat);
    }
}

/// Each of the `b` rows past `a` adds at least one coefficient.
pub proof fn lemma_triangular_gap(a: nat, b: nat)
    ensures
        triangular(a + b) >= triangular(a) + b,
    decreases b,
{
    if b > 0 {
        lemma_triangular_gap(a, (b - 1) as nat);
        assert(triangular(a + b) == a + b + triangular((a + b - 1) as nat));
    }
}

/// Closed form: `2 * triangular(n) == n * (n + 1)`.
pub proof fn lemma_triangular_closed_form(n: nat)
    ensures
        2 * triangular(n) == n * (n + 1),
    decreases n,
{
    if n > 0 {
        let m = (n - 1) as nat;
        lemma_triangular_closed_form(m);
        assert(triangular(n) == n + triangular(m));
        let t = triangular(n);
        let tm = triangular(m);
        assert(2 * t == n * (n + 1)) by (nonlinear_arith)
            requires
                m + 1 == n,
                t == n + tm,
                2 * tm == m * (m + 1),
        ;
    } else {
        assert(n * (n + 1) == 0) by (nonlinear_arith)
            requires
                n == 0,
        ;
    }
}

/// Order of a bivariate polynomial from its number of coefficients.
/// The sum of `k` for `k = 1` to `n` is `n(n+1)/2 = l`, thus `n = (sqrt(8 l + 1) - 1) / 2`:
/// the result is the largest `n` with `n(n+1)/2 <= n_coeff`, capped at
/// `MAX_ORDER` (the square root saturates at `u16::MAX`).
/// # Param
/// * `n_coeff`: number of coefficients of the bivariate polynomial
pub fn order_from_n_coeff(n_coeff: usize) -> (order: u16)
    requires
        n_coeff <= usize::MAX / 8,
    ensures
        order <= MAX_ORDER,
        triangular(order as nat) <= n_coeff,
        order == MAX_ORDER || n_coeff < triangular(order as nat + 1),
{
    let mut order: u16 = 0;
    // `next` is triangular(order + 1)
    let mut next: usize = 1;
    assert(triangular(1) == 1 + triangular(0));
    while order < MAX_ORDER && next <= n_coeff
        invariant
            order <= MAX_ORDER,
            next == triangular(order as nat + 1),
            triangular(order as nat) <= n_coeff,
            n_coeff <= usize::MAX / 8,
        decreases MAX_ORDER - order,
    {
        order = order + 1;
        assert(triangular(order as nat + 1) == next + order + 1);
        next = next + order as usize + 1;
    }
    order
}

/// Position of the coefficient of `u^i v^j` in the array of a polynomial of
/// order `n`: the coefficients of `u^0` come first (`v^0` to `v^(n-1)`), then
/// those of `u^1` (`v^0` to `v^(n-2)`), and so on, row `i` holding `n - i` of them.
pub open spec fn term_index(n: nat, i: nat, j: nat) -> int {
    triangular(n) - triangular((n - i) as nat) + j
}

/// `u^i v^j` is a monomial of a polynomial of order `n` (degree at most `n - 1`).
pub open spec fn is_monomial(n: nat, i: nat, j: nat) -> bool {
    i + j < n
}

/// Row `i` ends where row `i + 1` starts.
pub proof fn lemma_row_step(n: nat, i: nat)
    requires
        i < n,
    ensures
        term_index(n, i, 0) + (n - i) == term_index(n, i + 1, 0),
        term_index(n, i + 1, 0) <= triangular(n),
{
    let r = (n - i) as nat;
    assert(triangular(r) == r + triangular((r - 1) as nat));
    assert((n - (i + 1)) as nat == (r - 1) as nat);
    lemma_triangular_monotone((n - i) as nat, n);
}

/// Rows start further and further in the array.
pub proof fn lemma_row_start_monotone(n: nat, i1: nat, i2: nat)
    requires
        i1 <= i2 <= n,
    ensures
        term_index(n, i1, 0) <= term_index(n, i2, 0),
{
    lemma_triangular_monotone((n - i2) as nat, (n - i1) as nat);
    lemma_triangular_monotone((n - i1) as nat, n);
}

/// Law: closed form of the layout. The coefficient of `u^i v^j` in a
/// polynomial of order `n` sits at position `i*n - i(i-1)/2 + j`: the first row
/// holds `v^0 .. v^(n-1)` at positions `0 .. n-1`, and inside a row the powers
/// of `v` increase by one from one position to the next.
pub proof fn lemma_term_index_closed_form(n: nat, i: nat, j: nat)
    requires
        is_monomial(n, i, j),
    ensures
        2 * term_index(n, i, j) == i * (2 * n + 1 - i) + 2 * j,
        term_index(n, 0, j) == j,
        i + j + 1 < n ==> term_index(n, i, j + 1) == term_index(n, i, j) + 1,
{
    let r = (n - i) as nat;
    lemma_triangular_closed_form(n);
    lemma_triangular_closed_form(r);
    lemma_triangular_closed_form(n);
    let tn = triangular(n);
    let tr = triangular(r);
    assert(2 * (tn - tr) == i * (2 * n + 1 - i)) by (nonlinear_arith)
        requires
            2 * tn == n * (n + 1),
            2 * tr == r * (r + 1),
            r + i == n,
    ;
    assert(triangular((n - 0) as nat) == tn);
}

/// Each row holds at least one coefficient.
pub proof fn lemma_row_starts_apart(n: nat, a: nat, b: nat)
    requires
        a <= b <= n,
    ensures
        term_index(n, a, 0) + (b - a) <= term_index(n, b, 0),
{
    lemma_triangular_gap((n - b) as nat, (b - a) as nat);
    assert((n - b) as nat + (b - a) as nat == (n - a) as nat);
}

/// Dropping the term of `v^0` of each row keeps the remaining monomials apart.
proof fn lemma_dpdv_position_injective(n: nat, i1: nat, j1: nat, i2: nat, j2: nat)
    requires
        is_monomial(n, i1, j1),
        is_monomial(n, i2, j2),
        j1 >= 1,
        j2 >= 1,
        term_index(n, i1, j1) - i1 == term_index(n, i2, j2) - i2,
    ensures
        i1 == i2,
        j1 == j2,
{
    lemma_term_index_in_row(n, i1, j1);
    lemma_term_index_in_row(n, i2, j2);
    if i1 < i2 {
        lemma_row_starts_apart(n, i1 + 1, i2);
    } else if i2 < i1 {
        lemma_row_starts_apart(n, i2 + 1, i1);
    }
}

/// The index of a monomial lies inside its row, hence inside the array.
pub proof fn lemma_term_index_in_row(n: nat, i: nat, j: nat)
    requires
        is_monomial(n, i, j),
    ensures
        0 <= term_index(n, i, 0) <= term_index(n, i, j) < term_index(n, i + 1, 0),
        term_index(n, i, j) < triangular(n),
{
    lemma_row_step(n, i);
    lemma_triangular_monotone((n - i) as nat, n);
}

/// Two monomials never share a coefficient.
pub proof fn lemma_term_index_injective(n: nat, i1: nat, j1: nat, i2: nat, j2: nat)
    requires
        is_monomial(n, i1, j1),
        is_monomial(n, i2, j2),
        term_index(n, i1, j1) == term_index(n, i2, j2),
    ensures
        i1 == i2,
        j1 == j2,
{
    lemma_term_index_in_row(n, i1, j1);
    lemma_term_index_in_row(n, i2, j2);
    if i1 < i2 {
        lemma_row_start_monotone(n, i1 + 1, i2);
    } else if i2 < i1 {
        lemma_row_start_monotone(n, i2 + 1, i1);
    }
}

/// Every coefficient of the array belongs to a monomial: the monomial found
/// among the rows `i0..n`, for an index past the start of row `i0`.
proof fn monomial_of_index_from(n: nat, k: nat, i0: nat) -> (ij: (nat, nat))
    requires
        i0 < n,
        term_index(n, i0, 0) <= k < triangular(n),
    ensures
        is_monomial(n, ij.0, ij.1),
        term_index(n, ij.0, ij.1) == k,
    decreases n - i0,
{
    lemma_row_step(n, i0);
    if k < term_index(n, i0 + 1, 0) {
        (i0, (k - term_index(n, i0, 0)) as nat)
    } else {
        if i0 + 1 == n {
            assert(triangular(0) == 0);
        }
        monomial_of_index_from(n, k, i0 + 1)
    }
}

/// Law: the coefficient layout is a one-to-one correspondence between the
/// monomials `u^i v^j` with `i + j < n` and the positions `0..n(n+1)/2` of the
/// coefficient array: every position belongs to exactly one monomial.
pub proof fn lemma_term_index_bijective(n: nat, k: nat)
    requires
        k < triangular(n),
    ensures
        exists|i: nat, j: nat| is_monomial(n, i, j) && #[trigger] term_index(n, i, j) == k,
        forall|i1: nat, j1: nat, i2: nat, j2: nat|
            is_monomial(n, i1, j1) && is_monomial(n, i2, j2) && #[trigger] term_index(n, i1, j1)
                == k && #[trigger] term_index(n, i2, j2) == k ==> i1 == i2 && j1 == j2,
{
    assert(n > 0) by {
        if n == 0 {
            assert(triangular(0) == 0);
        }
    }
    assert(triangular(n) == triangular((n - 0) as nat));
    let ij = monomial_of_index_from(n, k, 0);
    assert(is_monomial(n, ij.0, ij.1) && term_index(n, ij.0, ij.1) == k);
    assert forall|i1: nat, j1: nat, i2: nat, j2: nat|
        is_monomial(n, i1, j1) && is_monomial(n, i2, j2) && #[trigger] term_index(n, i1, j1) == k
            && #[trigger] term_index(n, i2, j2) == k implies i1 == i2 && j1 == j2 by {
        lemma_term_index_injective(n, i1, j1, i2, j2);
    }
}

/// `triangular(MAX_ORDER)`: the largest number of coefficients of a polynomial.
pub proof fn lemma_max_coeff_count()
    ensures
        triangular(MAX_ORDER as nat) == 536854528,
        536854528 <= usize::MAX / 8,
{
    lemma_triangular_closed_form(MAX_ORDER as nat);
}

/// `len` is the number of coefficients of a polynomial of some order that a
/// `u16` order field can hold.
pub open spec fn is_coeff_count(len: nat) -> bool {
    exists|n: nat| n <= MAX_ORDER && #[trigger] triangular(n) == len
}

/// One term `coeff[coeff] * factor * u^u_pow * v^v_pow` of a polynomial or of
/// one of its partial derivatives.
#[derive(Clone, Copy, Debug, PartialEq, Eq, Structural)]
pub struct Term {
    /// Position of the coefficient in the coefficient array.
    pub coeff: usize,
    /// Constant factor that the differentiation brings down (1 for the polynomial itself).
    pub factor: u16,
    /// Power of `u`.
    pub u_pow: u16,
    /// Power of `v`.
    pub v_pow: u16,
}

/// `t` is the term at position `k` of the polynomial of order `n`:
/// `coeff[k] * u^i * v^j` where `k` is the index of `u^i v^j`.
pub open spec fn is_p_term(n: nat, k: int, t: Term) -> bool {
    &&& t.coeff == k
    &&& t.factor == 1
    &&& is_monomial(n, t.u_pow as nat, t.v_pow as nat)
    &&& term_index(n, t.u_pow as nat, t.v_pow as nat) == k
}

/// `t` is the term at position `k` of `dp/du` for a polynomial of order `n`:
/// `C_ij u^i v^j` (with `i >= 1`) becomes `i * C_ij * u^(i-1) * v^j`; the `n`
/// terms with `i == 0` vanish, so `k` is the index of `u^i v^j` minus `n`.
pub open spec fn is_dpdu_term(n: nat, k: int, t: Term) -> bool {
    &&& t.factor >= 1
    &&& is_monomial(n, t.factor as nat, t.v_pow as nat)
    &&& t.u_pow == t.factor - 1
    &&& t.coeff == term_index(n, t.factor as nat, t.v_pow as nat)
    &&& t.coeff == k + n
}

/// `t` is the term at position `k` of `dp/dv` for a polynomial of order `n`:
/// `C_ij u^i v^j` (with `j >= 1`) becomes `j * C_ij * u^i * v^(j-1)`; the term
/// with `j == 0` of each row up to `i` vanishes, so `k` is the index of
/// `u^i v^j` minus `i + 1`.
pub open spec fn is_dpdv_term(n: nat, k: int, t: Term) -> bool {
    &&& t.factor >= 1
    &&& is_monomial(n, t.u_pow as nat, t.factor as nat)
    &&& t.v_pow == t.factor - 1
    &&& t.coeff == term_index(n, t.u_pow as nat, t.factor as nat)
    &&& t.coeff == k + t.u_pow + 1
}

/// Mathematical model of the coefficients of a SIP polynomial.
pub struct CoeffModel<T> {
    /// Order `n` of the polynomial: its degree is `n - 1`.
    pub order: nat,
    /// The `n(n+1)/2` coefficients, in the order given by `term_index`.
    pub coeffs: Seq<T>,
}

/// SIP polynomial coefficients.
/// In the polynomial, the coefficients are ordered like this:
/// * `0_0, 0_1, 0_2, 0_3, 1_0, 1_1, 1_2, 2_0, 2_1, 3_0`
/// * in which `p_q` corresponds to the polynomial part `coeff_p_q * u^p * v^q`
/// * Given an order `n`, the number of coefficients is `n(n+1)/2`.
pub struct SipCoeff<T> {
    /// Order of the polynomial (its degree plus one).
    order: u16,
    /// Coefficients.
    c: Vec<T>,
}

impl<T> View for SipCoeff<T> {
    type V = CoeffModel<T>;

    closed spec fn view(&self) -> CoeffModel<T> {
        CoeffModel { order: self.order as nat, coeffs: self.c@ }
    }
}

impl<T> SipCoeff<T> {
    /// The number of coefficients is the triangular number of the order.
    #[verifier::type_invariant]
    spec fn well_formed(self) -> bool {
        &&& self.order <= MAX_ORDER
        &&& self.c@.len() == triangular(self.order as nat)
    }

    /// # Param
    /// * `c`: array of the polynomial coefficients, of size `n(n+1)/2`
    pub fn new(c: Vec<T>) -> (res: Self)
        requires
            is_coeff_count(c@.len()),
        ensures
            res@.coeffs == c@,
            triangular(res@.order) == c@.len(),
            res@.order <= MAX_ORDER,
    {
        let ghost n = choose|n: nat| n <= MAX_ORDER && #[trigger] triangular(n) == c@.len();
        proof {
            lemma_max_coeff_count();
            lemma_triangular_monotone(n, MAX_ORDER as nat);
        }
        let order = order_from_n_coeff(c.len());
        proof {
            if n < order {
                lemma_triangular_monotone(n + 1, order as nat);
                assert(triangular(n + 1) == n + 1 + triangular(n));
            } else if n > order {
                lemma_triangular_monotone(order as nat + 1, n);
            }
        }
        SipCoeff { order, c }
    }

    /// Order of the polynomial (its degree plus one).
    pub fn order(&self) -> (order: u16)
        ensures
            order == self@.order,
            order <= MAX_ORDER,
            self@.coeffs.len() == triangular(order as nat),
    {
        proof {
            use_type_invariant(self);
        }
        self.order
    }

    /// The coefficients, in the order given by `term_index`.
    pub fn coeffs(&self) -> (c: &Vec<T>)
        ensures
            c@ == self@.coeffs,
    {
        &self.c
    }

    /// Terms of the polynomial `p(u, v) = Sum_{i+j<n} C_ij u^i v^j`, in the order
    /// in which they are summed: by increasing power of `u`, then of `v`, so
    /// that term `k` uses coefficient `k` and every coefficient is used once.
    pub fn p_terms(&self) -> (terms: Vec<Term>)
        ensures
            terms@.len() == triangular(self@.order),
            forall|k: int| 0 <= k < terms@.len() ==> #[trigger] is_p_term(self@.order, k, terms@[k]),
            forall|k: int|
                0 <= k < terms@.len() ==> 2 * k == #[trigger] terms@[k].u_pow * (2 * self@.order + 1
                    - terms@[k].u_pow) + 2 * terms@[k].v_pow,
            forall|i: nat, j: nat|
                #![trigger term_index(self@.order, i, j)]
                is_monomial(self@.order, i, j) ==> terms@[term_index(self@.order, i, j)] == (Term {
                    coeff: term_index(self@.order, i, j) as usize,
                    factor: 1,
                    u_pow: i as u16,
                    v_pow: j as u16,
                }),
    {
        let n = self.order();
        let ghost nn = n as nat;
        proof {
            lemma_max_coeff_count();
            lemma_triangular_monotone(nn, MAX_ORDER as nat);
            assert(triangular(nn) == triangular((nn - 0) as nat));
        }
        let mut terms: Vec<Term> = Vec::new();
        let mut k: usize = 0;
        let mut i: u16 = 0;
        while i < n
            invariant
                nn == n,
                n <= MAX_ORDER,
                triangular(nn) <= 536854528,
                i <= n,
                k == terms@.len(),
                k == term_index(nn, i as nat, 0),
                forall|q: int| 0 <= q < terms@.len() ==> #[trigger] is_p_term(nn, q, terms@[q]),
            decreases n - i,
        {
            proof {
                lemma_row_step(nn, i as nat);
            }
            let mut j: u16 = 0;
            while j < n - i
                invariant
                    nn == n,
                    n <= MAX_ORDER,
                    triangular(nn) <= 536854528,
                    i < n,
                    j <= n - i,
                    k == terms@.len(),
                    k == term_index(nn, i as nat, j as nat),
                    term_index(nn, i as nat, 0) + (nn - i) == term_index(nn, i as nat + 1, 0),
                    term_index(nn, i as nat + 1, 0) <= triangular(nn),
                    forall|q: int| 0 <= q < terms@.len() ==> #[trigger] is_p_term(nn, q, terms@[q]),
                decreases n - i - j,
            {
                terms.push(Term { coeff: k, factor: 1, u_pow: i, v_pow: j });
                k = k + 1;
                j = j + 1;
            }
            i = i + 1;
        }
        proof {
            assert(triangular(0) == 0);
            assert forall|i: nat, j: nat|
                #![trigger term_index(nn, i, j)]
                is_monomial(nn, i, j) implies terms@[term_index(nn, i, j)] == (Term {
                    coeff: term_index(nn, i, j) as usize,
                    factor: 1,
                    u_pow: i as u16,
                    v_pow: j as u16,
                }) by {
                lemma_term_index_in_row(nn, i, j);
                let t = terms@[term_index(nn, i, j)];
                assert(is_p_term(nn, term_index(nn, i, j), t));
                lemma_term_index_injective(nn, i, j, t.u_pow as nat, t.v_pow as nat);
            }
        }
        proof {
            assert forall|k: int| 0 <= k < terms@.len() implies 2 * k == #[trigger] terms@[k].u_pow
                * (2 * nn + 1 - terms@[k].u_pow) + 2 * terms@[k].v_pow by {
                let t = terms@[k];
                assert(is_p_term(nn, k, t));
                lemma_term_index_closed_form(nn, t.u_pow as nat, t.v_pow as nat);
            }
        }
        terms
    }

    /// Terms of `dp/du = Sum_{i+j<n, i>=1} i C_ij u^(i-1) v^j`, in the order in
    /// which they are summed (that of the polynomial, without the terms of `u^0`).
    pub fn dpdu_terms(&self) -> (terms: Vec<Term>)
        ensures
            terms@.len() + self@.order == triangular(self@.order),
            forall|k: int| 0 <= k < terms@.len() ==> #[trigger] is_dpdu_term(self@.order, k, terms@[k]),
            forall|k: int|
                0 <= k < terms@.len() ==> 2 * (#[trigger] terms@[k]).coeff == terms@[k].factor * (2
                    * self@.order + 1 - terms@[k].factor) + 2 * terms@[k].v_pow,
            forall|i: nat, j: nat|
                #![trigger term_index(self@.order, i, j)]
                is_monomial(self@.order, i, j) && i >= 1 ==> terms@[term_index(self@.order, i, j)
                    - self@.order] == (Term {
                    coeff: term_index(self@.order, i, j) as usize,
                    factor: i as u16,
                    u_pow: (i - 1) as u16,
                    v_pow: j as u16,
                }),
    {
        let n = self.order();
        let ghost nn = n as nat;
        proof {
            lemma_max_coeff_count();
            lemma_triangular_monotone(nn, MAX_ORDER as nat);
            assert(triangular(nn) == triangular((nn - 0) as nat));
        }
        let mut terms: Vec<Term> = Vec::new();
        let mut k: usize = 0;
        let mut i: u16 = 0;
        while i < n
            invariant
                nn == n,
                n <= MAX_ORDER,
                triangular(nn) <= 536854528,
                i <= n,
                terms@.len() + (if i == 0 { k as nat } else { nn }) == k,
                k == term_index(nn, i as nat, 0),
                forall|q: int| 0 <= q < terms@.len() ==> #[trigger] is_dpdu_term(nn, q, terms@[q]),
            decreases n - i,
        {
            proof {
                lemma_row_step(nn, i as nat);
            }
            let mut j: u16 = 0;
            while j < n - i
                invariant
                    nn == n,
                    n <= MAX_ORDER,
                    triangular(nn) <= 536854528,
                    i < n,
                    j <= n - i,
                    terms@.len() + (if i == 0 { k as nat } else { nn }) == k,
                    k == term_index(nn, i as nat, j as nat),
                    term_index(nn, i as nat, 0) + (nn - i) == term_index(nn, i as nat + 1, 0),
                    term_index(nn, i as nat + 1, 0) <= triangular(nn),
                    forall|q: int| 0 <= q < terms@.len() ==> #[trigger] is_dpdu_term(nn, q, terms@[q]),
                decreases n - i - j,
            {
                if i > 0 {
                    terms.push(Term { coeff: k, factor: i, u_pow: i - 1, v_pow: j });
                }
                k = k + 1;
                j = j + 1;
            }
            i = i + 1;
        }
        proof {
            assert(triangular(0) == 0);
            if nn > 0 {
                lemma_row_step(nn, 0);
            }
            assert forall|i: nat, j: nat|
                #![trigger term_index(nn, i, j)]
                is_monomial(nn, i, j) && i >= 1 implies terms@[term_index(nn, i, j) - nn] == (Term {
                    coeff: term_index(nn, i, j) as usize,
                    factor: i as u16,
                    u_pow: (i - 1) as u16,
                    v_pow: j as u16,
                }) by {
                lemma_term_index_in_row(nn, i, j);
                lemma_row_start_monotone(nn, 1, i);
                let q = term_index(nn, i, j) - nn;
                let t = terms@[q];
                assert(is_dpdu_term(nn, q, t));
                lemma_term_index_injective(nn, i, j, t.factor as nat, t.v_pow as nat);
            }
        }
        proof {
            assert forall|k: int| 0 <= k < terms@.len() implies 2 * (#[trigger] terms@[k]).coeff
                == terms@[k].factor * (2 * nn + 1 - terms@[k].factor) + 2 * terms@[k].v_pow by {
                let t = terms@[k];
                assert(is_dpdu_term(nn, k, t));
                lemma_term_index_closed_form(nn, t.factor as nat, t.v_pow as nat);
            }
        }
        terms
    }

    /// Terms of `dp/dv = Sum_{i+j<n, j>=1} j C_ij u^i v^(j-1)`, in the order in
    /// which they are summed (that of the polynomial, without the terms of `v^0`).
    pub fn dpdv_terms(&self) -> (terms: Vec<Term>)
        ensures
            terms@.len() + self@.order == triangular(self@.order),
            forall|k: int| 0 <= k < terms@.len() ==> #[trigger] is_dpdv_term(self@.order, k, terms@[k]),
            forall|k: int|
                0 <= k < terms@.len() ==> 2 * (#[trigger] terms@[k]).coeff == terms@[k].u_pow * (2
                    * self@.order + 1 - terms@[k].u_pow) + 2 * terms@[k].factor,
            forall|i: nat, j: nat|
                #![trigger term_index(self@.order, i, j)]
                is_monomial(self@.order, i, j) && j >= 1 ==> terms@[term_index(self@.order, i, j)
                    - i - 1] == (Term {
                    coeff: term_index(self@.order, i, j) as usize,
                    factor: j as u16,
                    u_pow: i as u16,
                    v_pow: (j - 1) as u16,
                }),
    {
        let n = self.order();
        let ghost nn = n as nat;
        proof {
            lemma_max_coeff_count();
            lemma_triangular_monotone(nn, MAX_ORDER as nat);
            assert(triangular(nn) == triangular((nn - 0) as nat));
        }
        let mut terms: Vec<Term> = Vec::new();
        let mut k: usize = 0;
        let mut i: u16 = 0;
        while i < n
            invariant
                nn == n,
                n <= MAX_ORDER,
                triangular(nn) <= 536854528,
                i <= n,
                terms@.len() + i == k,
                k == term_index(nn, i as nat, 0),
                forall|q: int| 0 <= q < terms@.len() ==> #[trigger] is_dpdv_term(nn, q, terms@[q]),
            decreases n - i,
        {
            proof {
                lemma_row_step(nn, i as nat);
            }
            let mut j: u16 = 0;
            while j < n - i
                invariant
                    nn == n,
                    n <= MAX_ORDER,
                    triangular(nn) <= 536854528,
                    i < n,
                    j <= n - i,
                    terms@.len() + i + (if j == 0 { 0int } else { 1int }) == k,
                    k == term_index(nn, i as nat, j as nat),
                    term_index(nn, i as nat, 0) + (nn - i) == term_index(nn, i as nat + 1, 0),
                    term_index(nn, i as nat + 1, 0) <= triangular(nn),
                    forall|q: int| 0 <= q < terms@.len() ==> #[trigger] is_dpdv_term(nn, q, terms@[q]),
                decreases n - i - j,
            {
                if j > 0 {
                    terms.push(Term { coeff: k, factor: j, u_pow: i, v_pow: j - 1 });
                }
                k = k + 1;
                j = j + 1;
            }
            i = i + 1;
        }
        proof {
            assert(triangular(0) == 0);
            assert forall|i: nat, j: nat|
                #![trigger term_index(nn, i, j)]
                is_monomial(nn, i, j) && j >= 1 implies terms@[term_index(nn, i, j) - i - 1] == (
                Term {
                    coeff: term_index(nn, i, j) as usize,
                    factor: j as u16,
                    u_pow: i as u16,
                    v_pow: (j - 1) as u16,
                }) by {
                lemma_term_index_in_row(nn, i, j);
                lemma_triangular_gap(0, i);
                lemma_triangular_gap((nn - i) as nat, i);
                lemma_triangular_gap(0, (nn - i - 1) as nat);
                assert(triangular((0 + i) as nat) == triangular(i));
                let q = term_index(nn, i, j) - i - 1;
                let t = terms@[q];
                assert(is_dpdv_term(nn, q, t));
                lemma_dpdv_position_injective(nn, i, j, t.u_pow as nat, t.factor as nat);
            }
        }
        proof {
            assert forall|k: int| 0 <= k < terms@.len() implies 2 * (#[trigger] terms@[k]).coeff
                == terms@[k].u_pow * (2 * nn + 1 - terms@[k].u_pow) + 2 * terms@[k].factor by {
                let t = terms@[k];
                assert(is_dpdv_term(nn, k, t));
                lemma_term_index_closed_form(nn, t.u_pow as nat, t.factor as nat);
            }
        }
        terms
    }

    /// A copy of the polynomial, coefficient by coefficient.
    pub fn duplicate(&self) -> (res: Self)
        where
            T: Copy,
        ensures
            res@ == self@,
    {
        proof {
            use_type_invariant(self);
        }
        let mut c: Vec<T> = Vec::new();
        let len = self.c.len();
        let mut q: usize = 0;
        while q < len
            invariant
                len == self.c@.len(),
                q <= len,
                c@ == self.c@.subrange(0, q as int),
            decreases len - q,
        {
            c.push(self.c[q]);
            q = q + 1;
        }
        assert(c@ == self.c@);
        SipCoeff { order: self.order, c }
    }
}

} // verus!
