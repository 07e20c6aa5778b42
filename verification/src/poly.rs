//! Dense univariate polynomials over GF(17): evaluation, arithmetic,
//! Lagrange interpolation and the FRI folding step.
use vstd::prelude::*;

use crate::algebra::{
    fadd, fdiv, fmul, fneg, fsub, finv, in_field, lemma_fadd_zero, lemma_fmul_assoc, lemma_fmul_distrib, lemma_fmul_noop, lemma_fmul_nonzero,
    lemma_fmul_one, lemma_ops_in_field, lemma_small_mod_17,
};
use crate::field::{all_in_field, seq_vals, BaseField};

verus! {

/// Errors of the polynomial layer: interpolation over mismatched inputs.
#[derive(Clone, Copy, Debug, PartialEq, Eq, Structural)]
pub enum PolyError {
    SizeMismatch,
}

/// A coefficient sequence denotes a polynomial when it is nonempty and all
/// its entries are canonical field elements.
pub open spec fn wf_coeffs(s: Seq<int>) -> bool {
    s.len() >= 1 && all_in_field(s)
}

/// Evaluation of a coefficient sequence at `x`, in Horner form:
/// `[a_0, a_1, ...]` at `x` is `a_0 + x * ([a_1, ...] at x)`.
pub open spec fn eval_poly(s: Seq<int>, x: int) -> int
    decreases s.len(),
{
    if s.len() == 0 {
        0
    } else {
        fadd(s[0], fmul(x, eval_poly(s.drop_first(), x)))
    }
}

/// Coefficientwise sum; the longer summand's tail is kept as it is.
pub open spec fn padd(p: Seq<int>, q: Seq<int>) -> Seq<int> {
    Seq::new(
        if p.len() >= q.len() {
            p.len()
        } else {
            q.len()
        },
        |i: int|
            if i < p.len() && i < q.len() {
                fadd(p[i], q[i])
            } else if i < p.len() {
                p[i]
            } else {
                q[i]
            },
    )
}

/// Multiplication by a scalar, coefficient by coefficient.
pub open spec fn pscale(p: Seq<int>, c: int) -> Seq<int> {
    Seq::new(p.len(), |i: int| fmul(p[i], c))
}

/// Product of two coefficient sequences (the convolution), written as
/// `(a_0 + x * p') * q == a_0 * q + x * (p' * q)`.
pub open spec fn pmul(p: Seq<int>, q: Seq<int>) -> Seq<int>
    decreases p.len(),
{
    if p.len() <= 1 {
        pscale(
            q,
            if p.len() == 1 {
                p[0]
            } else {
                0
            },
        )
    } else {
        padd(pscale(q, p[0]), seq![0int] + pmul(p.drop_first(), q))
    }
}

/// One FRI fold: even-indexed coefficients plus `beta` times the
/// odd-indexed ones.
pub open spec fn pfold(p: Seq<int>, beta: int) -> Seq<int> {
    Seq::new(
        (p.len() + 1) / 2,
        |i: int|
            if 2 * i + 1 < p.len() {
                fadd(p[2 * i], fmul(beta, p[2 * i + 1]))
            } else {
                p[2 * i]
            },
    )
}

/// A dense univariate polynomial over GF(17): for
/// `p(x) = a + b*x + c*x^2` the coefficients are `[a, b, c]`.
///
/// Trailing zero coefficients are not normalized away, so the reported
/// degree may exceed the true algebraic degree; the fixed workloads of this
/// protocol never rely on it.
#[derive(Clone, Debug)]
pub struct Polynomial {
    coefficients: Vec<BaseField>,
}

impl View for Polynomial {
    type V = Seq<int>;

    closed spec fn view(&self) -> Seq<int> {
        seq_vals(self.coefficients@)
    }
}

impl PartialEq for Polynomial {
    fn eq(&self, other: &Polynomial) -> (r: bool) {
        if self.coefficients.len() != other.coefficients.len() {
            return false;
        }
        let n = self.coefficients.len();
        for i in 0..n
            invariant
                n == self.coefficients@.len(),
                n == other.coefficients@.len(),
                forall|j: int| 0 <= j < i ==> self.coefficients@[j] == other.coefficients@[j],
        {
            if self.coefficients[i] != other.coefficients[i] {
                return false;
            }
        }
        proof {
            assert(self.coefficients@ =~= other.coefficients@);
        }
        true
    }
}

impl Eq for Polynomial {

}

impl vstd::std_specs::cmp::PartialEqSpecImpl for Polynomial {
    open spec fn obeys_eq_spec() -> bool {
        true
    }

    closed spec fn eq_spec(&self, other: &Polynomial) -> bool {
        self.coefficients@ == other.coefficients@
    }
}

impl Polynomial {
    /// The coefficient sequence is a valid polynomial.
    pub open spec fn wf(&self) -> bool {
        wf_coeffs(self@)
    }

    pub fn new(coefficients: Vec<BaseField>) -> (r: Self)
        requires
            coefficients@.len() >= 1,
            all_in_field(seq_vals(coefficients@)),
        ensures
            r@ == seq_vals(coefficients@),
            r.wf(),
    {
        Self { coefficients }
    }

    /// The coefficients, lowest power first.
    pub fn coefficients(&self) -> (r: &Vec<BaseField>)
        ensures
            seq_vals(r@) == self@,
    {
        &self.coefficients
    }

    pub fn zero() -> (r: Self)
        ensures
            r@ == seq![0int],
            r.wf(),
    {
        let coefficients = vec![BaseField::zero()];
        let r = Self { coefficients };
        proof {
            assert(r@ =~= seq![0int]);
        }
        r
    }

    pub fn one() -> (r: Self)
        ensures
            r@ == seq![1int],
            r.wf(),
    {
        let coefficients = vec![BaseField::one()];
        let r = Self { coefficients };
        proof {
            assert(r@ =~= seq![1int]);
        }
        r
    }

    pub fn degree(&self) -> (r: usize)
        requires
            self.wf(),
        ensures
            r == self@.len() - 1,
    {
        self.coefficients.len() - 1
    }

    /// Evaluates the polynomial at `x`.
    pub fn eval(&self, x: BaseField) -> (r: BaseField)
        requires
            self.wf(),
            in_field(x@),
        ensures
            r@ == eval_poly(self@, x@),
            in_field(r@),
    {
        let mut result = BaseField::zero();
        let n = self.coefficients.len();
        let mut k = n;
        while k > 0
            invariant
                k <= n,
                n == self.coefficients@.len(),
                self.wf(),
                in_field(x@),
                in_field(result@),
                result@ == eval_poly(self@.subrange(k as int, n as int), x@),
            decreases k,
        {
            k = k - 1;
            let c = self.coefficients[k];
            proof {
                assert(self@[k as int] == c@);
                assert(self@.subrange(k as int, n as int).drop_first() =~= self@.subrange(
                    k as int + 1,
                    n as int,
                ));
            }
            result = c.add(x.mul(result));
        }
        proof {
            assert(self@.subrange(0, n as int) =~= self@);
        }
        result
    }

    /// Convenience function that evaluates the polynomial over a domain.
    pub fn eval_domain(&self, domain: &Vec<BaseField>) -> (r: Vec<BaseField>)
        requires
            self.wf(),
            all_in_field(seq_vals(domain@)),
        ensures
            r@.len() == domain@.len(),
            forall|i: int|
                0 <= i < domain@.len() ==> #[trigger] seq_vals(r@)[i] == eval_poly(
                    self@,
                    seq_vals(domain@)[i],
                ),
            all_in_field(seq_vals(r@)),
    {
        let mut evaluations: Vec<BaseField> = Vec::new();
        let n = domain.len();
        for i in 0..n
            invariant
                n == domain@.len(),
                self.wf(),
                all_in_field(seq_vals(domain@)),
                evaluations@.len() == i,
                all_in_field(seq_vals(evaluations@)),
                forall|j: int|
                    0 <= j < i ==> #[trigger] seq_vals(evaluations@)[j] == eval_poly(
                        self@,
                        seq_vals(domain@)[j],
                    ),
        {
            let d = domain[i];
            proof {
                assert(seq_vals(domain@)[i as int] == d@);
            }
            let ghost prev = evaluations@;
            evaluations.push(self.eval(d));
            proof {
                assert forall|j: int| 0 <= j < i + 1 implies in_field(
                    #[trigger] seq_vals(evaluations@)[j],
                ) && seq_vals(evaluations@)[j] == eval_poly(self@, seq_vals(domain@)[j]) by {
                    assert(seq_vals(evaluations@)[j] == evaluations@[j]@);
                    if j < i {
                        assert(evaluations@[j] == prev[j]);
                        assert(seq_vals(prev)[j] == prev[j]@);
                    }
                }
            }
        }
        evaluations
    }

    /// Coefficientwise sum of two polynomials.
    pub fn add(&self, rhs: &Polynomial) -> (r: Polynomial)
        requires
            self.wf(),
            rhs.wf(),
        ensures
            r@ == padd(self@, rhs@),
            r.wf(),
    {
        let n1 = self.coefficients.len();
        let n2 = rhs.coefficients.len();
        let n = if n1 >= n2 {
            n1
        } else {
            n2
        };
        let mut coefficients_sum: Vec<BaseField> = Vec::new();
        for i in 0..n
            invariant
                n1 == self.coefficients@.len(),
                n2 == rhs.coefficients@.len(),
                n == if n1 >= n2 {
                    n1
                } else {
                    n2
                },
                self.wf(),
                rhs.wf(),
                coefficients_sum@.len() == i,
                forall|j: int|
                    0 <= j < i ==> #[trigger] seq_vals(coefficients_sum@)[j] == padd(
                        self@,
                        rhs@,
                    )[j],
        {
            let v: BaseField = if i < n1 && i < n2 {
                proof {
                    assert(self@[i as int] == self.coefficients@[i as int]@);
                    assert(rhs@[i as int] == rhs.coefficients@[i as int]@);
                }
                self.coefficients[i].add(rhs.coefficients[i])
            } else if i < n1 {
                self.coefficients[i]
            } else {
                rhs.coefficients[i]
            };
            let ghost prev = coefficients_sum@;
            coefficients_sum.push(v);
            proof {
                assert forall|j: int| 0 <= j < i + 1 implies #[trigger] seq_vals(
                    coefficients_sum@,
                )[j] == padd(self@, rhs@)[j] by {
                    assert(seq_vals(coefficients_sum@)[j] == coefficients_sum@[j]@);
                    if j < i {
                        assert(coefficients_sum@[j] == prev[j]);
                        assert(seq_vals(prev)[j] == prev[j]@);
                    } else {
                        assert(self@[j] == self.coefficients@[j]@ || j >= n1);
                        assert(rhs@[j] == rhs.coefficients@[j]@ || j >= n2);
                    }
                }
            }
        }
        let r = Polynomial { coefficients: coefficients_sum };
        proof {
            assert(r@ =~= padd(self@, rhs@));
            assert forall|j: int| 0 <= j < r@.len() implies in_field(#[trigger] r@[j]) by {
                lemma_ops_in_field(self@[j], rhs@[j]);
            }
        }
        r
    }

    /// Multiplication by a scalar: every coefficient is scaled.
    pub fn scalar_mul(&self, rhs: BaseField) -> (r: Polynomial)
        requires
            self.wf(),
            in_field(rhs@),
        ensures
            r@ == pscale(self@, rhs@),
            r.wf(),
    {
        let n = self.coefficients.len();
        let mut scaled: Vec<BaseField> = Vec::new();
        for i in 0..n
            invariant
                n == self.coefficients@.len(),
                self.wf(),
                in_field(rhs@),
                scaled@.len() == i,
                forall|j: int|
                    0 <= j < i ==> #[trigger] seq_vals(scaled@)[j] == fmul(self@[j], rhs@),
        {
            let c = self.coefficients[i];
            proof {
                assert(self@[i as int] == c@);
            }
            let ghost prev = scaled@;
            scaled.push(c.mul(rhs));
            proof {
                assert forall|j: int| 0 <= j < i + 1 implies #[trigger] seq_vals(scaled@)[j]
                    == fmul(self@[j], rhs@) by {
                    assert(seq_vals(scaled@)[j] == scaled@[j]@);
                    if j < i {
                        assert(scaled@[j] == prev[j]);
                        assert(seq_vals(prev)[j] == prev[j]@);
                    }
                }
            }
        }
        let r = Polynomial { coefficients: scaled };
        proof {
            assert(r@ =~= pscale(self@, rhs@));
            assert forall|j: int| 0 <= j < r@.len() implies in_field(#[trigger] r@[j]) by {
                lemma_ops_in_field(self@[j], rhs@);
            }
        }
        r
    }

    /// Division by a nonzero scalar: multiplication by its field inverse.
    pub fn scalar_div(&self, rhs: BaseField) -> (r: Polynomial)
        requires
            self.wf(),
            in_field(rhs@),
            rhs@ != 0,
        ensures
            r@ == pscale(self@, finv(rhs@)),
            r.wf(),
    {
        self.scalar_mul(rhs.mult_inv())
    }

    /// Product of two polynomials.
    pub fn mul(&self, rhs: &Polynomial) -> (r: Polynomial)
        requires
            self.wf(),
            rhs.wf(),
        ensures
            r@ == pmul(self@, rhs@),
            r.wf(),
            r@.len() == self@.len() + rhs@.len() - 1,
    {
        let n = self.coefficients.len();
        proof {
            assert(self@[n - 1] == self.coefficients@[n - 1]@);
            assert(self@.subrange(n - 1, n as int) =~= seq![self@[n - 1]]);
        }
        let mut acc = rhs.scalar_mul(self.coefficients[n - 1]);
        proof {
            lemma_pmul_len(self@.subrange(n - 1, n as int), rhs@);
        }
        let mut k = n - 1;
        while k > 0
            invariant
                k < n,
                n == self.coefficients@.len(),
                self.wf(),
                rhs.wf(),
                acc.wf(),
                acc@ == pmul(self@.subrange(k as int, n as int), rhs@),
                acc@.len() == (n - k) + rhs@.len() - 1,
            decreases k,
        {
            k = k - 1;
            let c = self.coefficients[k];
            proof {
                assert(self@[k as int] == c@);
            }
            let scaled = rhs.scalar_mul(c);
            let Polynomial { coefficients: mut shifted_coeffs } = acc;
            shifted_coeffs.insert(0, BaseField::zero());
            let shifted = Polynomial { coefficients: shifted_coeffs };
            proof {
                let ghost tail = self@.subrange(k as int + 1, n as int);
                assert(shifted@ =~= seq![0int] + pmul(tail, rhs@));
                assert(self@.subrange(k as int, n as int).drop_first() =~= tail);
                assert(in_field(shifted@[0]));
                assert forall|j: int| 0 <= j < shifted@.len() implies in_field(
                    #[trigger] shifted@[j],
                ) by {
                    if j > 0 {
                        assert(shifted@[j] == pmul(tail, rhs@)[j - 1]);
                    }
                }
            }
            acc = scaled.add(&shifted);
            proof {
                lemma_pmul_len(self@.subrange(k as int, n as int), rhs@);
            }
        }
        proof {
            assert(self@.subrange(0, n as int) =~= self@);
        }
        acc
    }

    /// Lagrange interpolation: the unique polynomial of degree below the
    /// domain size that takes the given value at each domain point. The
    /// domain points must be distinct; mismatched input lengths are
    /// rejected.
    pub fn lagrange_interp(domain: &Vec<BaseField>, evaluations: &Vec<BaseField>) -> (r: Result<
        Polynomial,
        PolyError,
    >)
        requires
            all_in_field(seq_vals(domain@)),
            all_in_field(seq_vals(evaluations@)),
            forall|a: int, b: int|
                0 <= a < b < domain@.len() ==> seq_vals(domain@)[a] != seq_vals(domain@)[b],
        ensures
            match r {
                Ok(p) => {
                    &&& domain@.len() == evaluations@.len()
                    &&& p.wf()
                    &&& p@.len() == if domain@.len() == 0 {
                        1int
                    } else {
                        domain@.len() as int
                    }
                    &&& forall|m: int|
                        0 <= m < domain@.len() ==> eval_poly(p@, seq_vals(domain@)[m])
                            == seq_vals(evaluations@)[m]
                },
                Err(e) => domain@.len() != evaluations@.len() && e == PolyError::SizeMismatch,
            },
    {
        if domain.len() != evaluations.len() {
            return Err(PolyError::SizeMismatch);
        }

        let n = domain.len();
        let mut interpolated_poly = Polynomial::zero();
        proof {
            assert forall|m: int| 0 <= m < n implies eval_poly(
                interpolated_poly@,
                #[trigger] seq_vals(domain@)[m],
            ) == 0 by {
                lemma_eval_zero(seq_vals(domain@)[m]);
            }
        }
        for j in 0..n
            invariant
                n == domain@.len(),
                n == evaluations@.len(),
                all_in_field(seq_vals(domain@)),
                all_in_field(seq_vals(evaluations@)),
                forall|a: int, b: int|
                    0 <= a < b < domain@.len() ==> seq_vals(domain@)[a] != seq_vals(domain@)[b],
                interpolated_poly.wf(),
                interpolated_poly@.len() == if j == 0 {
                    1int
                } else {
                    n as int
                },
                forall|m: int|
                    0 <= m < n ==> eval_poly(interpolated_poly@, #[trigger] seq_vals(domain@)[m])
                        == if m < j {
                        seq_vals(evaluations@)[m]
                    } else {
                        0
                    },
        {
            let basis = Self::partial_lagrange_poly(j, domain, evaluations);
            let ghost prev = interpolated_poly@;
            interpolated_poly = interpolated_poly.add(&basis);
            proof {
                assert forall|m: int| 0 <= m < n implies eval_poly(
                    interpolated_poly@,
                    #[trigger] seq_vals(domain@)[m],
                ) == if m < j + 1 {
                    seq_vals(evaluations@)[m]
                } else {
                    0
                } by {
                    let xm = seq_vals(domain@)[m];
                    lemma_eval_padd(prev, basis@, xm);
                    if m < j {
                        assert(in_field(seq_vals(evaluations@)[m]));
                        lemma_fadd_zero(seq_vals(evaluations@)[m]);
                    } else if m == j {
                        assert(in_field(seq_vals(evaluations@)[m]));
                        lemma_fadd_zero(seq_vals(evaluations@)[m]);
                    } else {
                        lemma_fadd_zero(0);
                    }
                }
            }
        }
        proof {
            if n == 0 {
                assert(interpolated_poly@.len() == 1);
            }
        }
        Ok(interpolated_poly)
    }

    /// One Lagrange basis term: `y_j * prod_{k != j} (x - x_k) / (x_j - x_k)`.
    /// It takes the value `y_j` at `x_j` and zero at every other domain
    /// point.
    fn partial_lagrange_poly(j: usize, domain: &Vec<BaseField>, evaluations: &Vec<BaseField>) -> (r:
        Polynomial)
        requires
            all_in_field(seq_vals(domain@)),
            all_in_field(seq_vals(evaluations@)),
            domain@.len() == evaluations@.len(),
            j < domain@.len(),
            forall|a: int, b: int|
                0 <= a < b < domain@.len() ==> seq_vals(domain@)[a] != seq_vals(domain@)[b],
        ensures
            r.wf(),
            r@.len() == domain@.len(),
            eval_poly(r@, seq_vals(domain@)[j as int]) == seq_vals(evaluations@)[j as int],
            forall|m: int|
                0 <= m < domain@.len() && m != j ==> eval_poly(r@, #[trigger] seq_vals(domain@)[m])
                    == 0,
    {
        let x_j = domain[j];
        let y_j = evaluations[j];
        proof {
            assert(seq_vals(domain@)[j as int] == x_j@);
            assert(seq_vals(evaluations@)[j as int] == y_j@);
        }

        let mut numerator = Polynomial::one();
        let mut denominator = BaseField::one();
        proof {
            lemma_eval_one(x_j@);
            assert(numerator@ =~= seq![1int]);
        }

        let n = domain.len();
        for k in 0..n
            invariant
                n == domain@.len(),
                j < n,
                all_in_field(seq_vals(domain@)),
                forall|a: int, b: int|
                    0 <= a < b < domain@.len() ==> seq_vals(domain@)[a] != seq_vals(domain@)[b],
                x_j@ == seq_vals(domain@)[j as int],
                in_field(x_j@),
                numerator.wf(),
                in_field(denominator@),
                denominator@ != 0,
                numerator@.len() == 1 + k - (if j < k {
                    1int
                } else {
                    0int
                }),
                eval_poly(numerator@, x_j@) == denominator@,
                forall|m: int|
                    0 <= m < k && m != j ==> eval_poly(
                        numerator@,
                        #[trigger] seq_vals(domain@)[m],
                    ) == 0,
        {
            let domain_ele = domain[k];
            proof {
                assert(seq_vals(domain@)[k as int] == domain_ele@);
            }
            if x_j.as_byte() != domain_ele.as_byte() {
                // x - x_k
                let mut factor_coeffs: Vec<BaseField> = Vec::new();
                factor_coeffs.push(domain_ele.minus());
                factor_coeffs.push(BaseField::one());
                proof {
                    assert(seq_vals(factor_coeffs@) =~= seq![fneg(domain_ele@), 1int]);
                }
                let factor = Polynomial::new(factor_coeffs);
                let ghost prev = numerator@;
                numerator = numerator.mul(&factor);
                denominator = denominator.mul(x_j.sub(domain_ele));
                proof {
                    lemma_eval_pmul(prev, factor@, x_j@);
                    lemma_eval_linear(domain_ele@, x_j@);
                    crate::algebra::lemma_fsub_nonzero(x_j@, domain_ele@);
                    lemma_fmul_nonzero(
                        eval_poly(prev, x_j@),
                        fsub(x_j@, domain_ele@),
                    );
                    assert forall|m: int| 0 <= m < k + 1 && m != j implies eval_poly(
                        numerator@,
                        #[trigger] seq_vals(domain@)[m],
                    ) == 0 by {
                        let xm = seq_vals(domain@)[m];
                        lemma_eval_pmul(prev, factor@, xm);
                        lemma_eval_linear(domain_ele@, xm);
                        if m == k {
                            // the new factor vanishes at its own root
                            lemma_small_mod_17(0);
                            vstd::arithmetic::mul::lemma_mul_by_zero_is_zero(
                                eval_poly(prev, xm),
                            );
                        } else {
                            // the old product already vanished there
                            vstd::arithmetic::mul::lemma_mul_by_zero_is_zero(
                                fsub(xm, domain_ele@),
                            );
                            vstd::arithmetic::mul::lemma_mul_is_commutative(
                                eval_poly(prev, xm),
                                fsub(xm, domain_ele@),
                            );
                        }
                    }
                }
            } else {
                proof {
                    if k != j {
                        if k < j {
                            assert(seq_vals(domain@)[k as int] != seq_vals(
                                domain@,
                            )[j as int]);
                        } else {
                            assert(seq_vals(domain@)[j as int] != seq_vals(
                                domain@,
                            )[k as int]);
                        }
                    }
                    assert(k == j);
                }
            }
        }

        // (numerator * y_j) / denominator
        proof {
            assert(in_field(y_j@));
        }
        let scaled = numerator.scalar_mul(y_j);
        let r = scaled.scalar_div(denominator);
        proof {
            let xj = x_j@;
            let d = denominator@;
            lemma_eval_pscale(numerator@, y_j@, xj);
            lemma_eval_pscale(scaled@, finv(d), xj);
            // y_j * d / d == y_j
            crate::algebra::lemma_finv(d);
            lemma_fmul_assoc(finv(d), y_j@, d);
            lemma_fmul_assoc(y_j@, finv(d), d);
            lemma_fmul_assoc(y_j@, d, finv(d));
            lemma_fmul_assoc(d, finv(d), 1);
            lemma_fmul_one(y_j@);
            lemma_fmul_noop(y_j@, fmul(d, finv(d)));
            lemma_small_mod_17(y_j@);
            assert(eval_poly(r@, xj) == y_j@);
            assert forall|m: int| 0 <= m < domain@.len() && m != j implies eval_poly(
                r@,
                #[trigger] seq_vals(domain@)[m],
            ) == 0 by {
                let xm = seq_vals(domain@)[m];
                lemma_eval_pscale(numerator@, y_j@, xm);
                lemma_eval_pscale(scaled@, finv(denominator@), xm);
                vstd::arithmetic::mul::lemma_mul_by_zero_is_zero(y_j@);
                vstd::arithmetic::mul::lemma_mul_by_zero_is_zero(finv(denominator@));
                vstd::arithmetic::mul::lemma_mul_is_commutative(y_j@, 0);
                vstd::arithmetic::mul::lemma_mul_is_commutative(finv(denominator@), 0);
            }
        }
        r
    }

    /// Performs one FRI step on the polynomial.
    ///
    /// For example, given initial polynomial
    ///   p(x) = 5x^3 + 4x^2 + 3x + 7
    ///
    /// We generate the two polynomials:
    ///   even_poly(x) = 4x + 7
    ///   odd_poly(x) = 5x + 3
    ///
    /// And the output polynomial is:
    ///   output_poly(x) = (4 + 5*beta)x + (7 + 3*beta)
    ///
    /// The input polynomial must not be a constant (one coefficient only).
    pub fn fri_step(&self, beta: BaseField) -> (r: Polynomial)
        requires
            self.wf(),
            self@.len() >= 2,
            in_field(beta@),
        ensures
            r@ == pfold(self@, beta@),
            r.wf(),
            r@.len() == (self@.len() + 1) / 2,
    {
        let n = self.coefficients.len();
        let mut even_coeffs: Vec<BaseField> = Vec::new();
        let mut odd_coeffs: Vec<BaseField> = Vec::new();
        let mut i: usize = 0;
        while i < n
            invariant
                i <= n,
                n == self.coefficients@.len(),
                self.wf(),
                even_coeffs@.len() == (i + 1) / 2,
                odd_coeffs@.len() == i / 2,
                forall|j: int|
                    0 <= j < even_coeffs@.len() ==> #[trigger] seq_vals(even_coeffs@)[j]
                        == self@[2 * j],
                forall|j: int|
                    0 <= j < odd_coeffs@.len() ==> #[trigger] seq_vals(odd_coeffs@)[j] == self@[2
                        * j + 1],
            decreases n - i,
        {
            let c = self.coefficients[i];
            proof {
                assert(self@[i as int] == c@);
            }
            if i % 2 == 0 {
                let ghost prev = even_coeffs@;
                even_coeffs.push(c);
                proof {
                    assert forall|j: int| 0 <= j < even_coeffs@.len() implies #[trigger] seq_vals(
                        even_coeffs@,
                    )[j] == self@[2 * j] by {
                        assert(seq_vals(even_coeffs@)[j] == even_coeffs@[j]@);
                        if j < prev.len() {
                            assert(even_coeffs@[j] == prev[j]);
                            assert(seq_vals(prev)[j] == prev[j]@);
                        }
                    }
                }
            } else {
                let ghost prev = odd_coeffs@;
                odd_coeffs.push(c);
                proof {
                    assert forall|j: int| 0 <= j < odd_coeffs@.len() implies #[trigger] seq_vals(
                        odd_coeffs@,
                    )[j] == self@[2 * j + 1] by {
                        assert(seq_vals(odd_coeffs@)[j] == odd_coeffs@[j]@);
                        if j < prev.len() {
                            assert(odd_coeffs@[j] == prev[j]);
                            assert(seq_vals(prev)[j] == prev[j]@);
                        }
                    }
                }
            }
            i = i + 1;
        }
        proof {
            assert forall|j: int| 0 <= j < even_coeffs@.len() implies in_field(
                #[trigger] seq_vals(even_coeffs@)[j],
            ) by {
                assert(seq_vals(even_coeffs@)[j] == self@[2 * j]);
            }
            assert forall|j: int| 0 <= j < odd_coeffs@.len() implies in_field(
                #[trigger] seq_vals(odd_coeffs@)[j],
            ) by {
                assert(seq_vals(odd_coeffs@)[j] == self@[2 * j + 1]);
            }
        }
        let even_poly = Polynomial::new(even_coeffs);
        let odd_poly = Polynomial::new(odd_coeffs);
        let r = even_poly.add(&odd_poly.scalar_mul(beta));
        proof {
            assert forall|j: int| 0 <= j < (self@.len() + 1) / 2 implies #[trigger] r@[j] == pfold(
                self@,
                beta@,
            )[j] by {
                if 2 * j + 1 < self@.len() {
                    lemma_fmul_assoc(self@[2 * j + 1], beta@, 1);
                }
            }
            assert(r@ =~= pfold(self@, beta@));
        }
        r
    }
}

/// Evaluation always yields a canonical field element.
pub proof fn lemma_eval_in_field(s: Seq<int>, x: int)
    ensures
        in_field(eval_poly(s, x)),
{
    if s.len() != 0 {
        lemma_ops_in_field(s[0], fmul(x, eval_poly(s.drop_first(), x)));
    }
}

/// The zero polynomial evaluates to zero everywhere.
pub proof fn lemma_eval_zero(x: int)
    ensures
        eval_poly(seq![0int], x) == 0,
{
    assert(eval_poly(seq![0int].drop_first(), x) == 0);
    vstd::arithmetic::mul::lemma_mul_by_zero_is_zero(x);
}

/// The one polynomial evaluates to one everywhere.
pub proof fn lemma_eval_one(x: int)
    ensures
        eval_poly(seq![1int], x) == 1,
{
    assert(eval_poly(seq![1int].drop_first(), x) == 0);
    vstd::arithmetic::mul::lemma_mul_by_zero_is_zero(x);
}

/// The linear polynomial `x - d` evaluates at `t` to the field difference
/// `t - d`.
pub proof fn lemma_eval_linear(d: int, t: int)
    requires
        in_field(t),
    ensures
        eval_poly(seq![fneg(d), 1int], t) == fsub(t, d),
{
    let s = seq![fneg(d), 1int];
    assert(s.drop_first() =~= seq![1int]);
    lemma_eval_one(t);
    // t * 1 == t, reduced to itself since t is canonical
    lemma_small_mod_17(t);
    // (-d) % 17 + t, reduced, equals (t - d) % 17
    vstd::arithmetic::div_mod::lemma_add_mod_noop(-d, t, 17);
}

/// Law: evaluating a sum of polynomials gives the field sum of their
/// evaluations: `(p + q)(x) == p(x) + q(x)`.
pub proof fn lemma_eval_padd(p: Seq<int>, q: Seq<int>, x: int)
    ensures
        eval_poly(padd(p, q), x) == fadd(eval_poly(p, x), eval_poly(q, x)),
    decreases p.len(),
{
    if p.len() == 0 {
        assert(padd(p, q) =~= q);
        lemma_eval_in_field(q, x);
        lemma_small_mod_17(eval_poly(q, x));
    } else if q.len() == 0 {
        assert(padd(p, q) =~= p);
        lemma_eval_in_field(p, x);
        lemma_small_mod_17(eval_poly(p, x));
    } else {
        lemma_eval_padd(p.drop_first(), q.drop_first(), x);
        assert(padd(p, q).drop_first() =~= padd(p.drop_first(), q.drop_first()));
        let a = eval_poly(p.drop_first(), x);
        let b = eval_poly(q.drop_first(), x);
        vstd::arithmetic::div_mod::lemma_mul_mod_noop_right(x, a + b, 17);
        vstd::arithmetic::mul::lemma_mul_is_distributive_add(x, a, b);
        vstd::arithmetic::div_mod::lemma_add_mod_noop(p[0] + q[0], x * a + x * b, 17);
        vstd::arithmetic::div_mod::lemma_mul_mod_noop_right(x, a, 17);
        vstd::arithmetic::div_mod::lemma_mul_mod_noop_right(x, b, 17);
        vstd::arithmetic::div_mod::lemma_add_mod_noop_right(p[0], x * a, 17);
        vstd::arithmetic::div_mod::lemma_add_mod_noop_right(q[0], x * b, 17);
        vstd::arithmetic::div_mod::lemma_add_mod_noop(p[0] + x * a, q[0] + x * b, 17);
    }
}

/// Evaluating a scaled polynomial scales the evaluation:
/// `(c * p)(x) == c * p(x)`.
pub proof fn lemma_eval_pscale(p: Seq<int>, c: int, x: int)
    ensures
        eval_poly(pscale(p, c), x) == fmul(c, eval_poly(p, x)),
    decreases p.len(),
{
    if p.len() == 0 {
        vstd::arithmetic::mul::lemma_mul_by_zero_is_zero(c);
    } else {
        lemma_eval_pscale(p.drop_first(), c, x);
        assert(pscale(p, c).drop_first() =~= pscale(p.drop_first(), c));
        let e = eval_poly(p.drop_first(), x);
        // left side: (p0 * c) % 17 + (x * ((c * e) % 17)) % 17, reduced
        vstd::arithmetic::div_mod::lemma_mul_mod_noop_right(x, c * e, 17);
        vstd::arithmetic::div_mod::lemma_add_mod_noop(p[0] * c, x * (c * e), 17);
        // right side: (c * ((p0 + (x * e) % 17) % 17)) % 17
        vstd::arithmetic::div_mod::lemma_add_mod_noop_right(p[0], x * e, 17);
        vstd::arithmetic::div_mod::lemma_mul_mod_noop_right(c, p[0] + x * e, 17);
        vstd::arithmetic::mul::lemma_mul_is_distributive_add(c, p[0], x * e);
        vstd::arithmetic::mul::lemma_mul_is_associative(x, c, e);
        vstd::arithmetic::mul::lemma_mul_is_associative(c, x, e);
        vstd::arithmetic::mul::lemma_mul_is_commutative(x, c);
        vstd::arithmetic::mul::lemma_mul_is_commutative(p[0], c);
    }
}

/// Prefixing a zero coefficient multiplies the evaluation by `x`.
pub proof fn lemma_eval_shift(s: Seq<int>, x: int)
    ensures
        eval_poly(seq![0int] + s, x) == fmul(x, eval_poly(s, x)),
{
    assert((seq![0int] + s).drop_first() =~= s);
    lemma_ops_in_field(x, eval_poly(s, x));
    lemma_small_mod_17(fmul(x, eval_poly(s, x)));
}

/// Law: evaluating a product of polynomials gives the field product of
/// their evaluations: `(p * q)(x) == p(x) * q(x)`.
pub proof fn lemma_eval_pmul(p: Seq<int>, q: Seq<int>, x: int)
    requires
        p.len() >= 1,
    ensures
        eval_poly(pmul(p, q), x) == fmul(eval_poly(p, x), eval_poly(q, x)),
    decreases p.len(),
{
    let eq = eval_poly(q, x);
    if p.len() == 1 {
        lemma_eval_pscale(q, p[0], x);
        assert(eval_poly(p.drop_first(), x) == 0);
        vstd::arithmetic::mul::lemma_mul_by_zero_is_zero(x);
        // eval(p, x) == (p0 + 0) % 17 == p0 % 17
        assert(eval_poly(p, x) == fadd(p[0], 0));
        lemma_fmul_noop(p[0], eq);
    } else {
        lemma_eval_pmul(p.drop_first(), q, x);
        let e1 = eval_poly(p.drop_first(), x);
        lemma_eval_padd(pscale(q, p[0]), seq![0int] + pmul(p.drop_first(), q), x);
        lemma_eval_pscale(q, p[0], x);
        lemma_eval_shift(pmul(p.drop_first(), q), x);
        // left side is now fadd(fmul(p0, eq), fmul(x, fmul(e1, eq)))
        vstd::arithmetic::div_mod::lemma_mul_mod_noop_right(x, e1 * eq, 17);
        vstd::arithmetic::div_mod::lemma_add_mod_noop(p[0] * eq, x * (e1 * eq), 17);
        // right side: fmul(fadd(p0, fmul(x, e1)), eq)
        vstd::arithmetic::div_mod::lemma_add_mod_noop_right(p[0], x * e1, 17);
        vstd::arithmetic::div_mod::lemma_mul_mod_noop_left(p[0] + x * e1, eq, 17);
        vstd::arithmetic::mul::lemma_mul_is_distributive_add_other_way(eq, p[0], x * e1);
        vstd::arithmetic::mul::lemma_mul_is_associative(x, e1, eq);
    }
}

/// Plain integer evaluation, without reduction; it relates to `eval_poly`
/// by a single reduction at the end.
spec fn eval_int(s: Seq<int>, x: int) -> int
    decreases s.len(),
{
    if s.len() == 0 {
        0
    } else {
        s[0] + x * eval_int(s.drop_first(), x)
    }
}

/// The FRI fold over plain integers, without reduction.
spec fn pfold_int(p: Seq<int>, beta: int) -> Seq<int> {
    Seq::new(
        (p.len() + 1) / 2,
        |i: int|
            if 2 * i + 1 < p.len() {
                p[2 * i] + beta * p[2 * i + 1]
            } else {
                p[2 * i]
            },
    )
}

/// Field evaluation is integer evaluation reduced once.
proof fn lemma_eval_bridge(s: Seq<int>, x: int)
    ensures
        eval_poly(s, x) == eval_int(s, x) % 17,
    decreases s.len(),
{
    if s.len() != 0 {
        lemma_eval_bridge(s.drop_first(), x);
        let e = eval_int(s.drop_first(), x);
        vstd::arithmetic::div_mod::lemma_mul_mod_noop_right(x, e, 17);
        vstd::arithmetic::div_mod::lemma_add_mod_noop_right(s[0], x * e, 17);
    }
}

/// Coefficient sequences that agree modulo 17 evaluate identically.
proof fn lemma_eval_entries_congruent(s: Seq<int>, t: Seq<int>, x: int)
    requires
        s.len() == t.len(),
        forall|i: int| 0 <= i < s.len() ==> #[trigger] (s[i] % 17) == t[i] % 17,
    ensures
        eval_poly(s, x) == eval_poly(t, x),
    decreases s.len(),
{
    if s.len() != 0 {
        assert forall|i: int| 0 <= i < s.drop_first().len() implies #[trigger] (s.drop_first()[i]
            % 17) == t.drop_first()[i] % 17 by {
            assert(s[i + 1] % 17 == t[i + 1] % 17);
        }
        lemma_eval_entries_congruent(s.drop_first(), t.drop_first(), x);
        let e = eval_poly(s.drop_first(), x);
        vstd::arithmetic::div_mod::lemma_add_mod_noop(s[0], e, 17);
        vstd::arithmetic::div_mod::lemma_add_mod_noop(t[0], e, 17);
        assert(s[0] % 17 == t[0] % 17);
    }
}

/// Evaluation points that agree modulo 17 give the same evaluation.
proof fn lemma_eval_x_congruent(s: Seq<int>, x: int, t: int)
    requires
        x % 17 == t % 17,
    ensures
        eval_poly(s, x) == eval_poly(s, t),
    decreases s.len(),
{
    if s.len() != 0 {
        lemma_eval_x_congruent(s.drop_first(), x, t);
        let e = eval_poly(s.drop_first(), x);
        vstd::arithmetic::div_mod::lemma_mul_mod_noop_left(x, e, 17);
        vstd::arithmetic::div_mod::lemma_mul_mod_noop_left(t, e, 17);
    }
}

/// The FRI fold identity over plain integers, multiplied through by `2x`:
/// `2x * fold(p, beta)(x^2) == x * (p(x) + p(-x)) + beta * (p(x) - p(-x))`.
proof fn lemma_fold_int_identity(p: Seq<int>, beta: int, x: int)
    ensures
        2 * x * eval_int(pfold_int(p, beta), x * x) == x * (eval_int(p, x) + eval_int(p, -x))
            + beta * (eval_int(p, x) - eval_int(p, -x)),
    decreases p.len(),
{
    let y = x * x;
    if p.len() == 0 {
        assert(pfold_int(p, beta).len() == 0);
        assert(eval_int(pfold_int(p, beta), y) == 0);
        assert(2 * x * 0 == x * (0 + 0) + beta * (0 - 0)) by (nonlinear_arith);
    } else if p.len() == 1 {
        let a = p[0];
        assert(pfold_int(p, beta) =~= seq![a]);
        assert(eval_int(seq![a].drop_first(), y) == 0);
        assert(eval_int(seq![a], y) == a + y * 0);
        assert(eval_int(p.drop_first(), x) == 0);
        assert(eval_int(p.drop_first(), -x) == 0);
        assert(eval_int(p, x) == a + x * 0);
        assert(eval_int(p, -x) == a + (-x) * 0);
        assert(2 * x * (a + y * 0) == x * ((a + x * 0) + (a + (-x) * 0)) + beta * ((a + x * 0) - (a
            + (-x) * 0))) by (nonlinear_arith);
    } else {
        let a = p[0];
        let b = p[1];
        let rest = p.subrange(2, p.len() as int);
        lemma_fold_int_identity(rest, beta, x);
        let rx = eval_int(rest, x);
        let rnx = eval_int(rest, -x);
        let fr = eval_int(pfold_int(rest, beta), y);

        // the folded head coefficient, then the folded tail
        assert(pfold_int(p, beta).drop_first() =~= pfold_int(rest, beta));
        assert(pfold_int(p, beta)[0] == a + beta * b);
        assert(eval_int(pfold_int(p, beta), y) == (a + beta * b) + y * fr);

        // unfold the evaluations of p twice, down to `rest`
        assert(p.drop_first().drop_first() =~= rest);
        assert(p.drop_first()[0] == b);
        assert(eval_int(p.drop_first(), x) == b + x * rx);
        assert(eval_int(p, x) == a + x * (b + x * rx));
        assert(eval_int(p.drop_first(), -x) == b + (-x) * rnx);
        assert(eval_int(p, -x) == a + (-x) * (b + (-x) * rnx));

        let u = x * b;
        let v = x * x;
        let e1 = eval_int(p, x);
        let e2 = eval_int(p, -x);
        let lf = eval_int(pfold_int(p, beta), v);
        assert(e1 == a + u + v * rx) by (nonlinear_arith)
            requires
                e1 == a + x * (b + x * rx),
                u == x * b,
                v == x * x,
        ;
        assert(e2 == a - u + v * rnx) by (nonlinear_arith)
            requires
                e2 == a + (-x) * (b + (-x) * rnx),
                u == x * b,
                v == x * x,
        ;
        assert(2 * x * lf == 2 * (a * x) + 2 * (beta * u) + v * (2 * x * fr)) by (nonlinear_arith)
            requires
                lf == (a + beta * b) + v * fr,
                u == x * b,
                v == x * x,
        ;
        assert(v * (2 * x * fr) == v * (x * (rx + rnx)) + v * (beta * (rx - rnx)))
            by (nonlinear_arith)
            requires
                2 * x * fr == x * (rx + rnx) + beta * (rx - rnx),
        ;
        assert(x * (e1 + e2) == 2 * (a * x) + x * (v * (rx + rnx))) by (nonlinear_arith)
            requires
                e1 == a + u + v * rx,
                e2 == a - u + v * rnx,
        ;
        assert(beta * (e1 - e2) == 2 * (beta * u) + beta * (v * (rx - rnx))) by (nonlinear_arith)
            requires
                e1 == a + u + v * rx,
                e2 == a - u + v * rnx,
        ;
        assert(v * (x * (rx + rnx)) == x * (v * (rx + rnx))) by (nonlinear_arith);
        assert(v * (beta * (rx - rnx)) == beta * (v * (rx - rnx))) by (nonlinear_arith);
        assert(2 * x * lf == x * (e1 + e2) + beta * (e1 - e2));
    }
}

/// The scaled FRI fold identity over the field: `2x` times the fold's value
/// at `x^2` equals `x * (p(x) + p(-x)) + beta * (p(x) - p(-x))`.
proof fn lemma_fold_eval_scaled(p: Seq<int>, beta: int, x: int)
    requires
        in_field(beta),
        in_field(x),
    ensures
        fmul(fmul(2, x), eval_poly(pfold(p, beta), fmul(x, x))) == fadd(
            fmul(x, fadd(eval_poly(p, x), eval_poly(p, fneg(x)))),
            fmul(beta, fsub(eval_poly(p, x), eval_poly(p, fneg(x)))),
        ),
{
    let y = fmul(x, x);
    let ex_int = eval_int(p, x);
    let enx_int = eval_int(p, -x);
    let f_int = eval_int(pfold_int(p, beta), x * x);

    // the folded sequence agrees with its integer counterpart modulo 17
    assert forall|i: int| 0 <= i < pfold(p, beta).len() implies #[trigger] (pfold(p, beta)[i] % 17)
        == pfold_int(p, beta)[i] % 17 by {
        if 2 * i + 1 < p.len() {
            vstd::arithmetic::div_mod::lemma_mul_mod_noop_left(beta, p[2 * i + 1], 17);
            vstd::arithmetic::div_mod::lemma_add_mod_noop_right(p[2 * i], beta * p[2 * i + 1], 17);
            vstd::arithmetic::div_mod::lemma_mod_twice(p[2 * i] + beta * p[2 * i + 1], 17);
        }
    }
    lemma_eval_entries_congruent(pfold(p, beta), pfold_int(p, beta), y);
    // and `x * x` reduced is as good as `x * x`
    vstd::arithmetic::div_mod::lemma_mod_twice(x * x, 17);
    lemma_eval_x_congruent(pfold_int(p, beta), y, x * x);
    lemma_eval_bridge(pfold_int(p, beta), x * x);
    assert(eval_poly(pfold(p, beta), y) == f_int % 17);

    // the two opened evaluations, reduced
    lemma_eval_bridge(p, x);
    vstd::arithmetic::div_mod::lemma_mod_twice(-x, 17);
    lemma_eval_x_congruent(p, fneg(x), -x);
    lemma_eval_bridge(p, -x);
    assert(eval_poly(p, x) == ex_int % 17);
    assert(eval_poly(p, fneg(x)) == enx_int % 17);

    lemma_fold_int_identity(p, beta, x);

    // flatten the left side: ((2x) % 17) * (f % 17) reduced
    vstd::arithmetic::div_mod::lemma_mul_mod_noop_general(2 * x, f_int, 17);
    vstd::arithmetic::mul::lemma_mul_is_associative(2, x, f_int);
    assert(fmul(fmul(2, x), eval_poly(pfold(p, beta), y)) == (2 * x * f_int) % 17);

    // flatten the right side
    vstd::arithmetic::div_mod::lemma_add_mod_noop(ex_int, enx_int, 17);
    vstd::arithmetic::div_mod::lemma_mul_mod_noop_right(x, ex_int + enx_int, 17);
    vstd::arithmetic::div_mod::lemma_sub_mod_noop(ex_int, enx_int, 17);
    vstd::arithmetic::div_mod::lemma_mul_mod_noop_right(beta, ex_int - enx_int, 17);
    vstd::arithmetic::div_mod::lemma_add_mod_noop(
        x * (ex_int + enx_int),
        beta * (ex_int - enx_int),
        17,
    );
}

/// Law (the FRI fold identity): for any polynomial `p`, challenge `beta`
/// and nonzero point `x`,
/// `fold(p, beta)(x^2) == (p(x) + p(-x)) / 2 + beta * ((p(x) - p(-x)) / (2x))`.
pub proof fn lemma_fri_fold_identity(p: Seq<int>, beta: int, x: int)
    requires
        in_field(beta),
        in_field(x),
        x != 0,
    ensures
        eval_poly(pfold(p, beta), fmul(x, x)) == fadd(
            fdiv(fadd(eval_poly(p, x), eval_poly(p, fneg(x))), 2),
            fmul(beta, fdiv(fsub(eval_poly(p, x), eval_poly(p, fneg(x))), fmul(2, x))),
        ),
{
    lemma_fold_eval_scaled(p, beta, x);
    let c = fmul(2, x);
    let fc = finv(c);
    let ex = eval_poly(p, x);
    let enx = eval_poly(p, fneg(x));
    let s = fadd(ex, enx);
    let d = fsub(ex, enx);
    let lhs = eval_poly(pfold(p, beta), fmul(x, x));
    let rhs = fadd(fdiv(s, 2), fmul(beta, fdiv(d, fmul(2, x))));

    lemma_ops_in_field(2, x);
    lemma_ops_in_field(ex, enx);
    lemma_eval_in_field(pfold(p, beta), fmul(x, x));
    lemma_ops_in_field(fmul(x, s), fmul(beta, d));
    lemma_ops_in_field(fdiv(s, 2), fmul(beta, fdiv(d, c)));
    lemma_fmul_nonzero(2, x);
    crate::algebra::lemma_finv(c);

    // c * (s / 2) == x * s, since c == 2x and 2 * 9 == 18 == 1 mod 17
    assert(fmul(c, fdiv(s, 2)) == fmul(x, s)) by {
        // fdiv(s, 2) == (9 * s) % 17
        vstd::arithmetic::mul::lemma_mul_is_commutative(s, 9);
        // c * ((9s) % 17) == (2x * 9s) % 17
        vstd::arithmetic::div_mod::lemma_mul_mod_noop_general(2 * x, 9 * s, 17);
        vstd::arithmetic::mul::lemma_mul_is_associative(2, x, 9 * s);
        assert(x * (9 * s) * 2 == 17 * (x * s) + x * s) by (nonlinear_arith);
        vstd::arithmetic::mul::lemma_mul_is_commutative(2, x * (9 * s));
        vstd::arithmetic::div_mod::lemma_mod_multiples_vanish(x * s, x * s, 17);
    }

    // c * (beta * (d / c)) == beta * d, since c * finv(c) == 1
    assert(fmul(c, fmul(beta, fdiv(d, c))) == fmul(beta, d)) by {
        // flatten: everything is (c * (beta * (d * fc))) % 17
        vstd::arithmetic::div_mod::lemma_mul_mod_noop_right(beta, d * fc, 17);
        vstd::arithmetic::div_mod::lemma_mul_mod_noop_right(c, beta * (d * fc), 17);
        // and (beta * d) * (c * fc) is the same integer
        assert(c * (beta * (d * fc)) == (beta * d) * (c * fc)) by (nonlinear_arith);
        // fold (c * fc) % 17 == 1 back in
        vstd::arithmetic::div_mod::lemma_mul_mod_noop_right(beta * d, c * fc, 17);
        lemma_fmul_one(fmul(beta, d));
        vstd::arithmetic::div_mod::lemma_mul_mod_noop_left(beta * d, 1, 17);
        lemma_ops_in_field(beta, d);
    }

    lemma_fmul_distrib(c, fdiv(s, 2), fmul(beta, fdiv(d, c)));
    assert(fmul(c, rhs) == fadd(fmul(x, s), fmul(beta, d)));
    crate::algebra::lemma_fmul_cancel(c, lhs, rhs);
}

/// A cubic written out: evaluating a four-coefficient sequence is one
/// reduction of the plain sum of powers.
pub proof fn lemma_eval_len4(s: Seq<int>, x: int)
    requires
        s.len() == 4,
        all_in_field(s),
    ensures
        eval_poly(s, x) == (s[0] + x * s[1] + x * x * s[2] + x * x * x * s[3]) % 17,
{
    let s1 = s.drop_first();
    let s2 = s1.drop_first();
    let s3 = s2.drop_first();
    let s4 = s3.drop_first();
    assert(s4.len() == 0);
    assert(eval_poly(s4, x) == 0);
    assert(eval_poly(s3, x) == fadd(s[3], fmul(x, 0)));
    vstd::arithmetic::mul::lemma_mul_by_zero_is_zero(x);
    assert(in_field(s[3]));
    lemma_small_mod_17(s[3]);
    // one level up: s[2] + x * s[3]
    vstd::arithmetic::div_mod::lemma_mul_mod_noop_right(x, s[3], 17);
    vstd::arithmetic::div_mod::lemma_add_mod_noop_right(s[2], x * s[3], 17);
    assert(eval_poly(s2, x) == (s[2] + x * s[3]) % 17);
    // one level up: s[1] + x * s[2] + x^2 * s[3]
    vstd::arithmetic::div_mod::lemma_mul_mod_noop_right(x, s[2] + x * s[3], 17);
    vstd::arithmetic::mul::lemma_mul_is_distributive_add(x, s[2], x * s[3]);
    vstd::arithmetic::mul::lemma_mul_is_associative(x, x, s[3]);
    vstd::arithmetic::div_mod::lemma_add_mod_noop_right(s[1], x * s[2] + x * x * s[3], 17);
    assert(eval_poly(s1, x) == (s[1] + x * s[2] + x * x * s[3]) % 17);
    // the whole polynomial
    vstd::arithmetic::div_mod::lemma_mul_mod_noop_right(x, s[1] + x * s[2] + x * x * s[3], 17);
    vstd::arithmetic::mul::lemma_mul_is_distributive_add(x, s[1], x * s[2] + x * x * s[3]);
    vstd::arithmetic::mul::lemma_mul_is_distributive_add(x, x * s[2], x * x * s[3]);
    vstd::arithmetic::mul::lemma_mul_is_associative(x, x, s[2]);
    vstd::arithmetic::mul::lemma_mul_is_associative(x, x * x, s[3]);
    vstd::arithmetic::mul::lemma_mul_is_associative(x, x, x * s[3]);
    vstd::arithmetic::mul::lemma_mul_is_associative(x, x, x);
    vstd::arithmetic::div_mod::lemma_add_mod_noop_right(
        s[0],
        x * s[1] + x * x * s[2] + x * x * x * s[3],
        17,
    );
}

/// A quadratic written out, in the same way.
pub proof fn lemma_eval_len3(s: Seq<int>, x: int)
    requires
        s.len() == 3,
        all_in_field(s),
    ensures
        eval_poly(s, x) == (s[0] + x * s[1] + x * x * s[2]) % 17,
{
    let s1 = s.drop_first();
    let s2 = s1.drop_first();
    let s3 = s2.drop_first();
    assert(s3.len() == 0);
    assert(eval_poly(s3, x) == 0);
    assert(eval_poly(s2, x) == fadd(s[2], fmul(x, 0)));
    vstd::arithmetic::mul::lemma_mul_by_zero_is_zero(x);
    assert(in_field(s[2]));
    lemma_small_mod_17(s[2]);
    vstd::arithmetic::div_mod::lemma_mul_mod_noop_right(x, s[2], 17);
    vstd::arithmetic::div_mod::lemma_add_mod_noop_right(s[1], x * s[2], 17);
    assert(eval_poly(s1, x) == (s[1] + x * s[2]) % 17);
    vstd::arithmetic::div_mod::lemma_mul_mod_noop_right(x, s[1] + x * s[2], 17);
    vstd::arithmetic::mul::lemma_mul_is_distributive_add(x, s[1], x * s[2]);
    vstd::arithmetic::mul::lemma_mul_is_associative(x, x, s[2]);
    vstd::arithmetic::div_mod::lemma_add_mod_noop_right(s[0], x * s[1] + x * x * s[2], 17);
}

/// The length of a product: one less than the sum of the factors' lengths.
pub proof fn lemma_pmul_len(p: Seq<int>, q: Seq<int>)
    requires
        p.len() >= 1,
    ensures
        pmul(p, q).len() == p.len() + q.len() - 1,
    decreases p.len(),
{
    if p.len() > 1 {
        lemma_pmul_len(p.drop_first(), q);
    }
}

} // verus!
