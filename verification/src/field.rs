//! The prime field GF(17) and its cyclic multiplicative subgroups.
use vstd::prelude::*;

use crate::algebra::{
    fadd, fdiv, fmul, fneg, fsub, finv, in_field, pow_mod,
    lemma_finv_unique, lemma_fmul_assoc, lemma_generator_covers, lemma_ops_in_field,
    lemma_pow3_table, lemma_pow_mod_adds, lemma_pow_mod_in_field, lemma_pow_mod_succ,
    lemma_small_mod_17,
};

verus! {

/// Errors of the field layer: the only recoverable one is asking for a
/// cyclic group of a size this protocol does not use.
#[derive(Clone, Copy, Debug, PartialEq, Eq, Structural)]
pub enum FieldError {
    UnsupportedGroupSize,
}

/// Represents an element of the prime field with prime 17, stored as its
/// least nonnegative residue. This field contains a multiplicative group of
/// 16 elements, with cyclic subgroups of size 4 and 8.
#[derive(Clone, Copy, Debug, PartialEq, Eq, Structural)]
pub struct BaseField {
    element: u8,
}

impl View for BaseField {
    type V = int;

    closed spec fn view(&self) -> int {
        self.element as int
    }
}

/// The values of a sequence of field elements, as mathematical integers.
pub open spec fn seq_vals(s: Seq<BaseField>) -> Seq<int> {
    s.map_values(|b: BaseField| b@)
}

/// All entries of the sequence are canonical field elements.
pub open spec fn all_in_field(s: Seq<int>) -> bool {
    forall|i: int| 0 <= i < s.len() ==> in_field(#[trigger] s[i])
}

impl BaseField {
    pub fn new(element: u8) -> (r: Self)
        ensures
            r@ == element as int % 17,
            in_field(r@),
    {
        Self { element: element % 17 }
    }

    pub fn zero() -> (r: Self)
        ensures
            r@ == 0,
    {
        Self { element: 0u8 }
    }

    pub fn one() -> (r: Self)
        ensures
            r@ == 1,
    {
        Self { element: 1u8 }
    }

    pub fn square(&self) -> (r: Self)
        requires
            in_field(self@),
        ensures
            r@ == fmul(self@, self@),
            in_field(r@),
    {
        assert((self.element as u16) * (self.element as u16) < 289) by (nonlinear_arith)
            requires
                self.element < 17,
        ;
        let wide: u16 = (self.element as u16) * (self.element as u16);
        Self { element: (wide % 17) as u8 }
    }

    /// Field addition; the result is again canonical.
    pub fn add(self, rhs: Self) -> (r: Self)
        requires
            in_field(self@),
            in_field(rhs@),
        ensures
            r@ == fadd(self@, rhs@),
            in_field(r@),
    {
        Self { element: (self.element + rhs.element) % 17 }
    }

    /// Field subtraction; the result is again canonical.
    pub fn sub(self, rhs: Self) -> (r: Self)
        requires
            in_field(self@),
            in_field(rhs@),
        ensures
            r@ == fsub(self@, rhs@),
            in_field(r@),
    {
        proof {
            vstd::arithmetic::div_mod::lemma_mod_add_multiples_vanish(self@ - rhs@, 17);
            lemma_ops_in_field(self@, rhs@);
        }
        Self { element: ((self.element + 17) - rhs.element) % 17 }
    }

    /// Field multiplication, computed in a wider word so that no
    /// intermediate overflows.
    pub fn mul(self, rhs: Self) -> (r: Self)
        requires
            in_field(self@),
            in_field(rhs@),
        ensures
            r@ == fmul(self@, rhs@),
            in_field(r@),
    {
        assert((self.element as u16) * (rhs.element as u16) < 289) by (nonlinear_arith)
            requires
                self.element < 17,
                rhs.element < 17,
        ;
        let wide: u16 = (self.element as u16) * (rhs.element as u16);
        Self { element: (wide % 17) as u8 }
    }

    /// Field division by a nonzero element.
    pub fn div(self, rhs: Self) -> (r: Self)
        requires
            in_field(self@),
            in_field(rhs@),
            rhs@ != 0,
        ensures
            r@ == fdiv(self@, rhs@),
            in_field(r@),
    {
        if self.element == 0 {
            proof {
                lemma_ops_in_field(0, finv(rhs@));
            }
            return self;
        }
        self.mul(rhs.mult_inv())
    }

    /// Returns the multiplicative inverse for elements in the subgroup
    /// {1, ..., 16}.
    pub fn mult_inv(&self) -> (r: Self)
        requires
            in_field(self@),
            self@ != 0,
        ensures
            r@ == finv(self@),
            fmul(self@, r@) == 1,
            in_field(r@),
    {
        // The generators of the multiplicative group {1, ..., 16} are
        // 3, 5, 6, 7, 10, 11, 12, 14; the discrete-log walk below uses 3.
        // For any generator g, say y = g^i for some i. Then y^-1 = g^(16-i).
        let generator = Self::new(3);
        proof {
            lemma_generator_covers(self@);
        }
        let i = Self::log(*self, generator);
        let r = generator.exp(16 - i);
        proof {
            lemma_pow_mod_adds(3, i as nat, (16 - i) as nat);
            lemma_pow3_table();
            lemma_finv_unique(self@, r@);
        }
        r
    }

    /// Computes the additive inverse (i.e. -x).
    pub fn minus(&self) -> (r: Self)
        requires
            in_field(self@),
        ensures
            r@ == fneg(self@),
            fadd(self@, r@) == 0,
            in_field(r@),
    {
        proof {
            vstd::arithmetic::div_mod::lemma_mod_add_multiples_vanish(-self@, 17);
            lemma_ops_in_field(self@, self@);
            lemma_small_mod_17(0);
        }
        Self { element: (17 - self.element) % 17 }
    }

    /// Repeated field multiplication: self to the power `exponent`.
    pub fn exp(self, exponent: u8) -> (r: Self)
        requires
            in_field(self@),
        ensures
            r@ == pow_mod(self@, exponent as nat),
            in_field(r@),
    {
        let mut result = Self::one();
        proof {
            vstd::arithmetic::power::lemma_pow0(self@);
            lemma_small_mod_17(1);
        }
        for i in 0..exponent
            invariant
                in_field(self@),
                in_field(result@),
                result@ == pow_mod(self@, i as nat),
        {
            proof {
                lemma_pow_mod_succ(self@, i as nat);
                lemma_fmul_assoc(result@, self@, 1);
                lemma_pow_mod_in_field(self@, (i + 1) as nat);
            }
            result = result.mul(self);
        }
        result
    }

    /// Computes log_{base}(x); or, finds i s.t. base^i == x.
    ///
    /// Note: by the Discrete Logarithm Problem, we don't know how to
    /// compute this efficiently! The field is small enough for a walk.
    pub fn log(x: Self, base: Self) -> (r: u8)
        requires
            in_field(x@),
            in_field(base@),
            exists|i: nat| i < 16 && pow_mod(base@, i) == x@,
        ensures
            r < 16,
            pow_mod(base@, r as nat) == x@,
    {
        if x.element == 1 {
            proof {
                vstd::arithmetic::power::lemma_pow0(base@);
                lemma_small_mod_17(1);
            }
            return 0;
        }

        let mut result = Self::one();
        proof {
            vstd::arithmetic::power::lemma_pow0(base@);
            lemma_small_mod_17(1);
        }

        let mut i: u8 = 1;
        while i < 17
            invariant
                1 <= i <= 17,
                in_field(x@),
                in_field(base@),
                in_field(result@),
                x@ != 1,
                result@ == pow_mod(base@, (i - 1) as nat),
                exists|j: nat| j < 16 && pow_mod(base@, j) == x@,
                forall|j: nat| j < i ==> pow_mod(base@, j) != x@,
            decreases 17 - i,
        {
            proof {
                lemma_pow_mod_succ(base@, (i - 1) as nat);
                lemma_fmul_assoc(result@, base@, 1);
                lemma_pow_mod_in_field(base@, i as nat);
            }
            result = result.mul(base);
            if result.element == x.element {
                proof {
                    let j = choose|j: nat| j < 16 && pow_mod(base@, j) == x@;
                    assert(j >= i);
                }
                return i;
            }
            i = i + 1;
        }
        proof {
            let j = choose|j: nat| j < 16 && pow_mod(base@, j) == x@;
            assert(pow_mod(base@, j) != x@);
        }
        vstd::pervasive::unreached()
    }

    /// The canonical one-byte encoding of the element.
    pub fn as_byte(&self) -> (r: u8)
        ensures
            r as int == self@,
    {
        self.element
    }
}

impl From<u8> for BaseField {
    fn from(element: u8) -> (r: Self) {
        Self { element: element % 17 }
    }
}

impl vstd::std_specs::convert::FromSpecImpl<u8> for BaseField {
    open spec fn obeys_from_spec() -> bool {
        true
    }

    closed spec fn from_spec(element: u8) -> BaseField {
        BaseField { element: (element as int % 17) as u8 }
    }
}

impl From<i32> for BaseField {
    fn from(num: i32) -> (r: Self) {
        // Shift a negative input up by a multiple of 17 that clears the
        // whole i32 range, so the remainder can be taken on a nonnegative
        // word: 2147483656 == 17 * 126322568 and i32::MIN + 2147483656 >= 0.
        let shifted: u32 = if num >= 0 {
            num as u32
        } else {
            proof {
                vstd::arithmetic::div_mod::lemma_mod_multiples_vanish(
                    126322568,
                    num as int,
                    17,
                );
            }
            ((num as i64) + 2147483656i64) as u32
        };
        Self { element: (shifted % 17) as u8 }
    }
}

impl vstd::std_specs::convert::FromSpecImpl<i32> for BaseField {
    open spec fn obeys_from_spec() -> bool {
        true
    }

    closed spec fn from_spec(num: i32) -> BaseField {
        BaseField { element: (num as int % 17) as u8 }
    }
}

/// Describes a cyclic multiplicative subgroup of the multiplicative group in
/// `BaseField` (i.e. {1, ..., 16}).
pub struct CyclicGroup {
    pub elements: Vec<BaseField>,
}

/// The trace domain: the order-4 subgroup generated by 13.
pub open spec fn trace_domain_vals() -> Seq<int> {
    seq![1int, 13int, 16int, 4int]
}

/// The LDE domain: the order-8 subgroup generated by 9, shifted by 3.
pub open spec fn lde_domain_vals() -> Seq<int> {
    seq![3int, 10int, 5int, 11int, 14int, 7int, 12int, 6int]
}

impl CyclicGroup {
    /// Every stored element is a canonical field element.
    pub open spec fn wf(&self) -> bool {
        all_in_field(seq_vals(self.elements@))
    }

    /// The two groups this protocol uses: the order-4 subgroup for the trace
    /// domain, and, for size 8, the coset of the order-8 subgroup shifted by
    /// 3, so that the extended domain is disjoint from the trace domain.
    pub fn new(size: u8) -> (r: Result<Self, FieldError>)
        ensures
            match r {
                Ok(g) => {
                    &&& size == 4 || size == 8
                    &&& g.wf()
                    &&& size == 4 ==> seq_vals(g.elements@) == trace_domain_vals()
                    &&& size == 8 ==> seq_vals(g.elements@) == lde_domain_vals()
                },
                Err(e) => size != 4 && size != 8 && e == FieldError::UnsupportedGroupSize,
            },
    {
        // In our use case, 4 is the original domain size, and 8 the
        // extended domain (with LDE).
        if size != 4 && size != 8 {
            return Err(FieldError::UnsupportedGroupSize);
        }

        if size == 4 {
            // generator: 13
            let mut elements: Vec<BaseField> = Vec::new();
            elements.push(BaseField::new(1));
            elements.push(BaseField::new(13));
            elements.push(BaseField::new(16));
            elements.push(BaseField::new(4));
            let group = Self { elements };
            proof {
                assert(seq_vals(group.elements@) =~= trace_domain_vals());
            }
            Ok(group)
        } else {
            // The plain order-8 subgroup [1, 9, 13, 15, 16, 8, 4, 2]
            // (generator 9) shares 1, 4 and 13 with the trace domain; using
            // it directly would leak trace data at those points. Cosets of a
            // subgroup are either equal to it or disjoint from it, and
            // shifting by 3 gives a disjoint one.
            let mut elements: Vec<BaseField> = Vec::new();
            elements.push(BaseField::new(1));
            elements.push(BaseField::new(9));
            elements.push(BaseField::new(13));
            elements.push(BaseField::new(15));
            elements.push(BaseField::new(16));
            elements.push(BaseField::new(8));
            elements.push(BaseField::new(4));
            elements.push(BaseField::new(2));
            let group = Self { elements };
            let shifted = group.shift(BaseField::new(3));
            proof {
                assert(seq_vals(shifted.elements@) =~= lde_domain_vals());
            }
            Ok(shifted)
        }
    }

    pub fn len(&self) -> (r: usize)
        ensures
            r == self.elements@.len(),
    {
        self.elements.len()
    }

    pub fn is_empty(&self) -> (r: bool)
        ensures
            r == (self.elements@.len() == 0),
    {
        self.len() == 0
    }

    /// Shifts the group by `element`. In other words, this gives the cosets
    /// of our cyclic group (under the assumption that our cyclic group is a
    /// subgroup of {1, ..., 16}).
    pub fn shift(self, g: BaseField) -> (r: Self)
        requires
            self.wf(),
            in_field(g@),
        ensures
            r.wf(),
            r.elements@.len() == self.elements@.len(),
            forall|i: int|
                0 <= i < self.elements@.len() ==> seq_vals(r.elements@)[i] == fmul(
                    seq_vals(self.elements@)[i],
                    g@,
                ),
    {
        let mut shifted_elements: Vec<BaseField> = Vec::new();
        let n = self.elements.len();
        for i in 0..n
            invariant
                n == self.elements@.len(),
                self.wf(),
                in_field(g@),
                shifted_elements@.len() == i,
                all_in_field(seq_vals(shifted_elements@)),
                forall|j: int|
                    0 <= j < i ==> seq_vals(shifted_elements@)[j] == fmul(
                        seq_vals(self.elements@)[j],
                        g@,
                    ),
        {
            let e = self.elements[i];
            assert(seq_vals(self.elements@)[i as int] == e@);
            assert(in_field(e@));
            let ghost prev = shifted_elements@;
            shifted_elements.push(e.mul(g));
            proof {
                assert forall|j: int| 0 <= j < i + 1 implies in_field(
                    #[trigger] seq_vals(shifted_elements@)[j],
                ) && seq_vals(shifted_elements@)[j] == fmul(
                    seq_vals(self.elements@)[j],
                    g@,
                ) by {
                    assert(seq_vals(shifted_elements@)[j] == shifted_elements@[j]@);
                    if j < i {
                        assert(shifted_elements@[j] == prev[j]);
                        assert(seq_vals(prev)[j] == prev[j]@);
                        assert(seq_vals(self.elements@)[j] == self.elements@[j]@);
                    } else {
                        crate::algebra::lemma_ops_in_field(e@, g@);
                    }
                }
            }
        }
        Self { elements: shifted_elements }
    }
}

} // verus!
