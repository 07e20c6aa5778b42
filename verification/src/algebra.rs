//! Spec-level arithmetic of the prime field GF(17): the modular operations,
//! the inverse table, powers, and the algebraic laws the rest of the crate
//! builds on.
use vstd::prelude::*;
use vstd::arithmetic::power::pow;

verus! {

/// A field element is in canonical form when it is a least nonnegative
/// residue modulo 17.
pub open spec fn in_field(a: int) -> bool {
    0 <= a < 17
}

/// Addition in GF(17), on canonical representatives.
pub open spec fn fadd(a: int, b: int) -> int {
    (a + b) % 17
}

/// Subtraction in GF(17).
pub open spec fn fsub(a: int, b: int) -> int {
    (a - b) % 17
}

/// Multiplication in GF(17).
pub open spec fn fmul(a: int, b: int) -> int {
    (a * b) % 17
}

/// Additive inverse in GF(17).
pub open spec fn fneg(a: int) -> int {
    (-a) % 17
}

/// Multiplicative inverse in GF(17), written out as the full table; the
/// inverse of zero is set to zero, but division never relies on that entry.
pub open spec fn finv(a: int) -> int {
    if a == 1 {
        1
    } else if a == 2 {
        9
    } else if a == 3 {
        6
    } else if a == 4 {
        13
    } else if a == 5 {
        7
    } else if a == 6 {
        3
    } else if a == 7 {
        5
    } else if a == 8 {
        15
    } else if a == 9 {
        2
    } else if a == 10 {
        12
    } else if a == 11 {
        14
    } else if a == 12 {
        10
    } else if a == 13 {
        4
    } else if a == 14 {
        11
    } else if a == 15 {
        8
    } else if a == 16 {
        16
    } else {
        0
    }
}

/// Division in GF(17): multiplication by the inverse.
pub open spec fn fdiv(a: int, b: int) -> int {
    fmul(a, finv(b))
}

/// Exponentiation in GF(17), reduced to the canonical residue.
pub open spec fn pow_mod(b: int, e: nat) -> int {
    pow(b, e) % 17
}

/// Every field operation lands back in canonical form.
pub proof fn lemma_ops_in_field(a: int, b: int)
    ensures
        in_field(fadd(a, b)),
        in_field(fsub(a, b)),
        in_field(fmul(a, b)),
        in_field(fneg(a)),
{
    vstd::arithmetic::div_mod::lemma_mod_bound(a + b, 17);
    vstd::arithmetic::div_mod::lemma_mod_bound(a - b, 17);
    vstd::arithmetic::div_mod::lemma_mod_bound(a * b, 17);
    vstd::arithmetic::div_mod::lemma_mod_bound(-a, 17);
}

/// Canonical elements are fixed by reduction.
pub proof fn lemma_small_mod_17(a: int)
    requires
        in_field(a),
    ensures
        a % 17 == a,
{
    vstd::arithmetic::div_mod::lemma_small_mod(a as nat, 17);
}

/// Zero is the additive identity.
pub proof fn lemma_fadd_zero(a: int)
    requires
        in_field(a),
    ensures
        fadd(a, 0) == a,
        fadd(0, a) == a,
{
    lemma_small_mod_17(a);
}

/// Reduction of either factor does not change a product mod 17.
pub proof fn lemma_fmul_noop(a: int, b: int)
    ensures
        fmul(a % 17, b) == fmul(a, b),
        fmul(a, b % 17) == fmul(a, b),
        fmul(a % 17, b % 17) == fmul(a, b),
{
    vstd::arithmetic::div_mod::lemma_mul_mod_noop_general(a, b, 17);
}

/// Multiplication in the field is commutative and associative.
pub proof fn lemma_fmul_assoc(a: int, b: int, c: int)
    ensures
        fmul(a, b) == fmul(b, a),
        fmul(fmul(a, b), c) == fmul(a, fmul(b, c)),
{
    vstd::arithmetic::mul::lemma_mul_is_commutative(a, b);
    vstd::arithmetic::div_mod::lemma_mul_mod_noop_left(a * b, c, 17);
    vstd::arithmetic::div_mod::lemma_mul_mod_noop_right(a, b * c, 17);
    vstd::arithmetic::mul::lemma_mul_is_associative(a, b, c);
}

/// One is the multiplicative identity.
pub proof fn lemma_fmul_one(a: int)
    requires
        in_field(a),
    ensures
        fmul(a, 1) == a,
        fmul(1, a) == a,
{
    lemma_small_mod_17(a);
}

/// Multiplication distributes over addition in the field.
pub proof fn lemma_fmul_distrib(a: int, b: int, c: int)
    ensures
        fmul(a, fadd(b, c)) == fadd(fmul(a, b), fmul(a, c)),
{
    vstd::arithmetic::div_mod::lemma_mul_mod_noop_right(a, b + c, 17);
    vstd::arithmetic::mul::lemma_mul_is_distributive_add(a, b, c);
    vstd::arithmetic::div_mod::lemma_add_mod_noop(a * b, a * c, 17);
}

/// The inverse table is correct: every nonzero element times its table entry
/// is one, and the entry is itself a nonzero canonical element.
pub proof fn lemma_finv(a: int)
    requires
        in_field(a),
        a != 0,
    ensures
        fmul(a, finv(a)) == 1,
        in_field(finv(a)),
        finv(a) != 0,
{
}

/// Inverses are unique: any canonical element whose product with `a` is one
/// is the table entry for `a`.
pub proof fn lemma_finv_unique(a: int, r: int)
    requires
        in_field(a),
        in_field(r),
        fmul(a, r) == 1,
    ensures
        a != 0,
        r == finv(a),
{
    if a == 0 {
        assert(fmul(0, r) == 0);
    }
    lemma_finv(a);
    // r == r * (a * inv a) == (r * a) * inv a == 1 * inv a == inv a
    lemma_fmul_one(r);
    assert(fmul(r, fmul(a, finv(a))) == r) by {
        lemma_fmul_noop(r, fmul(a, finv(a)));
        lemma_small_mod_17(r);
    }
    lemma_fmul_assoc(r, a, finv(a));
    lemma_fmul_assoc(a, r, finv(a));
    assert(fmul(fmul(a, r), finv(a)) == finv(a)) by {
        lemma_fmul_one(finv(a));
    }
}

/// A product in the field is zero only when one factor is zero.
pub proof fn lemma_fmul_nonzero(a: int, b: int)
    requires
        in_field(a),
        in_field(b),
        a != 0,
        b != 0,
    ensures
        fmul(a, b) != 0,
{
    if fmul(a, b) == 0 {
        lemma_finv(a);
        lemma_fmul_assoc(finv(a), a, b);
        lemma_fmul_noop(fmul(finv(a), a), b);
        lemma_fmul_assoc(a, finv(a), b);
        assert(fmul(finv(a), fmul(a, b)) == 0);
        lemma_fmul_one(b);
        lemma_fmul_noop(1, b);
        assert(fmul(fmul(finv(a), a), b) == b);
    }
}

/// Multiplication by a nonzero element can be cancelled.
pub proof fn lemma_fmul_cancel(c: int, u: int, v: int)
    requires
        in_field(c),
        in_field(u),
        in_field(v),
        c != 0,
        fmul(c, u) == fmul(c, v),
    ensures
        u == v,
{
    lemma_finv(c);
    lemma_fmul_assoc(finv(c), c, u);
    lemma_fmul_assoc(c, finv(c), u);
    lemma_fmul_assoc(finv(c), c, v);
    lemma_fmul_assoc(c, finv(c), v);
    lemma_fmul_one(u);
    lemma_fmul_one(v);
    assert(fmul(fmul(c, finv(c)), u) == u);
    assert(fmul(fmul(c, finv(c)), v) == v);
}

/// Distinct canonical elements have a nonzero difference in the field.
pub proof fn lemma_fsub_nonzero(a: int, b: int)
    requires
        in_field(a),
        in_field(b),
        a != b,
    ensures
        fsub(a, b) != 0,
        in_field(fsub(a, b)),
{
    lemma_ops_in_field(a, b);
    if a > b {
        lemma_small_mod_17(a - b);
    } else {
        vstd::arithmetic::div_mod::lemma_mod_add_multiples_vanish(a - b, 17);
        lemma_small_mod_17(a - b + 17);
    }
}

/// One power step: `b^(e+1) = b * b^e` in the field.
pub proof fn lemma_pow_mod_succ(b: int, e: nat)
    ensures
        pow_mod(b, e + 1) == fmul(b, pow_mod(b, e)),
{
    assert(pow(b, e + 1) == b * pow(b, e)) by {
        vstd::arithmetic::power::lemma_pow1(b);
        vstd::arithmetic::power::lemma_pow_adds(b, 1, e);
    }
    vstd::arithmetic::div_mod::lemma_mul_mod_noop_right(b, pow(b, e), 17);
}

/// Every power lands in canonical form.
pub proof fn lemma_pow_mod_in_field(b: int, e: nat)
    ensures
        in_field(pow_mod(b, e)),
{
    vstd::arithmetic::div_mod::lemma_mod_bound(pow(b, e), 17);
}

/// Splitting an exponent splits the power into a field product.
pub proof fn lemma_pow_mod_adds(b: int, e1: nat, e2: nat)
    ensures
        pow_mod(b, e1 + e2) == fmul(pow_mod(b, e1), pow_mod(b, e2)),
{
    vstd::arithmetic::power::lemma_pow_adds(b, e1, e2);
    vstd::arithmetic::div_mod::lemma_mul_mod_noop_general(pow(b, e1), pow(b, e2), 17);
}

/// A power of a power is the power of the product of the exponents.
pub proof fn lemma_pow_mod_multiplies(b: int, e1: nat, e2: nat)
    ensures
        pow_mod(pow_mod(b, e1), e2) == pow_mod(b, e1 * e2),
{
    vstd::arithmetic::power::lemma_pow_multiplies(b, e1, e2);
    vstd::arithmetic::power::lemma_pow_mod_noop(pow(b, e1), e2, 17);
}

/// A square written as a power: `b^2 = b * b` for canonical `b`.
pub proof fn lemma_pow_mod_two(b: int)
    requires
        in_field(b),
    ensures
        pow_mod(b, 2) == fmul(b, b),
{
    lemma_pow_mod_succ(b, 1);
    lemma_pow_mod_succ(b, 0);
    vstd::arithmetic::power::lemma_pow0(b);
    lemma_small_mod_17(1);
    lemma_fmul_one(b);
}

/// The successive powers of 3, the generator the inverse algorithm walks:
/// they run through every nonzero element of the field.
pub proof fn lemma_pow3_table()
    ensures
        pow_mod(3, 0) == 1,
        pow_mod(3, 1) == 3,
        pow_mod(3, 2) == 9,
        pow_mod(3, 3) == 10,
        pow_mod(3, 4) == 13,
        pow_mod(3, 5) == 5,
        pow_mod(3, 6) == 15,
        pow_mod(3, 7) == 11,
        pow_mod(3, 8) == 16,
        pow_mod(3, 9) == 14,
        pow_mod(3, 10) == 8,
        pow_mod(3, 11) == 7,
        pow_mod(3, 12) == 4,
        pow_mod(3, 13) == 12,
        pow_mod(3, 14) == 2,
        pow_mod(3, 15) == 6,
        pow_mod(3, 16) == 1,
{
    assert(pow_mod(3, 0) == 1) by {
        vstd::arithmetic::power::lemma_pow0(3);
    }
    lemma_pow_mod_succ(3, 0);
    lemma_pow_mod_succ(3, 1);
    lemma_pow_mod_succ(3, 2);
    lemma_pow_mod_succ(3, 3);
    lemma_pow_mod_succ(3, 4);
    lemma_pow_mod_succ(3, 5);
    lemma_pow_mod_succ(3, 6);
    lemma_pow_mod_succ(3, 7);
    lemma_pow_mod_succ(3, 8);
    lemma_pow_mod_succ(3, 9);
    lemma_pow_mod_succ(3, 10);
    lemma_pow_mod_succ(3, 11);
    lemma_pow_mod_succ(3, 12);
    lemma_pow_mod_succ(3, 13);
    lemma_pow_mod_succ(3, 14);
    lemma_pow_mod_succ(3, 15);
}

/// 3 generates the multiplicative group: every nonzero element is one of its
/// first sixteen powers.
pub proof fn lemma_generator_covers(a: int)
    requires
        in_field(a),
        a != 0,
    ensures
        exists|i: nat| i < 16 && pow_mod(3, i) == a,
{
    lemma_pow3_table();
    if a == 1 {
        assert(pow_mod(3, 0) == a);
    } else if a == 2 {
        assert(pow_mod(3, 14) == a);
    } else if a == 3 {
        assert(pow_mod(3, 1) == a);
    } else if a == 4 {
        assert(pow_mod(3, 12) == a);
    } else if a == 5 {
        assert(pow_mod(3, 5) == a);
    } else if a == 6 {
        assert(pow_mod(3, 15) == a);
    } else if a == 7 {
        assert(pow_mod(3, 11) == a);
    } else if a == 8 {
        assert(pow_mod(3, 10) == a);
    } else if a == 9 {
        assert(pow_mod(3, 2) == a);
    } else if a == 10 {
        assert(pow_mod(3, 3) == a);
    } else if a == 11 {
        assert(pow_mod(3, 7) == a);
    } else if a == 12 {
        assert(pow_mod(3, 13) == a);
    } else if a == 13 {
        assert(pow_mod(3, 4) == a);
    } else if a == 14 {
        assert(pow_mod(3, 9) == a);
    } else if a == 15 {
        assert(pow_mod(3, 6) == a);
    } else {
        assert(pow_mod(3, 8) == a);
    }
}

/// Fermat's little theorem for GF(17): every nonzero element to the 16th
/// power is one.
pub proof fn lemma_fermat(a: int)
    requires
        in_field(a),
        a != 0,
    ensures
        pow_mod(a, 16) == 1,
{
    lemma_generator_covers(a);
    let i = choose|i: nat| i < 16 && pow_mod(3, i) == a;
    lemma_pow_mod_multiplies(3, i, 16);
    lemma_pow_mod_multiplies(3, 16, i);
    lemma_pow3_table();
    assert(pow_mod(pow_mod(3, 16), i) == pow_mod(1, i));
    assert(pow_mod(1, i) == 1) by {
        vstd::arithmetic::power::lemma1_pow(i);
        lemma_small_mod_17(1);
    }
    assert(i * 16 == 16 * i) by {
        vstd::arithmetic::mul::lemma_mul_is_commutative(i as int, 16);
    }
}

} // verus!
