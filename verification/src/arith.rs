//! Arithmetic in the prime base field, and little-endian bit sequences.
//!
//! The base field is the integers modulo `FIELD_MODULUS`, a Mersenne prime
//! that leaves headroom in a `u64`. Every field element is a `u64` strictly
//! below the modulus.

use vstd::prelude::*;
use vstd::arithmetic::div_mod::{lemma_small_mod, lemma_mod_sub_multiples_vanish};
use vstd::arithmetic::power2::pow2;

verus! {

/// The prime modulus of the base field: 2^61 - 1.
pub const FIELD_MODULUS: u64 = 0x1FFF_FFFF_FFFF_FFFF;

/// The full bit width of a base-field element.
pub const FIELD_BITS: usize = 61;

/// The number of base-field bits that can carry data freely.
pub const FIELD_DATA_BITS: usize = 60;

/// Whether `x` is a canonical base-field element.
pub open spec fn is_field_element(x: u64) -> bool {
    x < FIELD_MODULUS
}

/// The sum of two field elements, as a mathematical value.
pub open spec fn add_spec(a: u64, b: u64) -> nat {
    ((a + b) % (FIELD_MODULUS as int)) as nat
}

/// The difference of two field elements, as a mathematical value.
pub open spec fn sub_spec(a: u64, b: u64) -> nat {
    ((a + FIELD_MODULUS - b) % (FIELD_MODULUS as int)) as nat
}

/// The product of two field elements, as a mathematical value.
pub open spec fn mul_spec(a: u64, b: u64) -> nat {
    ((a * b) % (FIELD_MODULUS as int)) as nat
}

/// Field addition.
pub fn field_add(a: u64, b: u64) -> (r: u64)
    requires
        is_field_element(a),
        is_field_element(b),
    ensures
        is_field_element(r),
        r == add_spec(a, b),
{
    let s: u64 = a + b;
    proof {
        if s >= FIELD_MODULUS {
            lemma_mod_sub_multiples_vanish(s as int, FIELD_MODULUS as int);
            lemma_small_mod((s - FIELD_MODULUS) as nat, FIELD_MODULUS as nat);
        } else {
            lemma_small_mod(s as nat, FIELD_MODULUS as nat);
        }
    }
    if s >= FIELD_MODULUS {
        s - FIELD_MODULUS
    } else {
        s
    }
}

/// Field subtraction.
pub fn field_sub(a: u64, b: u64) -> (r: u64)
    requires
        is_field_element(a),
        is_field_element(b),
    ensures
        is_field_element(r),
        r == sub_spec(a, b),
{
    let s: u64 = if a >= b {
        a - b
    } else {
        a + FIELD_MODULUS - b
    };
    proof {
        if a >= b {
            lemma_mod_sub_multiples_vanish((a + FIELD_MODULUS - b) as int, FIELD_MODULUS as int);
            lemma_small_mod((a - b) as nat, FIELD_MODULUS as nat);
        } else {
            lemma_small_mod((a + FIELD_MODULUS - b) as nat, FIELD_MODULUS as nat);
        }
    }
    s
}

/// Field multiplication, through a 128-bit intermediate product.
pub fn field_mul(a: u64, b: u64) -> (r: u64)
    requires
        is_field_element(a),
        is_field_element(b),
    ensures
        is_field_element(r),
        r == mul_spec(a, b),
{
    proof {
        assert((a as int) * (b as int) < 0x1000_0000_0000_0000_0000_0000_0000_0000) by (nonlinear_arith)
            requires
                a < 0x2000_0000_0000_0000,
                b < 0x2000_0000_0000_0000,
        ;
    }
    let wide: u128 = (a as u128) * (b as u128);
    let reduced: u128 = wide % (FIELD_MODULUS as u128);
    reduced as u64
}

/// The additive negation of a field element.
pub fn field_neg(a: u64) -> (r: u64)
    requires
        is_field_element(a),
    ensures
        is_field_element(r),
        r == sub_spec(0, a),
{
    field_sub(0, a)
}

/// The multiplicative-inverse formula for a nonzero field element, by
/// Fermat: the element raised to the modulus less two, reduced.
pub open spec fn inv_spec(b: u64) -> nat {
    (vstd::arithmetic::power::pow(b as int, (FIELD_MODULUS - 2) as nat) % (
    FIELD_MODULUS as int)) as nat
}

/// Field exponentiation by squaring.
pub fn field_pow(base: u64, exp: u64) -> (r: u64)
    requires
        is_field_element(base),
    ensures
        is_field_element(r),
        r as int == vstd::arithmetic::power::pow(base as int, exp as nat) % (FIELD_MODULUS as int),
{
    let mut result: u64 = 1;
    let mut b: u64 = base;
    let mut e: u64 = exp;
    proof {
        vstd::arithmetic::power::lemma_pow0(b as int);
        vstd::arithmetic::power::lemma_pow1(b as int);
        lemma_small_mod(1nat, FIELD_MODULUS as nat);
        assert((1int * vstd::arithmetic::power::pow(base as int, exp as nat)) == vstd::arithmetic::power::pow(base as int, exp as nat));
    }
    while e > 0
        invariant
            is_field_element(result),
            is_field_element(b),
            ((result as int) * vstd::arithmetic::power::pow(b as int, e as nat)) % (
            FIELD_MODULUS as int) == vstd::arithmetic::power::pow(base as int, exp as nat) % (
            FIELD_MODULUS as int),
        decreases e,
    {
        let ghost p = FIELD_MODULUS as int;
        let ghost r0 = result as int;
        let ghost b0 = b as int;
        let ghost e0 = e as nat;
        let ghost k = (e / 2) as nat;
        if e % 2 == 1 {
            result = field_mul(result, b);
        }
        let squared = field_mul(b, b);
        proof {
            // pow(b0, 2k) folds into k powers of the square
            assert(vstd::arithmetic::power::pow(b0, 2) == b0 * b0) by {
                vstd::arithmetic::power::lemma_pow1(b0);
                vstd::arithmetic::power::lemma_pow_adds(b0, 1, 1);
            }
            assert(vstd::arithmetic::power::pow(b0 * b0, k) == vstd::arithmetic::power::pow(
                b0,
                2 * k,
            )) by {
                vstd::arithmetic::power::lemma_pow_multiplies(b0, 2, k);
            }
            // a squared reduced base raises to the same residue
            assert(vstd::arithmetic::power::pow(squared as int, k) % p
                == vstd::arithmetic::power::pow(b0 * b0, k) % p) by {
                vstd::arithmetic::div_mod::lemma_mod_bound(b0 * b0, p);
                vstd::arithmetic::power::lemma_pow_mod_noop(b0 * b0, k, p);
            }
            let pk = vstd::arithmetic::power::pow(b0 * b0, k);
            let psq = vstd::arithmetic::power::pow(squared as int, k);
            if e0 % 2 == 1 {
                assert(vstd::arithmetic::power::pow(b0, e0) == b0 * pk) by {
                    vstd::arithmetic::power::lemma_pow_adds(b0, 1, 2 * k);
                    vstd::arithmetic::power::lemma_pow1(b0);
                    assert(e0 == 1 + 2 * k);
                }
                assert((result as int) == (r0 * b0) % p);
                assert(((result as int) * psq) % p == ((r0 * b0) * pk) % p) by {
                    vstd::arithmetic::div_mod::lemma_mul_mod_noop_right(result as int, psq, p);
                    vstd::arithmetic::div_mod::lemma_mul_mod_noop_right(result as int, pk, p);
                    vstd::arithmetic::div_mod::lemma_mul_mod_noop_left(r0 * b0, pk, p);
                }
                assert((r0 * b0) * pk == r0 * (b0 * pk)) by (nonlinear_arith);
            } else {
                assert(vstd::arithmetic::power::pow(b0, e0) == pk) by {
                    assert(e0 == 2 * k);
                }
                assert(((result as int) * psq) % p == (r0 * pk) % p) by {
                    vstd::arithmetic::div_mod::lemma_mul_mod_noop_right(result as int, psq, p);
                    vstd::arithmetic::div_mod::lemma_mul_mod_noop_right(result as int, pk, p);
                }
            }
        }
        b = squared;
        e = e / 2;
    }
    proof {
        vstd::arithmetic::power::lemma_pow0(b as int);
        lemma_small_mod(result as nat, FIELD_MODULUS as nat);
    }
    result
}

/// Field division of `a` by a nonzero `b`: the product of `a` with the
/// Fermat inverse of `b`.
pub fn field_div(a: u64, b: u64) -> (r: u64)
    requires
        is_field_element(a),
        is_field_element(b),
        b != 0,
    ensures
        is_field_element(r),
        r == mul_spec(a, inv_spec(b) as u64),
{
    let inverse = field_pow(b, FIELD_MODULUS - 2);
    field_mul(a, inverse)
}

/// The value of a little-endian bit sequence: bit `i` contributes 2^i.
pub open spec fn bits_nat(s: Seq<bool>) -> nat
    decreases s.len(),
{
    if s.len() == 0 {
        0
    } else {
        bits_nat(s.drop_last()) + if s.last() {
            pow2((s.len() - 1) as nat)
        } else {
            0
        }
    }
}

/// Appending a bit adds its positional weight.
pub proof fn lemma_bits_nat_push(s: Seq<bool>, b: bool)
    ensures
        bits_nat(s.push(b)) == bits_nat(s) + if b {
            pow2(s.len())
        } else {
            0
        },
{
    assert(s.push(b).drop_last() =~= s);
    assert(s.push(b).last() == b);
}

/// A sequence of `n` bits encodes a value below 2^n.
pub proof fn lemma_bits_nat_bound(s: Seq<bool>)
    ensures
        bits_nat(s) < pow2(s.len()),
    decreases s.len(),
{
    if s.len() == 0 {
        assert(pow2(0) == 1) by {
            vstd::arithmetic::power2::lemma2_to64();
        }
    } else {
        lemma_bits_nat_bound(s.drop_last());
        assert(pow2(s.len()) == 2 * pow2((s.len() - 1) as nat)) by {
            vstd::arithmetic::power2::lemma_pow2_unfold(s.len());
        }
    }
}

/// One more bit of a prefix adds that bit's positional weight.
pub proof fn lemma_bits_nat_take_succ(s: Seq<bool>, k: int)
    requires
        0 <= k < s.len(),
    ensures
        bits_nat(s.take(k + 1)) == bits_nat(s.take(k)) + if s[k] {
            pow2(k as nat)
        } else {
            0
        },
{
    assert(s.take(k + 1) =~= s.take(k).push(s[k]));
    lemma_bits_nat_push(s.take(k), s[k]);
}

/// Trailing zero bits do not change the encoded value.
pub proof fn lemma_bits_nat_trailing_zeros(s: Seq<bool>, k: int)
    requires
        0 <= k <= s.len(),
        forall|i: int| k <= i < s.len() ==> !s[i],
    ensures
        bits_nat(s) == bits_nat(s.take(k)),
    decreases s.len(),
{
    if s.len() == k {
        assert(s.take(k) =~= s);
    } else {
        assert(!s.last());
        assert(s.drop_last().take(k) =~= s.take(k));
        lemma_bits_nat_trailing_zeros(s.drop_last(), k);
    }
}

/// One step of a most-significant-bit-first comparison of two bit
/// sequences: after one more bit, the lower prefix comparison survives
/// exactly when the new bits agree; otherwise the new bit decides.
pub proof fn lemma_bits_nat_compare_step(m: Seq<bool>, v: Seq<bool>, k: int)
    requires
        0 <= k < m.len(),
        k < v.len(),
    ensures
        (bits_nat(m.take(k + 1)) < bits_nat(v.take(k + 1))) == (if m[k] == v[k] {
            bits_nat(m.take(k)) < bits_nat(v.take(k))
        } else {
            v[k]
        }),
{
    lemma_bits_nat_take_succ(m, k);
    lemma_bits_nat_take_succ(v, k);
    lemma_bits_nat_bound(m.take(k));
    lemma_bits_nat_bound(v.take(k));
    assert(m.take(k).len() == k);
    assert(v.take(k).len() == k);
}

/// The full prefix is the whole sequence.
pub proof fn lemma_bits_nat_take_all(s: Seq<bool>)
    ensures
        bits_nat(s.take(s.len() as int)) == bits_nat(s),
{
    assert(s.take(s.len() as int) =~= s);
}

/// The little-endian bits of `x`, lowest `k` of them.
pub fn u64_to_bits_le(x: u64, k: usize) -> (r: Vec<bool>)
    ensures
        r@.len() == k,
        bits_nat(r@) == x as nat % pow2(k as nat),
        x < pow2(k as nat) ==> bits_nat(r@) == x,
{
    let mut bits: Vec<bool> = Vec::new();
    let mut cur: u64 = x;
    let mut i: usize = 0;
    proof {
        assert(pow2(0) == 1) by {
            vstd::arithmetic::power2::lemma2_to64();
        }
    }
    while i < k
        invariant
            0 <= i <= k,
            bits@.len() == i,
            cur == x as nat / pow2(i as nat),
            bits_nat(bits@) + (cur as nat) * pow2(i as nat) == x,
        decreases k - i,
    {
        let b: bool = cur % 2 == 1;
        proof {
            lemma_bits_nat_push(bits@, b);
            assert(pow2(i as nat) > 0) by {
                vstd::arithmetic::power2::lemma_pow2_pos(i as nat);
            }
            vstd::arithmetic::div_mod::lemma_fundamental_div_mod(cur as int, 2);
            vstd::arithmetic::power2::lemma_pow2_unfold((i + 1) as nat);
            vstd::arithmetic::div_mod::lemma_div_denominator(x as int, pow2(i as nat) as int, 2);
            assert((2 * (cur as int / 2) + (cur as int % 2)) * pow2(i as nat) == 2 * (cur as int
                / 2) * pow2(i as nat) + (cur as int % 2) * pow2(i as nat)) by (nonlinear_arith);
            assert(2 * (cur as int / 2) * pow2(i as nat) == (cur as int / 2) * (2 * pow2(
                i as nat,
            ))) by (nonlinear_arith);
        }
        bits.push(b);
        cur = cur / 2;
        i = i + 1;
    }
    proof {
        assert(pow2(k as nat) > 0) by {
            vstd::arithmetic::power2::lemma_pow2_pos(k as nat);
        }
        vstd::arithmetic::div_mod::lemma_fundamental_div_mod(x as int, pow2(k as nat) as int);
        assert(i == k);
        assert(bits_nat(bits@) + (cur as nat) * pow2(k as nat) == x);
        assert(cur == x as nat / pow2(k as nat));
        assert(x as int == pow2(k as nat) * (x as int / pow2(k as nat) as int) + x as int % pow2(
            k as nat,
        ) as int);
        assert(x as int / pow2(k as nat) as int == cur);
        assert((cur as int) * pow2(k as nat) == pow2(k as nat) * (cur as int)) by (nonlinear_arith);
        assert(bits_nat(bits@) == x as nat % pow2(k as nat));
        if x < pow2(k as nat) {
            lemma_small_mod(x as nat, pow2(k as nat));
        }
    }
    bits
}

/// The little-endian bits of a 128-bit value, lowest `k` of them.
pub fn u128_to_bits_le(x: u128, k: usize) -> (r: Vec<bool>)
    ensures
        r@.len() == k,
        bits_nat(r@) == x as nat % pow2(k as nat),
        x < pow2(k as nat) ==> bits_nat(r@) == x,
{
    let mut bits: Vec<bool> = Vec::new();
    let mut cur: u128 = x;
    let mut i: usize = 0;
    proof {
        assert(pow2(0) == 1) by {
            vstd::arithmetic::power2::lemma2_to64();
        }
    }
    while i < k
        invariant
            0 <= i <= k,
            bits@.len() == i,
            cur == x as nat / pow2(i as nat),
            bits_nat(bits@) + (cur as nat) * pow2(i as nat) == x,
        decreases k - i,
    {
        let b: bool = cur % 2 == 1;
        proof {
            lemma_bits_nat_push(bits@, b);
            assert(pow2(i as nat) > 0) by {
                vstd::arithmetic::power2::lemma_pow2_pos(i as nat);
            }
            vstd::arithmetic::div_mod::lemma_fundamental_div_mod(cur as int, 2);
            vstd::arithmetic::power2::lemma_pow2_unfold((i + 1) as nat);
            vstd::arithmetic::div_mod::lemma_div_denominator(x as int, pow2(i as nat) as int, 2);
            assert((2 * (cur as int / 2) + (cur as int % 2)) * pow2(i as nat) == 2 * (cur as int
                / 2) * pow2(i as nat) + (cur as int % 2) * pow2(i as nat)) by (nonlinear_arith);
            assert(2 * (cur as int / 2) * pow2(i as nat) == (cur as int / 2) * (2 * pow2(
                i as nat,
            ))) by (nonlinear_arith);
        }
        bits.push(b);
        cur = cur / 2;
        i = i + 1;
    }
    proof {
        assert(pow2(k as nat) > 0) by {
            vstd::arithmetic::power2::lemma_pow2_pos(k as nat);
        }
        vstd::arithmetic::div_mod::lemma_fundamental_div_mod(x as int, pow2(k as nat) as int);
        assert(i == k);
        assert(bits_nat(bits@) + (cur as nat) * pow2(k as nat) == x);
        assert(cur == x as nat / pow2(k as nat));
        assert(x as int == pow2(k as nat) * (x as int / pow2(k as nat) as int) + x as int % pow2(
            k as nat,
        ) as int);
        assert(x as int / pow2(k as nat) as int == cur);
        assert((cur as int) * pow2(k as nat) == pow2(k as nat) * (cur as int)) by (nonlinear_arith);
        assert(bits_nat(bits@) == x as nat % pow2(k as nat));
        if x < pow2(k as nat) {
            lemma_small_mod(x as nat, pow2(k as nat));
        }
    }
    bits
}

/// The value encoded by at most 128 little-endian bits.
pub fn bits_to_u128(bits: &Vec<bool>) -> (r: u128)
    requires
        bits@.len() <= 128,
    ensures
        r == bits_nat(bits@),
{
    let n: usize = bits.len();
    let mut acc: u128 = 0;
    let mut weight: u128 = 1;
    let mut i: usize = 0;
    proof {
        assert(pow2(0) == 1) by {
            vstd::arithmetic::power2::lemma2_to64();
        }
        assert(bits@.take(0) =~= Seq::<bool>::empty());
    }
    while i < n
        invariant
            0 <= i <= n,
            n == bits@.len() <= 128,
            i < n ==> weight == pow2(i as nat),
            acc == bits_nat(bits@.take(i as int)),
        decreases n - i,
    {
        proof {
            lemma_bits_nat_take_succ(bits@, i as int);
            lemma_bits_nat_bound(bits@.take((i + 1) as int));
            assert(pow2((i + 1) as nat) == 2 * pow2(i as nat)) by {
                vstd::arithmetic::power2::lemma_pow2_unfold((i + 1) as nat);
            }
            assert(pow2((i + 1) as nat) <= pow2(128)) by {
                if i + 1 < 128 {
                    vstd::arithmetic::power2::lemma_pow2_strictly_increases((i + 1) as nat, 128);
                }
            }
            assert(pow2(128) == 0x100000000000000000000000000000000) by {
                vstd::arithmetic::power2::lemma2_to64();
                vstd::arithmetic::power2::lemma_pow2_adds(64, 64);
            }
        }
        if bits[i] {
            acc = acc + weight;
        }
        i = i + 1;
        if i < n {
            proof {
                assert(pow2(127) == 0x80000000000000000000000000000000) by {
                    vstd::arithmetic::power2::lemma2_to64();
                    vstd::arithmetic::power2::lemma2_to64_rest();
                    vstd::arithmetic::power2::lemma_pow2_adds(64, 63);
                }
                if (i as int) < 127 {
                    vstd::arithmetic::power2::lemma_pow2_strictly_increases(i as nat, 127);
                }
            }
            weight = weight * 2;
        }
    }
    proof {
        lemma_bits_nat_take_all(bits@);
    }
    acc
}

/// The selection constraint `c * (f - s) = w - s` holds of an honest witness
/// `w`, the branch picked by the bit `c`.
pub proof fn lemma_select_constraint(cv: u64, fv: u64, sv: u64, wv: u64)
    requires
        cv == 0 || cv == 1,
        is_field_element(fv),
        is_field_element(sv),
        wv == if cv == 1 {
            fv
        } else {
            sv
        },
    ensures
        mul_spec(cv, sub_spec(fv, sv) as u64) == sub_spec(wv, sv),
{
    let p = FIELD_MODULUS as int;
    if cv == 1 {
        let x = sub_spec(fv, sv) as u64;
        assert(1 * (x as int) == x);
        lemma_small_mod(x as nat, FIELD_MODULUS as nat);
        vstd::arithmetic::div_mod::lemma_mod_twice((fv + FIELD_MODULUS - sv) as int, p);
    } else {
        assert(0 * (sub_spec(fv, sv) as int) == 0);
        lemma_small_mod(0, FIELD_MODULUS as nat);
        vstd::arithmetic::div_mod::lemma_mod_self_0(p);
    }
}

/// Selecting by a constant bit through linear blending:
/// `c * f + (1 - c) * s` is the picked branch.
pub proof fn lemma_select_blend(cv: u64, fv: u64, sv: u64)
    requires
        cv == 0 || cv == 1,
        is_field_element(fv),
        is_field_element(sv),
    ensures
        add_spec(mul_spec(fv, cv) as u64, mul_spec(sv, sub_spec(1, cv) as u64) as u64) == if cv
            == 1 {
            fv
        } else {
            sv
        },
{
    let p = FIELD_MODULUS as int;
    lemma_small_mod(0, FIELD_MODULUS as nat);
    lemma_small_mod(1, FIELD_MODULUS as nat);
    lemma_small_mod(fv as nat, FIELD_MODULUS as nat);
    lemma_small_mod(sv as nat, FIELD_MODULUS as nat);
    vstd::arithmetic::div_mod::lemma_mod_self_0(p);
    if cv == 1 {
        assert((fv as int) * 1 == fv);
        assert(sub_spec(1, 1) == 0) by {
            vstd::arithmetic::div_mod::lemma_mod_self_0(p);
        }
        assert((sv as int) * 0 == 0);
        assert(add_spec(fv, 0) == fv);
    } else {
        assert((fv as int) * 0 == 0);
        assert(sub_spec(1, 0) == 1) by {
            lemma_small_mod(1, FIELD_MODULUS as nat);
        }
        assert((sv as int) * 1 == sv);
        assert(add_spec(0, sv) == sv);
    }
}

/// The disjunction constraint `(1 - a) * (1 - b) = 1 - w` holds of an honest
/// witness `w = a | b` over bits.
pub proof fn lemma_or_constraint(av: u64, bv: u64, wv: u64)
    requires
        av == 0 || av == 1,
        bv == 0 || bv == 1,
        wv == if av == 1 || bv == 1 {
            1u64
        } else {
            0u64
        },
    ensures
        mul_spec(sub_spec(1, av) as u64, sub_spec(1, bv) as u64) == sub_spec(1, wv),
{
    let p = FIELD_MODULUS as int;
    lemma_small_mod(0, FIELD_MODULUS as nat);
    lemma_small_mod(1, FIELD_MODULUS as nat);
    vstd::arithmetic::div_mod::lemma_mod_self_0(p);
    assert(sub_spec(1, 0) == 1);
    assert(sub_spec(1, 1) == 0);
    assert(mul_spec(1, 1) == 1) by {
        assert(1int * 1 == 1);
    }
    assert(mul_spec(0, 0) == 0 && mul_spec(0, 1) == 0 && mul_spec(1, 0) == 0) by {
        assert(0int * 0 == 0 && 0int * 1 == 0 && 1int * 0 == 0);
    }
}

/// The exclusive-or constraint `2a * b = a + b - w` holds of an honest
/// witness `w = a ^ b` over bits.
pub proof fn lemma_xor_constraint(av: u64, bv: u64, wv: u64)
    requires
        av == 0 || av == 1,
        bv == 0 || bv == 1,
        wv == if (av == 1) != (bv == 1) {
            1u64
        } else {
            0u64
        },
    ensures
        mul_spec(add_spec(av, av) as u64, bv) == sub_spec(add_spec(av, bv) as u64, wv),
{
    let p = FIELD_MODULUS as int;
    lemma_small_mod(0, FIELD_MODULUS as nat);
    lemma_small_mod(1, FIELD_MODULUS as nat);
    lemma_small_mod(2, FIELD_MODULUS as nat);
    vstd::arithmetic::div_mod::lemma_mod_self_0(p);
    assert(add_spec(0, 0) == 0 && add_spec(0, 1) == 1 && add_spec(1, 0) == 1 && add_spec(1, 1)
        == 2);
    assert(mul_spec(0, 0) == 0 && mul_spec(0, 1) == 0 && mul_spec(2, 0) == 0 && mul_spec(2, 1)
        == 2) by {
        assert(0int * 0 == 0 && 0int * 1 == 0 && 2int * 0 == 0 && 2int * 1 == 2);
    }
    assert(sub_spec(0, 0) == 0 && sub_spec(1, 1) == 0 && sub_spec(2, 0) == 2);
}

/// The value encoded by at most 63 little-endian bits.
pub fn bits_to_u64(bits: &Vec<bool>) -> (r: u64)
    requires
        bits@.len() <= 63,
    ensures
        r == bits_nat(bits@),
{
    let n: usize = bits.len();
    let mut acc: u64 = 0;
    let mut weight: u64 = 1;
    let mut i: usize = 0;
    proof {
        assert(pow2(0) == 1) by {
            vstd::arithmetic::power2::lemma2_to64();
        }
        assert(bits@.take(0) =~= Seq::<bool>::empty());
    }
    while i < n
        invariant
            0 <= i <= n,
            n == bits@.len() <= 63,
            i < n ==> weight == pow2(i as nat),
            acc == bits_nat(bits@.take(i as int)),
        decreases n - i,
    {
        proof {
            lemma_bits_nat_take_succ(bits@, i as int);
            lemma_bits_nat_bound(bits@.take((i + 1) as int));
            assert(pow2((i + 1) as nat) == 2 * pow2(i as nat)) by {
                vstd::arithmetic::power2::lemma_pow2_unfold((i + 1) as nat);
            }
            assert(pow2((i + 1) as nat) <= pow2(63)) by {
                if i + 1 < 63 {
                    vstd::arithmetic::power2::lemma_pow2_strictly_increases((i + 1) as nat, 63);
                }
            }
            assert(pow2(63) == 0x8000000000000000) by {
                vstd::arithmetic::power2::lemma2_to64_rest();
            }
        }
        if bits[i] {
            acc = acc + weight;
        }
        i = i + 1;
        if i < n {
            weight = weight * 2;
        }
    }
    proof {
        lemma_bits_nat_take_all(bits@);
    }
    acc
}

} // verus!
