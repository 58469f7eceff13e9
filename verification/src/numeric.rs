//! The ordering comparisons of the language compare their operands as
//! 64-bit floating-point numbers: an integer is first converted to the
//! nearest double, ties going to the even significand. This module states
//! that rounding over the integers and computes it without floating point.
use vstd::prelude::*;

verus! {

pub open spec fn two_pow(e: nat) -> nat
    decreases e,
{
    if e == 0 {
        1
    } else {
        2 * two_pow((e - 1) as nat)
    }
}

/// 2^53: below it every natural number is exactly a double.
pub open spec fn exact_limit() -> nat {
    9007199254740992
}

/// How many times `n` must be halved (rounding down) to fall below 2^53.
pub open spec fn shift_for(n: nat) -> nat
    decreases n,
{
    if n < exact_limit() {
        0
    } else {
        1 + shift_for(n / 2)
    }
}

/// The double nearest to a natural number, ties to an even significand,
/// as an integer: below 2^53 the number itself; above, the number keeps
/// its 53 leading bits, rounded on the bits it drops.
pub open spec fn round_nat(n: nat) -> nat {
    if n < exact_limit() {
        n
    } else {
        let p = two_pow(shift_for(n));
        let q = n / p;
        let r = n % p;
        let up = r * 2 > p || (r * 2 == p && q % 2 == 1);
        if up { ((q + 1) * p) as nat } else { (q * p) as nat }
    }
}

/// The double nearest to an integer, as an integer (rounding is symmetric).
pub open spec fn round_int(x: int) -> int {
    if x < 0 { -(round_nat((-x) as nat) as int) } else { round_nat(x as nat) as int }
}

proof fn lemma_two_pow_pos(e: nat)
    ensures
        two_pow(e) >= 1,
    decreases e,
{
    if e > 0 {
        lemma_two_pow_pos((e - 1) as nat);
    }
}

/// The double nearest to a natural number below 2^64.
pub fn round_u64(n: u64) -> (r: u128)
    ensures
        r as int == round_nat(n as nat),
        r as int <= 2 * (n as int),
{
    if n < 9007199254740992u64 {
        return n as u128;
    }
    let mut m: u64 = n;
    let mut p: u64 = 1;
    let ghost mut e: nat = 0;
    while m >= 9007199254740992u64
        invariant
            p as int == two_pow(e),
            p >= 1,
            m as int == (n as int) / (p as int),
            shift_for(n as nat) == e + shift_for(m as nat),
            m as int * p as int <= n as int,
            m >= 1,
            n < 18446744073709551616,
        decreases m,
    {
        proof {
            vstd::arithmetic::div_mod::lemma_div_denominator(n as int, p as int, 2);
            assert(m as int * p as int <= n as int);
            assert(m >= 9007199254740992);
            assert(p as int * 9007199254740992 <= n as int) by (nonlinear_arith)
                requires
                    m as int * p as int <= n as int,
                    m >= 9007199254740992,
                    p >= 1,
            ;
            assert((m / 2) as int * (p * 2) as int <= n as int) by (nonlinear_arith)
                requires
                    m as int * p as int <= n as int,
            ;
        }
        m = m / 2;
        p = p * 2;
        proof {
            e = e + 1;
        }
    }
    assert(shift_for(m as nat) == 0);
    let q: u64 = n / p;
    let rem: u64 = n % p;
    assert(q < 9007199254740992);
    let up = rem as u128 * 2 > p as u128 || (rem as u128 * 2 == p as u128 && q % 2 == 1);
    assert(q as int * p as int <= n as int) by {
        vstd::arithmetic::div_mod::lemma_fundamental_div_mod(n as int, p as int);
        vstd::arithmetic::mul::lemma_mul_is_commutative(p as int, q as int);
    }
    assert(p as int <= n as int) by (nonlinear_arith)
        requires
            m as int * p as int <= n as int,
            p >= 1,
            m >= 1,
    ;
    assert((q as int + 1) * p as int <= 2 * n as int) by (nonlinear_arith)
        requires
            q as int * p as int <= n as int,
            p as int <= n as int,
    ;
    if up {
        (q as u128 + 1) * (p as u128)
    } else {
        (q as u128) * (p as u128)
    }
}

/// The double nearest to a signed integer.
pub fn round_i64(x: i64) -> (r: i128)
    ensures
        r as int == round_int(x as int),
{
    if x < 0 {
        let m: u64 = (-(x as i128)) as u64;
        let r = round_u64(m);
        -(r as i128)
    } else {
        round_u64(x as u64) as i128
    }
}


// ------------------------------------------------------------ monotonicity

proof fn lemma_two_pow_step(e: nat)
    ensures
        two_pow(e + 1) == 2 * two_pow(e),
{
}

proof fn lemma_two_pow_mono(a: nat, b: nat)
    requires
        a <= b,
    ensures
        two_pow(a) <= two_pow(b),
    decreases b,
{
    lemma_two_pow_pos(b);
    if a < b {
        lemma_two_pow_mono(a, (b - 1) as nat);
    }
}

/// What the shift achieves: the halved number is below 2^53 and, when any
/// halving took place, at least 2^52.
proof fn lemma_shift_bounds(n: nat)
    ensures
        two_pow(shift_for(n)) >= 1,
        n / two_pow(shift_for(n)) < exact_limit(),
        shift_for(n) > 0 ==> n / two_pow(shift_for(n)) >= exact_limit() / 2,
        shift_for(n) == 0 <==> n < exact_limit(),
    decreases n,
{
    lemma_two_pow_pos(shift_for(n));
    if n >= exact_limit() {
        let h = n / 2;
        lemma_shift_bounds(h);
        let k = shift_for(h);
        lemma_two_pow_pos(k);
        lemma_two_pow_step(k);
        assert(shift_for(n) == k + 1);
        vstd::arithmetic::div_mod::lemma_div_denominator(n as int, 2, two_pow(k) as int);
        if k == 0 {
            assert(h / two_pow(0) == h);
        }
    }
}

proof fn lemma_shift_mono(a: nat, b: nat)
    requires
        a <= b,
    ensures
        shift_for(a) <= shift_for(b),
    decreases b,
{
    if a >= exact_limit() {
        vstd::arithmetic::div_mod::lemma_div_is_ordered(a as int, b as int, 2);
        lemma_shift_mono(a / 2, b / 2);
    }
}

/// The rounded value lies between the multiples of the step that enclose the number.
proof fn lemma_round_between(n: nat)
    ensures
        n >= exact_limit() ==> ({
            let p = two_pow(shift_for(n));
            let q = n / p;
            &&& q * p <= round_nat(n) <= (q + 1) * p
            &&& q * p <= n
            &&& exact_limit() / 2 <= q < exact_limit()
        }),
{
    if n >= exact_limit() {
        lemma_shift_bounds(n);
        let p = two_pow(shift_for(n));
        let q = n / p;
        vstd::arithmetic::div_mod::lemma_fundamental_div_mod(n as int, p as int);
        vstd::arithmetic::div_mod::lemma_mod_pos_bound(n as int, p as int);
        vstd::arithmetic::mul::lemma_mul_is_commutative(p as int, q as int);
        assert(q * p <= (q + 1) * p) by (nonlinear_arith)
            requires
                p >= 1,
        ;
    }
}

/// Rounding to the nearest double never reverses the order of two naturals.
pub proof fn lemma_round_nat_monotone(a: nat, b: nat)
    requires
        a <= b,
    ensures
        round_nat(a) <= round_nat(b),
{
    if b < exact_limit() {
        return;
    }
    lemma_shift_bounds(a);
    lemma_shift_bounds(b);
    lemma_shift_mono(a, b);
    lemma_round_between(a);
    lemma_round_between(b);
    let ka = shift_for(a);
    let kb = shift_for(b);
    let pa = two_pow(ka);
    let pb = two_pow(kb);
    let qb = b / pb;
    if ka == kb {
        if a < exact_limit() {
            assert(kb == 0);
            return;
        }
        let qa = a / pa;
        vstd::arithmetic::div_mod::lemma_div_is_ordered(a as int, b as int, pa as int);
        if qa < qb {
            assert((qa + 1) * pa <= qb * pa) by (nonlinear_arith)
                requires
                    qa + 1 <= qb,
                    pa >= 1,
            ;
        } else {
            assert(qa == qb);
            vstd::arithmetic::div_mod::lemma_fundamental_div_mod(a as int, pa as int);
            vstd::arithmetic::div_mod::lemma_fundamental_div_mod(b as int, pa as int);
            let ra = a % pa;
            let rb = b % pa;
            assert(ra <= rb);
            let upa = ra * 2 > pa || (ra * 2 == pa && qa % 2 == 1);
            let upb = rb * 2 > pa || (rb * 2 == pa && qa % 2 == 1);
            assert(upa ==> upb);
            assert(round_nat(a) == if upa { ((qa + 1) * pa) as nat } else { (qa * pa) as nat });
            assert(round_nat(b) == if upb { ((qa + 1) * pa) as nat } else { (qa * pa) as nat });
        }
        assert(round_nat(a) <= round_nat(b));
    } else {
        assert(ka < kb);
        lemma_two_pow_step(ka);
        lemma_two_pow_mono(ka + 1, kb);
        assert(qb * pb >= (exact_limit() / 2) * pb) by (nonlinear_arith)
            requires
                qb >= exact_limit() / 2,
                pb >= 1,
        ;
        assert((exact_limit() / 2) * pb >= exact_limit() * pa) by (nonlinear_arith)
            requires
                pb >= 2 * pa,
                exact_limit() == 9007199254740992,
        ;
        if a >= exact_limit() {
            let qa = a / pa;
            assert((qa + 1) * pa <= exact_limit() * pa) by (nonlinear_arith)
                requires
                    qa + 1 <= exact_limit(),
                    pa >= 1,
            ;
        } else {
            assert(pa >= 1);
            assert(exact_limit() * pa >= exact_limit()) by (nonlinear_arith)
                requires
                    pa >= 1,
            ;
        }
    }
}

/// Rounding to the nearest double never reverses the order of two integers.
pub proof fn lemma_round_int_monotone(a: int, b: int)
    requires
        a <= b,
    ensures
        round_int(a) <= round_int(b),
{
    if a >= 0 {
        lemma_round_nat_monotone(a as nat, b as nat);
    } else if b < 0 {
        lemma_round_nat_monotone((-b) as nat, (-a) as nat);
    }
}

} // verus!
