use crate::bignat::{
    difference, equals, ge, mod_pow, mod_pow_spec, product, sample_below_pow2, BigNat,
};
use crate::error::AuthError;
use rand::Rng;
use vstd::arithmetic::div_mod::{
    lemma_add_mod_noop, lemma_fundamental_div_mod, lemma_mod_multiples_vanish, lemma_mod_twice, lemma_mul_mod_noop,
    lemma_small_mod,
};
use vstd::arithmetic::power::{
    lemma1_pow, lemma_pow_adds, lemma_pow_mod_noop, lemma_pow_multiplies, pow,
};
use vstd::arithmetic::power2::pow2;
use vstd::prelude::*;

verus! {

/// Bit length of the witness `k` and of the challenge `c`.
pub const RANDOM_BITS: u64 = 256;

/// `(k - c·x) mod q` computed over naturals: directly when `k ≥ c·x`, and
/// as `q - ((c·x - k) mod q)` otherwise (which gives `q`, not 0, when `q`
/// divides `c·x - k`).
pub open spec fn solve_spec(x: nat, k: nat, c: nat, q: nat) -> nat
    recommends
        q > 0,
{
    if k >= c * x {
        ((k - c * x) as nat) % q
    } else {
        (q - ((c * x - k) as nat) % q) as nat
    }
}

/// `r mod p == (base^s mod p · y^c mod p) mod p`: one of the two verification
/// equations, both sides reduced modulo `p`.
pub open spec fn equation_holds(base: nat, y: nat, r: nat, c: nat, s: nat, p: nat) -> bool
    recommends
        p > 0,
{
    r % p == (mod_pow_spec(base, s, p) * mod_pow_spec(y, c, p)) % p
}

/// Both verification equations: `r1 = g^s·y1^c` and `r2 = h^s·y2^c` modulo `p`.
pub open spec fn verify_spec(
    g: nat,
    h: nat,
    p: nat,
    y1: nat,
    y2: nat,
    r1: nat,
    r2: nat,
    c: nat,
    s: nat,
) -> bool
    recommends
        p > 0,
{
    equation_holds(g, y1, r1, c, s, p) && equation_holds(h, y2, r2, c, s, p)
}

/// An ASCII letter or digit.
pub open spec fn is_alphanumeric(ch: char) -> bool {
    ('a' <= ch && ch <= 'z') || ('A' <= ch && ch <= 'Z') || ('0' <= ch && ch <= '9')
}

/// Modular exponentiation `base^exponent mod modulus`; a zero modulus is
/// refused.
pub fn modexp(base: &BigNat, exponent: &BigNat, modulus: &BigNat) -> (r: Result<BigNat, AuthError>)
    ensures
        modulus@ == 0 <==> r == Err::<BigNat, AuthError>(AuthError::InvalidParameters),
        modulus@ > 0 ==> r is Ok,
        r is Ok ==> r->Ok_0@ == mod_pow_spec(base@, exponent@, modulus@),
{
    let zero = BigNat::from_u64(0);
    if equals(modulus, &zero) {
        Err(AuthError::InvalidParameters)
    } else {
        Ok(mod_pow(base, exponent, modulus))
    }
}

/// The prover's response `s = (k - c·x) mod q`, by the two-branch rule of
/// [`solve_spec`].
pub fn solve(x: &BigNat, k: &BigNat, c: &BigNat, q: &BigNat) -> (s: BigNat)
    requires
        q@ > 0,
    ensures
        s@ == solve_spec(x@, k@, c@, q@),
{
    let one = BigNat::from_u64(1);
    let cx = product(c, x);
    if ge(k, &cx) {
        let d = difference(k, &cx);
        let r = mod_pow(&d, &one, q);
        proof {
            vstd::arithmetic::power::lemma_pow1(d@ as int);
        }
        r
    } else {
        let d = difference(&cx, k);
        let m = mod_pow(&d, &one, q);
        proof {
            vstd::arithmetic::power::lemma_pow1(d@ as int);
            vstd::arithmetic::div_mod::lemma_mod_bound(d@ as int, q@ as int);
        }
        difference(q, &m)
    }
}

/// The inputs of one verification.
pub struct VerifyParams<'a> {
    pub g: &'a BigNat,
    pub h: &'a BigNat,
    pub p: &'a BigNat,
    pub y1: &'a BigNat,
    pub y2: &'a BigNat,
    pub r1: &'a BigNat,
    pub r2: &'a BigNat,
    pub c: &'a BigNat,
    pub s: &'a BigNat,
}

impl<'a> VerifyParams<'a> {
    /// Whether both verification equations hold for these inputs.
    pub open spec fn holds(&self) -> bool {
        verify_spec(
            self.g@,
            self.h@,
            self.p@,
            self.y1@,
            self.y2@,
            self.r1@,
            self.r2@,
            self.c@,
            self.s@,
        )
    }
}

/// Checks `r1 ≡ g^s·y1^c` and `r2 ≡ h^s·y2^c` modulo `p`, comparing residues.
pub fn verify(params: VerifyParams) -> (r: bool)
    requires
        params.p@ > 0,
    ensures
        r == params.holds(),
{
    let one = BigNat::from_u64(1);
    let a1 = mod_pow(params.g, params.s, params.p);
    let b1 = mod_pow(params.y1, params.c, params.p);
    let e1 = mod_pow(&product(&a1, &b1), &one, params.p);
    let c1 = mod_pow(params.r1, &one, params.p);
    let eq1 = equals(&c1, &e1);
    let a2 = mod_pow(params.h, params.s, params.p);
    let b2 = mod_pow(params.y2, params.c, params.p);
    let e2 = mod_pow(&product(&a2, &b2), &one, params.p);
    let c2 = mod_pow(params.r2, &one, params.p);
    let eq2 = equals(&c2, &e2);
    proof {
        vstd::arithmetic::power::lemma_pow1(params.r1@ as int);
        vstd::arithmetic::power::lemma_pow1(params.r2@ as int);
        vstd::arithmetic::power::lemma_pow1((a1@ * b1@) as int);
        vstd::arithmetic::power::lemma_pow1((a2@ * b2@) as int);
    }
    eq1 && eq2
}

/// A fresh uniformly random number below `2^256`.
pub fn random_number() -> (r: BigNat)
    ensures
        r@ < pow2(RANDOM_BITS as nat),
{
    sample_below_pow2(RANDOM_BITS)
}

/// A fresh random string of `number` ASCII letters and digits.
pub fn random_string(number: usize) -> (r: String)
    ensures
        r@.len() == number,
        forall|i: int| 0 <= i < number ==> is_alphanumeric(#[trigger] r@[i]),
{
    sample_alphanumeric(number)
}

/// The minimal big-endian bytes of `number`.
pub fn serialize(number: &BigNat) -> (r: Vec<u8>)
    ensures
        crate::bignat::is_minimal_be(r@),
        crate::bignat::be_value(r@) == number@,
{
    number.to_bytes_be()
}

/// The number that big-endian `bytes` denote.
pub fn deserialize(bytes: &[u8]) -> (r: BigNat)
    ensures
        r@ == crate::bignat::be_value(bytes@),
{
    BigNat::from_bytes_be(bytes)
}

/// Relies on `rand::distributions::Alphanumeric` over `rand::thread_rng`:
/// `n` characters drawn from `A-Z`, `a-z` and `0-9`.
#[verifier::external_body]
fn sample_alphanumeric(n: usize) -> (r: String)
    ensures
        r@.len() == n,
        forall|i: int| 0 <= i < n ==> is_alphanumeric(#[trigger] r@[i]),
{
    rand::thread_rng().sample_iter(rand::distributions::Alphanumeric).take(n).map(char::from).collect()
}

/// The response is congruent to `k - c·x` modulo `q`, in both branches.
proof fn lemma_solve_congruent(x: nat, k: nat, c: nat, q: nat)
    requires
        q > 0,
    ensures
        (solve_spec(x, k, c, q) + c * x) as int % (q as int) == k as int % (q as int),
{
    let cx = c * x;
    let s = solve_spec(x, k, c, q);
    if k >= cx {
        let d = (k - cx) as nat;
        let t = d as int / q as int;
        lemma_fundamental_div_mod(d as int, q as int);
        assert((q as int) * (-t) == -((q as int) * t)) by (nonlinear_arith);
        assert(s + cx == (q as int) * (-t) + k);
        lemma_mod_multiples_vanish(-(d as int / q as int), k as int, q as int);
    } else {
        let d = (cx - k) as nat;
        let t = d as int / q as int;
        lemma_fundamental_div_mod(d as int, q as int);
        assert((q as int) * (1 + t) == q + (q as int) * t) by (nonlinear_arith);
        assert(s + cx == (q as int) * (1 + t) + k);
        lemma_mod_multiples_vanish(1 + d as int / q as int, k as int, q as int);
    }
}

/// Where `b^q ≡ 1 (mod p)`, a power of `b` modulo `p` depends on its exponent
/// modulo `q` only.
proof fn lemma_pow_exponent_mod(b: nat, e: nat, q: nat, p: nat)
    requires
        q > 0,
        p > 1,
        pow(b as int, q) % (p as int) == 1,
    ensures
        pow(b as int, e) % (p as int) == pow(b as int, e % q) % (p as int),
{
    let n = e / q;
    let r = e % q;
    lemma_fundamental_div_mod(e as int, q as int);
    lemma_pow_multiplies(b as int, q, n);
    lemma_pow_adds(b as int, q * n, r);
    assert(e == q * n + r);
    let big = pow(b as int, q * n);
    let small = pow(b as int, r);
    assert(pow(b as int, e) == big * small);
    lemma_pow_mod_noop(pow(b as int, q), n, p as int);
    lemma1_pow(n);
    let base_q = pow(b as int, q);
    assert(base_q % (p as int) == 1);
    assert(pow(base_q % (p as int), n) == 1);
    assert(pow(base_q, n) % (p as int) == 1int % (p as int));
    assert(big == pow(base_q, n));
    lemma_small_mod(1, p);
    assert(big % (p as int) == 1);
    lemma_mul_mod_noop(big, small, p as int);
    lemma_mod_twice(small, p as int);
    assert((big % (p as int)) * (small % (p as int)) == small % (p as int));
}

/// One verification equation holds for an honest prover.
proof fn lemma_equation_complete(b: nat, p: nat, q: nat, x: nat, k: nat, c: nat)
    requires
        p > 1,
        q > 0,
        pow(b as int, q) % (p as int) == 1,
    ensures
        equation_holds(b, mod_pow_spec(b, x, p), mod_pow_spec(b, k, p), c, solve_spec(x, k, c, q), p),
{
    let s = solve_spec(x, k, c, q);
    let bi = b as int;
    let pi = p as int;
    lemma_pow_mod_noop(pow(bi, x), c, pi);
    lemma_pow_multiplies(bi, x, c);
    lemma_mul_mod_noop(pow(bi, s), pow(bi, x * c), pi);
    lemma_pow_adds(bi, s, x * c);
    lemma_solve_congruent(x, k, c, q);
    assert(c * x == x * c) by (nonlinear_arith);
    lemma_pow_exponent_mod(b, s + x * c, q, p);
    lemma_pow_exponent_mod(b, k, q, p);
    lemma_mod_twice(pow(bi, k), pi);
}

/// Completeness: where `g` and `h` have order dividing `q` modulo `p`, a prover
/// who registered `y1 = g^x`, `y2 = h^x`, committed `r1 = g^k`, `r2 = h^k` (all
/// modulo `p`) and answers a challenge `c` with `s = solve(x, k, c, q)` is
/// accepted.
pub proof fn lemma_completeness(g: nat, h: nat, p: nat, q: nat, x: nat, k: nat, c: nat)
    requires
        p > 1,
        q > 0,
        pow(g as int, q) % (p as int) == 1,
        pow(h as int, q) % (p as int) == 1,
    ensures
        verify_spec(
            g,
            h,
            p,
            mod_pow_spec(g, x, p),
            mod_pow_spec(h, x, p),
            mod_pow_spec(g, k, p),
            mod_pow_spec(h, k, p),
            c,
            solve_spec(x, k, c, q),
        ),
{
    lemma_equation_complete(g, p, q, x, k, c);
    lemma_equation_complete(h, p, q, x, k, c);
}

/// Powers of 4 modulo 23 below exponent 11 are pairwise distinct, and
/// `4^11 ≡ 1 (mod 23)`.
proof fn lemma_powers_of_four()
    ensures
        pow(4, 11) % 23 == 1,
        forall|i: nat, j: nat|
            i < 11 && j < 11 && i != j ==> #[trigger] (pow(4, i) % 23) != #[trigger] (pow(4, j)
                % 23),
{
    reveal_with_fuel(pow, 12);
    assert(pow(4, 11) == 4194304);
    assert forall|i: nat, j: nat| i < 11 && j < 11 && i != j implies #[trigger] (pow(4, i) % 23)
        != #[trigger] (pow(4, j) % 23) by {
        assert(pow(4, 0) == 1);
        assert(pow(4, 1) == 4);
        assert(pow(4, 2) == 16);
        assert(pow(4, 3) == 64);
        assert(pow(4, 4) == 256);
        assert(pow(4, 5) == 1024);
        assert(pow(4, 6) == 4096);
        assert(pow(4, 7) == 16384);
        assert(pow(4, 8) == 65536);
        assert(pow(4, 9) == 262144);
        assert(pow(4, 10) == 1048576);
        assert(i == 0 || i == 1 || i == 2 || i == 3 || i == 4 || i == 5 || i == 6 || i == 7 || i
            == 8 || i == 9 || i == 10);
        assert(j == 0 || j == 1 || j == 2 || j == 3 || j == 4 || j == 5 || j == 6 || j == 7 || j
            == 8 || j == 9 || j == 10);
    }
}

/// Soundness on the group `g = 4`, `h = 9`, `p = 23`, `q = 11`: for an honest
/// registration and commitment, a response that differs from
/// `solve(x, k, c, q)` modulo `q` (such as `(s + 1) mod q`) is refused.
pub proof fn lemma_tampered_response_rejected(x: nat, k: nat, c: nat, s_tampered: nat)
    requires
        s_tampered % 11 != solve_spec(x, k, c, 11) % 11,
    ensures
        !verify_spec(
            4,
            9,
            23,
            mod_pow_spec(4, x, 23),
            mod_pow_spec(9, x, 23),
            mod_pow_spec(4, k, 23),
            mod_pow_spec(9, k, 23),
            c,
            s_tampered,
        ),
{
    let s = solve_spec(x, k, c, 11);
    lemma_powers_of_four();
    lemma_pow_mod_noop(pow(4, x), c, 23);
    lemma_pow_multiplies(4, x, c);
    lemma_mul_mod_noop(pow(4, s_tampered), pow(4, x * c), 23);
    lemma_pow_adds(4, s_tampered, x * c);
    lemma_solve_congruent(x, k, c, 11);
    assert(c * x == x * c) by (nonlinear_arith);
    lemma_pow_exponent_mod(4, s_tampered + x * c, 11, 23);
    lemma_pow_exponent_mod(4, k, 11, 23);
    lemma_mod_twice(pow(4, k), 23);
    let i = ((s_tampered + x * c) % 11) as nat;
    let j = k % 11;
    lemma_add_mod_noop(s_tampered as int, (x * c) as int, 11);
    lemma_add_mod_noop(s as int, (x * c) as int, 11);
    assert(i != j);
    assert(pow(4, i) % 23 != pow(4, j) % 23);
}

/// Determinism: verification is a function of the values of its inputs, so
/// inputs of equal values get the same answer.
pub proof fn lemma_verify_deterministic(a: VerifyParams, b: VerifyParams)
    requires
        a.g@ == b.g@,
        a.h@ == b.h@,
        a.p@ == b.p@,
        a.y1@ == b.y1@,
        a.y2@ == b.y2@,
        a.r1@ == b.r1@,
        a.r2@ == b.r2@,
        a.c@ == b.c@,
        a.s@ == b.s@,
    ensures
        a.holds() == b.holds(),
{
}

} // verus!
