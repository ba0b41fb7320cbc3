use crate::bignat::{equals, is_ascii_digit, decimal_value, mod_pow, mod_pow_spec, parse_decimal, BigNat};
use crate::error::AuthError;
use crate::service::PublicParameters;
use crate::zkp::{random_number, solve, solve_spec, RANDOM_BITS};
use vstd::arithmetic::power2::pow2;
use vstd::prelude::*;

verus! {

/// The prover's secret, read from decimal digits; anything that does not
/// parse is refused.
pub fn parse_secret(s: &str) -> (r: Result<BigNat, AuthError>)
    ensures
        s@.len() > 0 && (forall|i: int| 0 <= i < s@.len() ==> is_ascii_digit(#[trigger] s@[i]))
            ==> (r matches Ok(x) && x@ == decimal_value(s@)),
        s@.len() == 0 ==> r == Err::<BigNat, AuthError>(AuthError::InvalidParameters),
        (exists|i: int|
            0 <= i < s@.len() && !is_ascii_digit(#[trigger] s@[i]) && s@[i] != '_' && s@[i]
                != '+') ==> r == Err::<BigNat, AuthError>(AuthError::InvalidParameters),
        r is Err ==> r == Err::<BigNat, AuthError>(AuthError::InvalidParameters),
{
    match parse_decimal(s) {
        Ok(x) => Ok(x),
        Err(_) => Err(AuthError::InvalidParameters),
    }
}

/// The pair `(base1^e mod p, base2^e mod p)` for the two generators; a zero
/// modulus is refused.
fn power_pair(params: &PublicParameters, e: &BigNat) -> (r: Result<(BigNat, BigNat), AuthError>)
    ensures
        params.p@ == 0 <==> r == Err::<(BigNat, BigNat), AuthError>(AuthError::InvalidParameters),
        params.p@ > 0 ==> r is Ok,
        r matches Ok((a, b)) ==> a@ == mod_pow_spec(params.g@, e@, params.p@) && b@
            == mod_pow_spec(params.h@, e@, params.p@),
{
    let zero = BigNat::from_u64(0);
    if equals(&params.p, &zero) {
        return Err(AuthError::InvalidParameters);
    }
    let a = mod_pow(&params.g, e, &params.p);
    let b = mod_pow(&params.h, e, &params.p);
    Ok((a, b))
}

/// The registration commitments `y1 = g^x mod p` and `y2 = h^x mod p`; a zero
/// modulus is refused.
pub fn register_commitments(params: &PublicParameters, x: &BigNat) -> (r: Result<
    (BigNat, BigNat),
    AuthError,
>)
    ensures
        params.p@ == 0 <==> r == Err::<(BigNat, BigNat), AuthError>(AuthError::InvalidParameters),
        params.p@ > 0 ==> r is Ok,
        r matches Ok((y1, y2)) ==> y1@ == mod_pow_spec(params.g@, x@, params.p@) && y2@
            == mod_pow_spec(params.h@, x@, params.p@),
{
    power_pair(params, x)
}

/// The session commitments `r1 = g^k mod p` and `r2 = h^k mod p` for the
/// witness `k`; a zero modulus is refused.
pub fn commit_with(params: &PublicParameters, k: &BigNat) -> (r: Result<
    (BigNat, BigNat),
    AuthError,
>)
    ensures
        params.p@ == 0 <==> r == Err::<(BigNat, BigNat), AuthError>(AuthError::InvalidParameters),
        params.p@ > 0 ==> r is Ok,
        r matches Ok((r1, r2)) ==> r1@ == mod_pow_spec(params.g@, k@, params.p@) && r2@
            == mod_pow_spec(params.h@, k@, params.p@),
{
    power_pair(params, k)
}

/// Draws a fresh 256-bit witness `k` and returns it with its commitments
/// `(g^k mod p, h^k mod p)`; a zero modulus is refused.
pub fn begin_challenge(params: &PublicParameters) -> (r: Result<(BigNat, BigNat, BigNat), AuthError>)
    ensures
        params.p@ == 0 <==> r == Err::<(BigNat, BigNat, BigNat), AuthError>(
            AuthError::InvalidParameters,
        ),
        params.p@ > 0 ==> r is Ok,
        r matches Ok((k, r1, r2)) ==> {
            &&& k@ < pow2(RANDOM_BITS as nat)
            &&& r1@ == mod_pow_spec(params.g@, k@, params.p@)
            &&& r2@ == mod_pow_spec(params.h@, k@, params.p@)
        },
{
    let k = random_number();
    match commit_with(params, &k) {
        Ok((r1, r2)) => Ok((k, r1, r2)),
        Err(e) => Err(e),
    }
}

/// The response `s = solve(x, k, c, q)` to challenge `c`; a zero subgroup
/// order is refused.
pub fn respond(params: &PublicParameters, x: &BigNat, k: &BigNat, c: &BigNat) -> (r: Result<
    BigNat,
    AuthError,
>)
    ensures
        params.q@ == 0 <==> r == Err::<BigNat, AuthError>(AuthError::InvalidParameters),
        params.q@ > 0 ==> r is Ok,
        r matches Ok(s) ==> s@ == solve_spec(x@, k@, c@, params.q@),
{
    let zero = BigNat::from_u64(0);
    if equals(&params.q, &zero) {
        return Err(AuthError::InvalidParameters);
    }
    Ok(solve(x, k, c, &params.q))
}

} // verus!
