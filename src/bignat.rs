use num_bigint::BigUint;
use num_bigint::{ParseBigIntError, RandBigInt};
use vstd::arithmetic::power::pow;
use vstd::arithmetic::power2::pow2;
use vstd::prelude::*;

verus! {

/// The number that a big-endian byte string denotes.
pub open spec fn be_value(s: Seq<u8>) -> nat
    decreases s.len(),
{
    if s.len() == 0 {
        0
    } else {
        be_value(s.drop_last()) * 256 + s.last() as nat
    }
}

/// The minimal big-endian form: a single byte for zero, no leading zero byte otherwise.
pub open spec fn is_minimal_be(s: Seq<u8>) -> bool {
    &&& s.len() >= 1
    &&& (s.len() == 1 || s[0] != 0)
}

/// `b` raised to `e`, reduced modulo `m`.
pub open spec fn mod_pow_spec(b: nat, e: nat, m: nat) -> nat
    recommends
        m > 0,
{
    (pow(b as int, e) % (m as int)) as nat
}

/// An ASCII decimal digit.
pub open spec fn is_ascii_digit(ch: char) -> bool {
    '0' <= ch && ch <= '9'
}

/// The number that a string of ASCII decimal digits denotes.
pub open spec fn decimal_value(s: Seq<char>) -> nat
    decreases s.len(),
{
    if s.len() == 0 {
        0
    } else {
        decimal_value(s.drop_last()) * 10 + ((s.last() as u32) - ('0' as u32)) as nat
    }
}

#[verifier::external_type_specification]
#[verifier::external_body]
pub struct ExParseBigIntError(ParseBigIntError);

/// An arbitrary-precision natural number, held as its minimal big-endian bytes.
///
/// The arithmetic goes through `num_bigint::BigUint`; every result is stored
/// as `BigUint::to_bytes_be` gives it, which is minimal (`[0]` for zero, no
/// leading zero byte otherwise).
#[derive(Debug, PartialEq, Eq)]
pub struct BigNat {
    bytes: Vec<u8>,
}

impl View for BigNat {
    type V = nat;

    closed spec fn view(&self) -> nat {
        be_value(self.bytes@)
    }
}

impl BigNat {
    #[verifier::type_invariant]
    closed spec fn inv(&self) -> bool {
        is_minimal_be(self.bytes@)
    }

    /// The bytes that encode this number.
    pub closed spec fn encoding(&self) -> Seq<u8> {
        self.bytes@
    }

    /// A second value equal to this one.
    pub fn copied(&self) -> (r: BigNat)
        ensures
            r@ == self@,
    {
        proof {
            use_type_invariant(self);
        }
        BigNat { bytes: self.bytes.clone() }
    }

    /// The minimal big-endian bytes of this number.
    pub fn to_bytes_be(&self) -> (r: Vec<u8>)
        ensures
            r@ == self.encoding(),
            is_minimal_be(r@),
            be_value(r@) == self@,
    {
        proof {
            use_type_invariant(self);
        }
        self.bytes.clone()
    }

    /// The number a machine word holds.
    pub fn from_u64(v: u64) -> (r: BigNat)
        ensures
            r@ == v as nat,
    {
        from_word(v)
    }

    /// The number that big-endian bytes denote; leading zero bytes are allowed.
    pub fn from_bytes_be(b: &[u8]) -> (r: BigNat)
        ensures
            r@ == be_value(b@),
    {
        decode_be(b)
    }
}

/// Relies on `BigUint`'s `FromStr`, which is `from_str_radix(s, 10)`: a
/// non-empty string of ASCII digits parses to its decimal value; an empty
/// string, or one holding a character other than a digit, `_` or `+`, is
/// refused.
#[verifier::external_body]
pub(crate) fn parse_decimal(s: &str) -> (r: Result<BigNat, ParseBigIntError>)
    ensures
        s@.len() > 0 && (forall|i: int| 0 <= i < s@.len() ==> is_ascii_digit(#[trigger] s@[i]))
            ==> r is Ok && r->Ok_0@ == decimal_value(s@),
        s@.len() == 0 ==> r is Err,
        (exists|i: int|
            0 <= i < s@.len() && !is_ascii_digit(#[trigger] s@[i]) && s@[i] != '_' && s@[i]
                != '+') ==> r is Err,
{
    s.parse::<BigUint>().map(|n| BigNat { bytes: n.to_bytes_be() })
}

/// Relies on `BigUint::from(u64)`: the same number.
#[verifier::external_body]
fn from_word(v: u64) -> (r: BigNat)
    ensures
        r@ == v as nat,
{
    BigNat { bytes: BigUint::from(v).to_bytes_be() }
}

/// Relies on `BigUint::from_bytes_be`: the number that big-endian bytes denote.
#[verifier::external_body]
fn decode_be(b: &[u8]) -> (r: BigNat)
    ensures
        r@ == be_value(b@),
{
    BigNat { bytes: BigUint::from_bytes_be(b).to_bytes_be() }
}

/// Relies on `BigUint::modpow`: `(b ^ e) % m`, which panics on a zero modulus.
#[verifier::external_body]
pub(crate) fn mod_pow(b: &BigNat, e: &BigNat, m: &BigNat) -> (r: BigNat)
    requires
        m@ > 0,
    ensures
        r@ == mod_pow_spec(b@, e@, m@),
{
    let b = BigUint::from_bytes_be(&b.bytes);
    let e = BigUint::from_bytes_be(&e.bytes);
    let m = BigUint::from_bytes_be(&m.bytes);
    BigNat { bytes: b.modpow(&e, &m).to_bytes_be() }
}

/// Relies on `Mul` for `&BigUint`: the product.
#[verifier::external_body]
pub(crate) fn product(a: &BigNat, b: &BigNat) -> (r: BigNat)
    ensures
        r@ == a@ * b@,
{
    let a = BigUint::from_bytes_be(&a.bytes);
    let b = BigUint::from_bytes_be(&b.bytes);
    BigNat { bytes: (&a * &b).to_bytes_be() }
}

/// Relies on `Sub` for `&BigUint`: the difference, which panics below zero.
#[verifier::external_body]
pub(crate) fn difference(a: &BigNat, b: &BigNat) -> (r: BigNat)
    requires
        a@ >= b@,
    ensures
        r@ == a@ - b@,
{
    let a = BigUint::from_bytes_be(&a.bytes);
    let b = BigUint::from_bytes_be(&b.bytes);
    BigNat { bytes: (&a - &b).to_bytes_be() }
}

/// Relies on `PartialOrd` for `BigUint`: numeric order.
#[verifier::external_body]
pub(crate) fn ge(a: &BigNat, b: &BigNat) -> (r: bool)
    ensures
        r == (a@ >= b@),
{
    BigUint::from_bytes_be(&a.bytes) >= BigUint::from_bytes_be(&b.bytes)
}

/// Relies on `PartialEq` for `BigUint`: numeric equality.
#[verifier::external_body]
pub(crate) fn equals(a: &BigNat, b: &BigNat) -> (r: bool)
    ensures
        r == (a@ == b@),
{
    BigUint::from_bytes_be(&a.bytes) == BigUint::from_bytes_be(&b.bytes)
}

/// Relies on `RandBigInt::gen_biguint` over `rand::thread_rng`: a number of at
/// most `bits` bits.
#[verifier::external_body]
pub(crate) fn sample_below_pow2(bits: u64) -> (r: BigNat)
    ensures
        r@ < pow2(bits as nat),
{
    BigNat { bytes: rand::thread_rng().gen_biguint(bits).to_bytes_be() }
}

} // verus!
