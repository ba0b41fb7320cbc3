use num_bigint::BigUint;
use zkp_auth::bignat::BigNat;
use zkp_auth::error::AuthError;
use zkp_auth::prover::{begin_challenge, commit_with, parse_secret, register_commitments, respond};
use zkp_auth::service::{AuthService, PublicParameters};
use zkp_auth::zkp::{
    deserialize, modexp, random_number, random_string, serialize, solve, verify, VerifyParams,
};

fn n(v: u64) -> BigNat {
    BigNat::from_u64(v)
}

fn to_big(x: &BigNat) -> BigUint {
    BigUint::from_bytes_be(&x.to_bytes_be())
}

fn from_big(x: &BigUint) -> BigNat {
    BigNat::from_bytes_be(&x.to_bytes_be())
}

/// `(s + 1) mod q`, computed outside the library.
fn tampered(s: &BigNat, q: &BigNat) -> BigNat {
    from_big(&((to_big(s) + 1u32) % to_big(q)))
}

fn toy_params() -> PublicParameters {
    PublicParameters { g: n(4), h: n(9), p: n(23), q: n(11) }
}

#[test]
fn test_solve_success_01() {
    assert_eq!(solve(&n(7), &n(24), &n(2), &n(9)), n(1));
}

#[test]
fn test_solve_success_02() {
    assert_eq!(solve(&n(11), &n(5), &n(4), &n(10)), n(1));
}

#[test]
fn test_solve_failure() {
    assert_ne!(solve(&n(11), &n(5), &n(4), &n(10)), n(10));
}

#[test]
fn test_auth_steps_success() {
    let g = &n(4);
    let h = &n(9);
    let q = &n(11);
    let p = &n(23);
    let x = &n(6);

    let y1 = modexp(g, x, p).unwrap();
    let y2 = modexp(h, x, p).unwrap();

    let k = random_number();
    let r1 = modexp(g, &k, p).unwrap();
    let r2 = modexp(h, &k, p).unwrap();

    let c = random_number();
    let s = solve(x, &k, &c, q);

    let params = VerifyParams { g, h, p, y1: &y1, y2: &y2, r1: &r1, r2: &r2, c: &c, s: &s };
    assert!(verify(params));

    let wrong = tampered(&s, q);
    let incorrect_params =
        VerifyParams { g, h, p, y1: &y1, y2: &y2, r1: &r1, r2: &r2, c: &c, s: &wrong };
    assert!(!verify(incorrect_params));
}

#[test]
fn test_auth_steps_failure() {
    let g = &n(4);
    let h = &n(9);
    let q = &n(11);
    let p = &n(23);
    let x = &n(6);

    let y1 = modexp(g, x, p).unwrap();
    let y2 = modexp(h, x, p).unwrap();

    let k = random_number();
    let r1 = modexp(g, &k, p).unwrap();
    let r2 = modexp(h, &k, p).unwrap();

    let c = random_number();
    let s = solve(x, &k, &c, q);

    let wrong = tampered(&s, q);
    let incorrect_params =
        VerifyParams { g, h, p, y1: &y1, y2: &y2, r1: &r1, r2: &r2, c: &c, s: &wrong };
    assert!(!verify(incorrect_params));
}

#[test]
fn test_verify_success() {
    let g = &n(4);
    let h = &n(9);
    let p = &n(23);
    let y1 = &n(2);
    let y2 = &n(3);
    let r1 = &n(8);
    let r2 = &n(4);
    let c = &n(4);
    let s = &n(5);

    let params = VerifyParams { g, h, p, y1, y2, r1, r2, c, s };
    assert!(verify(params));
}

#[test]
fn test_verify_fails() {
    let g = &n(4);
    let h = &n(9);
    let q = &n(11);
    let p = &n(23);
    let y1 = &n(2);
    let y2 = &n(3);
    let r1 = &n(8);
    let r2 = &n(4);
    let c = &n(4);
    let s = &n(5);

    let wrong = tampered(s, q);
    assert_eq!(wrong, n(6));
    let incorrect_params = VerifyParams { g, h, p, y1, y2, r1, r2, c, s: &wrong };
    assert!(!verify(incorrect_params));
}

#[test]
fn verify_is_deterministic() {
    let (g, h, p) = (n(4), n(9), n(23));
    let (y1, y2, r1, r2, c) = (n(2), n(3), n(8), n(4), n(4));
    for s in 0..12u64 {
        let s = n(s);
        let first = verify(VerifyParams { g: &g, h: &h, p: &p, y1: &y1, y2: &y2, r1: &r1, r2: &r2, c: &c, s: &s });
        let second = verify(VerifyParams { g: &g, h: &h, p: &p, y1: &y1, y2: &y2, r1: &r1, r2: &r2, c: &c, s: &s });
        assert_eq!(first, second);
        assert_eq!(first, s == n(5));
    }
}

#[test]
fn verify_reduces_commitments() {
    // 31 = 8 + 23 and 27 = 4 + 23: the same residues as the literal vector
    let (g, h, p) = (n(4), n(9), n(23));
    let (y1, y2, r1, r2, c) = (n(2), n(3), n(31), n(27), n(4));
    assert!(verify(VerifyParams { g: &g, h: &h, p: &p, y1: &y1, y2: &y2, r1: &r1, r2: &r2, c: &c, s: &n(5) }));
    assert!(!verify(VerifyParams { g: &g, h: &h, p: &p, y1: &y1, y2: &y2, r1: &r1, r2: &r2, c: &c, s: &n(6) }));
}

#[test]
fn solve_direct_branch() {
    // k = 30 >= c·x = 12: (30 - 12) mod 7 = 4
    assert_eq!(solve(&n(3), &n(30), &n(4), &n(7)), n(4));
}

#[test]
fn solve_underflow_branch() {
    // k = 5 < c·x = 12: 7 - ((12 - 5) mod 7) = 7, not 0
    assert_eq!(solve(&n(3), &n(5), &n(4), &n(7)), n(7));
    // k = 2 < c·x = 12: 7 - ((12 - 2) mod 7) = 4
    assert_eq!(solve(&n(3), &n(2), &n(4), &n(7)), n(4));
}

#[test]
fn modexp_values_and_zero_modulus() {
    assert_eq!(modexp(&n(4), &n(6), &n(23)), Ok(n(2)));
    assert_eq!(modexp(&n(9), &n(6), &n(23)), Ok(n(3)));
    assert_eq!(modexp(&n(5), &n(0), &n(7)), Ok(n(1)));
    assert_eq!(modexp(&n(5), &n(3), &n(1)), Ok(n(0)));
    assert_eq!(modexp(&n(4), &n(6), &n(0)), Err(AuthError::InvalidParameters));
}

#[test]
fn serialize_is_minimal_big_endian() {
    assert_eq!(serialize(&n(0)), vec![0u8]);
    assert_eq!(serialize(&n(1125)), vec![4u8, 101]);
    assert_eq!(deserialize(&[0, 0, 4, 101]), n(1125));
    assert_eq!(deserialize(&[]), n(0));
    let big = deserialize(&[1, 2, 3, 4, 5, 6, 7, 8, 9, 10]);
    assert_eq!(serialize(&big), vec![1u8, 2, 3, 4, 5, 6, 7, 8, 9, 10]);
}

#[test]
fn random_values_have_their_bounds() {
    let s = random_string(9);
    assert_eq!(s.chars().count(), 9);
    assert!(s.chars().all(|ch| ch.is_ascii_alphanumeric()));
    let r = random_number();
    assert!(serialize(&r).len() <= 32);
}

#[test]
fn parse_secret_accepts_digits_only() {
    assert_eq!(parse_secret("123456789012345678901234567890").unwrap(), deserialize(
        &BigUint::parse_bytes(b"123456789012345678901234567890", 10).unwrap().to_bytes_be()
    ));
    assert_eq!(parse_secret("6"), Ok(n(6)));
    assert_eq!(parse_secret(""), Err(AuthError::InvalidParameters));
    assert_eq!(parse_secret("12a"), Err(AuthError::InvalidParameters));
    assert_eq!(parse_secret("-5"), Err(AuthError::InvalidParameters));
}

#[test]
fn prover_steps_follow_the_parameters() {
    let params = toy_params();
    let (y1, y2) = register_commitments(&params, &n(6)).unwrap();
    assert_eq!(y1, n(2));
    assert_eq!(y2, n(3));
    let (r1, r2) = commit_with(&params, &n(7)).unwrap();
    assert_eq!(r1, n(8));
    assert_eq!(r2, n(4));
    // s = (7 - 4·6) mod 11 = q - (17 mod 11) = 5
    assert_eq!(respond(&params, &n(6), &n(7), &n(4)), Ok(n(5)));
    let (k, r1, r2) = begin_challenge(&params).unwrap();
    assert_eq!(modexp(&n(4), &k, &n(23)), Ok(r1));
    assert_eq!(modexp(&n(9), &k, &n(23)), Ok(r2));

    let zero_p = PublicParameters { g: n(4), h: n(9), p: n(0), q: n(11) };
    assert!(register_commitments(&zero_p, &n(6)).is_err());
    let zero_q = PublicParameters { g: n(4), h: n(9), p: n(23), q: n(0) };
    assert_eq!(respond(&zero_q, &n(6), &n(7), &n(4)), Err(AuthError::InvalidParameters));
}

fn register_user(svc: &mut AuthService, user: &str, x: u64) {
    let params = toy_params();
    let (y1, y2) = register_commitments(&params, &n(x)).unwrap();
    svc.register(user.to_string(), &serialize(&y1), &serialize(&y2));
}

/// Runs challenge and answer for `user` with secret `x`.
fn authenticate(svc: &mut AuthService, user: &str, x: u64) -> Result<String, AuthError> {
    let params = toy_params();
    let (k, r1, r2) = begin_challenge(&params).unwrap();
    let (auth_id, c) =
        svc.create_authentication_challenge(user.to_string(), &serialize(&r1), &serialize(&r2))?;
    let s = respond(&params, &n(x), &k, &deserialize(&c)).unwrap();
    svc.verify_authentication(&auth_id, &serialize(&s))
}

#[test]
fn service_end_to_end() {
    let mut svc = AuthService::new(toy_params()).unwrap();
    register_user(&mut svc, "alice", 6);
    let session_id = authenticate(&mut svc, "alice", 6).unwrap();
    assert_eq!(session_id.chars().count(), 9);
    assert_eq!(svc.user("alice").unwrap().session_id, session_id);
}

#[test]
fn service_rejects_wrong_secret_without_change() {
    let params = toy_params();
    let mut svc = AuthService::new(toy_params()).unwrap();
    register_user(&mut svc, "alice", 6);
    // witness k = 7 commits to (8, 4); challenge c = 4
    svc.issue_challenge("alice".to_string(), n(8), n(4), "auth01".to_string(), n(4)).unwrap();
    let wrong = respond(&params, &n(5), &n(7), &n(4)).unwrap();
    assert_eq!(wrong, n(9));
    assert_eq!(
        svc.verify_authentication("auth01", &serialize(&wrong)),
        Err(AuthError::VerificationFailed)
    );
    assert_eq!(svc.user("alice").unwrap().session_id, "");
}

#[test]
fn service_unknown_identities() {
    let mut svc = AuthService::new(toy_params()).unwrap();
    assert_eq!(
        svc.create_authentication_challenge("nobody".to_string(), &[8], &[4]),
        Err(AuthError::UserNotFound)
    );
    assert_eq!(svc.verify_authentication("abcdef", &[5]), Err(AuthError::SessionNotFound));
    assert!(svc.user("nobody").is_none());
}

#[test]
fn service_refuses_zero_modulus() {
    let params = PublicParameters { g: n(4), h: n(9), p: n(0), q: n(11) };
    assert!(matches!(AuthService::new(params), Err(AuthError::InvalidParameters)));
}

#[test]
fn service_literal_answer() {
    let mut svc = AuthService::new(toy_params()).unwrap();
    svc.register("bob".to_string(), &[2], &[3]);
    let auth_id = "fixed1".to_string();
    svc.issue_challenge("bob".to_string(), n(8), n(4), auth_id.clone(), n(4)).unwrap();
    assert_eq!(svc.session_user("fixed1").unwrap(), "bob");
    assert_eq!(
        svc.answer_challenge(&auth_id, &n(6), "s1".to_string()),
        Err(AuthError::VerificationFailed)
    );
    assert_eq!(svc.answer_challenge(&auth_id, &n(5), "s2".to_string()), Ok("s2".to_string()));
    assert_eq!(svc.user("bob").unwrap().session_id, "s2");
}

#[test]
fn reregistration_replaces_credential() {
    let params = toy_params();
    let mut svc = AuthService::new(toy_params()).unwrap();
    register_user(&mut svc, "carol", 6);
    let (_, r1, r2) = begin_challenge(&params).unwrap();
    svc.create_authentication_challenge("carol".to_string(), &serialize(&r1), &serialize(&r2))
        .unwrap();
    register_user(&mut svc, "carol", 3);
    let info = svc.user("carol").unwrap();
    assert_eq!(info.y1, n(18));
    assert_eq!(info.y2, n(16));
    assert_eq!(info.r1, n(0));
    assert_eq!(info.r2, n(0));
    assert_eq!(info.c, n(0));
    assert_eq!(info.session_id, "");
    // witness k = 7 commits to (8, 4); challenge c = 4
    svc.issue_challenge("carol".to_string(), n(8), n(4), "auth02".to_string(), n(4)).unwrap();
    let old_secret = respond(&params, &n(6), &n(7), &n(4)).unwrap();
    assert_eq!(
        svc.verify_authentication("auth02", &serialize(&old_secret)),
        Err(AuthError::VerificationFailed)
    );
    let new_secret = respond(&params, &n(3), &n(7), &n(4)).unwrap();
    assert_eq!(new_secret, n(6));
    assert!(svc.verify_authentication("auth02", &serialize(&new_secret)).is_ok());
}

#[test]
fn interleaved_users_stay_apart() {
    let mut svc = AuthService::new(toy_params()).unwrap();
    register_user(&mut svc, "alice", 6);
    register_user(&mut svc, "bob", 2);
    let params = toy_params();
    let (ka, r1a, r2a) = begin_challenge(&params).unwrap();
    let (kb, r1b, r2b) = begin_challenge(&params).unwrap();
    let (auth_a, ca) = svc
        .create_authentication_challenge("alice".to_string(), &serialize(&r1a), &serialize(&r2a))
        .unwrap();
    let (auth_b, cb) = svc
        .create_authentication_challenge("bob".to_string(), &serialize(&r1b), &serialize(&r2b))
        .unwrap();
    assert_eq!(svc.user("alice").unwrap().r1, r1a);
    assert_eq!(svc.user("bob").unwrap().r1, r1b);
    let sb = respond(&params, &n(2), &kb, &deserialize(&cb)).unwrap();
    let sid_b = svc.verify_authentication(&auth_b, &serialize(&sb)).unwrap();
    let sa = respond(&params, &n(6), &ka, &deserialize(&ca)).unwrap();
    let sid_a = svc.verify_authentication(&auth_a, &serialize(&sa)).unwrap();
    assert_eq!(svc.user("alice").unwrap().session_id, sid_a);
    assert_eq!(svc.user("bob").unwrap().session_id, sid_b);
    assert_eq!(svc.user("alice").unwrap().c, deserialize(&ca));
    assert_eq!(svc.user("bob").unwrap().c, deserialize(&cb));
}
