use std::collections::HashSet;

use base64::Engine;
use token_auth::claims::{Claims, JwtTokenPair, TokenType, UserLoginCredentials};
use token_auth::codec::{decode, encode, DecodeError, EncodeError};
use token_auth::decimal::{parse_decimal, push_decimal};
use token_auth::flow::{
    identity_result, identity_subject, login, refresh_finish, refresh_start, refresh_ttl, AuthError,
    StoreFailure,
};
use token_auth::issuer::{issue_pair, issue_pair_with_ids, ACCESS_TTL, REFRESH_TTL};
use token_auth::ledger::{refresh_token, MemoryLedger};
use token_auth::validator::{validate, ValidationError};

const SECRET: &str = "k9c8S2w1q0PZ";
const NOW: u64 = 1_700_000_000;

fn claims(sub: &str, exp: u64, token_type: TokenType, jti: &str) -> Claims {
    Claims { sub: sub.to_string(), exp, token_type, jti: jti.to_string() }
}

fn jti_of(token: &str) -> String {
    let parts: Vec<&str> = token.split('.').collect();
    assert_eq!(parts.len(), 3);
    let payload = base64::engine::general_purpose::URL_SAFE_NO_PAD.decode(parts[1]).unwrap();
    let text = String::from_utf8(payload).unwrap();
    let start = text.find("\"jti\":\"").unwrap() + 7;
    let end = text[start..].find('"').unwrap() + start;
    text[start..end].to_string()
}

#[test]
fn round_trip_keeps_every_field() {
    let c = claims("a@x.com", NOW + 100, TokenType::Refresh, "0b7c-11");
    let t = encode(&c, SECRET).unwrap();
    let d = decode(&t, SECRET, NOW).unwrap();
    assert_eq!(d.sub, "a@x.com");
    assert_eq!(d.exp, NOW + 100);
    assert_eq!(d.token_type, TokenType::Refresh);
    assert_eq!(d.jti, "0b7c-11");
}

#[test]
fn round_trip_non_ascii_subject_and_extreme_expiry() {
    let c = claims("zoë@exämple.org", u64::MAX, TokenType::Access, "");
    let t = encode(&c, SECRET).unwrap();
    let d = decode(&t, SECRET, NOW).unwrap();
    assert_eq!(d.sub, "zoë@exämple.org");
    assert_eq!(d.exp, u64::MAX);
    assert_eq!(d.jti, "");
}

#[test]
fn token_has_standard_header_and_json_payload() {
    let c = claims("a@x.com", 42, TokenType::Access, "id");
    let t = encode(&c, SECRET).unwrap();
    let parts: Vec<&str> = t.split('.').collect();
    assert_eq!(parts.len(), 3);
    assert_eq!(parts[0], "eyJ0eXAiOiJKV1QiLCJhbGciOiJIUzI1NiJ9");
    let payload = base64::engine::general_purpose::URL_SAFE_NO_PAD.decode(parts[1]).unwrap();
    assert_eq!(
        String::from_utf8(payload).unwrap(),
        "{\"sub\":\"a@x.com\",\"exp\":42,\"token_type\":\"Access\",\"jti\":\"id\"}"
    );
}

#[test]
fn unencodable_subject_is_refused() {
    let c = claims("a\u{1}b@x.com", NOW + 100, TokenType::Access, "id");
    assert_eq!(encode(&c, SECRET), Err(EncodeError::Unencodable));
    let c = claims("a@x.com", NOW + 100, TokenType::Access, "i\nd");
    assert_eq!(encode(&c, SECRET), Err(EncodeError::Unencodable));
}

#[test]
fn tampering_with_any_character_is_detected() {
    let c = claims("a@x.com", NOW + 100, TokenType::Refresh, "id-7");
    let t = encode(&c, SECRET).unwrap();
    let first_dot = t.find('.').unwrap();
    let bytes = t.as_bytes();
    for i in first_dot + 1..bytes.len() {
        if bytes[i] == b'.' {
            continue;
        }
        let mut changed = bytes.to_vec();
        changed[i] = if bytes[i] == b'A' { b'B' } else { b'A' };
        let changed = String::from_utf8(changed).unwrap();
        let r = decode(&changed, SECRET, NOW).map(|_| ());
        assert!(
            r == Err(DecodeError::BadSignature) || r == Err(DecodeError::Malformed),
            "accepted a token changed at {}",
            i
        );
    }
}

#[test]
fn wrong_secret_is_bad_signature() {
    let c = claims("a@x.com", NOW + 100, TokenType::Access, "id");
    let t = encode(&c, SECRET).unwrap();
    assert_eq!(decode(&t, "another", NOW).map(|_| ()), Err(DecodeError::BadSignature));
}

#[test]
fn malformed_tokens() {
    assert_eq!(decode("abc", SECRET, NOW).map(|_| ()), Err(DecodeError::Malformed));
    assert_eq!(decode("a.b", SECRET, NOW).map(|_| ()), Err(DecodeError::Malformed));
    assert_eq!(decode("a.b.c.d", SECRET, NOW).map(|_| ()), Err(DecodeError::Malformed));
    let c = claims("a@x.com", NOW + 100, TokenType::Access, "id");
    let t = encode(&c, SECRET).unwrap();
    let other_header = format!("eyJhbGciOiJIUzI1NiJ9{}", &t[t.find('.').unwrap()..]);
    assert_eq!(decode(&other_header, SECRET, NOW).map(|_| ()), Err(DecodeError::Malformed));
}

#[test]
fn expiry_boundary() {
    let c = claims("a@x.com", NOW, TokenType::Access, "id");
    let t = encode(&c, SECRET).unwrap();
    assert_eq!(decode(&t, SECRET, NOW).map(|_| ()), Err(DecodeError::Expired));
    assert_eq!(decode(&t, SECRET, NOW + 5).map(|_| ()), Err(DecodeError::Expired));
    assert!(decode(&t, SECRET, NOW - 1).is_ok());
    assert_eq!(validate(&t, SECRET, TokenType::Access, NOW).map(|_| ()), Err(ValidationError::Invalid));
}

#[test]
fn type_separation() {
    let p = issue_pair("a@x.com", SECRET, ACCESS_TTL, REFRESH_TTL, NOW).unwrap();
    assert_eq!(
        validate(&p.refresh_token, SECRET, TokenType::Access, NOW).map(|_| ()),
        Err(ValidationError::WrongType)
    );
    assert_eq!(
        validate(&p.access_token, SECRET, TokenType::Refresh, NOW).map(|_| ()),
        Err(ValidationError::WrongType)
    );
    let a = validate(&p.access_token, SECRET, TokenType::Access, NOW).unwrap();
    let r = validate(&p.refresh_token, SECRET, TokenType::Refresh, NOW).unwrap();
    assert_eq!(a.exp, NOW + 600);
    assert_eq!(r.exp, NOW + 1800);
    assert_eq!(a.sub, "a@x.com");
    assert_eq!(r.sub, "a@x.com");
    assert_ne!(a.jti, r.jti);
}

#[test]
fn issue_with_given_ids() {
    let p = issue_pair_with_ids("u@x.com", SECRET, 10, 30, 100, "one".to_string(), "two".to_string())
        .unwrap();
    let a = decode(&p.access_token, SECRET, 100).unwrap();
    let r = decode(&p.refresh_token, SECRET, 100).unwrap();
    assert_eq!((a.exp, a.jti.as_str(), a.token_type), (110, "one", TokenType::Access));
    assert_eq!((r.exp, r.jti.as_str(), r.token_type), (130, "two", TokenType::Refresh));
    assert!(decode(&p.access_token, SECRET, 110).is_err());
    assert!(decode(&p.refresh_token, SECRET, 129).is_ok());
}

#[test]
fn ten_thousand_pairs_have_distinct_ids() {
    let mut ids = HashSet::new();
    for _ in 0..10_000 {
        let p = issue_pair("a@x.com", SECRET, ACCESS_TTL, REFRESH_TTL, NOW).unwrap();
        ids.insert(jti_of(&p.access_token));
        ids.insert(jti_of(&p.refresh_token));
    }
    assert_eq!(ids.len(), 20_000);
}

#[test]
fn generate_for_gives_a_valid_pair() {
    let p = JwtTokenPair::generate_for("a@x.com".to_string(), SECRET.to_string()).unwrap();
    let now = token_auth::issuer::current_time();
    let a = validate(&p.access_token, SECRET, TokenType::Access, now).unwrap();
    let r = validate(&p.refresh_token, SECRET, TokenType::Refresh, now).unwrap();
    assert_eq!(r.exp - a.exp, 1200);
}

fn creds(email: &str, password: &str) -> UserLoginCredentials {
    UserLoginCredentials { email: email.to_string(), password: password.to_string() }
}

fn hashed(password: &str) -> String {
    bcrypt::hash(password, 4).unwrap()
}

#[test]
fn verify_password_checks_a_one_way_verifier() {
    let v = hashed("correct");
    assert_ne!(v, "correct");
    let c = creds("a@x.com", "correct");
    assert!(c.verify_password(&v));
    assert!(!creds("a@x.com", "Correct").verify_password(&v));
    assert!(!c.verify_password("correct"));
    assert!(!c.verify_password(""));
}

#[test]
fn login_with_matching_credential() {
    let c = creds("a@x.com", "correct");
    let p = login(&c.email, Ok(Some(c.verify_password(&hashed("correct")))), SECRET, NOW).unwrap();
    assert!(validate(&p.access_token, SECRET, TokenType::Access, NOW).is_ok());
    assert!(validate(&p.refresh_token, SECRET, TokenType::Refresh, NOW).is_ok());
}

#[test]
fn login_wrong_password() {
    let c = creds("a@x.com", "wrong");
    let r = login(&c.email, Ok(Some(c.verify_password(&hashed("correct")))), SECRET, NOW);
    assert_eq!(r.map(|_| ()), Err(AuthError::WrongPassword));
}

#[test]
fn login_unknown_and_store_down() {
    let r = login("a@x.com", Ok(None), SECRET, NOW);
    assert_eq!(r.map(|_| ()), Err(AuthError::NotFound));
    let r = login("a@x.com", Err(StoreFailure), SECRET, NOW);
    assert_eq!(r.map(|_| ()), Err(AuthError::Transient));
}

#[test]
fn refresh_once_then_refused() {
    let p = issue_pair("a@x.com", SECRET, ACCESS_TTL, REFRESH_TTL, NOW).unwrap();
    let mut ledger = MemoryLedger::new();
    let fresh = refresh_token(&mut ledger, &p.refresh_token, SECRET, NOW + 1).unwrap();
    assert!(validate(&fresh.refresh_token, SECRET, TokenType::Refresh, NOW + 1).is_ok());
    let again = refresh_token(&mut ledger, &p.refresh_token, SECRET, NOW + 2);
    assert_eq!(again.map(|_| ()), Err(AuthError::Unauthorized));
}

#[test]
fn exactly_one_of_many_refreshes_succeeds() {
    let p = issue_pair("a@x.com", SECRET, ACCESS_TTL, REFRESH_TTL, NOW).unwrap();
    let mut ledger = MemoryLedger::new();
    let mut ok = 0;
    for i in 0..16 {
        match refresh_token(&mut ledger, &p.refresh_token, SECRET, NOW + i) {
            Ok(_) => ok += 1,
            Err(e) => assert!(e == AuthError::Unauthorized || e == AuthError::TokenReplayed),
        }
    }
    assert_eq!(ok, 1);
}

#[test]
fn access_token_used_as_refresh() {
    let p = issue_pair("a@x.com", SECRET, ACCESS_TTL, REFRESH_TTL, NOW).unwrap();
    let mut ledger = MemoryLedger::new();
    let r = refresh_token(&mut ledger, &p.access_token, SECRET, NOW);
    assert_eq!(r.map(|_| ()), Err(AuthError::Unauthorized));
    assert_eq!(refresh_start(&p.access_token, SECRET, NOW).map(|_| ()), Err(AuthError::Unauthorized));
}

#[test]
fn identity_lookup_with_expired_access_token() {
    let p = issue_pair("a@x.com", SECRET, ACCESS_TTL, REFRESH_TTL, NOW).unwrap();
    assert_eq!(identity_subject(&p.access_token, SECRET, NOW + 1).unwrap(), "a@x.com");
    let r = identity_subject(&p.access_token, SECRET, NOW + ACCESS_TTL);
    assert_eq!(r, Err(AuthError::Unauthorized));
    assert_eq!(identity_result(Ok(Some("alice".to_string()))), Ok("alice".to_string()));
    assert_eq!(identity_result(Ok(None)), Err(AuthError::NotFound));
    assert_eq!(identity_result(Err(StoreFailure)), Err(AuthError::Transient));
}

#[test]
fn ledger_failure_leaves_token_unspent() {
    let p = issue_pair("a@x.com", SECRET, ACCESS_TTL, REFRESH_TTL, NOW).unwrap();
    let c = refresh_start(&p.refresh_token, SECRET, NOW).unwrap();
    assert_eq!(refresh_ttl(&c, Err(StoreFailure), NOW), Err(AuthError::Transient));
    let ttl = refresh_ttl(&c, Ok(false), NOW).unwrap();
    assert_eq!(ttl, 1800);
    let r = refresh_finish(&c, Err(StoreFailure), SECRET, NOW);
    assert_eq!(r.map(|_| ()), Err(AuthError::Transient));
    let mut ledger = MemoryLedger::new();
    assert!(refresh_token(&mut ledger, &p.refresh_token, SECRET, NOW + 3).is_ok());
}

#[test]
fn refresh_steps_refuse_spent_and_late_tokens() {
    let c = claims("a@x.com", NOW + 10, TokenType::Refresh, "id");
    assert_eq!(refresh_ttl(&c, Ok(true), NOW), Err(AuthError::Unauthorized));
    assert_eq!(refresh_ttl(&c, Ok(false), NOW + 10), Err(AuthError::Unauthorized));
    assert_eq!(refresh_ttl(&c, Ok(false), NOW + 9), Ok(1));
    let r = refresh_finish(&c, Ok(false), SECRET, NOW);
    assert_eq!(r.map(|_| ()), Err(AuthError::Unauthorized));
}

#[test]
fn ledger_records_lapse() {
    let mut l = MemoryLedger::new();
    assert!(l.consume("k", 5, 100));
    assert!(l.is_spent("k", 104));
    assert!(!l.consume("k", 5, 104));
    assert!(!l.is_spent("k", 105));
    assert!(l.consume("k", 5, 105));
    assert!(!l.is_spent("j", 100));
}

#[test]
fn decimal_text() {
    let mut out = Vec::new();
    push_decimal(&mut out, 0);
    push_decimal(&mut out, 907);
    push_decimal(&mut out, u64::MAX);
    assert_eq!(String::from_utf8(out.clone()).unwrap(), "090718446744073709551615");
    assert_eq!(parse_decimal(b"18446744073709551615", 0, 20), Some(u64::MAX));
    assert_eq!(parse_decimal(b"18446744073709551616", 0, 20), None);
    assert_eq!(parse_decimal(b"007", 0, 3), None);
    assert_eq!(parse_decimal(b"x0", 1, 2), Some(0));
    assert_eq!(parse_decimal(b"", 0, 0), None);
    assert_eq!(parse_decimal(b"1a", 0, 2), None);
}

#[test]
fn unencodable_subject_fails_issue_and_login() {
    let r = issue_pair("bad\u{7}name", SECRET, ACCESS_TTL, REFRESH_TTL, NOW);
    assert_eq!(r.map(|_| ()), Err(EncodeError::Unencodable));
    let r = login("bad\u{7}name", Ok(Some(true)), SECRET, NOW);
    assert_eq!(r.map(|_| ()), Err(AuthError::Encoding));
}

#[test]
fn equal_ids_are_refused() {
    let r = issue_pair_with_ids("u@x.com", SECRET, 10, 30, 100, "same".to_string(), "same".to_string());
    assert_eq!(r.map(|_| ()), Err(EncodeError::DuplicateId));
}

#[test]
fn issued_ids_are_uuid_text() {
    let p = issue_pair("a@x.com", SECRET, ACCESS_TTL, REFRESH_TTL, NOW).unwrap();
    for t in [&p.access_token, &p.refresh_token] {
        let id = jti_of(t);
        assert_eq!(id.len(), 36);
        assert!(id.chars().all(|c| c == '-' || c.is_ascii_digit() || ('a'..='f').contains(&c)));
        assert_eq!(id.as_bytes()[14], b'4');
    }
}

#[test]
fn refreshed_pair_has_new_ids_and_lifetimes() {
    let p = issue_pair("a@x.com", SECRET, ACCESS_TTL, REFRESH_TTL, NOW).unwrap();
    let old_id = jti_of(&p.refresh_token);
    let mut ledger = MemoryLedger::new();
    let fresh = refresh_token(&mut ledger, &p.refresh_token, SECRET, NOW + 5).unwrap();
    let a = decode(&fresh.access_token, SECRET, NOW + 5).unwrap();
    let r = decode(&fresh.refresh_token, SECRET, NOW + 5).unwrap();
    assert_eq!((a.sub.as_str(), a.exp, a.token_type), ("a@x.com", NOW + 605, TokenType::Access));
    assert_eq!((r.sub.as_str(), r.exp, r.token_type), ("a@x.com", NOW + 1805, TokenType::Refresh));
    assert_ne!(a.jti, old_id);
    assert_ne!(r.jti, old_id);
    assert!(ledger.is_spent(&old_id, NOW + 1799));
    assert!(!ledger.is_spent(&old_id, NOW + 1800));
}

#[test]
fn quotes_and_backslashes_are_escaped() {
    let c = claims("o\"brien\\x@x.com", NOW + 100, TokenType::Access, "i\"d");
    let t = encode(&c, SECRET).unwrap();
    let payload = base64::engine::general_purpose::URL_SAFE_NO_PAD
        .decode(t.split('.').nth(1).unwrap())
        .unwrap();
    assert_eq!(
        String::from_utf8(payload).unwrap(),
        "{\"sub\":\"o\\\"brien\\\\x@x.com\",\"exp\":1700000100,\"token_type\":\"Access\",\"jti\":\"i\\\"d\"}"
    );
    let d = decode(&t, SECRET, NOW).unwrap();
    assert_eq!(d.sub, "o\"brien\\x@x.com");
    assert_eq!(d.jti, "i\"d");
}
