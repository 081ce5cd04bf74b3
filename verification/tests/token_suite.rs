//! The pre-shared token check, against the real HMAC-MD5.

use hmac::Mac;
use signalhub::token::check_token;
use signalhub::token::check_sign;
use signalhub::config::Security;

fn sign_for(secret: &str, ts: u64, id: &str) -> String {
    let mut mac = hmac::Hmac::<md5::Md5>::new_from_slice(secret.as_bytes()).unwrap();
    mac.update(format!("{}", ts).as_bytes());
    mac.update(id.as_bytes());
    let hex_digest = hex::encode(mac.finalize().into_bytes());
    hex_digest[..8].to_string()
}

#[test]
fn a_fresh_correctly_signed_token_passes() {
    let now: u64 = 1700000000;
    let token = format!("{}-{}", sign_for("secret", now, "alice1"), now);
    assert!(check_token("alice1", Some(token), "secret".to_string(), 300, now));
}

#[test]
fn a_token_with_a_trailing_part_still_passes() {
    let now: u64 = 1700000000;
    let token = format!("{}-{}-extra", sign_for("secret", now, "alice1"), now);
    assert!(check_token("alice1", Some(token), "secret".to_string(), 300, now));
}

#[test]
fn a_wrong_sign_fails() {
    let now: u64 = 1700000000;
    let token = format!("{}-{}", "00000000", now);
    let good = sign_for("secret", now, "alice1");
    if good == "00000000" {
        return;
    }
    assert!(!check_token("alice1", Some(token), "secret".to_string(), 300, now));
}

#[test]
fn a_stale_or_future_timestamp_fails() {
    let now: u64 = 1700000000;
    let old = now - 301;
    let token = format!("{}-{}", sign_for("secret", old, "alice1"), old);
    assert!(!check_token("alice1", Some(token), "secret".to_string(), 300, now));
    let future = now + 301;
    let token2 = format!("{}-{}", sign_for("secret", future, "alice1"), future);
    assert!(!check_token("alice1", Some(token2), "secret".to_string(), 300, now));
}

#[test]
fn missing_or_malformed_tokens_fail() {
    let now: u64 = 1700000000;
    assert!(!check_token("alice1", None, "secret".to_string(), 300, now));
    assert!(!check_token("alice1", Some("".to_string()), "secret".to_string(), 300, now));
    assert!(!check_token("alice1", Some("nodashes".to_string()), "secret".to_string(), 300, now));
    assert!(!check_token("alice1", Some("abcd1234-notanumber".to_string()), "secret".to_string(), 300, now));
    // a zero age limit refuses everything
    let token = format!("{}-{}", sign_for("secret", now, "alice1"), now);
    assert!(!check_token("alice1", Some(token), "secret".to_string(), 0, now));
}

#[test]
fn the_sign_check_passes_without_security() {
    assert!(check_sign(&None, "alice1", None, 0));
    let off = Security { enable: false, maxTimeStampAge: 300, token: "secret".to_string() };
    assert!(check_sign(&Some(off), "alice1", None, 0));
    let now: u64 = 1700000000;
    let on = Security { enable: true, maxTimeStampAge: 300, token: "secret".to_string() };
    let token = format!("{}-{}", sign_for("secret", now, "alice1"), now);
    assert!(check_sign(&Some(on), "alice1", Some(token), now));
}
