use starchart::db::Store;
use starchart::errors::DBError;
use starchart::errors::ServiceError;
use starchart::models::Challenge;
use starchart::verify::AddChallengePayload;
use starchart::verify::TXTChallenge;
use starchart::verify::VerifyCtx;
use starchart::verify::add_submit;

fn ctx() -> VerifyCtx {
    VerifyCtx {
        secret: "spider-secret".to_string(),
    }
}

#[test]
fn add_routes_work() {
    const BASE_DOMAIN: &str = "add_routes_work.example.org";

    let mut db = Store::new();
    db.migrate().unwrap();
    let ctx = ctx();

    let payload = AddChallengePayload {
        hostname: format!("https://{}", BASE_DOMAIN),
    };

    let hostname = format!("https://{}", BASE_DOMAIN);
    let key = TXTChallenge::get_challenge_txt_key(&ctx, &hostname);

    db.delete_dns_challenge(&key).unwrap();
    assert!(!db.dns_challenge_exists(&key).unwrap());

    let first = add_submit(&mut db, &ctx, &payload, "token-one".to_string()).unwrap();
    assert_eq!(first.key, key);

    assert!(db.dns_challenge_exists(&key).unwrap());

    let challenge = db.get_dns_challenge(&key).unwrap().value;

    // replay: resubmitting before verification returns the stored value
    let second = add_submit(&mut db, &ctx, &payload, "token-two".to_string()).unwrap();
    assert_eq!(second.key, key);

    assert!(db.dns_challenge_exists(&key).unwrap());
    assert_eq!(challenge, db.get_dns_challenge(&key).unwrap().value);
    assert_eq!(second.value, challenge);
}

#[test]
fn challenge_request_is_idempotent() {
    let mut db = Store::new();
    db.migrate().unwrap();
    let ctx = ctx();
    let payload = AddChallengePayload {
        hostname: "https://idempotent.example.org".to_string(),
    };

    let first = add_submit(&mut db, &ctx, &payload, "fresh-alpha".to_string()).unwrap();
    let second = add_submit(&mut db, &ctx, &payload, "fresh-beta".to_string()).unwrap();
    assert_eq!(first.key, second.key);
    assert_eq!(first.value, second.value);
    assert_eq!(first.value, "fresh-alpha");
}

#[test]
fn challenge_key_is_deterministic() {
    let ctx = ctx();
    let host = "https://stable.example.org".to_string();
    let k1 = TXTChallenge::get_challenge_txt_key(&ctx, &host);
    let k2 = TXTChallenge::get_challenge_txt_key(&ctx, &host);
    assert_eq!(k1, k2);
    assert_eq!(k1, format!("{}.{}", ctx.secret, host));
}

#[test]
fn hostname_is_normalized_before_keying() {
    let mut db = Store::new();
    db.migrate().unwrap();
    let ctx = ctx();
    // path, query and fragment must be stripped: the stored challenge
    // sits under the key of the bare scheme + host
    let payload = AddChallengePayload {
        hostname: "https://norm.example.org/deep/path?q=1#frag".to_string(),
    };
    let issued = add_submit(&mut db, &ctx, &payload, "norm-token".to_string()).unwrap();

    let normalized = "https://norm.example.org".to_string();
    let key = TXTChallenge::get_challenge_txt_key(&ctx, &normalized);
    assert_eq!(issued.key, key);
    assert!(db.dns_challenge_exists(&key).unwrap());
    assert_eq!(db.get_dns_challenge(&key).unwrap().hostname, normalized);
}

#[test]
fn unparsable_hostname_is_rejected() {
    let mut db = Store::new();
    db.migrate().unwrap();
    let ctx = ctx();
    let payload = AddChallengePayload {
        hostname: "not a url at all".to_string(),
    };
    let r = add_submit(&mut db, &ctx, &payload, "unused".to_string());
    assert!(matches!(r, Err(ServiceError::NotAUrl)));
}

#[test]
fn challenge_deletion_is_terminal() {
    let mut db = Store::new();
    db.migrate().unwrap();
    let key = "spider-secret.https://gone.example.org".to_string();
    db.create_dns_challenge(&Challenge {
        key: key.clone(),
        value: "soon-gone".to_string(),
        hostname: "https://gone.example.org".to_string(),
    })
    .unwrap();
    assert!(db.dns_challenge_exists(&key).unwrap());

    db.delete_dns_challenge(&key).unwrap();
    assert!(!db.dns_challenge_exists(&key).unwrap());
    // deleting an absent challenge still succeeds
    db.delete_dns_challenge(&key).unwrap();
    assert!(!db.dns_challenge_exists(&key).unwrap());
}

#[test]
fn challenge_value_conflicts() {
    let mut db = Store::new();
    db.migrate().unwrap();
    let key = "k.https://clash.example.org".to_string();
    let stored = Challenge {
        key: key.clone(),
        value: "original".to_string(),
        hostname: "https://clash.example.org".to_string(),
    };
    db.create_dns_challenge(&stored).unwrap();
    // the identical value is a no-op success
    db.create_dns_challenge(&stored).unwrap();
    assert_eq!(db.get_dns_challenge(&key).unwrap().value, "original");
    // a different value under the same key is a conflict
    let clashing = Challenge {
        key: key.clone(),
        value: "different".to_string(),
        hostname: "https://clash.example.org".to_string(),
    };
    assert_eq!(db.create_dns_challenge(&clashing), Err(DBError::Conflict));
    assert_eq!(db.get_dns_challenge(&key).unwrap().value, "original");
}

#[test]
fn get_missing_challenge_is_not_found() {
    let db = {
        let mut s = Store::new();
        s.migrate().unwrap();
        s
    };
    let key = "absent-key".to_string();
    assert!(matches!(db.get_dns_challenge(&key), Err(DBError::NotFound)));
}
