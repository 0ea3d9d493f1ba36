//! The ownership-verification protocol: DNS TXT challenges.
//!
//! A hostname's administrator proves control by publishing a token as a
//! TXT record.  The lookup key of a challenge is a deterministic
//! function of a shared secret and the normalized hostname — never a
//! random draw — so repeated or concurrent requests for the same
//! hostname recompute the same key, and replayed submissions find the
//! already-stored challenge instead of minting a second token.
//!
//! Minting the random token value itself is the caller's concern: the
//! submission flow receives a candidate value and stores it only when no
//! challenge exists yet under the computed key.

use vstd::prelude::*;
use vstd::string::StringExecFns;

use crate::db::ChallengeRecord;
use crate::db::Store;
use crate::db::forges_unchanged;
use crate::db::repos_unchanged;
use crate::db::types_unchanged;
use crate::db::users_unchanged;
use crate::errors::ServiceError;
use crate::models::Challenge;

verus! {

/// A hostname submitted for verification, as received from a caller.
#[derive(Debug, PartialEq)]
pub struct AddChallengePayload {
    /// The URL of the forge instance to be verified.
    pub hostname: String,
}

/// Ambient configuration of the verification protocol: the shared
/// secret from which challenge keys are derived.  Passed explicitly
/// rather than read from process-wide state.
pub struct VerifyCtx {
    /// Shared secret of this registry.
    pub secret: String,
}

/// What a URL string normalizes to: its scheme and host joined as
/// `scheme://host`, or nothing when the string is not an absolute URL
/// with a host.
pub uninterp spec fn normalized_host(s: Seq<char>) -> Option<Seq<char>>;

/// Relies on url::Url::parse, url::Url::scheme and url::Url::host_str:
/// parsing either rejects the input or yields a URL whose scheme and
/// host are deterministic functions of the input string alone; the
/// returned host is absent exactly when the URL has no host.
#[verifier::external_body]
fn parse_normalized_host(input: &String) -> (r: Option<String>)
    ensures
        (match r {
            Option::Some(h) => normalized_host(input@) == Option::Some(h@),
            Option::None => normalized_host(input@) is None,
        }),
{
    match url::Url::parse(input) {
        Ok(u) => match u.host_str() {
            Some(host) => Some(format!("{}://{}", u.scheme(), host)),
            None => None,
        },
        Err(_) => None,
    }
}

/// The challenge key derived from the shared secret and a normalized
/// hostname: the secret, a dot, and the hostname.
pub open spec fn spec_challenge_key(secret: Seq<char>, hostname: Seq<char>) -> Seq<char> {
    secret + "."@ + hostname
}

/// A DNS TXT challenge as handed back to the caller: where to put the
/// record and what it must hold.
pub struct TXTChallenge {
    /// Lookup key, also the name under which the TXT record is expected.
    pub key: String,
    /// Token value the TXT record must carry.
    pub value: String,
}

impl TXTChallenge {
    /// Compute the challenge key for a hostname.  A pure function of
    /// the shared secret and the hostname, so every request for the
    /// same hostname computes the same key.
    pub fn get_challenge_txt_key(ctx: &VerifyCtx, hostname: &String) -> (r: String)
        ensures
            r@ == spec_challenge_key(ctx.secret@, hostname@),
    {
        let mut key = ctx.secret.clone();
        key.append(".");
        key.append(hostname.as_str());
        key
    }
}

/// How one challenge submission changes the store and what it hands
/// back.  When the hostname does not normalize, the store is untouched
/// and the caller gets `NotAUrl`.  Otherwise the submission succeeds:
/// if a challenge already exists under the computed key it is returned
/// unchanged and the store is untouched (replay safety); if none
/// exists, the candidate value is stored under the key and returned.
pub open spec fn add_submit_transition(
    pre: Store,
    post: Store,
    secret: Seq<char>,
    raw: Seq<char>,
    fresh: Seq<char>,
    r: Result<TXTChallenge, ServiceError>,
) -> bool {
    match normalized_host(raw) {
        Option::None => r == Err::<TXTChallenge, ServiceError>(ServiceError::NotAUrl) && post
            == pre,
        Option::Some(host) => {
            let k = spec_challenge_key(secret, host);
            &&& r is Ok
            &&& (r matches Ok(c) ==> c.key@ == k)
            &&& (match pre.challenge_view(k) {
                Option::Some(rec) => (r matches Ok(c) ==> c.value@ == rec.value) && post == pre,
                Option::None => {
                    &&& (r matches Ok(c) ==> c.value@ == fresh)
                    &&& post.challenge_view(k) == Option::Some(
                        ChallengeRecord { value: fresh, hostname: host },
                    )
                    &&& (forall|k2: Seq<char>| k2 != k ==> #[trigger] post.challenge_view(k2)
                        == pre.challenge_view(k2))
                    &&& forges_unchanged(pre, post)
                    &&& users_unchanged(pre, post)
                    &&& repos_unchanged(pre, post)
                    &&& types_unchanged(pre, post)
                },
            })
        },
    }
}

/// Handle a challenge submission: normalize the hostname, recompute the
/// deterministic key, and return the stored challenge if one exists,
/// else store and return the caller's fresh token value.
pub fn add_submit(
    db: &mut Store,
    ctx: &VerifyCtx,
    payload: &AddChallengePayload,
    fresh_value: String,
) -> (r: Result<TXTChallenge, ServiceError>)
    requires
        old(db).wf(),
    ensures
        final(db).wf(),
        add_submit_transition(
            *old(db),
            *final(db),
            ctx.secret@,
            payload.hostname@,
            fresh_value@,
            r,
        ),
{
    match parse_normalized_host(&payload.hostname) {
        Option::None => Err(ServiceError::NotAUrl),
        Option::Some(hostname) => {
            let key = TXTChallenge::get_challenge_txt_key(ctx, &hostname);
            let present = match db.dns_challenge_exists(&key) {
                Ok(b) => b,
                Err(e) => {
                    return Err(ServiceError::Database(e));
                },
            };
            proof {
                crate::db::lemma_challenge_exists_iff(*db, key@);
            }
            if present {
                match db.get_dns_challenge(&key) {
                    Ok(c) => Ok(TXTChallenge { key: c.key, value: c.value }),
                    Err(e) => Err(ServiceError::Database(e)),
                }
            } else {
                let c = Challenge { key, value: fresh_value, hostname };
                match db.create_dns_challenge(&c) {
                    Ok(_) => Ok(TXTChallenge { key: c.key, value: c.value }),
                    Err(e) => Err(ServiceError::Database(e)),
                }
            }
        },
    }
}

/// Replay safety: two successive challenge submissions for the same
/// hostname, with no other store activity in between, both succeed with
/// the identical key and value, and the second submission leaves the
/// store exactly as the first left it — whatever fresh token value the
/// second submission carried.
pub proof fn lemma_challenge_replay(
    s0: Store,
    s1: Store,
    s2: Store,
    secret: Seq<char>,
    raw: Seq<char>,
    fresh1: Seq<char>,
    fresh2: Seq<char>,
    r1: Result<TXTChallenge, ServiceError>,
    r2: Result<TXTChallenge, ServiceError>,
)
    requires
        normalized_host(raw) is Some,
        add_submit_transition(s0, s1, secret, raw, fresh1, r1),
        add_submit_transition(s1, s2, secret, raw, fresh2, r2),
    ensures
        r1 is Ok,
        r2 is Ok,
        r1->Ok_0.key@ == r2->Ok_0.key@,
        r1->Ok_0.value@ == r2->Ok_0.value@,
        s2 == s1,
{
    let host = normalized_host(raw)->Some_0;
    let k = spec_challenge_key(secret, host);
    match s0.challenge_view(k) {
        Option::Some(rec) => {
            assert(s1 == s0);
            assert(s1.challenge_view(k) == Option::Some(rec));
        },
        Option::None => {
            assert(s1.challenge_view(k) == Option::Some(
                ChallengeRecord { value: fresh1, hostname: host },
            ));
        },
    }
}

} // verus!
