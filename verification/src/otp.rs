//! The one-time-passcode flow: request a code for an identity in a tenant
//! domain, and redeem a code for a signed session token.
//!
//! A code lives in the ephemeral store for five minutes and is redeemed at
//! most once: redemption removes it atomically. Code generation is TOTP-style,
//! a function of the shared secret and the clock, called through trusted
//! wrappers.

use vstd::prelude::*;
use vstd::utf8::encode_utf8;
use crate::outcome::{ServiceOutcome, StatusCategory};
use crate::store::{OtpStore, PendingView};
use crate::phone::spec_is_phone_number;
use crate::token::{issue_session_token, session_token_of, session_claims_of, SESSION_TTL_SECS};

verus! {

/// Seconds a pending verification stays redeemable: five minutes.
pub const OTP_TTL_SECS: u64 = 300;

/// The body of a code-request call, as the transport hands it over.
#[derive(Debug)]
pub struct OtpPayload {
    pub phone_number: String,
    pub domain: String,
}

/// The body of a successful redemption response.
#[derive(Debug)]
pub struct TokenPayload {
    pub access_token: String,
    pub token_type: String,
}

/// What decoding the base32-encoded shared secret gives: the key bytes when
/// the text decodes, nothing when it does not — a function of the text alone.
pub uninterp spec fn totp_key_of(s: Seq<char>) -> Option<Seq<u8>>;

/// The code that the time-based generator derives from key material and a
/// timestamp: a function of the two alone.
pub uninterp spec fn totp_code_of(key: Seq<u8>, time: u64) -> Seq<char>;

/// Relies on `totp_rs::Secret::try_from_base32`: base32 decoding is a
/// function of the text alone, and the call returns `Ok` exactly when the
/// text decodes.
#[verifier::external_body]
fn decode_totp_secret(secret: &str) -> (r: Result<Vec<u8>, ()>)
    ensures
        r is Ok <==> totp_key_of(secret@) is Some,
        r matches Ok(k) ==> Some(k@) == totp_key_of(secret@),
{
    match totp_rs::Secret::try_from_base32(secret) {
        Ok(s) => Ok(s.as_bytes().to_vec()),
        Err(_) => Err(()),
    }
}

/// Relies on `totp_rs::Builder` (defaults: SHA-1, six digits, thirty-second
/// steps) and `Totp::generate`: with the secret set, building fails exactly
/// when the key is shorter than sixteen bytes, and the generated token prints
/// as exactly six ASCII digits determined by key and timestamp alone.
#[verifier::external_body]
fn totp_generate(key: &Vec<u8>, time: u64) -> (r: Result<String, ()>)
    ensures
        r is Ok <==> key@.len() >= 16,
        r matches Ok(c) ==> c@ == totp_code_of(key@, time) && c@.len() == 6 && forall|i: int|
            0 <= i < c@.len() ==> crate::phone::is_digit_char(#[trigger] c@[i]),
{
    let secret = totp_rs::Secret::new(key.clone().into_boxed_slice());
    match totp_rs::Builder::new().with_secret(secret).build() {
        Ok(t) => Ok(t.generate(time).to_string()),
        Err(_) => Err(()),
    }
}

/// Why code generation failed: the shared secret is not valid base32, or it
/// decodes to too little keying material. The descriptions are fixed: backend
/// text never reaches a caller.
#[derive(Clone, Copy, Debug, PartialEq, Eq, Structural)]
pub enum GenerationError {
    BadEncoding,
    KeyTooShort,
}

/// The fixed description of a generation failure.
pub open spec fn spec_generation_message(e: GenerationError) -> Seq<char> {
    if e == GenerationError::BadEncoding {
        "secret is not valid base32"@
    } else {
        "decoded secret is shorter than 16 bytes"@
    }
}

impl GenerationError {
    /// The fixed description of this failure.
    pub fn message(&self) -> (r: String)
        ensures
            r@ == spec_generation_message(*self),
    {
        match self {
            GenerationError::BadEncoding => String::from_str("secret is not valid base32"),
            GenerationError::KeyTooShort => String::from_str(
                "decoded secret is shorter than 16 bytes",
            ),
        }
    }
}

/// Whether a shared secret is well-formed: it decodes, to at least sixteen
/// key bytes.
pub open spec fn spec_secret_ok(secret_key: Seq<char>) -> bool {
    totp_key_of(secret_key) matches Some(k) && k.len() >= 16
}

/// The code the generator produces for an encoded secret at a timestamp.
pub open spec fn spec_generate_token(secret_key: Seq<char>, now: u64) -> Seq<char>
    recommends
        spec_secret_ok(secret_key),
{
    totp_code_of(totp_key_of(secret_key)->Some_0, now)
}

/// The failure a malformed secret produces.
pub open spec fn spec_generation_error(secret_key: Seq<char>) -> GenerationError {
    if totp_key_of(secret_key) is None {
        GenerationError::BadEncoding
    } else {
        GenerationError::KeyTooShort
    }
}

/// Generate the one-time code for the shared secret at `now`: six digits,
/// determined by the secret and the timestamp. Fails exactly when the secret
/// is not valid base32 or decodes to fewer than sixteen key bytes.
pub fn generate_token(secret_key: &String, now: u64) -> (r: Result<String, GenerationError>)
    ensures
        r is Ok <==> spec_secret_ok(secret_key@),
        r matches Ok(c) ==> c@ == spec_generate_token(secret_key@, now) && c@.len() == 6,
        r matches Err(e) ==> e == spec_generation_error(secret_key@),
{
    let key = match decode_totp_secret(secret_key.as_str()) {
        Ok(k) => k,
        Err(_) => {
            return Err(GenerationError::BadEncoding);
        },
    };
    match totp_generate(&key, now) {
        Ok(c) => Ok(c),
        Err(_) => Err(GenerationError::KeyTooShort),
    }
}

/// Where a code is to be delivered.
#[derive(Clone, Copy, Debug, PartialEq, Eq, Structural)]
pub enum DeliveryChannel {
    Sms,
    Email,
}

/// What the caller must deliver after a successful request: the code, to the
/// identity, over the channel its shape calls for.
#[derive(Debug)]
pub struct DeliveryPlan {
    pub channel: DeliveryChannel,
    pub recipient: String,
    pub code: String,
}

/// Request a one-time code for `identity` in `domain`: generate the code for
/// `now`, file it in the store for five minutes (overwriting any entry under
/// the same code), and say how to deliver it. This succeeds exactly when the
/// shared secret is well-formed; otherwise the store is untouched and the
/// outcome is an internal error naming the cause.
pub fn request_otp(
    store: &mut OtpStore,
    identity: &String,
    domain: &String,
    secret_key: &String,
    now: u64,
) -> (r: Result<DeliveryPlan, ServiceOutcome>)
    requires
        old(store).wf(),
        now + OTP_TTL_SECS <= u64::MAX,
    ensures
        final(store).wf(),
        r is Ok <==> spec_secret_ok(secret_key@),
        r matches Ok(plan) ==> {
            &&& plan.code@ == spec_generate_token(secret_key@, now)
            &&& final(store)@ == old(store)@.insert(
                plan.code@,
                PendingView {
                    identity: identity@,
                    domain: domain@,
                    expires_at: (now + OTP_TTL_SECS) as u64,
                },
            )
            &&& plan.recipient@ == identity@
            &&& (plan.channel == DeliveryChannel::Sms) == spec_is_phone_number(identity@)
        },
        r matches Err(o) ==> o.status == StatusCategory::Internal && o.detail@
            == "Failed to generate OTP: "@ + spec_generation_message(
            spec_generation_error(secret_key@),
        ) && final(store)@ == old(store)@,
{
    let code = match generate_token(secret_key, now) {
        Ok(c) => c,
        Err(e) => {
            let msg = e.message();
            let detail = String::from_str("Failed to generate OTP: ").concat(msg.as_str());
            return Err(ServiceOutcome { detail, status: StatusCategory::Internal });
        },
    };
    store.set_with_expiry(&code, identity, domain, now, OTP_TTL_SECS);
    let channel = if crate::phone::is_phone_number(identity.as_str()) {
        DeliveryChannel::Sms
    } else {
        DeliveryChannel::Email
    };
    Ok(DeliveryPlan { channel, recipient: identity.clone(), code })
}

/// The outcome reported after the delivery attempt that follows a request:
/// success says the code went out; a gateway failure is reported as such,
/// with the transport's description. The store entry stays either way, until
/// it lapses.
pub fn delivery_outcome(result: Result<(), String>) -> (r: ServiceOutcome)
    ensures
        result is Ok ==> r.status == StatusCategory::Success && r.detail@ == "OTP sent"@,
        result matches Err(m) ==> r.status == StatusCategory::BadGateway && r.detail@
            == "Reqwest error: "@ + m@,
{
    match result {
        Ok(()) => ServiceOutcome {
            detail: String::from_str("OTP sent"),
            status: StatusCategory::Success,
        },
        Err(m) => ServiceOutcome {
            detail: String::from_str("Reqwest error: ").concat(m.as_str()),
            status: StatusCategory::BadGateway,
        },
    }
}

/// Redeem a one-time code: atomically take the pending verification it names
/// (gone or lapsed means not-found), then sign a session token for the
/// identity and domain it was issued for. A live code always redeems to its
/// token; the code is out of the store afterwards in every case.
pub fn redeem_otp(
    store: &mut OtpStore,
    code: &String,
    issuer: &String,
    signing_secret: &[u8],
    now: u64,
) -> (r: ServiceOutcome)
    requires
        old(store).wf(),
        now + SESSION_TTL_SECS <= u64::MAX,
    ensures
        final(store).wf(),
        final(store)@ == old(store)@.remove(code@),
        ({
            let hit = old(store)@.contains_key(code@) && now < old(store)@[code@].expires_at;
            &&& (!hit ==> r.status == StatusCategory::NotFound && r.detail@
                == "OTP not found or expired"@)
            &&& (hit ==> r.status == StatusCategory::Success)
            &&& (hit ==> encode_utf8(r.detail@)
                == session_token_of(
                signing_secret@,
                session_claims_of(
                    old(store)@[code@].identity,
                    old(store)@[code@].domain,
                    issuer@,
                    now,
                ),
            ))
        }),
{
    let taken = store.take(code, now);
    match taken {
        None => ServiceOutcome {
            detail: String::from_str("OTP not found or expired"),
            status: StatusCategory::NotFound,
        },
        Some((identity, domain)) => {
            match issue_session_token(
                identity.as_str(),
                domain.as_str(),
                issuer.as_str(),
                now,
                signing_secret,
            ) {
                Ok(token) => ServiceOutcome { detail: token, status: StatusCategory::Success },
                // issuance is total, so this arm is unreachable; it only
                // completes the match
                Err(_) => ServiceOutcome {
                    detail: String::from_str("Failed to sign session token"),
                    status: StatusCategory::Internal,
                },
            }
        },
    }
}

/// A requested code redeems to a token for its identity: after a request at
/// `t_req` files the code, a redemption before the entry lapses finds exactly
/// the requested identity and domain, and the session token signed then
/// verifies — at any time before it expires — to claims whose subject is the
/// identity and whose audience is the domain.
pub proof fn lemma_request_then_redeem(
    m: Map<Seq<char>, PendingView>,
    identity: Seq<char>,
    domain: Seq<char>,
    issuer: Seq<char>,
    code: Seq<char>,
    secret: Seq<u8>,
    t_req: u64,
    t_red: u64,
    t_ver: u64,
)
    requires
        t_req + OTP_TTL_SECS <= u64::MAX,
        t_red < t_req + OTP_TTL_SECS,
        t_red + SESSION_TTL_SECS <= u64::MAX,
        t_ver < t_red + SESSION_TTL_SECS,
    ensures
        ({
            let m1 = m.insert(
                code,
                PendingView {
                    identity: identity,
                    domain: domain,
                    expires_at: (t_req + OTP_TTL_SECS) as u64,
                },
            );
            let c = session_claims_of(identity, domain, issuer, t_red);
            &&& m1.contains_key(code)
            &&& t_red < m1[code].expires_at
            &&& m1[code].identity == identity
            &&& m1[code].domain == domain
            &&& crate::token::verify_session_spec(session_token_of(secret, c), t_ver, secret)
                == Some(c)
            &&& c.sub == identity
            &&& c.aud == domain
        }),
{
    let c = session_claims_of(identity, domain, issuer, t_red);
    crate::token::lemma_session_token_round_trip(secret, c, t_ver);
}

/// Exactly-once redemption: a redeemed code is out of the store, so a second
/// redemption of the same code reports not-found.
pub proof fn lemma_exactly_once_redemption(m: Map<Seq<char>, PendingView>, code: Seq<char>)
    ensures
        !m.remove(code).contains_key(code),
{
}

/// A code not redeemed within its lifetime becomes unavailable: at or past
/// the expiry time its entry was filed with, the entry no longer counts as
/// redeemable, whatever identity and domain it held, so redemption reports
/// not-found.
pub proof fn lemma_expired_code_unavailable(
    m: Map<Seq<char>, PendingView>,
    pv: PendingView,
    code: Seq<char>,
    t_req: u64,
    t_red: u64,
)
    requires
        t_req + OTP_TTL_SECS <= u64::MAX,
        pv.expires_at == t_req + OTP_TTL_SECS,
        t_red >= t_req + OTP_TTL_SECS,
    ensures
        m.insert(code, pv).contains_key(code),
        !(t_red < m.insert(code, pv)[code].expires_at),
{
}

} // verus!
