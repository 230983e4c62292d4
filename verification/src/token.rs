//! Issuance and verification of signed session and tenant tokens.
//!
//! A token is `base64url(header) . base64url(payload) . tag`, where the tag is
//! the base64url-encoded HMAC-SHA256 of everything before the second dot,
//! keyed by the shared signing secret. The framing, the payload JSON and all
//! checks are verified code; only the MAC itself is an outside call.

use vstd::prelude::*;
use vstd::utf8::{encode_utf8, decode_utf8, valid_utf8};
use crate::b64::{b64url_encode_spec, b64url_decode_spec, b64url_encode, b64url_decode};
use crate::claims::{
    UserClaims, UserClaimsView, TenantClaims, TenantClaimsView, SessionPayloadParts,
    session_payload_of, tenant_payload_of, parse_session_payload, parse_tenant_payload,
    session_payload_bytes, tenant_payload_bytes, parse_session_payload_exec,
    parse_tenant_payload_exec,
};

verus! {

/// Seconds a session token stays valid: twenty-four hours.
pub const SESSION_TTL_SECS: u64 = 86400;

/// Why a token operation failed: the signing backend failed, or the token is
/// not a valid, timely, correctly signed token. Verification reports no finer
/// reason, by design.
#[derive(Clone, Copy, Debug, PartialEq, Eq, Structural)]
pub enum TokenError {
    Signing,
    Invalid,
}

/// The URL-safe base64 encoding of the HMAC-SHA256 tag of `msg` under
/// `secret`: a function of the two arguments alone.
pub uninterp spec fn hs256_tag_of(secret: Seq<u8>, msg: Seq<u8>) -> Seq<u8>;

/// Relies on `jsonwebtoken::crypto::sign` with `Algorithm::HS256` and
/// `EncodingKey::from_secret`: it returns the unpadded base64url encoding of
/// the HMAC-SHA256 tag of the message under the secret, so every byte of the
/// result is in the URL-safe base64 alphabet. Under the crate's default
/// HMAC backend (nothing in this crate installs another crypto provider) the
/// call cannot fail: the key is of the HMAC family and HMAC accepts keys of
/// any length, so the result is always `Ok`.
#[verifier::external_body]
fn sign_hs256(message: &[u8], secret: &[u8]) -> (r: Result<Vec<u8>, TokenError>)
    ensures
        r is Ok,
        r matches Ok(t) ==> t@ == hs256_tag_of(secret@, message@),
        r matches Ok(t) ==> forall|i: int| 0 <= i < t@.len() ==> crate::b64::is_b64_char(
            #[trigger] t@[i],
        ),
{
    let key = jsonwebtoken::EncodingKey::from_secret(secret);
    match jsonwebtoken::crypto::sign(message, &key, jsonwebtoken::Algorithm::HS256) {
        Ok(s) => Ok(s.into_bytes()),
        Err(_) => Err(TokenError::Signing),
    }
}

/// Relies on `String::from_utf8`: it succeeds exactly on valid UTF-8 and the
/// returned string holds those bytes.
#[verifier::external_body]
fn bytes_to_string(v: Vec<u8>) -> (r: Result<String, ()>)
    ensures
        r is Ok <==> valid_utf8(v@),
        r matches Ok(s) ==> encode_utf8(s@) == v@,
{
    match String::from_utf8(v) {
        Ok(s) => Ok(s),
        Err(_) => Err(()),
    }
}

/// A byte string of ASCII bytes is valid UTF-8.
pub proof fn lemma_ascii_valid_utf8(b: Seq<u8>)
    requires
        forall|i: int| 0 <= i < b.len() ==> #[trigger] b[i] < 128,
    ensures
        valid_utf8(b),
{
    assert(b.subrange(0, 0) =~= Seq::<u8>::empty());
    assert(vstd::utf8::partial_valid_utf8(b, 0));
    assert(forall|i: int|
        0 <= 0 <= i < b.len() <= b.len() ==> #[trigger] vstd::utf8::is_leading_byte_width_1(
            b[i],
        ));
    vstd::utf8::partial_valid_utf8_extend_ascii_block(b, 0, b.len() as int);
    assert(b.subrange(0, b.len() as int) =~= b);
}

/// The bytes of the fixed token header `{"alg":"HS256","typ":"JWT"}`.
pub open spec fn header_json() -> Seq<u8> {
    seq![
        123u8, 34, 97, 108, 103, 34, 58, 34, 72, 83, 50, 53, 54, 34, 44, 34, 116, 121, 112, 34,
        58, 34, 74, 87, 84, 34, 125,
    ]
}

/// The base64url-encoded header, the first segment of every token.
pub open spec fn header_b64() -> Seq<u8> {
    b64url_encode_spec(header_json())
}

fn header_json_vec() -> (v: Vec<u8>)
    ensures
        v@ == header_json(),
{
    let mut v: Vec<u8> = Vec::new();
    v.push(123);
    v.push(34);
    v.push(97);
    v.push(108);
    v.push(103);
    v.push(34);
    v.push(58);
    v.push(34);
    v.push(72);
    v.push(83);
    v.push(50);
    v.push(53);
    v.push(54);
    v.push(34);
    v.push(44);
    v.push(34);
    v.push(116);
    v.push(121);
    v.push(112);
    v.push(34);
    v.push(58);
    v.push(34);
    v.push(74);
    v.push(87);
    v.push(84);
    v.push(34);
    v.push(125);
    proof {
        assert(v@ =~= header_json());
    }
    v
}

/// The part of a token that is signed: encoded header, dot, encoded payload.
pub open spec fn signing_input_of(payload: Seq<u8>) -> Seq<u8> {
    header_b64() + seq![46u8] + b64url_encode_spec(payload)
}

/// The byte string of a whole signed token over the given payload.
pub open spec fn token_of(secret: Seq<u8>, payload: Seq<u8>) -> Seq<u8> {
    signing_input_of(payload) + seq![46u8] + hs256_tag_of(secret, signing_input_of(payload))
}

/// The byte string of the session token for the given claims.
pub open spec fn session_token_of(secret: Seq<u8>, c: UserClaimsView) -> Seq<u8> {
    token_of(secret, session_payload_of(c))
}

/// The byte string of the tenant token for the given claims.
pub open spec fn tenant_token_of(secret: Seq<u8>, c: TenantClaimsView) -> Seq<u8> {
    token_of(secret, tenant_payload_of(c))
}

/// The session claim set issued at `now`: subject is the verified identity,
/// audience the tenant domain, expiry a day later, scope fixed to `user`.
pub open spec fn session_claims_of(sub: Seq<char>, aud: Seq<char>, iss: Seq<char>, now: u64)
    -> UserClaimsView {
    UserClaimsView {
        iss: iss,
        iat: now,
        exp: (now + SESSION_TTL_SECS) as u64,
        aud: aud,
        sub: sub,
        scope: seq!['u', 's', 'e', 'r'],
    }
}

impl UserClaims {
    /// Build the session claims for a subject and audience, issued at `now`.
    pub fn new(sub: String, aud: String, issuer: String, now: u64) -> (r: UserClaims)
        requires
            now + SESSION_TTL_SECS <= u64::MAX,
        ensures
            r@ == session_claims_of(sub@, aud@, issuer@, now),
    {
        let scope = String::from_str("user");
        proof {
            reveal_strlit("user");
            assert(scope@ =~= seq!['u', 's', 'e', 'r']);
        }
        UserClaims { iss: issuer, iat: now, exp: now + SESSION_TTL_SECS, aud, sub, scope }
    }
}

/// Assemble and sign a token over an already-printed payload; the signing
/// call is total, so this always succeeds.
fn issue_token(payload: &Vec<u8>, secret: &[u8]) -> (r: Result<String, TokenError>)
    ensures
        r is Ok,
        r matches Ok(t) ==> encode_utf8(t@) == token_of(secret@, payload@),
{
    let header = header_json_vec();
    let mut si = b64url_encode(header.as_slice());
    si.push(46);
    let mut pb = b64url_encode(payload.as_slice());
    si.append(&mut pb);
    proof {
        assert(si@ =~= signing_input_of(payload@));
    }
    let mut tag = match sign_hs256(si.as_slice(), secret) {
        Ok(t) => t,
        Err(e) => {
            return Err(e);
        },
    };
    let ghost tag_view = tag@;
    let mut tok = si;
    tok.push(46);
    tok.append(&mut tag);
    proof {
        assert(tok@ =~= token_of(secret@, payload@));
        crate::b64::lemma_b64_alphabet(header_json());
        crate::b64::lemma_b64_alphabet(payload@);
        assert forall|i: int| 0 <= i < tok@.len() implies #[trigger] tok@[i] < 128 by {
            let hl = header_b64().len() as int;
            let pl = b64url_encode_spec(payload@).len() as int;
            if i < hl {
                assert(tok@[i] == header_b64()[i]);
                crate::b64::lemma_b64_char_ascii(header_b64()[i]);
            } else if i == hl {
            } else if i < hl + 1 + pl {
                assert(tok@[i] == b64url_encode_spec(payload@)[i - hl - 1]);
                crate::b64::lemma_b64_char_ascii(b64url_encode_spec(payload@)[i - hl - 1]);
            } else if i == hl + 1 + pl {
            } else {
                assert(tok@[i] == tag_view[i - (hl + 1 + pl + 1)]);
                crate::b64::lemma_b64_char_ascii(tag_view[i - (hl + 1 + pl + 1)]);
            }
        }
        lemma_ascii_valid_utf8(tok@);
    }
    match bytes_to_string(tok) {
        Ok(s) => Ok(s),
        Err(_) => Err(TokenError::Signing),
    }
}

/// Issue a signed session token for a verified identity in a tenant domain;
/// this always succeeds.
pub fn issue_session_token(
    identity: &str,
    domain: &str,
    issuer: &str,
    now: u64,
    secret: &[u8],
) -> (r: Result<String, TokenError>)
    requires
        now + SESSION_TTL_SECS <= u64::MAX,
    ensures
        r is Ok,
        r matches Ok(t) ==> encode_utf8(t@) == session_token_of(
            secret@,
            session_claims_of(identity@, domain@, issuer@, now),
        ),
{
    let claims = UserClaims::new(identity.to_owned(), domain.to_owned(), issuer.to_owned(), now);
    let payload = session_payload_bytes(&claims);
    issue_token(&payload, secret)
}

/// Issue a signed tenant-context token; this always succeeds.
pub fn issue_tenant_token(tenantid: &str, secret: &[u8]) -> (r: Result<String, TokenError>)
    ensures
        r is Ok,
        r matches Ok(t) ==> encode_utf8(t@) == tenant_token_of(
            secret@,
            TenantClaimsView { tenantid: tenantid@ },
        ),
{
    let claims = TenantClaims { tenantid: tenantid.to_owned() };
    let payload = tenant_payload_bytes(&claims);
    issue_token(&payload, secret)
}

/// The index of the first occurrence of a byte.
pub open spec fn find_byte(s: Seq<u8>, b: u8) -> Option<int>
    decreases s.len(),
{
    if s.len() == 0 {
        None
    } else if s[0] == b {
        Some(0)
    } else {
        match find_byte(s.skip(1), b) {
            Some(i) => Some(i + 1),
            None => None,
        }
    }
}

/// What [`find_byte`] returns, characterized without recursion.
pub proof fn lemma_find_byte(s: Seq<u8>, b: u8)
    ensures
        find_byte(s, b) matches Some(i) ==> 0 <= i < s.len() && s[i] == b && forall|t: int|
            0 <= t < i ==> s[t] != b,
        find_byte(s, b) is None ==> forall|t: int| 0 <= t < s.len() ==> s[t] != b,
    decreases s.len(),
{
    if s.len() == 0 {
    } else if s[0] == b {
    } else {
        lemma_find_byte(s.skip(1), b);
        match find_byte(s.skip(1), b) {
            Some(i1) => {
                assert(s[i1 + 1] == s.skip(1)[i1]);
                assert forall|t: int| 0 <= t < i1 + 1 implies s[t] != b by {
                    if t > 0 {
                        assert(s[t] == s.skip(1)[t - 1]);
                    }
                }
            },
            None => {
                assert forall|t: int| 0 <= t < s.len() implies s[t] != b by {
                    if t > 0 {
                        assert(s[t] == s.skip(1)[t - 1]);
                    }
                }
            },
        }
    }
}

/// The converse: a witness position pins down [`find_byte`].
pub proof fn lemma_find_byte_at(s: Seq<u8>, b: u8, i: int)
    requires
        0 <= i < s.len(),
        s[i] == b,
        forall|t: int| 0 <= t < i ==> s[t] != b,
    ensures
        find_byte(s, b) == Some(i),
    decreases s.len(),
{
    if i == 0 {
    } else {
        assert(s[0] != b);
        lemma_find_byte_at(s.skip(1), b, i - 1);
    }
}

/// Turn the raw fields of a parsed payload into claims: every text field must
/// be valid UTF-8 and the token must not have expired.
pub open spec fn claims_from_parts(parts: SessionPayloadParts, now: u64) -> Option<
    UserClaimsView,
> {
    if valid_utf8(parts.iss) && valid_utf8(parts.aud) && valid_utf8(parts.sub) && valid_utf8(
        parts.scope,
    ) && now < parts.exp {
        Some(
            UserClaimsView {
                iss: decode_utf8(parts.iss),
                iat: parts.iat,
                exp: parts.exp,
                aud: decode_utf8(parts.aud),
                sub: decode_utf8(parts.sub),
                scope: decode_utf8(parts.scope),
            },
        )
    } else {
        None
    }
}

/// What verifying a session token returns: `Some` exactly on a byte string of
/// the form `header . payload . tag` with our header, the right tag, a
/// payload in our shape, and an expiry after `now`.
pub open spec fn verify_session_spec(t: Seq<u8>, now: u64, secret: Seq<u8>) -> Option<
    UserClaimsView,
> {
    match find_byte(t, 46) {
        None => None,
        Some(i) => {
            let h = t.take(i);
            let rest = t.skip(i + 1);
            match find_byte(rest, 46) {
                None => None,
                Some(j) => {
                    let p = rest.take(j);
                    let sig = rest.skip(j + 1);
                    if h == header_b64() && sig == hs256_tag_of(secret, h + seq![46u8] + p) {
                        match b64url_decode_spec(p) {
                            None => None,
                            Some(payload) => match parse_session_payload(payload) {
                                None => None,
                                Some(parts) => claims_from_parts(parts, now),
                            },
                        }
                    } else {
                        None
                    }
                },
            }
        },
    }
}

/// What verifying a tenant token returns: as for sessions, but with the
/// tenant payload shape and no expiry.
pub open spec fn verify_tenant_spec(t: Seq<u8>, secret: Seq<u8>) -> Option<TenantClaimsView> {
    match find_byte(t, 46) {
        None => None,
        Some(i) => {
            let h = t.take(i);
            let rest = t.skip(i + 1);
            match find_byte(rest, 46) {
                None => None,
                Some(j) => {
                    let p = rest.take(j);
                    let sig = rest.skip(j + 1);
                    if h == header_b64() && sig == hs256_tag_of(secret, h + seq![46u8] + p) {
                        match b64url_decode_spec(p) {
                            None => None,
                            Some(payload) => match parse_tenant_payload(payload) {
                                None => None,
                                Some(t_b) => if valid_utf8(t_b) {
                                    Some(TenantClaimsView { tenantid: decode_utf8(t_b) })
                                } else {
                                    None
                                },
                            },
                        }
                    } else {
                        None
                    }
                },
            }
        },
    }
}

/// The first dot at or after `from`.
fn find_dot_from(s: &[u8], from: usize) -> (r: Option<usize>)
    requires
        from <= s@.len(),
    ensures
        r matches Some(i) ==> from <= i < s@.len() && s@[i as int] == 46 && forall|t: int|
            from <= t < i ==> s@[t] != 46,
        r is None ==> forall|t: int| from <= t < s@.len() ==> s@[t] != 46,
{
    let n = s.len();
    let mut i: usize = from;
    while i < n
        invariant
            from <= i <= n,
            n == s@.len(),
            forall|t: int| from <= t < i ==> s@[t] != 46,
        decreases n - i,
    {
        if s[i] == 46 {
            return Some(i);
        }
        i = i + 1;
    }
    None
}

/// Byte-wise equality of two slices.
fn bytes_eq(a: &[u8], b: &[u8]) -> (r: bool)
    ensures
        r == (a@ == b@),
{
    let n = a.len();
    if n != b.len() {
        proof {
            assert(a@ != b@);
        }
        return false;
    }
    let mut i: usize = 0;
    while i < n
        invariant
            i <= n,
            n == a@.len() == b@.len(),
            forall|t: int| 0 <= t < i ==> a@[t] == b@[t],
        decreases n - i,
    {
        if a[i] != b[i] {
            return false;
        }
        i = i + 1;
    }
    proof {
        assert(a@ =~= b@);
    }
    true
}

/// Split a token's bytes into header, payload and signature segments at the
/// first two dots; check the header and the tag. On success, the decoded
/// payload bytes.
fn check_and_decode_payload(tb: &[u8], secret: &[u8]) -> (r: Result<Vec<u8>, TokenError>)
    ensures
        ({
            let parsed = match find_byte(tb@, 46) {
                None => None,
                Some(i) => {
                    let h = tb@.take(i);
                    let rest = tb@.skip(i + 1);
                    match find_byte(rest, 46) {
                        None => None,
                        Some(j) => {
                            let p = rest.take(j);
                            let sig = rest.skip(j + 1);
                            if h == header_b64() && sig == hs256_tag_of(
                                secret@,
                                h + seq![46u8] + p,
                            ) {
                                b64url_decode_spec(p)
                            } else {
                                None
                            }
                        },
                    }
                },
            };
            &&& (r matches Ok(v) ==> parsed == Some(v@))
            &&& (parsed is None ==> r is Err)
            &&& (parsed is Some ==> r is Ok)
        }),
{
    let n = tb.len();
    let i = match find_dot_from(tb, 0) {
        Some(i) => i,
        None => {
            proof {
                lemma_find_byte(tb@, 46);
                if find_byte(tb@, 46) is Some {
                    let wi = find_byte(tb@, 46)->Some_0;
                    assert(tb@[wi] == 46);
                }
            }
            return Err(TokenError::Invalid);
        },
    };
    proof {
        lemma_find_byte_at(tb@, 46, i as int);
    }
    let j = match find_dot_from(tb, i + 1) {
        Some(j) => j,
        None => {
            proof {
                let rest = tb@.skip(i + 1);
                lemma_find_byte(rest, 46);
                if find_byte(rest, 46) is Some {
                    let wj = find_byte(rest, 46)->Some_0;
                    assert(rest[wj] == 46);
                    assert(rest[wj] == tb@[i + 1 + wj]);
                }
            }
            return Err(TokenError::Invalid);
        },
    };
    proof {
        let rest = tb@.skip(i + 1);
        assert(rest[j - i - 1] == tb@[j as int]);
        assert forall|t: int| 0 <= t < j - i - 1 implies rest[t] != 46 by {
            assert(rest[t] == tb@[i + 1 + t]);
        }
        lemma_find_byte_at(rest, 46, j - i - 1);
    }
    // header check
    let header = header_json_vec();
    let expected_h = b64url_encode(header.as_slice());
    let h_slice = &tb[0..i];
    if !bytes_eq(h_slice, expected_h.as_slice()) {
        proof {
            assert(tb@.subrange(0, i as int) =~= tb@.take(i as int));
        }
        return Err(TokenError::Invalid);
    }
    proof {
        assert(tb@.subrange(0, i as int) =~= tb@.take(i as int));
    }
    // recompute the tag over everything before the second dot
    let si_slice = &tb[0..j];
    let tag = match sign_hs256(si_slice, secret) {
        Ok(t) => t,
        Err(e) => {
            return Err(e);
        },
    };
    let sig_slice = &tb[j + 1..n];
    proof {
        let h = tb@.take(i as int);
        let rest = tb@.skip(i + 1);
        let p = rest.take(j - i - 1);
        assert(tb@.subrange(0, j as int) =~= h + seq![46u8] + p);
        assert(tb@.subrange(j + 1, n as int) =~= rest.skip(j - i - 1 + 1));
    }
    if !bytes_eq(sig_slice, tag.as_slice()) {
        return Err(TokenError::Invalid);
    }
    // decode the payload segment
    let p_slice = &tb[i + 1..j];
    proof {
        assert(tb@.subrange(i + 1, j as int) =~= tb@.skip(i + 1).take(j - i - 1));
    }
    match b64url_decode(p_slice) {
        Some(v) => Ok(v),
        None => Err(TokenError::Invalid),
    }
}

/// Verify a session token: signature, shape and expiry. Verification
/// succeeds exactly on the tokens the specification accepts; any failure
/// collapses to a single invalid-token error.
pub fn verify_session_token(token: &str, now: u64, secret: &[u8]) -> (r: Result<
    UserClaims,
    TokenError,
>)
    ensures
        r matches Ok(c) ==> verify_session_spec(encode_utf8(token@), now, secret@) == Some(c@),
        verify_session_spec(encode_utf8(token@), now, secret@) is None ==> r is Err,
        verify_session_spec(encode_utf8(token@), now, secret@) is Some ==> r is Ok,
{
    let tb = token.as_bytes();
    let payload = match check_and_decode_payload(tb, secret) {
        Ok(v) => v,
        Err(e) => {
            return Err(e);
        },
    };
    let (iss_b, iat, exp, aud_b, sub_b, scope_b) = match parse_session_payload_exec(
        payload.as_slice(),
    ) {
        Some(p) => p,
        None => {
            return Err(TokenError::Invalid);
        },
    };
    let iss = match bytes_to_string(iss_b) {
        Ok(s) => s,
        Err(_) => {
            return Err(TokenError::Invalid);
        },
    };
    let aud = match bytes_to_string(aud_b) {
        Ok(s) => s,
        Err(_) => {
            return Err(TokenError::Invalid);
        },
    };
    let sub = match bytes_to_string(sub_b) {
        Ok(s) => s,
        Err(_) => {
            return Err(TokenError::Invalid);
        },
    };
    let scope = match bytes_to_string(scope_b) {
        Ok(s) => s,
        Err(_) => {
            return Err(TokenError::Invalid);
        },
    };
    if now < exp {
        proof {
            vstd::utf8::encode_utf8_decode_utf8(iss@);
            vstd::utf8::encode_utf8_decode_utf8(aud@);
            vstd::utf8::encode_utf8_decode_utf8(sub@);
            vstd::utf8::encode_utf8_decode_utf8(scope@);
        }
        Ok(UserClaims { iss, iat, exp, aud, sub, scope })
    } else {
        Err(TokenError::Invalid)
    }
}

/// Verify a tenant token: signature and shape, succeeding exactly on the
/// tokens the specification accepts.
pub fn verify_tenant_token(token: &str, secret: &[u8]) -> (r: Result<TenantClaims, TokenError>)
    ensures
        r matches Ok(c) ==> verify_tenant_spec(encode_utf8(token@), secret@) == Some(c@),
        verify_tenant_spec(encode_utf8(token@), secret@) is None ==> r is Err,
        verify_tenant_spec(encode_utf8(token@), secret@) is Some ==> r is Ok,
{
    let tb = token.as_bytes();
    let payload = match check_and_decode_payload(tb, secret) {
        Ok(v) => v,
        Err(e) => {
            return Err(e);
        },
    };
    let t_b = match parse_tenant_payload_exec(payload.as_slice()) {
        Some(p) => p,
        None => {
            return Err(TokenError::Invalid);
        },
    };
    let tenantid = match bytes_to_string(t_b) {
        Ok(s) => s,
        Err(_) => {
            return Err(TokenError::Invalid);
        },
    };
    proof {
        vstd::utf8::encode_utf8_decode_utf8(tenantid@);
    }
    Ok(TenantClaims { tenantid })
}

/// The two dots of a well-formed token sit where the framing put them.
proof fn lemma_token_split(secret: Seq<u8>, payload: Seq<u8>, sig: Seq<u8>)
    ensures
        ({
            let t = signing_input_of(payload) + seq![46u8] + sig;
            let hl = header_b64().len() as int;
            let pl = b64url_encode_spec(payload).len() as int;
            &&& find_byte(t, 46) == Some(hl)
            &&& t.take(hl) == header_b64()
            &&& find_byte(t.skip(hl + 1), 46) == Some(pl)
            &&& t.skip(hl + 1).take(pl) == b64url_encode_spec(payload)
            &&& t.skip(hl + 1).skip(pl + 1) == sig
        }),
{
    let t = signing_input_of(payload) + seq![46u8] + sig;
    let h = header_b64();
    let p = b64url_encode_spec(payload);
    let hl = h.len() as int;
    let pl = p.len() as int;
    crate::b64::lemma_b64_alphabet(header_json());
    crate::b64::lemma_b64_alphabet(payload);
    assert(t[hl] == 46);
    assert forall|q: int| 0 <= q < hl implies t[q] != 46 by {
        assert(t[q] == h[q]);
        crate::b64::lemma_b64_char_ascii(h[q]);
    }
    lemma_find_byte_at(t, 46, hl);
    assert(t.take(hl) =~= h);
    let rest = t.skip(hl + 1);
    assert(rest =~= p + seq![46u8] + sig);
    assert(rest[pl] == 46);
    assert forall|q: int| 0 <= q < pl implies rest[q] != 46 by {
        assert(rest[q] == p[q]);
        crate::b64::lemma_b64_char_ascii(p[q]);
    }
    lemma_find_byte_at(rest, 46, pl);
    assert(rest.take(pl) =~= p);
    assert(rest.skip(pl + 1) =~= sig);
}

/// Round trip: a session token issued for claims `c` verifies, at any time
/// before its expiry, to exactly `c`.
pub proof fn lemma_session_token_round_trip(secret: Seq<u8>, c: UserClaimsView, now: u64)
    requires
        now < c.exp,
    ensures
        verify_session_spec(session_token_of(secret, c), now, secret) == Some(c),
{
    let payload = session_payload_of(c);
    let sig = hs256_tag_of(secret, signing_input_of(payload));
    let t = session_token_of(secret, c);
    assert(t =~= signing_input_of(payload) + seq![46u8] + sig);
    lemma_token_split(secret, payload, sig);
    let hl = header_b64().len() as int;
    let pl = b64url_encode_spec(payload).len() as int;
    assert(t.take(hl) + seq![46u8] + t.skip(hl + 1).take(pl) =~= signing_input_of(payload));
    crate::b64::lemma_b64_round_trip(payload);
    crate::claims::lemma_session_payload_round_trip(c);
    vstd::utf8::encode_utf8_valid_utf8(c.iss);
    vstd::utf8::encode_utf8_valid_utf8(c.aud);
    vstd::utf8::encode_utf8_valid_utf8(c.sub);
    vstd::utf8::encode_utf8_valid_utf8(c.scope);
    vstd::utf8::encode_utf8_decode_utf8(c.iss);
    vstd::utf8::encode_utf8_decode_utf8(c.aud);
    vstd::utf8::encode_utf8_decode_utf8(c.sub);
    vstd::utf8::encode_utf8_decode_utf8(c.scope);
}

/// Round trip for tenant tokens.
pub proof fn lemma_tenant_token_round_trip(secret: Seq<u8>, c: TenantClaimsView)
    ensures
        verify_tenant_spec(tenant_token_of(secret, c), secret) == Some(c),
{
    let payload = tenant_payload_of(c);
    let sig = hs256_tag_of(secret, signing_input_of(payload));
    let t = tenant_token_of(secret, c);
    assert(t =~= signing_input_of(payload) + seq![46u8] + sig);
    lemma_token_split(secret, payload, sig);
    let hl = header_b64().len() as int;
    let pl = b64url_encode_spec(payload).len() as int;
    assert(t.take(hl) + seq![46u8] + t.skip(hl + 1).take(pl) =~= signing_input_of(payload));
    crate::b64::lemma_b64_round_trip(payload);
    crate::claims::lemma_tenant_payload_round_trip(c);
    vstd::utf8::encode_utf8_valid_utf8(c.tenantid);
    vstd::utf8::encode_utf8_decode_utf8(c.tenantid);
}

/// A token whose signature segment is anything but the right tag is rejected,
/// whatever the time.
pub proof fn lemma_signature_mutation_rejected(
    secret: Seq<u8>,
    payload: Seq<u8>,
    sig: Seq<u8>,
    now: u64,
)
    requires
        sig != hs256_tag_of(secret, signing_input_of(payload)),
    ensures
        verify_session_spec(signing_input_of(payload) + seq![46u8] + sig, now, secret) is None,
{
    let t = signing_input_of(payload) + seq![46u8] + sig;
    lemma_token_split(secret, payload, sig);
    let hl = header_b64().len() as int;
    let pl = b64url_encode_spec(payload).len() as int;
    assert(t.take(hl) + seq![46u8] + t.skip(hl + 1).take(pl) =~= signing_input_of(payload));
}

/// An expired session token is rejected: at or past the expiry time stated in
/// its own payload, verification returns nothing.
pub proof fn lemma_expired_token_rejected(secret: Seq<u8>, c: UserClaimsView, now: u64)
    requires
        now >= c.exp,
    ensures
        verify_session_spec(session_token_of(secret, c), now, secret) is None,
{
    let payload = session_payload_of(c);
    let sig = hs256_tag_of(secret, signing_input_of(payload));
    let t = session_token_of(secret, c);
    assert(t =~= signing_input_of(payload) + seq![46u8] + sig);
    lemma_token_split(secret, payload, sig);
    let hl = header_b64().len() as int;
    let pl = b64url_encode_spec(payload).len() as int;
    assert(t.take(hl) + seq![46u8] + t.skip(hl + 1).take(pl) =~= signing_input_of(payload));
    crate::b64::lemma_b64_round_trip(payload);
    crate::claims::lemma_session_payload_round_trip(c);
}

} // verus!
