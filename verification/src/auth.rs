//! The authorization-header contract: a credential arrives as
//! `Authorization: Bearer <token>`; a missing or malformed header is a bad
//! request, a failed verification is unauthorized, and nothing finer leaks.

use vstd::prelude::*;
use vstd::utf8::encode_utf8;
use crate::outcome::StatusCategory;
use crate::token::{verify_session_spec, verify_tenant_spec, verify_session_token,
    verify_tenant_token};

verus! {

/// The seven characters every credential must open with.
pub open spec fn bearer_prefix() -> Seq<char> {
    seq!['B', 'e', 'a', 'r', 'e', 'r', ' ']
}

/// Whether a header value carries a bearer credential.
pub open spec fn spec_has_bearer(h: Seq<char>) -> bool {
    h.len() >= 7 && h.take(7) == bearer_prefix()
}

/// Strip the bearer prefix off a header value, if it is there.
pub fn strip_bearer(h: &str) -> (r: Option<String>)
    ensures
        r is Some <==> spec_has_bearer(h@),
        r matches Some(t) ==> t@ == h@.skip(7),
{
    let n = h.unicode_len();
    if n < 7 {
        return None;
    }
    let ok = h.get_char(0) == 'B' && h.get_char(1) == 'e' && h.get_char(2) == 'a' && h.get_char(3)
        == 'r' && h.get_char(4) == 'e' && h.get_char(5) == 'r' && h.get_char(6) == ' ';
    if ok {
        proof {
            assert(h@.take(7) =~= bearer_prefix());
        }
        let rest = h.substring_char(7, n);
        Some(String::from_str(rest))
    } else {
        proof {
            if h@.take(7) == bearer_prefix() {
                assert(h@[0] == h@.take(7)[0]);
                assert(h@[1] == h@.take(7)[1]);
                assert(h@[2] == h@.take(7)[2]);
                assert(h@[3] == h@.take(7)[3]);
                assert(h@[4] == h@.take(7)[4]);
                assert(h@[5] == h@.take(7)[5]);
                assert(h@[6] == h@.take(7)[6]);
            }
        }
        None
    }
}

/// Check the credential carried by an `Authorization` header against the
/// session-token rules. A missing header or one without the bearer prefix is
/// a bad request; a token that does not verify is unauthorized; a valid token
/// is acknowledged, and only a valid one.
pub fn verify_jwt(auth_header: Option<&str>, now: u64, secret: &[u8]) -> (r: (
    StatusCategory,
    String,
))
    ensures
        auth_header is None ==> r.0 == StatusCategory::BadRequest && r.1@
            == "Authorization header is required"@,
        auth_header matches Some(h) ==> ({
            &&& !spec_has_bearer(h@) ==> r.0 == StatusCategory::BadRequest && r.1@
                == "Authorization header must start with Bearer"@
            &&& spec_has_bearer(h@) ==> (r.0 == StatusCategory::Success || r.0
                == StatusCategory::Unauthorized)
            &&& spec_has_bearer(h@) && r.0 == StatusCategory::Success ==> verify_session_spec(
                encode_utf8(h@.skip(7)),
                now,
                secret@,
            ) is Some && r.1@ == "Valid token"@
            &&& spec_has_bearer(h@) && verify_session_spec(
                encode_utf8(h@.skip(7)),
                now,
                secret@,
            ) is None ==> r.0 == StatusCategory::Unauthorized && r.1@ == "Invalid token"@
            &&& spec_has_bearer(h@) && verify_session_spec(
                encode_utf8(h@.skip(7)),
                now,
                secret@,
            ) is Some ==> r.0 == StatusCategory::Success && r.1@ == "Valid token"@
        }),
{
    let h = match auth_header {
        None => {
            return (
                StatusCategory::BadRequest,
                String::from_str("Authorization header is required"),
            );
        },
        Some(h) => h,
    };
    let token = match strip_bearer(h) {
        None => {
            return (
                StatusCategory::BadRequest,
                String::from_str("Authorization header must start with Bearer"),
            );
        },
        Some(t) => t,
    };
    match verify_session_token(token.as_str(), now, secret) {
        Ok(_) => (StatusCategory::Success, String::from_str("Valid token")),
        Err(_) => (StatusCategory::Unauthorized, String::from_str("Invalid token")),
    }
}

/// Check the credential carried by an `Authorization` header against the
/// tenant-token rules: a valid tenant token, and only such a token, is
/// answered with the tenant id it vouches for.
pub fn verify_tenant_jwt(auth_header: Option<&str>, secret: &[u8]) -> (r: (
    StatusCategory,
    String,
))
    ensures
        auth_header is None ==> r.0 == StatusCategory::BadRequest && r.1@
            == "Authorization header is required"@,
        auth_header matches Some(h) ==> ({
            &&& !spec_has_bearer(h@) ==> r.0 == StatusCategory::BadRequest && r.1@
                == "Authorization header must start with Bearer"@
            &&& spec_has_bearer(h@) ==> (r.0 == StatusCategory::Success || r.0
                == StatusCategory::Unauthorized)
            &&& spec_has_bearer(h@) && r.0 == StatusCategory::Success ==> (verify_tenant_spec(
                encode_utf8(h@.skip(7)),
                secret@,
            ) matches Some(c) && c.tenantid == r.1@)
            &&& spec_has_bearer(h@) && verify_tenant_spec(
                encode_utf8(h@.skip(7)),
                secret@,
            ) is None ==> r.0 == StatusCategory::Unauthorized && r.1@ == "Invalid token"@
            &&& spec_has_bearer(h@) ==> (verify_tenant_spec(
                encode_utf8(h@.skip(7)),
                secret@,
            ) matches Some(c) ==> r.0 == StatusCategory::Success && r.1@ == c.tenantid)
        }),
{
    let h = match auth_header {
        None => {
            return (
                StatusCategory::BadRequest,
                String::from_str("Authorization header is required"),
            );
        },
        Some(h) => h,
    };
    let token = match strip_bearer(h) {
        None => {
            return (
                StatusCategory::BadRequest,
                String::from_str("Authorization header must start with Bearer"),
            );
        },
        Some(t) => t,
    };
    match verify_tenant_token(token.as_str(), secret) {
        Ok(claims) => (StatusCategory::Success, claims.tenantid),
        Err(_) => (StatusCategory::Unauthorized, String::from_str("Invalid token")),
    }
}

} // verus!
