//! Claim sets carried by signed tokens, and their fixed JSON payload shape.
//!
//! A session token carries [`UserClaims`]; a tenant token carries
//! [`TenantClaims`]. Payloads are printed and parsed by verified code, and
//! parsing is proved to invert printing.

use vstd::prelude::*;
use vstd::utf8::encode_utf8;
use crate::json::{
    esc, scan_str, scan_num, dec_of, esc_push, dec_push, scan_str_exec, scan_num_exec,
};

verus! {

/// The signed claim set of an end-user session token: issuer, issue and
/// expiry times (seconds since the epoch), audience (the tenant domain),
/// subject (the verified identity), and the fixed scope.
#[derive(Debug)]
pub struct UserClaims {
    pub iss: String,
    pub iat: u64,
    pub exp: u64,
    pub aud: String,
    pub sub: String,
    pub scope: String,
}

/// The mathematical content of [`UserClaims`].
pub ghost struct UserClaimsView {
    pub iss: Seq<char>,
    pub iat: u64,
    pub exp: u64,
    pub aud: Seq<char>,
    pub sub: Seq<char>,
    pub scope: Seq<char>,
}

impl View for UserClaims {
    type V = UserClaimsView;

    open spec fn view(&self) -> UserClaimsView {
        UserClaimsView {
            iss: self.iss@,
            iat: self.iat,
            exp: self.exp,
            aud: self.aud@,
            sub: self.sub@,
            scope: self.scope@,
        }
    }
}

/// The signed claim set of a tenant-context token.
#[derive(Debug)]
pub struct TenantClaims {
    pub tenantid: String,
}

/// The mathematical content of [`TenantClaims`].
pub ghost struct TenantClaimsView {
    pub tenantid: Seq<char>,
}

impl View for TenantClaims {
    type V = TenantClaimsView;

    open spec fn view(&self) -> TenantClaimsView {
        TenantClaimsView { tenantid: self.tenantid@ }
    }
}

// The literal pieces of the payload shape, as byte strings.
/// `{"iss":"`
pub open spec fn lit_head() -> Seq<u8> {
    seq![123u8, 34, 105, 115, 115, 34, 58, 34]
}

/// `,"iat":`
pub open spec fn lit_iat() -> Seq<u8> {
    seq![44u8, 34, 105, 97, 116, 34, 58]
}

/// `,"exp":`
pub open spec fn lit_exp() -> Seq<u8> {
    seq![44u8, 34, 101, 120, 112, 34, 58]
}

/// `,"aud":"`
pub open spec fn lit_aud() -> Seq<u8> {
    seq![44u8, 34, 97, 117, 100, 34, 58, 34]
}

/// `,"sub":"`
pub open spec fn lit_sub() -> Seq<u8> {
    seq![44u8, 34, 115, 117, 98, 34, 58, 34]
}

/// `,"scope":"`
pub open spec fn lit_scope() -> Seq<u8> {
    seq![44u8, 34, 115, 99, 111, 112, 101, 34, 58, 34]
}

/// `}`
pub open spec fn lit_end() -> Seq<u8> {
    seq![125u8]
}

/// `{"tenantid":"`
pub open spec fn lit_tenant_head() -> Seq<u8> {
    seq![123u8, 34, 116, 101, 110, 97, 110, 116, 105, 100, 34, 58, 34]
}

/// The JSON payload of a session token, over the UTF-8 bytes of the claims.
pub open spec fn session_payload_of(c: UserClaimsView) -> Seq<u8> {
    lit_head() + esc(encode_utf8(c.iss)) + seq![34u8] + lit_iat() + dec_of(c.iat as nat)
        + lit_exp() + dec_of(c.exp as nat) + lit_aud() + esc(encode_utf8(c.aud)) + seq![34u8]
        + lit_sub() + esc(encode_utf8(c.sub)) + seq![34u8] + lit_scope() + esc(
        encode_utf8(c.scope),
    ) + seq![34u8] + lit_end()
}

/// The JSON payload of a tenant token.
pub open spec fn tenant_payload_of(c: TenantClaimsView) -> Seq<u8> {
    lit_tenant_head() + esc(encode_utf8(c.tenantid)) + seq![34u8] + lit_end()
}

/// Whether `p` is a prefix of `s`.
pub open spec fn starts_with(s: Seq<u8>, p: Seq<u8>) -> bool {
    p.len() <= s.len() && s.take(p.len() as int) == p
}

/// The fields recovered from a session payload, still as raw bytes.
pub ghost struct SessionPayloadParts {
    pub iss: Seq<u8>,
    pub iat: u64,
    pub exp: u64,
    pub aud: Seq<u8>,
    pub sub: Seq<u8>,
    pub scope: Seq<u8>,
}

/// Consume an exact literal prefix.
pub open spec fn take_lit(s: Seq<u8>, lit: Seq<u8>) -> Option<Seq<u8>> {
    if starts_with(s, lit) {
        Some(s.skip(lit.len() as int))
    } else {
        None
    }
}

/// Consume a JSON string body and its closing quote.
pub open spec fn take_str(s: Seq<u8>) -> Option<(Seq<u8>, Seq<u8>)> {
    match scan_str(s) {
        Some((r, k)) => Some((r, s.skip(k))),
        None => None,
    }
}

/// Consume a decimal number.
pub open spec fn take_num(s: Seq<u8>) -> Option<(u64, Seq<u8>)> {
    match scan_num(s) {
        Some((v, k)) => Some((v, s.skip(k))),
        None => None,
    }
}

/// Consume the `iat` and `exp` fields with the literals around them.
pub open spec fn parse_session_times(s: Seq<u8>) -> Option<(u64, u64, Seq<u8>)> {
    match take_lit(s, lit_iat()) {
        None => None,
        Some(s1) => match take_num(s1) {
            None => None,
            Some((iat, s2)) => match take_lit(s2, lit_exp()) {
                None => None,
                Some(s3) => match take_num(s3) {
                    None => None,
                    Some((exp, s4)) => Some((iat, exp, s4)),
                },
            },
        },
    }
}

/// Consume the `aud`, `sub` and `scope` fields and the closing brace.
pub open spec fn parse_session_strings(s: Seq<u8>) -> Option<(Seq<u8>, Seq<u8>, Seq<u8>)> {
    match take_lit(s, lit_aud()) {
        None => None,
        Some(s1) => match take_str(s1) {
            None => None,
            Some((aud, s2)) => match take_lit(s2, lit_sub()) {
                None => None,
                Some(s3) => match take_str(s3) {
                    None => None,
                    Some((sub, s4)) => match take_lit(s4, lit_scope()) {
                        None => None,
                        Some(s5) => match take_str(s5) {
                            None => None,
                            Some((scope, s6)) => if s6 == lit_end() {
                                Some((aud, sub, scope))
                            } else {
                                None
                            },
                        },
                    },
                },
            },
        },
    }
}

/// Parse a session payload: exactly the shape that
/// [`session_payload_of`] prints, and nothing else.
pub open spec fn parse_session_payload(s: Seq<u8>) -> Option<SessionPayloadParts> {
    match take_lit(s, lit_head()) {
        None => None,
        Some(s1) => match take_str(s1) {
            None => None,
            Some((iss, s2)) => match parse_session_times(s2) {
                None => None,
                Some((iat, exp, s3)) => match parse_session_strings(s3) {
                    None => None,
                    Some((aud, sub, scope)) => Some(
                        SessionPayloadParts { iss, iat, exp, aud, sub, scope },
                    ),
                },
            },
        },
    }
}

/// Parse a tenant payload: exactly the shape of [`tenant_payload_of`].
pub open spec fn parse_tenant_payload(s: Seq<u8>) -> Option<Seq<u8>> {
    match take_lit(s, lit_tenant_head()) {
        None => None,
        Some(s1) => match take_str(s1) {
            None => None,
            Some((t, s2)) => if s2 == lit_end() {
                Some(t)
            } else {
                None
            },
        },
    }
}

proof fn lemma_times_round_trip(iat: u64, exp: u64, rest: Seq<u8>)
    requires
        rest.len() > 0,
        !crate::json::is_digit(rest[0]),
    ensures
        parse_session_times(lit_iat() + dec_of(iat as nat) + lit_exp() + dec_of(exp as nat) + rest)
            == Some((iat, exp, rest)),
{
    let s = lit_iat() + dec_of(iat as nat) + lit_exp() + dec_of(exp as nat) + rest;
    assert(starts_with(s, lit_iat())) by {
        assert(s.take(lit_iat().len() as int) =~= lit_iat());
    }
    let s1 = s.skip(lit_iat().len() as int);
    let rest1 = lit_exp() + dec_of(exp as nat) + rest;
    assert(s1 =~= dec_of(iat as nat) + rest1);
    assert(rest1[0] == 44);
    crate::json::lemma_scan_num(iat, rest1);
    let s2 = s1.skip(dec_of(iat as nat).len() as int);
    assert(s2 =~= rest1);
    assert(starts_with(s2, lit_exp())) by {
        assert(s2.take(lit_exp().len() as int) =~= lit_exp());
    }
    let s3 = s2.skip(lit_exp().len() as int);
    assert(s3 =~= dec_of(exp as nat) + rest);
    crate::json::lemma_scan_num(exp, rest);
    let s4 = s3.skip(dec_of(exp as nat).len() as int);
    assert(s4 =~= rest);
}

#[verifier::rlimit(100)]
proof fn lemma_strings_round_trip(aud: Seq<u8>, sub: Seq<u8>, scope: Seq<u8>)
    ensures
        parse_session_strings(
            lit_aud() + esc(aud) + seq![34u8] + lit_sub() + esc(sub) + seq![34u8] + lit_scope()
                + esc(scope) + seq![34u8] + lit_end(),
        ) == Some((aud, sub, scope)),
{
    let s = lit_aud() + esc(aud) + seq![34u8] + lit_sub() + esc(sub) + seq![34u8] + lit_scope()
        + esc(scope) + seq![34u8] + lit_end();
    assert(starts_with(s, lit_aud())) by {
        assert(s.take(lit_aud().len() as int) =~= lit_aud());
    }
    let s1 = s.skip(lit_aud().len() as int);
    let rest1 = lit_sub() + esc(sub) + seq![34u8] + lit_scope() + esc(scope) + seq![34u8]
        + lit_end();
    assert(s1 =~= esc(aud) + seq![34u8] + rest1);
    crate::json::lemma_scan_esc(aud, rest1);
    let s2 = s1.skip(esc(aud).len() as int + 1);
    assert(s2 =~= rest1);
    assert(starts_with(s2, lit_sub())) by {
        assert(s2.take(lit_sub().len() as int) =~= lit_sub());
    }
    let s3 = s2.skip(lit_sub().len() as int);
    let rest3 = lit_scope() + esc(scope) + seq![34u8] + lit_end();
    assert(s3 =~= esc(sub) + seq![34u8] + rest3);
    crate::json::lemma_scan_esc(sub, rest3);
    let s4 = s3.skip(esc(sub).len() as int + 1);
    assert(s4 =~= rest3);
    assert(starts_with(s4, lit_scope())) by {
        assert(s4.take(lit_scope().len() as int) =~= lit_scope());
    }
    let s5 = s4.skip(lit_scope().len() as int);
    assert(s5 =~= esc(scope) + seq![34u8] + lit_end());
    crate::json::lemma_scan_esc(scope, lit_end());
    let s6 = s5.skip(esc(scope).len() as int + 1);
    assert(s6 =~= lit_end());
}

/// Parsing a printed session payload recovers the claims' bytes.
pub proof fn lemma_session_payload_round_trip(c: UserClaimsView)
    ensures
        parse_session_payload(session_payload_of(c)) == Some(
            SessionPayloadParts {
                iss: encode_utf8(c.iss),
                iat: c.iat,
                exp: c.exp,
                aud: encode_utf8(c.aud),
                sub: encode_utf8(c.sub),
                scope: encode_utf8(c.scope),
            },
        ),
{
    let s = session_payload_of(c);
    let iss_b = encode_utf8(c.iss);
    let aud_b = encode_utf8(c.aud);
    let sub_b = encode_utf8(c.sub);
    let scope_b = encode_utf8(c.scope);
    let strings_part = lit_aud() + esc(aud_b) + seq![34u8] + lit_sub() + esc(sub_b) + seq![34u8]
        + lit_scope() + esc(scope_b) + seq![34u8] + lit_end();
    let times_part = lit_iat() + dec_of(c.iat as nat) + lit_exp() + dec_of(c.exp as nat)
        + strings_part;
    assert(starts_with(s, lit_head())) by {
        assert(s.take(lit_head().len() as int) =~= lit_head());
    }
    let s1 = s.skip(lit_head().len() as int);
    assert(s1 =~= esc(iss_b) + seq![34u8] + times_part);
    crate::json::lemma_scan_esc(iss_b, times_part);
    let s2 = s1.skip(esc(iss_b).len() as int + 1);
    assert(s2 =~= times_part);
    assert(strings_part[0] == 44);
    lemma_times_round_trip(c.iat, c.exp, strings_part);
    lemma_strings_round_trip(aud_b, sub_b, scope_b);
}

/// Parsing a printed tenant payload recovers the tenant id's bytes.
pub proof fn lemma_tenant_payload_round_trip(c: TenantClaimsView)
    ensures
        parse_tenant_payload(tenant_payload_of(c)) == Some(encode_utf8(c.tenantid)),
{
    let s = tenant_payload_of(c);
    let t_b = encode_utf8(c.tenantid);
    assert(starts_with(s, lit_tenant_head())) by {
        assert(s.take(lit_tenant_head().len() as int) =~= lit_tenant_head());
    }
    let s1 = s.skip(lit_tenant_head().len() as int);
    assert(s1 =~= esc(t_b) + seq![34u8] + lit_end());
    crate::json::lemma_scan_esc(t_b, lit_end());
    let s2 = s1.skip(esc(t_b).len() as int + 1);
    assert(s2 =~= lit_end());
}

// Executable builders for the literal pieces.
fn lit_head_vec() -> (v: Vec<u8>)
    ensures
        v@ == lit_head(),
{
    let mut v: Vec<u8> = Vec::new();
    v.push(123);
    v.push(34);
    v.push(105);
    v.push(115);
    v.push(115);
    v.push(34);
    v.push(58);
    v.push(34);
    proof {
        assert(v@ =~= lit_head());
    }
    v
}

fn lit_iat_vec() -> (v: Vec<u8>)
    ensures
        v@ == lit_iat(),
{
    let mut v: Vec<u8> = Vec::new();
    v.push(44);
    v.push(34);
    v.push(105);
    v.push(97);
    v.push(116);
    v.push(34);
    v.push(58);
    proof {
        assert(v@ =~= lit_iat());
    }
    v
}

fn lit_exp_vec() -> (v: Vec<u8>)
    ensures
        v@ == lit_exp(),
{
    let mut v: Vec<u8> = Vec::new();
    v.push(44);
    v.push(34);
    v.push(101);
    v.push(120);
    v.push(112);
    v.push(34);
    v.push(58);
    proof {
        assert(v@ =~= lit_exp());
    }
    v
}

fn lit_aud_vec() -> (v: Vec<u8>)
    ensures
        v@ == lit_aud(),
{
    let mut v: Vec<u8> = Vec::new();
    v.push(44);
    v.push(34);
    v.push(97);
    v.push(117);
    v.push(100);
    v.push(34);
    v.push(58);
    v.push(34);
    proof {
        assert(v@ =~= lit_aud());
    }
    v
}

fn lit_sub_vec() -> (v: Vec<u8>)
    ensures
        v@ == lit_sub(),
{
    let mut v: Vec<u8> = Vec::new();
    v.push(44);
    v.push(34);
    v.push(115);
    v.push(117);
    v.push(98);
    v.push(34);
    v.push(58);
    v.push(34);
    proof {
        assert(v@ =~= lit_sub());
    }
    v
}

fn lit_scope_vec() -> (v: Vec<u8>)
    ensures
        v@ == lit_scope(),
{
    let mut v: Vec<u8> = Vec::new();
    v.push(44);
    v.push(34);
    v.push(115);
    v.push(99);
    v.push(111);
    v.push(112);
    v.push(101);
    v.push(34);
    v.push(58);
    v.push(34);
    proof {
        assert(v@ =~= lit_scope());
    }
    v
}

fn lit_tenant_head_vec() -> (v: Vec<u8>)
    ensures
        v@ == lit_tenant_head(),
{
    let mut v: Vec<u8> = Vec::new();
    v.push(123);
    v.push(34);
    v.push(116);
    v.push(101);
    v.push(110);
    v.push(97);
    v.push(110);
    v.push(116);
    v.push(105);
    v.push(100);
    v.push(34);
    v.push(58);
    v.push(34);
    proof {
        assert(v@ =~= lit_tenant_head());
    }
    v
}

/// Whether the bytes starting at `i` begin with `pat`; on success the index
/// just past it.
fn expect_pat(s: &[u8], i: usize, pat: &[u8]) -> (r: Option<usize>)
    requires
        i <= s@.len(),
    ensures
        r is Some <==> starts_with(s@.skip(i as int), pat@),
        r matches Some(j) ==> j == i + pat@.len() && j <= s@.len(),
{
    let m = pat.len();
    let n = s.len();
    if n - i < m {
        proof {
            assert(s@.skip(i as int).len() < pat@.len());
        }
        return None;
    }
    let mut q: usize = 0;
    while q < m
        invariant
            q <= m,
            i + m <= n,
            n == s@.len(),
            m == pat@.len(),
            forall|t: int| 0 <= t < q ==> s@[i + t] == pat@[t],
        decreases m - q,
    {
        if s[i + q] != pat[q] {
            proof {
                assert(s@.skip(i as int)[q as int] == s@[i + q]);
                assert(!starts_with(s@.skip(i as int), pat@)) by {
                    if starts_with(s@.skip(i as int), pat@) {
                        assert(s@.skip(i as int).take(m as int)[q as int] == pat@[q as int]);
                    }
                }
            }
            return None;
        }
        q = q + 1;
    }
    proof {
        assert(s@.skip(i as int).take(m as int) =~= pat@);
    }
    Some(i + m)
}

/// Print the session payload of `c`.
pub fn session_payload_bytes(c: &UserClaims) -> (r: Vec<u8>)
    ensures
        r@ == session_payload_of(c@),
{
    let mut out = lit_head_vec();
    esc_push(&mut out, c.iss.as_str().as_bytes());
    out.push(34);
    let mut piece_iat = lit_iat_vec();
    out.append(&mut piece_iat);
    dec_push(&mut out, c.iat);
    let mut piece_exp = lit_exp_vec();
    out.append(&mut piece_exp);
    dec_push(&mut out, c.exp);
    let mut piece_aud = lit_aud_vec();
    out.append(&mut piece_aud);
    esc_push(&mut out, c.aud.as_str().as_bytes());
    out.push(34);
    let mut piece_sub = lit_sub_vec();
    out.append(&mut piece_sub);
    esc_push(&mut out, c.sub.as_str().as_bytes());
    out.push(34);
    let mut piece_scope = lit_scope_vec();
    out.append(&mut piece_scope);
    esc_push(&mut out, c.scope.as_str().as_bytes());
    out.push(34);
    out.push(125);
    proof {
        assert(out@ =~= session_payload_of(c@));
    }
    out
}

/// Print the tenant payload of `c`.
pub fn tenant_payload_bytes(c: &TenantClaims) -> (r: Vec<u8>)
    ensures
        r@ == tenant_payload_of(c@),
{
    let mut out = lit_tenant_head_vec();
    esc_push(&mut out, c.tenantid.as_str().as_bytes());
    out.push(34);
    out.push(125);
    proof {
        assert(out@ =~= tenant_payload_of(c@));
    }
    out
}

/// Parse a session payload, per [`parse_session_payload`].
#[verifier::rlimit(100)]
pub fn parse_session_payload_exec(s: &[u8]) -> (r: Option<
    (Vec<u8>, u64, u64, Vec<u8>, Vec<u8>, Vec<u8>),
>)
    ensures
        r is Some <==> parse_session_payload(s@) is Some,
        r matches Some((iss, iat, exp, aud, sub, scope)) ==> parse_session_payload(s@) == Some(
            SessionPayloadParts {
                iss: iss@,
                iat,
                exp,
                aud: aud@,
                sub: sub@,
                scope: scope@,
            },
        ),
{
    let head = lit_head_vec();
    let i0 = match expect_pat(s, 0, head.as_slice()) {
        Some(i) => i,
        None => {
            proof {
                assert(s@.skip(0) =~= s@);
            }
            return None;
        },
    };
    proof {
        assert(s@.skip(0) =~= s@);
    }
    let (iss, k1) = match scan_str_exec(s, i0) {
        Some(p) => p,
        None => {
            return None;
        },
    };
    let ghost s1 = s@.skip(i0 as int);
    proof {
        assert(i0 + k1 <= s@.len());
        assert(s@.len() == s.len());
    }
    let i1 = i0 + k1;
    proof {
        assert(s1.skip(k1 as int) =~= s@.skip(i1 as int));
    }
    let pat_iat = lit_iat_vec();
    let i2 = match expect_pat(s, i1, pat_iat.as_slice()) {
        Some(i) => i,
        None => {
            return None;
        },
    };
    proof {
        assert(s@.skip(i1 as int).skip(lit_iat().len() as int) =~= s@.skip(i2 as int));
    }
    let (iat, k2) = match scan_num_exec(s, i2) {
        Some(p) => p,
        None => {
            return None;
        },
    };
    proof {
        assert(i2 + k2 <= s@.len());
        assert(s@.len() == s.len());
    }
    let i3 = i2 + k2;
    proof {
        assert(s@.skip(i2 as int).skip(k2 as int) =~= s@.skip(i3 as int));
    }
    let pat_exp = lit_exp_vec();
    let i4 = match expect_pat(s, i3, pat_exp.as_slice()) {
        Some(i) => i,
        None => {
            return None;
        },
    };
    proof {
        assert(s@.skip(i3 as int).skip(lit_exp().len() as int) =~= s@.skip(i4 as int));
    }
    let (exp, k3) = match scan_num_exec(s, i4) {
        Some(p) => p,
        None => {
            return None;
        },
    };
    proof {
        assert(i4 + k3 <= s@.len());
        assert(s@.len() == s.len());
    }
    let i5 = i4 + k3;
    proof {
        assert(s@.skip(i4 as int).skip(k3 as int) =~= s@.skip(i5 as int));
    }
    let pat_aud = lit_aud_vec();
    let i6 = match expect_pat(s, i5, pat_aud.as_slice()) {
        Some(i) => i,
        None => {
            return None;
        },
    };
    proof {
        assert(s@.skip(i5 as int).skip(lit_aud().len() as int) =~= s@.skip(i6 as int));
    }
    let (aud, k4) = match scan_str_exec(s, i6) {
        Some(p) => p,
        None => {
            return None;
        },
    };
    proof {
        assert(i6 + k4 <= s@.len());
        assert(s@.len() == s.len());
    }
    let i7 = i6 + k4;
    proof {
        assert(s@.skip(i6 as int).skip(k4 as int) =~= s@.skip(i7 as int));
    }
    let pat_sub = lit_sub_vec();
    let i8 = match expect_pat(s, i7, pat_sub.as_slice()) {
        Some(i) => i,
        None => {
            return None;
        },
    };
    proof {
        assert(s@.skip(i7 as int).skip(lit_sub().len() as int) =~= s@.skip(i8 as int));
    }
    let (sub, k5) = match scan_str_exec(s, i8) {
        Some(p) => p,
        None => {
            return None;
        },
    };
    proof {
        assert(i8 + k5 <= s@.len());
        assert(s@.len() == s.len());
    }
    let i9 = i8 + k5;
    proof {
        assert(s@.skip(i8 as int).skip(k5 as int) =~= s@.skip(i9 as int));
    }
    let pat_scope = lit_scope_vec();
    let i10 = match expect_pat(s, i9, pat_scope.as_slice()) {
        Some(i) => i,
        None => {
            return None;
        },
    };
    proof {
        assert(s@.skip(i9 as int).skip(lit_scope().len() as int) =~= s@.skip(i10 as int));
    }
    let (scope, k6) = match scan_str_exec(s, i10) {
        Some(p) => p,
        None => {
            return None;
        },
    };
    proof {
        assert(i10 + k6 <= s@.len());
        assert(s@.len() == s.len());
    }
    let i11 = i10 + k6;
    proof {
        assert(s@.skip(i10 as int).skip(k6 as int) =~= s@.skip(i11 as int));
    }
    if s.len() - i11 == 1 && s[i11] == 125 {
        proof {
            assert(s@.skip(i11 as int) =~= lit_end());
        }
        Some((iss, iat, exp, aud, sub, scope))
    } else {
        proof {
            if s@.skip(i11 as int) == lit_end() {
                assert(s@.skip(i11 as int).len() == 1);
                assert(s@.skip(i11 as int)[0] == 125);
            }
        }
        None
    }
}

/// Parse a tenant payload, per [`parse_tenant_payload`].
pub fn parse_tenant_payload_exec(s: &[u8]) -> (r: Option<Vec<u8>>)
    ensures
        r is Some <==> parse_tenant_payload(s@) is Some,
        r matches Some(t) ==> parse_tenant_payload(s@) == Some(t@),
{
    let head = lit_tenant_head_vec();
    let i0 = match expect_pat(s, 0, head.as_slice()) {
        Some(i) => i,
        None => {
            proof {
                assert(s@.skip(0) =~= s@);
            }
            return None;
        },
    };
    proof {
        assert(s@.skip(0) =~= s@);
    }
    let (t, k) = match scan_str_exec(s, i0) {
        Some(p) => p,
        None => {
            return None;
        },
    };
    proof {
        assert(i0 + k <= s@.len());
        assert(s@.len() == s.len());
    }
    let i1 = i0 + k;
    proof {
        assert(s@.skip(i0 as int).skip(k as int) =~= s@.skip(i1 as int));
    }
    if s.len() - i1 == 1 && s[i1] == 125 {
        proof {
            assert(s@.skip(i1 as int) =~= lit_end());
        }
        Some(t)
    } else {
        proof {
            if s@.skip(i1 as int) == lit_end() {
                assert(s@.skip(i1 as int).len() == 1);
                assert(s@.skip(i1 as int)[0] == 125);
            }
        }
        None
    }
}

} // verus!
