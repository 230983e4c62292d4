//! The email side of code delivery: the envelope a verification message goes
//! out in, and the account used to send it. The sending itself is transport
//! work outside the library.

use vstd::prelude::*;

verus! {

/// One message ready to send: addresses, subject and plain-text body.
#[derive(Debug)]
pub struct EnvelopeContent {
    pub from: String,
    pub to: String,
    pub subject: String,
    pub body: String,
}

/// The mail relay and the credentials used against it.
#[derive(Debug)]
pub struct Mailer {
    pub host_addr: String,
    pub username: String,
    pub password: String,
}

/// The envelope of a verification message carrying a one-time code.
pub fn build_verification_email(from: &String, to: &String, code: &String) -> (r: EnvelopeContent)
    ensures
        r.from@ == from@,
        r.to@ == to@,
        r.subject@ == "Your verification code"@,
        r.body@ == "Your verification code is "@ + code@,
{
    EnvelopeContent {
        from: from.clone(),
        to: to.clone(),
        subject: String::from_str("Your verification code"),
        body: String::from_str("Your verification code is ").concat(code.as_str()),
    }
}

} // verus!
