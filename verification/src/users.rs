//! Storing a user record in a tenant's external store: the exact headers and
//! body of the request, built here; the transport that carries them lives
//! outside the library.

use vstd::prelude::*;

verus! {

/// Where the external tenant store lives and how to authenticate to it.
#[derive(Debug)]
pub struct DatabaseConfig {
    pub url: String,
    pub username: String,
    pub password: String,
}

/// A user to be stored and verified.
#[derive(Debug)]
pub struct User {
    pub username: String,
    pub password: String,
    pub client_domain: String,
}

/// The delivery endpoints a verification message can go out through.
#[derive(Debug)]
pub struct VerificationHost {
    pub sms: String,
    pub email: String,
}

/// The headers of a store-user request: JSON accepted, basic authentication,
/// and the tenant named as database and namespace.
pub fn create_req_headers(db_auth: &String, tenant: &String) -> (r: Vec<(String, String)>)
    ensures
        r@.len() == 4,
        r@[0].0@ == "Accept"@ && r@[0].1@ == "application/json"@,
        r@[1].0@ == "Authorization"@ && r@[1].1@ == "Basic "@ + db_auth@,
        r@[2].0@ == "DB"@ && r@[2].1@ == tenant@,
        r@[3].0@ == "NS"@ && r@[3].1@ == tenant@,
{
    let mut r: Vec<(String, String)> = Vec::new();
    r.push((String::from_str("Accept"), String::from_str("application/json")));
    r.push((String::from_str("Authorization"), String::from_str("Basic ").concat(
        db_auth.as_str(),
    )));
    r.push((String::from_str("DB"), tenant.clone()));
    r.push((String::from_str("NS"), tenant.clone()));
    r
}

/// The body of a store-user request: a create statement with the user's name
/// and password, not yet verified.
pub fn create_req_body(user: &User) -> (r: String)
    ensures
        r@ == "CREATE user CONTENT {\"username\": \""@ + user.username@ + "\", \"password\": \""@
            + user.password@ + "\", \"verified\": false}"@,
{
    String::from_str("CREATE user CONTENT {\"username\": \"").concat(user.username.as_str())
        .concat("\", \"password\": \"").concat(user.password.as_str()).concat(
        "\", \"verified\": false}",
    )
}

} // verus!
