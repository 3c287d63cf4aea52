//! Configuration shared by the handlers.
use vstd::prelude::*;

use crate::text::{push_str_chars, string_of};

verus! {

/// Credentials of the Strava API application.
pub struct StravaConfig {
    pub client_id: String,
    pub client_secret: String,
    pub redirect_uri: String,
    pub webhook_verify_token: String,
}

impl Clone for StravaConfig {
    fn clone(&self) -> (r: Self)
        ensures
            r == *self,
    {
        StravaConfig {
            client_id: self.client_id.clone(),
            client_secret: self.client_secret.clone(),
            redirect_uri: self.redirect_uri.clone(),
            webhook_verify_token: self.webhook_verify_token.clone(),
        }
    }
}


/// The Strava configuration from the values of `STRAVA_CLIENT_ID`,
/// `STRAVA_CLIENT_SECRET`, `STRAVA_REDIRECT_URI` and
/// `STRAVA_WEBHOOK_VERIFY_TOKEN`: the integration is enabled only when all
/// four are set.
pub fn strava_config_from(
    client_id: Option<String>,
    client_secret: Option<String>,
    redirect_uri: Option<String>,
    webhook_verify_token: Option<String>,
) -> (r: Option<StravaConfig>)
    ensures
        match (client_id, client_secret, redirect_uri, webhook_verify_token) {
            (Some(a), Some(b), Some(c), Some(d)) => r == Some(
                StravaConfig {
                    client_id: a,
                    client_secret: b,
                    redirect_uri: c,
                    webhook_verify_token: d,
                },
            ),
            _ => r is None,
        },
{
    match (client_id, client_secret, redirect_uri, webhook_verify_token) {
        (Some(client_id), Some(client_secret), Some(redirect_uri), Some(webhook_verify_token)) => {
            Some(StravaConfig { client_id, client_secret, redirect_uri, webhook_verify_token })
        },
        _ => None,
    }
}

/// The address the server listens on: all interfaces, on the port `PORT`
/// gives, 3000 by default.
pub open spec fn bind_address_text(port: Option<Seq<char>>) -> Seq<char> {
    "0.0.0.0:"@ + match port {
        Some(p) => p,
        None => "3000"@,
    }
}

/// The address the server listens on, from the value of `PORT`.
pub fn bind_address(port: Option<&str>) -> (r: String)
    ensures
        r@ == bind_address_text(
            match port {
                Some(p) => Some(p@),
                None => None,
            },
        ),
{
    let mut out: Vec<char> = Vec::new();
    push_str_chars(&mut out, "0.0.0.0:");
    match port {
        Some(p) => push_str_chars(&mut out, p),
        None => push_str_chars(&mut out, "3000"),
    }
    string_of(&out)
}

} // verus!
