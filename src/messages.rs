//! Plain records carried by the HTTP side of the service.
use vstd::prelude::*;

verus! {

/// Startup configuration.
pub struct Config {
    pub self_hosted: bool,
    pub self_hosted_key: String,
}

/// A request to add a player to the whitelist of a key's owner.
pub struct Request {
    pub client_key: String,
    pub player_id: String,
}

/// A reply to a [`Request`].
pub struct Respond {
    pub code: i8,
    pub msg: String,
}

/// The score of a submitted quiz and whether it passed.
pub struct SubmitResponse {
    pub score: i64,
    pub pass: bool,
}

/// A request to register a new key owner.
pub struct RegisterRequest {
    pub email: String,
    pub server_name: String,
    pub captcha_token: String,
}

/// The captcha service's answer.
pub struct CaptchaResponse {
    pub success: bool,
    pub error_codes: Option<Vec<String>>,
}

} // verus!
