//! Who may call the gateway.
use vstd::prelude::*;
use vstd::string::*;

use crate::server::exceptions;
use crate::server::exceptions::ApiError;
use crate::text;

verus! {

/// The token of an `Authorization` header, where it carries one.
pub open spec fn bearer_of(header: Option<Seq<char>>) -> Option<Seq<char>> {
    match header {
        Some(h) => match text::after_prefix(h, "Bearer "@) {
            Some(rest) => Some(text::trim_of(rest)),
            None => None,
        },
        None => None,
    }
}

/// The token of an `Authorization` header, where it carries one.
pub fn extract_bearer(header: &Option<String>) -> (r: Option<String>)
    ensures
        text::text_opt(r) == bearer_of(text::text_opt(*header)),
{
    match header {
        Some(h) => match text::strip_prefix(h.as_str(), "Bearer ") {
            Some(rest) => Some(text::trim(rest.as_str())),
            None => None,
        },
        None => None,
    }
}

/// Why a header is refused that does not carry the expected token.
pub open spec fn refusal(header: Option<Seq<char>>) -> Seq<char> {
    if bearer_of(header) is Some {
        "Invalid authentication token"@
    } else {
        "Missing authentication token"@
    }
}

fn expect_token(header: &Option<String>, key: &str) -> (r: Result<(), ApiError>)
    ensures
        match r {
            Ok(_) => bearer_of(text::text_opt(*header)) == Some(key@),
            Err(e) => bearer_of(text::text_opt(*header)) != Some(key@) && e@
                == exceptions::authentication_of(refusal(text::text_opt(*header))),
        },
{
    match extract_bearer(header) {
        Some(token) => if text::same_text(token.as_str(), key) {
            Ok(())
        } else {
            Err(ApiError::authentication("Invalid authentication token"))
        },
        None => Err(ApiError::authentication("Missing authentication token")),
    }
}

/// Lets a request pass whose header carries `api_key`, and every request
/// where no key is configured.
pub fn verify_api_key(header: &Option<String>, api_key: &str) -> (r: Result<(), ApiError>)
    ensures
        match r {
            Ok(_) => api_key@.len() == 0 || bearer_of(text::text_opt(*header)) == Some(api_key@),
            Err(e) => api_key@.len() > 0 && bearer_of(text::text_opt(*header)) != Some(api_key@)
                && e@ == exceptions::authentication_of(refusal(text::text_opt(*header))),
        },
{
    if text::is_empty(api_key) {
        return Ok(());
    }
    expect_token(header, api_key)
}

/// Lets a request pass whose header carries `app_key`, and no request where
/// no key is configured.
pub fn verify_app_key(header: &Option<String>, app_key: &str) -> (r: Result<(), ApiError>)
    ensures
        match r {
            Ok(_) => app_key@.len() > 0 && bearer_of(text::text_opt(*header)) == Some(app_key@),
            Err(e) => (app_key@.len() == 0 || bearer_of(text::text_opt(*header)) != Some(app_key@))
                && e@ == exceptions::authentication_of(
                if app_key@.len() == 0 {
                    "App key is not configured"@
                } else {
                    refusal(text::text_opt(*header))
                },
            ),
        },
{
    if text::is_empty(app_key) {
        return Err(ApiError::authentication("App key is not configured"));
    }
    expect_token(header, app_key)
}

/// The token that a query parameter carries, with or without `Bearer`.
pub open spec fn query_token(q: Seq<char>) -> Seq<char> {
    match text::after_prefix(q, "Bearer "@) {
        Some(rest) => text::trim_of(rest),
        None => text::trim_of(q),
    }
}

/// Whether a query parameter lets a request pass.
pub open spec fn query_passes(query_key: Option<Seq<char>>, api_key: Seq<char>) -> bool {
    api_key.len() == 0 || (query_key is Some && query_token(query_key->0) == api_key)
}

/// Lets a request pass whose query parameter carries `api_key`, and every
/// request where no key is configured.
pub fn verify_stream_api_key(query_key: &Option<String>, api_key: &str) -> (r: Result<
    (),
    ApiError,
>)
    ensures
        match r {
            Ok(_) => query_passes(text::text_opt(*query_key), api_key@),
            Err(e) => !query_passes(text::text_opt(*query_key), api_key@) && e@
                == exceptions::authentication_of("Invalid authentication token"@),
        },
{
    if text::is_empty(api_key) {
        return Ok(());
    }
    if let Some(q) = query_key {
        let raw = match text::strip_prefix(q.as_str(), "Bearer ") {
            Some(rest) => text::trim(rest.as_str()),
            None => text::trim(q.as_str()),
        };
        if text::same_text(raw.as_str(), api_key) {
            return Ok(());
        }
    }
    Err(ApiError::authentication("Invalid authentication token"))
}

} // verus!
