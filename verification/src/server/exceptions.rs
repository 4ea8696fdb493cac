//! Errors as they are answered to a client.
use vstd::prelude::*;
use vstd::string::*;

use crate::json;
use crate::json::{Fields, Json, JsonV};
use crate::text;

verus! {

/// The kind of an error.
#[derive(Clone, Copy, Debug, PartialEq, Eq, Structural)]
pub enum ErrorType {
    InvalidRequestError,
    AuthenticationError,
    PermissionError,
    NotFoundError,
    RateLimitError,
    ServerError,
    ServiceUnavailableError,
}

impl ErrorType {
    /// The name under which the kind is answered.
    pub open spec fn name_of(self) -> Seq<char> {
        match self {
            ErrorType::InvalidRequestError => "invalid_request_error"@,
            ErrorType::AuthenticationError => "authentication_error"@,
            ErrorType::PermissionError => "permission_error"@,
            ErrorType::NotFoundError => "not_found_error"@,
            ErrorType::RateLimitError => "rate_limit_error"@,
            ErrorType::ServerError => "server_error"@,
            ErrorType::ServiceUnavailableError => "service_unavailable_error"@,
        }
    }

    /// The name under which the kind is answered.
    pub fn name(&self) -> (r: &'static str)
        ensures
            r@ == self.name_of(),
    {
        match *self {
            ErrorType::InvalidRequestError => "invalid_request_error",
            ErrorType::AuthenticationError => "authentication_error",
            ErrorType::PermissionError => "permission_error",
            ErrorType::NotFoundError => "not_found_error",
            ErrorType::RateLimitError => "rate_limit_error",
            ErrorType::ServerError => "server_error",
            ErrorType::ServiceUnavailableError => "service_unavailable_error",
        }
    }
}

/// What is said of an error.
#[derive(Debug)]
pub struct ErrorBody {
    pub message: String,
    pub error_type: ErrorType,
    pub param: Option<String>,
    pub code: Option<String>,
}

/// The body of an answer that reports an error.
#[derive(Debug)]
pub struct ErrorResponse {
    pub error: ErrorBody,
}

/// An error and the HTTP status with which it is answered.
#[derive(Debug)]
pub struct ApiError {
    pub status: u16,
    pub body: ErrorBody,
}

/// The mathematical value of an [`ErrorBody`].
pub struct BodyV {
    pub message: Seq<char>,
    pub error_type: ErrorType,
    pub param: Option<Seq<char>>,
    pub code: Option<Seq<char>>,
}

/// The mathematical value of an [`ApiError`].
pub struct ErrorV {
    pub status: u16,
    pub body: BodyV,
}

impl View for ErrorBody {
    type V = BodyV;

    open spec fn view(&self) -> BodyV {
        BodyV {
            message: self.message@,
            error_type: self.error_type,
            param: text::text_opt(self.param),
            code: text::text_opt(self.code),
        }
    }
}

impl Clone for ErrorBody {
    fn clone(&self) -> (r: ErrorBody)
        ensures
            r@ == self@,
    {
        ErrorBody {
            message: self.message.clone(),
            error_type: self.error_type,
            param: text::copy_opt(&self.param),
            code: text::copy_opt(&self.code),
        }
    }
}

impl Clone for ErrorResponse {
    fn clone(&self) -> (r: ErrorResponse)
        ensures
            r.error@ == self.error@,
    {
        ErrorResponse { error: self.error.clone() }
    }
}

impl Clone for ApiError {
    fn clone(&self) -> (r: ApiError)
        ensures
            r@ == self@,
    {
        ApiError { status: self.status, body: self.body.clone() }
    }
}

impl View for ApiError {
    type V = ErrorV;

    open spec fn view(&self) -> ErrorV {
        ErrorV { status: self.status, body: self.body@ }
    }
}

/// The error with this status, message, kind and code, about no parameter.
pub open spec fn error_of(
    status: u16,
    message: Seq<char>,
    error_type: ErrorType,
    code: Option<Seq<char>>,
) -> ErrorV {
    ErrorV { status, body: BodyV { message, error_type, param: None, code } }
}

/// A request that is refused for what it says.
pub open spec fn invalid_request_of(message: Seq<char>) -> ErrorV {
    error_of(400, message, ErrorType::InvalidRequestError, Some("invalid_value"@))
}

/// A request that is refused for who sends it.
pub open spec fn authentication_of(message: Seq<char>) -> ErrorV {
    error_of(401, message, ErrorType::AuthenticationError, Some("invalid_api_key"@))
}

/// Something that does not exist.
pub open spec fn not_found_of(message: Seq<char>) -> ErrorV {
    error_of(404, message, ErrorType::NotFoundError, Some("model_not_found"@))
}

/// Nothing is left to serve the request with.
pub open spec fn rate_limit_of(message: Seq<char>) -> ErrorV {
    error_of(429, message, ErrorType::RateLimitError, Some("rate_limit_exceeded"@))
}

/// A failure of the gateway.
pub open spec fn server_of(message: Seq<char>) -> ErrorV {
    error_of(500, message, ErrorType::ServerError, Some("internal_error"@))
}

/// A failure of the service behind the gateway.
pub open spec fn upstream_of(message: Seq<char>) -> ErrorV {
    error_of(502, message, ErrorType::ServerError, Some("upstream_error"@))
}

/// The JSON of an error body.
pub open spec fn body_json(b: BodyV) -> JsonV {
    JsonV::Object(
        seq![
            ("message"@, JsonV::Str(b.message)),
            ("type"@, JsonV::Str(b.error_type.name_of())),
            ("param"@, json::opt_text_model(b.param)),
            ("code"@, json::opt_text_model(b.code)),
        ],
    )
}

impl ErrorBody {
    /// The JSON of this body.
    pub fn to_json(&self) -> (r: Json)
        ensures
            r@ == body_json(self@),
    {
        let mut f = Fields::new();
        f.add("message", json::text_value(self.message.as_str()));
        f.add("type", json::text_value(self.error_type.name()));
        f.add("param", json::opt_text_value(&self.param));
        f.add("code", json::opt_text_value(&self.code));
        proof {
            assert(f@ =~= body_json(self@)->Object_0);
        }
        f.object()
    }
}

impl ErrorResponse {
    /// The JSON that is answered.
    pub fn to_json(&self) -> (r: Json)
        ensures
            r@ == JsonV::Object(seq![("error"@, body_json(self.error@))]),
    {
        let mut f = Fields::new();
        f.add("error", self.error.to_json());
        proof {
            assert(f@ =~= seq![("error"@, body_json(self.error@))]);
        }
        f.object()
    }
}

impl ApiError {
    /// An error about no parameter and without a code.
    pub fn new(status: u16, message: &str, error_type: ErrorType) -> (r: ApiError)
        ensures
            r@ == error_of(status, message@, error_type, None),
    {
        ApiError {
            status,
            body: ErrorBody {
                message: String::from_str(message),
                error_type,
                param: None,
                code: None,
            },
        }
    }

    /// This error, said to be about `param`.
    pub fn with_param(self, param: &str) -> (r: ApiError)
        ensures
            r@ == (ErrorV { body: BodyV { param: Some(param@), ..self@.body }, ..self@ }),
    {
        let mut e = self;
        e.body.param = Some(String::from_str(param));
        e
    }

    /// This error, with the code `code`.
    pub fn with_code(self, code: &str) -> (r: ApiError)
        ensures
            r@ == (ErrorV { body: BodyV { code: Some(code@), ..self@.body }, ..self@ }),
    {
        let mut e = self;
        e.body.code = Some(String::from_str(code));
        e
    }

    /// A request that is refused for what it says.
    pub fn invalid_request(message: &str) -> (r: ApiError)
        ensures
            r@ == invalid_request_of(message@),
    {
        ApiError::new(400, message, ErrorType::InvalidRequestError).with_code("invalid_value")
    }

    /// A request that is refused for who sends it.
    pub fn authentication(message: &str) -> (r: ApiError)
        ensures
            r@ == authentication_of(message@),
    {
        ApiError::new(401, message, ErrorType::AuthenticationError).with_code("invalid_api_key")
    }

    /// A request that the sender may not make.
    pub fn permission(message: &str) -> (r: ApiError)
        ensures
            r@ == error_of(
                403,
                message@,
                ErrorType::PermissionError,
                Some("insufficient_quota"@),
            ),
    {
        ApiError::new(403, message, ErrorType::PermissionError).with_code("insufficient_quota")
    }

    /// Something that does not exist.
    pub fn not_found(message: &str) -> (r: ApiError)
        ensures
            r@ == not_found_of(message@),
    {
        ApiError::new(404, message, ErrorType::NotFoundError).with_code("model_not_found")
    }

    /// Nothing is left to serve the request with.
    pub fn rate_limit(message: &str) -> (r: ApiError)
        ensures
            r@ == rate_limit_of(message@),
    {
        ApiError::new(429, message, ErrorType::RateLimitError).with_code("rate_limit_exceeded")
    }

    /// A failure of the gateway.
    pub fn server(message: &str) -> (r: ApiError)
        ensures
            r@ == server_of(message@),
    {
        ApiError::new(500, message, ErrorType::ServerError).with_code("internal_error")
    }

    /// A failure of the service behind the gateway.
    pub fn upstream(message: &str) -> (r: ApiError)
        ensures
            r@ == upstream_of(message@),
    {
        ApiError::new(502, message, ErrorType::ServerError).with_code("upstream_error")
    }

    /// The error in words.
    pub fn text(&self) -> (r: String)
        ensures
            r@ == self@.body.message,
    {
        self.body.message.clone()
    }

    /// The status and the JSON with which this error is answered.
    pub fn into_response(self) -> (r: (u16, Json))
        ensures
            r.0 == self@.status,
            r.1@ == JsonV::Object(seq![("error"@, body_json(self@.body))]),
    {
        let status = self.status;
        (status, ErrorResponse { error: self.body }.to_json())
    }
}

} // verus!
