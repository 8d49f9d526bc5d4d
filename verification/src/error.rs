//! Application errors, each with an HTTP status and a consumer-facing body
//! `{ "status": N, "message": "..." }`, validation errors carrying
//! `details` as GarupaSpeedTracker's `ApiErrorBody` does.

use vstd::prelude::*;
use vstd::string::*;
use crate::json::{JsonValue, Json, json_view, json_entries_view, json_list_view, lemma_json_entries_view, lemma_json_list_view};

verus! {

/// An error with an HTTP status and a message for the consumer.
#[derive(Debug)]
pub enum AppError {
    /// HTTP 422 with `details`, as the validation error contract
    /// `{status, message: "Validation Failed", details}` has it.
    Validation { message: String, field: String },
    BadRequest(String),
    NotFound(String),
    Unavailable(String),
    Upstream(String),
    Internal(String),
}

/// `e` is a validation error on `field` with `message`.
pub open spec fn is_validation(e: AppError, field: Seq<char>, message: Seq<char>) -> bool {
    e matches AppError::Validation { message: m, field: f } && f@ == field && m@ == message
}

/// `Result` with `AppError`.
pub type AppResult<T> = Result<T, AppError>;

impl AppError {
    /// A validation error on `field`.
    pub fn validation(field: &str, message: &str) -> (r: Self)
        ensures
            r matches AppError::Validation { message: m, field: f } && m@ == message@ && f@
                == field@,
    {
        AppError::Validation { message: String::from_str(message), field: String::from_str(field) }
    }

    /// HTTP 400.
    pub fn bad_request(message: &str) -> (r: Self)
        ensures
            r matches AppError::BadRequest(m) && m@ == message@,
    {
        AppError::BadRequest(String::from_str(message))
    }

    /// HTTP 404.
    pub fn not_found(message: &str) -> (r: Self)
        ensures
            r matches AppError::NotFound(m) && m@ == message@,
    {
        AppError::NotFound(String::from_str(message))
    }

    /// HTTP 503.
    pub fn unavailable(message: &str) -> (r: Self)
        ensures
            r matches AppError::Unavailable(m) && m@ == message@,
    {
        AppError::Unavailable(String::from_str(message))
    }

    /// HTTP 502.
    pub fn upstream(message: &str) -> (r: Self)
        ensures
            r matches AppError::Upstream(m) && m@ == message@,
    {
        AppError::Upstream(String::from_str(message))
    }

    /// HTTP 500.
    pub fn internal(message: &str) -> (r: Self)
        ensures
            r matches AppError::Internal(m) && m@ == message@,
    {
        AppError::Internal(String::from_str(message))
    }

    /// The HTTP status of each kind of error.
    pub open spec fn status_spec(&self) -> u16 {
        match self {
            AppError::Validation { .. } => 422,
            AppError::BadRequest(_) => 400,
            AppError::NotFound(_) => 404,
            AppError::Unavailable(_) => 503,
            AppError::Upstream(_) => 502,
            AppError::Internal(_) => 500,
        }
    }

    /// The HTTP status code of the error.
    pub fn status(&self) -> (r: u16)
        ensures
            r == self.status_spec(),
    {
        match self {
            AppError::Validation { .. } => 422,
            AppError::BadRequest(_) => 400,
            AppError::NotFound(_) => 404,
            AppError::Unavailable(_) => 503,
            AppError::Upstream(_) => 502,
            AppError::Internal(_) => 500,
        }
    }

    /// The text that the response body carries. An internal error answers
    /// the fixed text `Internal Server Error`, so that its detail stays on
    /// the server.
    pub open spec fn message_spec(&self) -> Seq<char> {
        match self {
            AppError::Validation { .. } => "Validation Failed"@,
            AppError::BadRequest(m) => m@,
            AppError::NotFound(m) => m@,
            AppError::Unavailable(m) => m@,
            AppError::Upstream(m) => "upstream service error: "@ + m@,
            AppError::Internal(_) => "Internal Server Error"@,
        }
    }

    /// The text of the error as it is displayed.
    pub fn message(&self) -> (r: String)
        ensures
            r@ == self.message_spec(),
    {
        match self {
            AppError::Validation { .. } => String::from_str("Validation Failed"),
            AppError::BadRequest(m) => m.clone(),
            AppError::NotFound(m) => m.clone(),
            AppError::Unavailable(m) => m.clone(),
            AppError::Upstream(m) => String::from_str("upstream service error: ").concat(m.as_str()),
            AppError::Internal(_) => String::from_str("Internal Server Error"),
        }
    }

    /// The response body of the error.
    pub open spec fn body_spec(&self) -> Json {
        match self {
            AppError::Validation { message, field } => Json::Object(
                seq![
                    ("status"@, Json::Int(422)),
                    ("message"@, Json::Str("Validation Failed"@)),
                    ("details"@, Json::Array(seq![Json::Object(seq![
                        ("message"@, Json::Str(message@)),
                        ("code"@, Json::Str("invalid"@)),
                        ("field"@, Json::Str(field@)),
                    ])])),
                ],
            ),
            _ => Json::Object(
                seq![
                    ("status"@, Json::Int(self.status_spec() as int)),
                    ("message"@, Json::Str(self.message_spec())),
                ],
            ),
        }
    }

    /// The response body of the error: validation errors list the failing
    /// field under `details`; others carry the status and the message.
    pub fn body(&self) -> (r: JsonValue)
        ensures
            r@ == self.body_spec(),
    {
        match self {
            AppError::Validation { message, field } => {
                let detail = vec![
                    (String::from_str("message"), JsonValue::Str(message.clone())),
                    (String::from_str("code"), JsonValue::Str(String::from_str("invalid"))),
                    (String::from_str("field"), JsonValue::Str(field.clone())),
                ];
                let details = vec![JsonValue::Object(detail)];
                let entries = vec![
                    (String::from_str("status"), JsonValue::Int(422)),
                    (
                        String::from_str("message"),
                        JsonValue::Str(String::from_str("Validation Failed")),
                    ),
                    (String::from_str("details"), JsonValue::Array(details)),
                ];
                let r = JsonValue::Object(entries);
                proof {
                    lemma_json_entries_view(detail@);
                    lemma_json_list_view(details@);
                    lemma_json_entries_view(entries@);
                    assert(json_entries_view(detail@) =~= seq![
                        ("message"@, Json::Str(message@)),
                        ("code"@, Json::Str("invalid"@)),
                        ("field"@, Json::Str(field@)),
                    ]);
                    assert(json_list_view(details@) =~= seq![json_view(&details@[0])]);
                    assert(json_entries_view(entries@) =~= seq![
                        ("status"@, Json::Int(422)),
                        ("message"@, Json::Str("Validation Failed"@)),
                        ("details"@, json_view(&entries@[2].1)),
                    ]);
                }
                r
            },
            _ => {
                let entries = vec![
                    (String::from_str("status"), JsonValue::Int(self.status() as i64)),
                    (String::from_str("message"), JsonValue::Str(self.message())),
                ];
                let r = JsonValue::Object(entries);
                proof {
                    lemma_json_entries_view(entries@);
                    assert(json_entries_view(entries@) =~= seq![
                        ("status"@, Json::Int(self.status_spec() as int)),
                        ("message"@, Json::Str(self.message_spec())),
                    ]);
                }
                r
            },
        }
    }
}

} // verus!
