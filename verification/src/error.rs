use vstd::prelude::*;

use crate::providers::{json_str, JsonValue};

verus! {

/// Why a request is refused.
#[derive(Debug)]
pub enum AppError {
    MissingId,
    BadId,
    UnavailableProvider(String),
}

/// The message that tells the client why its request was refused.
pub open spec fn error_message(e: AppError) -> Seq<char> {
    match e {
        AppError::MissingId => "ID parameter is missing"@,
        AppError::BadId => "Bad id parameter"@,
        AppError::UnavailableProvider(p) => "Unavailable provider: "@ + p@,
    }
}

/// The HTTP status of every refusal: 400, Bad Request.
pub const BAD_REQUEST_STATUS: u16 = 400;

impl AppError {
    /// The message that tells the client why its request was refused; it is
    /// sent as the `error` member of a JSON object.
    pub fn message(&self) -> (res: String)
        ensures
            res@ == error_message(*self),
    {
        match self {
            AppError::MissingId => "ID parameter is missing".to_owned(),
            AppError::BadId => "Bad id parameter".to_owned(),
            AppError::UnavailableProvider(p) => {
                let mut m = "Unavailable provider: ".to_owned();
                m.append(p.as_str());
                m
            },
        }
    }

    /// The document the refusal is sent with: `{"error": message}`.
    pub fn document(&self) -> (res: JsonValue)
        ensures
            res matches JsonValue::Object(e) && e@.len() == 1 && e@[0].0@ == "error"@ && json_str(
                e@[0].1,
            ) == Some(error_message(*self)),
    {
        let mut e: Vec<(String, JsonValue)> = Vec::new();
        e.push(("error".to_owned(), JsonValue::Str(self.message())));
        JsonValue::Object(e)
    }

    /// The HTTP status the refusal is sent with.
    pub fn status_code(&self) -> (res: u16)
        ensures
            res == BAD_REQUEST_STATUS,
    {
        BAD_REQUEST_STATUS
    }
}

} // verus!
