//! The errors that the library reports.

use crate::address::parse_error_text;
use crate::text::{decimal_text, write_decimal};
use vstd::prelude::*;
use vstd::string::StringExecFns;

verus! {

/// An error of the library.
#[derive(Debug)]
pub enum EdgeGridError {
    /// The configuration cannot be used.
    Config(String),
    /// A required credential, named by its field, is empty or blank.
    MissingCredential(String),
    /// The host is no URL.
    UrlError(url::ParseError),
    /// A cryptographic step failed, or the signed header cannot be formed.
    AuthError(String),
    /// The credentials text holds no usable section of this name.
    InvalidSection(String),
    /// An environment variable is not set.
    EnvError(String),
    /// A response came with a status that is no success: the status code
    /// and the body of the response.
    HttpStatus(u16, String),
}

/// An error as contracts speak of it: the variant, with its text as a
/// sequence of characters.
pub enum Failure {
    Config(Seq<char>),
    MissingCredential(Seq<char>),
    UrlError(url::ParseError),
    AuthError(Seq<char>),
    InvalidSection(Seq<char>),
    EnvError(Seq<char>),
    HttpStatus(u16, Seq<char>),
}

impl View for EdgeGridError {
    type V = Failure;

    open spec fn view(&self) -> Failure {
        match self {
            EdgeGridError::Config(s) => Failure::Config(s@),
            EdgeGridError::MissingCredential(s) => Failure::MissingCredential(s@),
            EdgeGridError::UrlError(e) => Failure::UrlError(*e),
            EdgeGridError::AuthError(s) => Failure::AuthError(s@),
            EdgeGridError::InvalidSection(s) => Failure::InvalidSection(s@),
            EdgeGridError::EnvError(s) => Failure::EnvError(s@),
            EdgeGridError::HttpStatus(code, body) => Failure::HttpStatus(*code, body@),
        }
    }
}

impl Failure {
    /// What stands in front of the detail in the error's message.
    pub open spec fn heading(self) -> Seq<char> {
        match self {
            Failure::Config(_) => "Configuration error: "@,
            Failure::MissingCredential(_) => "Missing credential: "@,
            Failure::UrlError(_) => "URL error: "@,
            Failure::AuthError(_) => "Authentication error: "@,
            Failure::InvalidSection(_) => "Invalid section '"@,
            Failure::EnvError(_) => "Environment variable error: "@,
            Failure::HttpStatus(_, _) => "HTTP "@,
        }
    }

    /// The message of the error, for every variant but `UrlError`, whose
    /// detail is worded by the `url` crate.
    pub open spec fn message(self) -> Seq<char> {
        match self {
            Failure::Config(s) => self.heading() + s,
            Failure::MissingCredential(s) => self.heading() + s,
            Failure::UrlError(_) => self.heading(),
            Failure::AuthError(s) => self.heading() + s,
            Failure::InvalidSection(s) => self.heading() + s + "' in .edgerc file"@,
            Failure::EnvError(s) => self.heading() + s,
            Failure::HttpStatus(code, body) => self.heading() + decimal_text(code as nat) + ": "@
                + body,
        }
    }
}

impl EdgeGridError {
    /// The error for a response whose status is no success, with the status
    /// code and the body of the response.
    pub fn http_failure(status: u16, body: &str) -> (r: EdgeGridError)
        ensures
            r@ == Failure::HttpStatus(status, body@),
    {
        EdgeGridError::HttpStatus(status, body.to_string())
    }

    /// The message of the error, as a person reads it.
    pub fn message(&self) -> (r: String)
        ensures
            !(self@ is UrlError) ==> r@ == self@.message(),
            self@ is UrlError ==> self@.heading().is_prefix_of(r@),
    {
        match self {
            EdgeGridError::Config(s) => "Configuration error: ".to_string().concat(s.as_str()),
            EdgeGridError::MissingCredential(s) => "Missing credential: ".to_string().concat(
                s.as_str(),
            ),
            EdgeGridError::UrlError(e) => {
                let detail = parse_error_text(e);
                "URL error: ".to_string().concat(detail.as_str())
            },
            EdgeGridError::AuthError(s) => "Authentication error: ".to_string().concat(s.as_str()),
            EdgeGridError::InvalidSection(s) => "Invalid section '".to_string().concat(
                s.as_str(),
            ).concat("' in .edgerc file"),
            EdgeGridError::EnvError(s) => "Environment variable error: ".to_string().concat(
                s.as_str(),
            ),
            EdgeGridError::HttpStatus(code, body) => {
                let number = write_decimal(*code);
                "HTTP ".to_string().concat(number.as_str()).concat(": ").concat(body.as_str())
            },
        }
    }
}

} // verus!
