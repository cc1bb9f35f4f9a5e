//! The name lookup: where to ask, and what an answer means.
//!
//! The request itself is sent by the caller. It asks the address that
//! `lookup_url` gives, and reports what came back as a `LookupReply`.

use crate::record::{ResolutionStatus, StatusView};
use vstd::prelude::*;
use vstd::string::*;

verus! {

/// The address of the lookup service, up to the identifier.
pub const LOOKUP_URL_PREFIX: &'static str = "https://esi.evetech.net/latest/characters/";

/// The address of the lookup service, behind the identifier.
pub const LOOKUP_URL_SUFFIX: &'static str = "/?datasource=tranquility";

/// The seconds after which a request is given up.
pub const LOOKUP_TIMEOUT_SECS: u64 = 10;

/// The status with which the service says that it knows no such identifier.
pub const STATUS_NOT_FOUND: u16 = 404;

/// What was read from the body of an answer.
#[derive(Debug, PartialEq, Eq)]
pub enum BodyParse {
    /// The body had the expected shape; this is its `name`.
    Name(String),
    /// The body could not be read as the expected shape, for this reason.
    Malformed(String),
}

/// What came of one request, as the caller saw it.
#[derive(Debug, PartialEq, Eq)]
pub enum LookupReply {
    /// No HTTP client could be set up, for this reason.
    ClientUnavailable { detail: String },
    /// The request got no answer, for this reason.
    RequestFailed { detail: String },
    /// The service answered.
    Answered {
        /// The status code of the answer.
        status: u16,
        /// The status as text: the code and its phrase.
        status_line: String,
        /// What the body held.
        body: BodyParse,
    },
}

/// Why a lookup gave no name. Each carries the reason shown to the user.
#[derive(Debug, PartialEq, Eq)]
pub enum LookupFailure {
    /// The service knows no such identifier.
    NotFound,
    /// No usable answer came: the request failed, or the service answered
    /// with a status that is neither a success nor "not found".
    TransportError(String),
    /// The answer's body was not of the expected shape.
    ParseError(String),
    /// No HTTP client could be set up.
    ClientBuildError(String),
}

/// A `LookupFailure` with its text as a sequence of characters.
pub enum FailureModel {
    NotFound,
    TransportError(Seq<char>),
    ParseError(Seq<char>),
    ClientBuildError(Seq<char>),
}

impl View for LookupFailure {
    type V = FailureModel;

    open spec fn view(&self) -> FailureModel {
        match self {
            LookupFailure::NotFound => FailureModel::NotFound,
            LookupFailure::TransportError(reason) => FailureModel::TransportError(reason@),
            LookupFailure::ParseError(reason) => FailureModel::ParseError(reason@),
            LookupFailure::ClientBuildError(reason) => FailureModel::ClientBuildError(reason@),
        }
    }
}

/// Whether a status code is one of success: 200 up to 299.
pub open spec fn is_success(status: u16) -> bool {
    200 <= status < 300
}

impl FailureModel {
    /// The reason shown to the user.
    pub open spec fn reason(self) -> Seq<char> {
        match self {
            FailureModel::NotFound => "Character not found"@,
            FailureModel::TransportError(reason) => reason,
            FailureModel::ParseError(reason) => reason,
            FailureModel::ClientBuildError(reason) => reason,
        }
    }
}

/// What a reply means: the name, or why there is none.
///
/// A success status with a readable body gives the name. A success status
/// with an unreadable body is a parse error. Status 404 is "not found". Any
/// other status, and a request without an answer, is a transport error.
pub open spec fn outcome_of(reply: LookupReply) -> Result<Seq<char>, FailureModel> {
    match reply {
        LookupReply::ClientUnavailable { detail } => Err(
            FailureModel::ClientBuildError("Client error: "@ + detail@),
        ),
        LookupReply::RequestFailed { detail } => Err(
            FailureModel::TransportError("Request failed: "@ + detail@),
        ),
        LookupReply::Answered { status, status_line, body } => {
            if is_success(status) {
                match body {
                    BodyParse::Name(name) => Ok(name@),
                    BodyParse::Malformed(detail) => Err(
                        FailureModel::ParseError("Parse error: "@ + detail@),
                    ),
                }
            } else if status == STATUS_NOT_FOUND {
                Err(FailureModel::NotFound)
            } else {
                Err(FailureModel::TransportError("HTTP "@ + status_line@))
            }
        },
    }
}

/// The status that a reply leaves an identifier in: resolved with the name,
/// or failed with the failure's reason. Never pending.
pub open spec fn resolution_of(reply: LookupReply) -> StatusView {
    match outcome_of(reply) {
        Ok(name) => StatusView::Resolved(name),
        Err(failure) => StatusView::Failed(failure.reason()),
    }
}

/// The address to ask for an identifier's name.
pub fn lookup_url(identifier: &str) -> (url: String)
    ensures
        url@ == LOOKUP_URL_PREFIX@ + identifier@ + LOOKUP_URL_SUFFIX@,
{
    String::from_str(LOOKUP_URL_PREFIX).concat(identifier).concat(LOOKUP_URL_SUFFIX)
}

/// Whether a status code is one of success.
pub fn status_is_success(status: u16) -> (r: bool)
    ensures
        r == is_success(status),
{
    200 <= status && status < 300
}

impl LookupFailure {
    /// The reason shown to the user.
    pub fn reason(&self) -> (text: String)
        ensures
            text@ == self@.reason(),
    {
        match self {
            LookupFailure::NotFound => String::from_str("Character not found"),
            LookupFailure::TransportError(reason) => reason.clone(),
            LookupFailure::ParseError(reason) => reason.clone(),
            LookupFailure::ClientBuildError(reason) => reason.clone(),
        }
    }
}

/// Reads a reply: the name, or why there is none.
pub fn interpret_reply(reply: &LookupReply) -> (r: Result<String, LookupFailure>)
    ensures
        match r {
            Ok(name) => outcome_of(*reply) == Ok::<Seq<char>, FailureModel>(name@),
            Err(failure) => outcome_of(*reply) == Err::<Seq<char>, FailureModel>(failure@),
        },
{
    match reply {
        LookupReply::ClientUnavailable { detail } => Err(
            LookupFailure::ClientBuildError(
                String::from_str("Client error: ").concat(detail.as_str()),
            ),
        ),
        LookupReply::RequestFailed { detail } => Err(
            LookupFailure::TransportError(
                String::from_str("Request failed: ").concat(detail.as_str()),
            ),
        ),
        LookupReply::Answered { status, status_line, body } => {
            if status_is_success(*status) {
                match body {
                    BodyParse::Name(name) => Ok(name.clone()),
                    BodyParse::Malformed(detail) => Err(
                        LookupFailure::ParseError(
                            String::from_str("Parse error: ").concat(detail.as_str()),
                        ),
                    ),
                }
            } else if *status == STATUS_NOT_FOUND {
                Err(LookupFailure::NotFound)
            } else {
                Err(
                    LookupFailure::TransportError(
                        String::from_str("HTTP ").concat(status_line.as_str()),
                    ),
                )
            }
        },
    }
}

/// The status that a reply leaves an identifier in.
pub fn fetch_character_name(reply: &LookupReply) -> (status: ResolutionStatus)
    ensures
        status@ == resolution_of(*reply),
{
    match interpret_reply(reply) {
        Ok(name) => ResolutionStatus::Resolved(name),
        Err(failure) => ResolutionStatus::Failed(failure.reason()),
    }
}

} // verus!
