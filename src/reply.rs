use vstd::prelude::*;
use vstd::string::*;

verus! {

/// An error answer of the HTTP interface: status code, error category and
/// optional detail.
pub struct ErrorReply {
    pub status: u16,
    pub error: String,
    pub details: Option<String>,
}

/// The external source that a fetch went to.
#[derive(Clone, Copy, PartialEq, Eq, Structural, Debug)]
pub enum FetchSource {
    Countries,
    Rates,
}

pub open spec fn source_host(s: FetchSource) -> Seq<char> {
    match s {
        FetchSource::Countries => "restcountries.com"@,
        FetchSource::Rates => "open.er-api.com"@,
    }
}

pub open spec fn is_reply(r: ErrorReply, status: u16, error: Seq<char>) -> bool {
    r.status == status && r.error@ == error
}

/// Details are present and read `text`.
pub open spec fn details_are(d: Option<String>, text: Seq<char>) -> bool {
    match d {
        Some(x) => x@ == text,
        None => false,
    }
}

/// The host name of an external source, as error details give it.
pub fn host_name(s: FetchSource) -> (r: &'static str)
    ensures
        r@ == source_host(s),
{
    match s {
        FetchSource::Countries => "restcountries.com",
        FetchSource::Rates => "open.er-api.com",
    }
}

/// 503: an external source could not be fetched or decoded; the detail
/// names the source and the reason.
pub fn unavailable(source: FetchSource, reason: &str) -> (r: ErrorReply)
    ensures
        is_reply(r, 503, "External data source unavailable"@),
        r.details matches Some(d) && d@ == "Could not fetch data from "@ + source_host(source) + ": "@
            + reason@,
{
    let mut d = String::from_str("Could not fetch data from ");
    d.append(host_name(source));
    d.append(": ");
    d.append(reason);
    ErrorReply {
        status: 503,
        error: String::from_str("External data source unavailable"),
        details: Some(d),
    }
}

/// 500: the store failed; no detail is given.
pub fn internal() -> (r: ErrorReply)
    ensures
        is_reply(r, 500, "Internal server error"@),
        r.details is None,
{
    ErrorReply { status: 500, error: String::from_str("Internal server error"), details: None }
}

/// 404: no country matched the name.
pub fn not_found() -> (r: ErrorReply)
    ensures
        is_reply(r, 404, "Country not found"@),
        r.details is None,
{
    ErrorReply { status: 404, error: String::from_str("Country not found"), details: None }
}

/// 400: the name in the path is blank.
pub fn name_required() -> (r: ErrorReply)
    ensures
        is_reply(r, 400, "Validation failed"@),
        r.details matches Some(d) && d@ == "name is required"@,
{
    ErrorReply {
        status: 400,
        error: String::from_str("Validation failed"),
        details: Some(String::from_str("name is required")),
    }
}

/// 404: no summary image has been rendered.
pub fn image_missing() -> (r: ErrorReply)
    ensures
        is_reply(r, 404, "Summary image not found"@),
        r.details is None,
{
    ErrorReply { status: 404, error: String::from_str("Summary image not found"), details: None }
}

} // verus!
