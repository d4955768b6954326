//! Interpreting query response envelopes and validating endpoint
//! configuration.
//!
//! Every registry answer is an envelope that carries either the requested
//! rows or a populated list of errors. The functions here turn such an
//! envelope, handed over as plain values, into the rows or the fatal error
//! of the call.

use vstd::prelude::*;
use crate::authors::MetaRecord;
use crate::text::str_eq;

verus! {

/// Why a fetch, or the whole run, failed.
#[derive(Clone, Copy, Debug, PartialEq, Eq, Structural)]
pub enum FetchError {
    /// Required configuration is missing or invalid, such as an endpoint
    /// without a secure transport scheme.
    Config,
    /// The network call itself failed, or its answer was not readable.
    Transport,
    /// The response envelope carried a populated errors field.
    Protocol,
    /// Malformed data where the protocol promised a well-formed value.
    Decode,
}

/// The rows of an authors-registry response envelope: a populated errors
/// field fails the call with a protocol error; an envelope without a record
/// list holds no records.
pub fn interpret_authors_response(has_errors: bool, records: Option<Vec<MetaRecord>>) -> (r: Result<
    Vec<MetaRecord>,
    FetchError,
>)
    ensures
        has_errors ==> r is Err && r->Err_0 == FetchError::Protocol,
        !has_errors && records is Some ==> r is Ok && r->Ok_0 == records->0,
        !has_errors && records is None ==> r is Ok && r->Ok_0@.len() == 0,
{
    if has_errors {
        Err(FetchError::Protocol)
    } else {
        match records {
            Some(v) => Ok(v),
            None => Ok(Vec::new()),
        }
    }
}

/// The rows of one pin page response envelope: a populated errors field
/// fails that source's call with a protocol error; an envelope without a
/// hash list holds no rows.
pub fn interpret_pin_response(has_errors: bool, hashes: Option<Vec<String>>) -> (r: Result<
    Vec<String>,
    FetchError,
>)
    ensures
        has_errors ==> r is Err && r->Err_0 == FetchError::Protocol,
        !has_errors && hashes is Some ==> r is Ok && r->Ok_0 == hashes->0,
        !has_errors && hashes is None ==> r is Ok && r->Ok_0@.len() == 0,
{
    if has_errors {
        Err(FetchError::Protocol)
    } else {
        match hashes {
            Some(v) => Ok(v),
            None => Ok(Vec::new()),
        }
    }
}

/// True when the URL text begins with the secure scheme `https://`.
pub open spec fn spec_is_secure_url(s: Seq<char>) -> bool {
    s.len() >= 8 && s.subrange(0, 8) == "https://"@
}

/// True when the URL uses the secure transport scheme.
pub fn is_secure_url(url: &str) -> (r: bool)
    ensures
        r == spec_is_secure_url(url@),
{
    let n = url.unicode_len();
    if n < 8 {
        return false;
    }
    let prefix = url.substring_char(0, 8);
    str_eq(prefix, "https://")
}

/// Checks the authors-registry endpoint before any network call: a URL
/// without the secure scheme is a configuration error.
pub fn validate_registry_url(url: &str) -> (r: Result<(), FetchError>)
    ensures
        r is Ok <==> spec_is_secure_url(url@),
        r is Err ==> r->Err_0 == FetchError::Config,
{
    if is_secure_url(url) {
        Ok(())
    } else {
        Err(FetchError::Config)
    }
}

} // verus!
