//! Reading JSON, through serde_json, so that omatide reads a document the
//! same way whether it came from NOAA or from its own cache.

use vstd::prelude::*;
use vstd::string::StringExecFns;
use crate::strings::owned;

pub use serde_json::Value as Json;

verus! {

/// A JSON value, as serde_json holds one.
#[verifier::external_type_specification]
#[verifier::external_body]
pub struct ExJson(serde_json::Value);

/// Why serde_json refused a text.
#[verifier::external_type_specification]
#[verifier::external_body]
pub struct ExJsonError(serde_json::Error);

/// serde_json reads the text as one JSON value, followed by nothing but
/// white space.
pub uninterp spec fn serde_json_reads(text: Seq<char>) -> bool;

/// `serde_json::from_str::<Value>`: it succeeds exactly when serde_json
/// reads the text; what the value holds is left to serde_json.
#[verifier::external_body]
fn from_str(text: &str) -> (r: Result<serde_json::Value, serde_json::Error>)
    ensures
        r is Ok == serde_json_reads(text@),
{
    serde_json::from_str(text)
}

/// The message serde_json gives for an error, as its `Display` writes it.
/// Nothing is claimed of its text.
#[verifier::external_body]
fn error_message(e: &serde_json::Error) -> String {
    format!("{e}")
}

/// A whole document as a JSON value, or why it isn't one.
pub fn parse(text: &str) -> (r: Result<serde_json::Value, String>)
    ensures
        r is Ok == serde_json_reads(text@),
        match r {
            Ok(_) => true,
            Err(m) => m@.len() >= 10 && m@.subrange(0, 10) == "bad JSON: "@,
        },
{
    match from_str(text) {
        Ok(v) => Ok(v),
        Err(e) => {
            let mut m = owned("bad JSON: ");
            let why = error_message(&e);
            proof {
                reveal_strlit("bad JSON: ");
            }
            let ghost head = m@;
            m.append(why.as_str());
            assert(m@.subrange(0, 10) =~= head);
            Err(m)
        },
    }
}


/// The JSON literal serde_json writes for a string: quoted, with what
/// must be escaped escaped.
pub uninterp spec fn serde_json_quoted(text: Seq<char>) -> Seq<char>;

/// `Value::String(..)` as serde_json's `Display` writes it. Its result
/// depends on the text alone; the escaping itself is left to serde_json.
#[verifier::external_body]
fn quoted(text: &str) -> (r: String)
    ensures
        r@ == serde_json_quoted(text@),
{
    serde_json::Value::String(text.to_string()).to_string()
}

/// A string as a JSON literal, quoted and escaped.
pub fn string(s: &str) -> (r: String)
    ensures
        r@ == serde_json_quoted(s@),
{
    quoted(s)
}


/// serde_json reads the bytes as one JSON object, followed by nothing
/// but white space.
pub uninterp spec fn serde_json_object(bytes: Seq<u8>) -> bool;

/// `serde_json::from_slice::<Value>`, kept where it reads an object.
/// What the object holds is left to serde_json.
#[verifier::external_body]
pub(crate) fn object_from_slice(bytes: &[u8]) -> (r: Option<serde_json::Value>)
    ensures
        r is Some == serde_json_object(bytes@),
{
    match serde_json::from_slice::<serde_json::Value>(bytes) {
        Ok(v @ serde_json::Value::Object(_)) => Some(v),
        _ => None,
    }
}

} // verus!
