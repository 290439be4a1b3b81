//! What omatide makes of an answer from NOAA. The fetching itself is done
//! by `curl` in another process, by the caller; everything fetched is a
//! small JSON document, so the limits are tight.

use vstd::prelude::*;
use vstd::string::StringExecFns;
use vstd::utf8::{valid_utf8, decode_utf8};
use crate::strings::{owned, push_decimal, decimal};

verus! {

/// The most any one answer may weigh: sixteen megabytes. NOAA's whole
/// current-station list is under four; nothing else comes close.
pub const LIMIT: u64 = 16777216;

/// curl is stopped after this many seconds, whatever it's doing.
pub const DEADLINE_SECONDS: u64 = 150;

/// `String::from_utf8`: the bytes as text, exactly when they are UTF-8.
#[verifier::external_body]
fn from_utf8(bytes: Vec<u8>) -> (r: Option<String>)
    ensures
        match r {
            Some(s) => valid_utf8(bytes@) && s@ == decode_utf8(bytes@),
            None => !valid_utf8(bytes@),
        },
{
    String::from_utf8(bytes).ok()
}

/// What a finished `curl` came to: the body, when it succeeded and the
/// body was read whole within the limit; else why not.
pub fn outcome(url: &str, limit: u64, succeeded: bool, why: String, body: Option<Vec<u8>>) -> (r: Result<Vec<u8>, String>)
    ensures
        !succeeded ==> r is Err && (r->Err_0@ == if why@.len() == 0 { "curl failed on "@ + url@ } else { why@ }),
        succeeded ==> match body {
            Some(b) => if b@.len() <= limit {
                r == Ok::<Vec<u8>, String>(b)
            } else {
                r is Err && r->Err_0@ == url@ + ": more than "@ + decimal((limit / 1048576) as nat) + " MB"@
            },
            None => r is Err && r->Err_0@ == url@ + ": couldn't read the answer"@,
        },
{
    if !succeeded {
        if why.as_str().is_empty() {
            let mut e = owned("curl failed on ");
            e.append(url);
            return Err(e);
        }
        return Err(why);
    }
    match body {
        Some(b) => {
            if b.len() as u64 <= limit {
                Ok(b)
            } else {
                let mut e = owned(url);
                e.append(": more than ");
                push_decimal(&mut e, limit / 1048576);
                e.append(" MB");
                Err(e)
            }
        },
        None => {
            let mut e = owned(url);
            e.append(": couldn't read the answer");
            Err(e)
        },
    }
}

/// The body of an answer as text, for the JSON everything here is.
pub fn get_text(url: &str, answer: Vec<u8>) -> (r: Result<String, String>)
    ensures
        match r {
            Ok(s) => valid_utf8(answer@) && s@ == decode_utf8(answer@),
            Err(e) => !valid_utf8(answer@) && e@ == url@ + ": the answer wasn't text"@,
        },
{
    match from_utf8(answer) {
        Some(s) => Ok(s),
        None => {
            let mut e = owned(url);
            e.append(": the answer wasn't text");
            Err(e)
        },
    }
}

} // verus!
