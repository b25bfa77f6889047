//! Raw-text extraction of the JSON payload from a model reply.
//!
//! The model's textual response may be wrapped in code fences or surrounded
//! by commentary.  Extraction takes everything from the first `{` to the
//! last `}` of the raw text; without such a pair the reply is a hard parse
//! failure.  Turning the extracted text into an envelope is the JSON
//! codec's job, outside this crate.

use vstd::prelude::*;
use vstd::string::StrSliceExecFns;

verus! {

/// Failure to find a JSON object in the model's raw reply.
#[derive(Debug, Clone, Copy, PartialEq, Eq, Structural)]
pub enum ParseError {
    NoJsonObject,
}

impl ParseError {
    /// A human-readable description of the failure.
    pub fn message(&self) -> &'static str {
        match self {
            ParseError::NoJsonObject => "No JSON object found in LLM output",
        }
    }
}

/// Whether the text holds an opening brace at or before a closing one.
pub open spec fn spec_has_json_span(s: Seq<char>) -> bool {
    exists|i: int, j: int| 0 <= i <= j < s.len() && s[i] == '{' && s[j] == '}'
}

/// Extracts the substring from the first `{` to the last `}` of the raw
/// reply.  Fails exactly when no such pair exists in order.
#[verifier::loop_isolation(false)]
pub fn extract_json_object(raw: &str) -> (r: Result<String, ParseError>)
    ensures
        r is Ok <==> spec_has_json_span(raw@),
        r matches Ok(out) ==> exists|i: int, j: int|
            0 <= i <= j < raw@.len() && raw@[i] == '{' && raw@[j] == '}' && (forall|k: int|
                0 <= k < i ==> raw@[k] != '{') && (forall|k: int|
                j < k < raw@.len() ==> raw@[k] != '}') && out@ == raw@.subrange(i, j + 1),
{
    let n = raw.unicode_len();
    let mut first: usize = 0;
    let mut found_first = false;
    let mut k: usize = 0;
    while k < n && !found_first
        invariant
            0 <= k <= n,
            n == raw@.len(),
            !found_first ==> (forall|m: int| 0 <= m < k ==> raw@[m] != '{'),
            found_first ==> first < n && raw@[first as int] == '{' && (forall|m: int|
                0 <= m < first ==> raw@[m] != '{'),
        decreases n - k + (if found_first {
            0int
        } else {
            1int
        }),
    {
        if raw.get_char(k) == '{' {
            first = k;
            found_first = true;
        } else {
            k = k + 1;
        }
    }
    if !found_first {
        proof {
            assert(!spec_has_json_span(raw@));
        }
        return Err(ParseError::NoJsonObject);
    }
    let mut last: usize = 0;
    let mut found_last = false;
    let mut b: usize = n;
    while b > 0 && !found_last
        invariant
            0 <= b <= n,
            n == raw@.len(),
            !found_last ==> (forall|m: int| b <= m < n ==> raw@[m] != '}'),
            found_last ==> last < n && raw@[last as int] == '}' && (forall|m: int|
                last < m < n ==> raw@[m] != '}'),
        decreases b + (if found_last {
            0int
        } else {
            1int
        }),
    {
        if raw.get_char(b - 1) == '}' {
            last = b - 1;
            found_last = true;
        } else {
            b = b - 1;
        }
    }
    if !found_last || last < first {
        proof {
            assert(!spec_has_json_span(raw@)) by {
                if spec_has_json_span(raw@) {
                    let (i, j) = choose|i: int, j: int|
                        0 <= i <= j < raw@.len() && raw@[i] == '{' && raw@[j] == '}';
                    assert(first <= i);
                    if found_last {
                        assert(j <= last);
                    }
                }
            }
        }
        return Err(ParseError::NoJsonObject);
    }
    let out = raw.substring_char(first, last + 1).to_owned();
    Ok(out)
}

} // verus!
