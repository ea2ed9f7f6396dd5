//! The `json_query` tool: looks up a JSON pointer in a JSON document.
use vstd::prelude::*;
use crate::markdown::opt_chars;
use crate::text::owned;

verus! {

/// Why a query was refused.
#[derive(Debug, Clone)]
pub enum JsonQueryError {
    /// No `json` argument.
    MissingJson,
    /// No `pointer` argument, or one that is not a string.
    MissingPointer,
    /// The document is not JSON; the parser's message.
    InvalidJson(String),
}

impl JsonQueryError {
    /// The error's message.
    pub fn message(&self) -> (m: String)
        ensures
            m@ == match *self {
                JsonQueryError::MissingJson => "missing json"@,
                JsonQueryError::MissingPointer => "missing pointer"@,
                JsonQueryError::InvalidJson(detail) => detail@,
            },
    {
        match self {
            JsonQueryError::MissingJson => owned("missing json"),
            JsonQueryError::MissingPointer => owned("missing pointer"),
            JsonQueryError::InvalidJson(detail) => owned(detail.as_str()),
        }
    }
}

/// The answer to a query: the pointer asked for, and the JSON text of the value found
/// there, if any.
#[derive(Debug, Clone)]
pub struct JsonQueryAnswer {
    pub pointer: String,
    pub found: Option<String>,
}

/// The view of a lookup's result.
pub open spec fn lookup_result(r: Result<Option<String>, String>) -> Result<Option<Seq<char>>, Seq<char>> {
    match r {
        Ok(found) => Ok(opt_chars(found)),
        Err(m) => Err(m@),
    }
}

/// What `serde_json::from_str::<serde_json::Value>` followed by `Value::pointer` yields
/// for a document and a pointer: the JSON text of the value found (`None` when the pointer
/// leads nowhere), or the parser's message.
pub uninterp spec fn json_pointer(json: Seq<char>, pointer: Seq<char>) -> Result<
    Option<Seq<char>>,
    Seq<char>,
>;

/// `serde_json::from_str::<serde_json::Value>` and `Value::pointer`: parses `json` and
/// looks `pointer` up in it, giving the found value's JSON text (its `Display`), or the
/// parser's message. The result is named by [`json_pointer`] of the two texts.
#[verifier::external_body]
fn pointer_lookup(json: &str, pointer: &str) -> (r: Result<Option<String>, String>)
    ensures
        lookup_result(r) == json_pointer(json@, pointer@),
{
    let v = serde_json::from_str::<serde_json::Value>(json).map_err(|e| e.to_string())?;
    Ok(v.pointer(pointer).map(|x| x.to_string()))
}

/// The answer for `pointer`, given what the lookup in the document gave.
pub fn query_answer(pointer: String, lookup: Result<Option<String>, String>) -> (r: Result<
    JsonQueryAnswer,
    JsonQueryError,
>)
    ensures
        match lookup_result(lookup) {
            Ok(found) => r matches Ok(a) && a.pointer@ == pointer@ && opt_chars(a.found) == found,
            Err(m) => r matches Err(JsonQueryError::InvalidJson(d)) && d@ == m,
        },
{
    match lookup {
        Ok(found) => Ok(JsonQueryAnswer { pointer, found }),
        Err(m) => Err(JsonQueryError::InvalidJson(m)),
    }
}

/// A query with the tool's arguments: the JSON text of the `json` argument and the
/// `pointer` argument where it is a string. The document is required first, then the
/// pointer; the answer holds the pointer and what [`json_pointer`] finds.
pub fn query_json(json: Option<String>, pointer: Option<String>) -> (r: Result<
    JsonQueryAnswer,
    JsonQueryError,
>)
    ensures
        json is None ==> r matches Err(JsonQueryError::MissingJson),
        json is Some && pointer is None ==> r matches Err(JsonQueryError::MissingPointer),
        json is Some && pointer is Some ==> match json_pointer(json.unwrap()@, pointer.unwrap()@) {
            Ok(found) => r matches Ok(a) && a.pointer@ == pointer.unwrap()@ && opt_chars(a.found)
                == found,
            Err(m) => r matches Err(JsonQueryError::InvalidJson(d)) && d@ == m,
        },
{
    let j = match json {
        None => {
            return Err(JsonQueryError::MissingJson);
        },
        Some(j) => j,
    };
    let p = match pointer {
        None => {
            return Err(JsonQueryError::MissingPointer);
        },
        Some(p) => p,
    };
    let found = pointer_lookup(j.as_str(), p.as_str());
    query_answer(p, found)
}

} // verus!
