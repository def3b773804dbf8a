//! The two request/response operations of the engine: resolve a generated
//! position, and format a JSON-encoded runtime exception. Each takes a
//! JSON request text and returns a JSON response text; only a malformed
//! request fails, with `MalformedInput`.

use crate::cache::{map_extends, resolve_position, resolved, SourceMapCache, SourceMapFetcher};
use crate::error_model::{parse_error, parse_error_spec, OpError, ParsedErrorV};
use crate::format::{format_error, needs_file, render_error};
use crate::json::{json_of, obj_get, obj_lookup, parse_json, Json, JsonV};
use crate::text::{dec_int, esc_str, escape_json_string, i64_to_string};
use vstd::prelude::*;
use vstd::string::StringExecFns;

verus! {

/// What a position-resolution request document denotes: an object with a
/// string "filename" and integer "line" and "column"; anything else is
/// malformed.
pub open spec fn resolve_request_spec(j: JsonV) -> Option<(Seq<char>, int, int)> {
    match j {
        JsonV::Obj(fields) => (match (
            obj_get(fields, "filename"@),
            obj_get(fields, "line"@),
            obj_get(fields, "column"@),
        ) {
            (Some(JsonV::Str(f)), Some(JsonV::Int(l)), Some(JsonV::Int(c))) => Some((f, l, c)),
            _ => None,
        }),
        _ => None,
    }
}

/// What a position-resolution request text denotes.
pub open spec fn resolve_req(s: Seq<char>) -> Option<(Seq<char>, int, int)> {
    match json_of(s) {
        None => None,
        Some(j) => resolve_request_spec(j),
    }
}

/// What an error-formatting request text denotes: an object whose "error"
/// field is a string that itself parses into an error report.
pub open spec fn format_req(s: Seq<char>) -> Option<ParsedErrorV> {
    match json_of(s) {
        Some(JsonV::Obj(fields)) => (match obj_get(fields, "error"@) {
            Some(JsonV::Str(inner)) => (match json_of(inner) {
                Some(ij) => parse_error_spec(ij),
                None => None,
            }),
            _ => None,
        }),
        _ => None,
    }
}

/// The response document of a position resolution.
pub open spec fn position_response_spec(t: (Seq<char>, int, int)) -> Seq<char> {
    "{\"filename\":\""@ + esc_str(t.0) + "\",\"line\":"@ + dec_int(t.1) + ",\"column\":"@
        + dec_int(t.2) + "}"@
}

/// The response document of an error formatting.
pub open spec fn error_response_spec(text: Seq<char>) -> Seq<char> {
    "{\"error\":\""@ + esc_str(text) + "\"}"@
}

/// Builds the position-resolution response document.
pub fn position_response(file: &String, line: i64, column: i64) -> (r: String)
    ensures
        r@ == position_response_spec((file@, line as int, column as int)),
{
    let mut out = String::new();
    out.append("{\"filename\":\"");
    let ef = escape_json_string(file.as_str());
    out.append(ef.as_str());
    out.append("\",\"line\":");
    let ls = i64_to_string(line);
    out.append(ls.as_str());
    out.append(",\"column\":");
    let cs = i64_to_string(column);
    out.append(cs.as_str());
    out.append("}");
    proof {
        assert(out@ =~= position_response_spec((file@, line as int, column as int)));
    }
    out
}

/// Builds the error-formatting response document.
pub fn error_response(text: &String) -> (r: String)
    ensures
        r@ == error_response_spec(text@),
{
    let mut out = String::new();
    out.append("{\"error\":\"");
    let et = escape_json_string(text.as_str());
    out.append(et.as_str());
    out.append("\"}");
    proof {
        assert(out@ =~= error_response_spec(text@));
    }
    out
}

/// Resolves the generated position named by the request to its original
/// position, falling back to the identity triple wherever no map or no
/// covering mapping exists; fails only when the request itself is
/// malformed, and then changes nothing.
pub fn op_apply_source_map<F: SourceMapFetcher>(
    cache: &mut SourceMapCache,
    fetcher: &mut F,
    request: &str,
) -> (r: Result<String, OpError>)
    requires
        old(cache).wf(),
    ensures
        final(cache).wf(),
        map_extends(old(cache)@, final(cache)@),
        (match r {
            Ok(resp) => (match resolve_req(request@) {
                Some(t) => final(cache)@.contains_key(t.0) && resp@ == position_response_spec(
                    resolved(final(cache)@, t.0, t.1, t.2),
                ),
                None => false,
            }),
            Err(e) => resolve_req(request@) is None && e == OpError::MalformedInput
                && *final(cache) == *old(cache) && *final(fetcher) == *old(fetcher),
        }),
{
    let j = match parse_json(request) {
        Some(j) => j,
        None => {
            return Err(OpError::MalformedInput);
        },
    };
    let fields = match &j {
        Json::Obj(f) => f,
        _ => {
            return Err(OpError::MalformedInput);
        },
    };
    let filename = match obj_lookup(fields, &String::from_str("filename")) {
        Some(v) => (match v {
            Json::Str(s) => s,
            _ => {
                return Err(OpError::MalformedInput);
            },
        }),
        None => {
            return Err(OpError::MalformedInput);
        },
    };
    let line: i64 = match obj_lookup(fields, &String::from_str("line")) {
        Some(v) => (match v {
            Json::Int(n) => *n,
            _ => {
                return Err(OpError::MalformedInput);
            },
        }),
        None => {
            return Err(OpError::MalformedInput);
        },
    };
    let column: i64 = match obj_lookup(fields, &String::from_str("column")) {
        Some(v) => (match v {
            Json::Int(n) => *n,
            _ => {
                return Err(OpError::MalformedInput);
            },
        }),
        None => {
            return Err(OpError::MalformedInput);
        },
    };
    let t = resolve_position(cache, fetcher, filename, line, column);
    Ok(position_response(&t.0, t.1, t.2))
}

/// Parses the JSON-encoded exception carried by the request, formats it
/// with every frame position source-mapped, and returns the text as a
/// response document. Fails with `MalformedInput` exactly when the inner
/// JSON does not denote an error report, and then changes nothing: no
/// partial output, no cache growth.
pub fn op_format_error<F: SourceMapFetcher>(
    cache: &mut SourceMapCache,
    fetcher: &mut F,
    request: &str,
) -> (r: Result<String, OpError>)
    requires
        old(cache).wf(),
    ensures
        final(cache).wf(),
        map_extends(old(cache)@, final(cache)@),
        (match r {
            Ok(resp) => (match format_req(request@) {
                Some(e) => resp@ == error_response_spec(render_error(e, final(cache)@)) && (
                forall|k: Seq<char>| needs_file(e, k) ==> final(cache)@.contains_key(k)),
                None => false,
            }),
            Err(err) => format_req(request@) is None && err == OpError::MalformedInput
                && *final(cache) == *old(cache) && *final(fetcher) == *old(fetcher),
        }),
{
    let j = match parse_json(request) {
        Some(j) => j,
        None => {
            return Err(OpError::MalformedInput);
        },
    };
    let fields = match &j {
        Json::Obj(f) => f,
        _ => {
            return Err(OpError::MalformedInput);
        },
    };
    let inner = match obj_lookup(fields, &String::from_str("error")) {
        Some(v) => (match v {
            Json::Str(s) => s,
            _ => {
                return Err(OpError::MalformedInput);
            },
        }),
        None => {
            return Err(OpError::MalformedInput);
        },
    };
    let ij = match parse_json(inner.as_str()) {
        Some(x) => x,
        None => {
            return Err(OpError::MalformedInput);
        },
    };
    let perr = match parse_error(&ij) {
        Ok(e) => e,
        Err(e) => {
            return Err(e);
        },
    };
    let text = format_error(cache, fetcher, &perr);
    Ok(error_response(&text))
}

} // verus!
