//! The structured error model: the in-memory representation of a parsed
//! runtime exception — message, kind, ordered frames, optional chained
//! cause — and the parser that reads it out of a JSON document.
//!
//! An unparseable error report is the one place a hard failure is right:
//! parsing fails with `MalformedInput` exactly when the document does not
//! have the required shape.

use crate::json::{fields_view, lemma_obj_get_element, obj_get, obj_lookup, Json, JsonV};
use vstd::prelude::*;
use vstd::string::StringExecFns;

verus! {

broadcast use vstd::seq::axiom_seq_index_decreases, vstd::std_specs::vec::group_vec_axioms;

/// The one hard failure of this engine: the error-report input does not
/// match the required shape.
#[derive(Clone, Copy, PartialEq, Eq, Structural, Debug)]
pub enum OpError {
    MalformedInput,
}

/// One stack entry of a runtime exception. Positions are kept exactly as
/// the executing engine reported them; only the resolver ever reinterprets
/// them. Native and eval frames are never resolved.
pub struct Frame {
    pub function_name: Option<String>,
    pub file_name: String,
    pub line: i64,
    pub column: i64,
    pub is_native: bool,
    pub is_eval: bool,
}

/// A parsed runtime exception: message, optional kind label, frames in
/// original stack order (innermost first), and an optional chained cause.
pub struct ParsedError {
    pub message: String,
    pub kind: Option<String>,
    pub frames: Vec<Frame>,
    pub cause: Option<Box<ParsedError>>,
}

pub struct FrameV {
    pub function_name: Option<Seq<char>>,
    pub file_name: Seq<char>,
    pub line: int,
    pub column: int,
    pub is_native: bool,
    pub is_eval: bool,
}

pub struct ParsedErrorV {
    pub message: Seq<char>,
    pub kind: Option<Seq<char>>,
    pub frames: Seq<FrameV>,
    pub cause: Option<Box<ParsedErrorV>>,
}

impl View for Frame {
    type V = FrameV;

    open spec fn view(&self) -> FrameV {
        FrameV {
            function_name: (match self.function_name {
                Some(n) => Some(n@),
                None => None,
            }),
            file_name: self.file_name@,
            line: self.line as int,
            column: self.column as int,
            is_native: self.is_native,
            is_eval: self.is_eval,
        }
    }
}

impl View for ParsedError {
    type V = ParsedErrorV;

    open spec fn view(&self) -> ParsedErrorV
        decreases self,
    {
        ParsedErrorV {
            message: self.message@,
            kind: (match self.kind {
                Some(k) => Some(k@),
                None => None,
            }),
            frames: Seq::new(
                self.frames@.len(),
                |i: int|
                    if 0 <= i < self.frames@.len() {
                        self.frames@[i]@
                    } else {
                        FrameV {
                            function_name: None,
                            file_name: Seq::empty(),
                            line: 0,
                            column: 0,
                            is_native: false,
                            is_eval: false,
                        }
                    },
            ),
            cause: (match &self.cause {
                Some(b) => Some(Box::new((**b)@)),
                None => None,
            }),
        }
    }
}

/// What one frame object denotes. A present field of the wrong type makes
/// the frame — and with it the whole report — malformed; an absent field
/// defaults: no function name, empty file name, position zero, flags false.
pub open spec fn frame_of(j: JsonV) -> Option<FrameV> {
    match j {
        JsonV::Obj(fields) => {
            let fname = obj_get(fields, "function_name"@);
            let file = obj_get(fields, "file_name"@);
            let line = obj_get(fields, "line"@);
            let col = obj_get(fields, "column"@);
            let native = obj_get(fields, "is_native"@);
            let ev = obj_get(fields, "is_eval"@);
            if (fname is None || fname matches Some(JsonV::Str(_))) && (file is None
                || file matches Some(JsonV::Str(_))) && (line is None || line matches Some(
                JsonV::Int(_),
            )) && (col is None || col matches Some(JsonV::Int(_))) && (native is None
                || native matches Some(JsonV::Bool(_))) && (ev is None || ev matches Some(
                JsonV::Bool(_),
            )) {
                Some(
                    FrameV {
                        function_name: (match fname {
                            Some(JsonV::Str(s)) => Some(s),
                            _ => None,
                        }),
                        file_name: (match file {
                            Some(JsonV::Str(s)) => s,
                            _ => Seq::empty(),
                        }),
                        line: (match line {
                            Some(JsonV::Int(n)) => n,
                            _ => 0,
                        }),
                        column: (match col {
                            Some(JsonV::Int(n)) => n,
                            _ => 0,
                        }),
                        is_native: (match native {
                            Some(JsonV::Bool(b)) => b,
                            _ => false,
                        }),
                        is_eval: (match ev {
                            Some(JsonV::Bool(b)) => b,
                            _ => false,
                        }),
                    },
                )
            } else {
                None
            }
        },
        _ => None,
    }
}

/// The frames an array denotes, when every element denotes one.
pub open spec fn conv_frames(s: Seq<JsonV>) -> Option<Seq<FrameV>> {
    if forall|i: int| 0 <= i < s.len() ==> frame_of(#[trigger] s[i]) is Some {
        Some(Seq::new(s.len(), |i: int| frame_of(s[i]).unwrap()))
    } else {
        None
    }
}

/// What an error-report document denotes: an object with a string
/// "message", a "frames" array of frame objects, an optional string
/// "kind", and an optional "cause" holding a nested report (or null);
/// anything else denotes nothing — a malformed report.
pub open spec fn parse_error_spec(j: JsonV) -> Option<ParsedErrorV>
    decreases j,
    via parse_error_spec_dec
{
    match j {
        JsonV::Obj(fields) => (match obj_get(fields, "message"@) {
            Some(JsonV::Str(msg)) => {
                let kind = obj_get(fields, "kind"@);
                if kind is None || kind matches Some(JsonV::Str(_)) {
                    match obj_get(fields, "frames"@) {
                        Some(JsonV::Arr(fs)) => (match conv_frames(fs) {
                            Some(frames) => {
                                let partial = ParsedErrorV {
                                    message: msg,
                                    kind: (match kind {
                                        Some(JsonV::Str(k)) => Some(k),
                                        _ => None,
                                    }),
                                    frames: frames,
                                    cause: None,
                                };
                                match obj_get(fields, "cause"@) {
                                    None => Some(partial),
                                    Some(JsonV::Null) => Some(partial),
                                    Some(c) => (match parse_error_spec(c) {
                                        Some(inner) => Some(
                                            ParsedErrorV {
                                                cause: Some(Box::new(inner)),
                                                ..partial
                                            },
                                        ),
                                        None => None,
                                    }),
                                }
                            },
                            None => None,
                        }),
                        _ => None,
                    }
                } else {
                    None
                }
            },
            _ => None,
        }),
        _ => None,
    }
}

/// Reads one frame object, defaulting the absent fields; a present field
/// of the wrong type makes the frame malformed.
pub fn frame_from_json(j: &Json) -> (r: Option<Frame>)
    ensures
        (match r {
            Some(f) => frame_of(j@) == Some(f@),
            None => frame_of(j@) is None,
        }),
{
    let fields = match j {
        Json::Obj(f) => f,
        _ => {
            return None;
        },
    };
    let function_name: Option<String> = match obj_lookup(fields, &String::from_str("function_name")) {
        None => None,
        Some(v) => (match v {
            Json::Str(s) => Some(s.clone()),
            _ => {
                return None;
            },
        }),
    };
    let file_name: String = match obj_lookup(fields, &String::from_str("file_name")) {
        None => String::new(),
        Some(v) => (match v {
            Json::Str(s) => s.clone(),
            _ => {
                return None;
            },
        }),
    };
    let line: i64 = match obj_lookup(fields, &String::from_str("line")) {
        None => 0,
        Some(v) => (match v {
            Json::Int(n) => *n,
            _ => {
                return None;
            },
        }),
    };
    let column: i64 = match obj_lookup(fields, &String::from_str("column")) {
        None => 0,
        Some(v) => (match v {
            Json::Int(n) => *n,
            _ => {
                return None;
            },
        }),
    };
    let is_native: bool = match obj_lookup(fields, &String::from_str("is_native")) {
        None => false,
        Some(v) => (match v {
            Json::Bool(b) => *b,
            _ => {
                return None;
            },
        }),
    };
    let is_eval: bool = match obj_lookup(fields, &String::from_str("is_eval")) {
        None => false,
        Some(v) => (match v {
            Json::Bool(b) => *b,
            _ => {
                return None;
            },
        }),
    };
    Some(Frame { function_name, file_name, line, column, is_native, is_eval })
}

/// Parses an error-report document into the structured model, or fails
/// with `MalformedInput` exactly when the document does not denote one.
#[verifier::loop_isolation(false)]
pub fn parse_error(j: &Json) -> (r: Result<ParsedError, OpError>)
    ensures
        (match r {
            Ok(e) => parse_error_spec(j@) == Some(e@),
            Err(err) => parse_error_spec(j@) is None && err == OpError::MalformedInput,
        }),
    decreases j,
{
    let fields = match j {
        Json::Obj(f) => f,
        _ => {
            return Err(OpError::MalformedInput);
        },
    };
    let message: String = match obj_lookup(fields, &String::from_str("message")) {
        Some(v) => (match v {
            Json::Str(s) => s.clone(),
            _ => {
                return Err(OpError::MalformedInput);
            },
        }),
        None => {
            return Err(OpError::MalformedInput);
        },
    };
    let kind: Option<String> = match obj_lookup(fields, &String::from_str("kind")) {
        None => None,
        Some(v) => (match v {
            Json::Str(s) => Some(s.clone()),
            _ => {
                return Err(OpError::MalformedInput);
            },
        }),
    };
    let frames_j = match obj_lookup(fields, &String::from_str("frames")) {
        Some(v) => v,
        None => {
            return Err(OpError::MalformedInput);
        },
    };
    let fs = match frames_j {
        Json::Arr(v) => v,
        _ => {
            return Err(OpError::MalformedInput);
        },
    };
    let ghost fsv = frames_j@->Arr_0;
    let mut frames: Vec<Frame> = Vec::new();
    let mut k: usize = 0;
    while k < fs.len()
        invariant
            0 <= k <= fs.len(),
            fs@.len() == fsv.len(),
            forall|i: int| 0 <= i < fsv.len() ==> fsv[i] == #[trigger] fs@[i]@,
            frames@.len() == k,
            forall|i: int| 0 <= i < k as int ==> frame_of(#[trigger] fsv[i]) == Some(frames@[i]@),
        decreases fs.len() - k,
    {
        let e = &fs[k];
        proof {
            assert(fsv[k as int] == e@);
        }
        match frame_from_json(e) {
            Some(f) => {
                frames.push(f);
            },
            None => {
                proof {
                    assert(conv_frames(fsv) is None);
                }
                return Err(OpError::MalformedInput);
            },
        }
        k = k + 1;
    }
    proof {
        assert(conv_frames(fsv) == Some(Seq::new(fsv.len(), |i: int| frame_of(fsv[i]).unwrap())));
    }
    let cause: Option<Box<ParsedError>> = match obj_lookup(fields, &String::from_str("cause")) {
        None => None,
        Some(cj) => (match cj {
            Json::Null => None,
            _ => {
                proof {
                    let fv = fields_view(fields@);
                    lemma_obj_get_element(fv, "cause"@);
                    let wi = choose|i: int| 0 <= i < fv.len() && #[trigger] fv[i].1 == cj@;
                    let we = choose|i: int| 0 <= i < fields@.len() && *cj == (
                    #[trigger] fields@[i]).1;
                    assert(decreases_to!(j => fields));
                    assert(decreases_to!(fields => fields@[we]));
                    assert(decreases_to!(fields@[we] => fields@[we].1));
                    assert(decreases_to!(j => cj));
                }
                match parse_error(cj) {
                    Ok(inner) => Some(Box::new(inner)),
                    Err(err) => {
                        return Err(err);
                    },
                }
            },
        }),
    };
    let r = ParsedError { message, kind, frames, cause };
    proof {
        let sv_opt = parse_error_spec(j@);
        assert(sv_opt is Some);
        let sv = sv_opt.unwrap();
        assert(sv.message == r@.message);
        assert(sv.kind == r@.kind);
        assert forall|i: int| 0 <= i < sv.frames.len() implies #[trigger] sv.frames[i]
            == r@.frames[i] by {
            assert(sv.frames[i] == frame_of(fsv[i]).unwrap());
            assert(r@.frames[i] == frames@[i]@);
        }
        assert(sv.frames =~= r@.frames);
        assert(sv.cause == r@.cause);
        assert(sv == r@);
    }
    Ok(r)
}

#[via_fn]
proof fn parse_error_spec_dec(j: JsonV) {
    match j {
        JsonV::Obj(fields) => {
            match obj_get(fields, "cause"@) {
                Some(c) => {
                    lemma_obj_get_element(fields, "cause"@);
                    let i = choose|i: int| 0 <= i < fields.len() && #[trigger] fields[i].1 == c;
                    assert(decreases_to!(j => fields));
                    assert(decreases_to!(fields => fields[i]));
                    assert(decreases_to!(fields[i] => fields[i].1));
                    assert(decreases_to!(j => c));
                },
                None => {},
            }
        },
        _ => {},
    }
}

} // verus!
