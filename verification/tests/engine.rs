use source_mapped_errors::cache::{resolve_position, SourceMapCache, SourceMapFetcher};
use source_mapped_errors::error_model::{Frame, OpError, ParsedError};
use source_mapped_errors::format::format_error;
use source_mapped_errors::ops::{op_apply_source_map, op_format_error};

/// A fetch collaborator backed by a fixed table, counting its calls so a
/// test can observe how often the engine asks for a payload.
struct TableFetcher {
    payloads: Vec<(String, String)>,
    calls: usize,
}

impl TableFetcher {
    fn new(payloads: Vec<(String, String)>) -> TableFetcher {
        TableFetcher { payloads, calls: 0 }
    }
}

impl SourceMapFetcher for TableFetcher {
    fn fetch_raw_source_map(&mut self, file: &String) -> Option<String> {
        self.calls += 1;
        for (k, v) in self.payloads.iter() {
            if k == file {
                return Some(v.clone());
            }
        }
        None
    }
}

fn simple_map_payload() -> String {
    // one original file; mappings on generated lines 1 and 2
    String::from(
        "{\"sources\":[\"orig.ts\"],\"mappings\":[[1,0,0,10,0],[1,8,0,12,4],[2,4],[3,0,0,1,1]]}",
    )
}

#[test]
fn resolve_without_map_returns_identity() {
    let mut cache = SourceMapCache::new();
    let mut fetcher = TableFetcher::new(vec![]);
    let req = "{\"filename\":\"gen.js\",\"line\":3,\"column\":7}";
    let resp = op_apply_source_map(&mut cache, &mut fetcher, req).unwrap();
    assert_eq!(resp, "{\"filename\":\"gen.js\",\"line\":3,\"column\":7}");
}

#[test]
fn resolve_exact_boundary_returns_mapping_position() {
    let mut cache = SourceMapCache::new();
    let mut fetcher =
        TableFetcher::new(vec![(String::from("gen.js"), simple_map_payload())]);
    let req = "{\"filename\":\"gen.js\",\"line\":1,\"column\":8}";
    let resp = op_apply_source_map(&mut cache, &mut fetcher, req).unwrap();
    assert_eq!(resp, "{\"filename\":\"orig.ts\",\"line\":12,\"column\":4}");
}

#[test]
fn resolve_between_mappings_selects_earlier() {
    let mut cache = SourceMapCache::new();
    let mut fetcher =
        TableFetcher::new(vec![(String::from("gen.js"), simple_map_payload())]);
    // column 5 lies strictly between the mappings at columns 0 and 8
    let req = "{\"filename\":\"gen.js\",\"line\":1,\"column\":5}";
    let resp = op_apply_source_map(&mut cache, &mut fetcher, req).unwrap();
    assert_eq!(resp, "{\"filename\":\"orig.ts\",\"line\":10,\"column\":0}");
}

#[test]
fn resolve_column_before_all_mappings_is_identity() {
    let mut cache = SourceMapCache::new();
    let mut fetcher =
        TableFetcher::new(vec![(String::from("gen.js"), simple_map_payload())]);
    // line 2's only mapping starts at column 4; column 2 has no preceding match
    let req = "{\"filename\":\"gen.js\",\"line\":2,\"column\":2}";
    let resp = op_apply_source_map(&mut cache, &mut fetcher, req).unwrap();
    assert_eq!(resp, "{\"filename\":\"gen.js\",\"line\":2,\"column\":2}");
}

#[test]
fn resolve_no_source_segment_is_identity() {
    let mut cache = SourceMapCache::new();
    let mut fetcher =
        TableFetcher::new(vec![(String::from("gen.js"), simple_map_payload())]);
    // the mapping [2,4] has no original position
    let req = "{\"filename\":\"gen.js\",\"line\":2,\"column\":9}";
    let resp = op_apply_source_map(&mut cache, &mut fetcher, req).unwrap();
    assert_eq!(resp, "{\"filename\":\"gen.js\",\"line\":2,\"column\":9}");
}

#[test]
fn resolve_negative_position_is_identity() {
    let mut cache = SourceMapCache::new();
    let mut fetcher =
        TableFetcher::new(vec![(String::from("gen.js"), simple_map_payload())]);
    let req = "{\"filename\":\"gen.js\",\"line\":-1,\"column\":-2}";
    let resp = op_apply_source_map(&mut cache, &mut fetcher, req).unwrap();
    assert_eq!(resp, "{\"filename\":\"gen.js\",\"line\":-1,\"column\":-2}");
}

#[test]
fn malformed_payload_degrades_to_identity() {
    let mut cache = SourceMapCache::new();
    // mappings out of order: the parser records "no map available"
    let bad = String::from(
        "{\"sources\":[\"orig.ts\"],\"mappings\":[[2,0,0,1,0],[1,0,0,2,0]]}",
    );
    let mut fetcher = TableFetcher::new(vec![(String::from("gen.js"), bad)]);
    let req = "{\"filename\":\"gen.js\",\"line\":1,\"column\":0}";
    let resp = op_apply_source_map(&mut cache, &mut fetcher, req).unwrap();
    assert_eq!(resp, "{\"filename\":\"gen.js\",\"line\":1,\"column\":0}");
}

#[test]
fn unparseable_payload_degrades_to_identity() {
    let mut cache = SourceMapCache::new();
    let mut fetcher = TableFetcher::new(vec![(
        String::from("gen.js"),
        String::from("this is not json"),
    )]);
    let req = "{\"filename\":\"gen.js\",\"line\":1,\"column\":0}";
    let resp = op_apply_source_map(&mut cache, &mut fetcher, req).unwrap();
    assert_eq!(resp, "{\"filename\":\"gen.js\",\"line\":1,\"column\":0}");
}

#[test]
fn malformed_resolve_request_fails() {
    let mut cache = SourceMapCache::new();
    let mut fetcher = TableFetcher::new(vec![]);
    let r = op_apply_source_map(&mut cache, &mut fetcher, "{\"filename\":\"gen.js\"}");
    assert_eq!(r, Err(OpError::MalformedInput));
    let r2 = op_apply_source_map(&mut cache, &mut fetcher, "not json at all");
    assert_eq!(r2, Err(OpError::MalformedInput));
    assert_eq!(fetcher.calls, 0);
}

#[test]
fn source_map_fetched_and_parsed_once_per_file() {
    let mut cache = SourceMapCache::new();
    let mut fetcher =
        TableFetcher::new(vec![(String::from("gen.js"), simple_map_payload())]);
    let r1 = op_apply_source_map(
        &mut cache,
        &mut fetcher,
        "{\"filename\":\"gen.js\",\"line\":1,\"column\":8}",
    )
    .unwrap();
    let r2 = op_apply_source_map(
        &mut cache,
        &mut fetcher,
        "{\"filename\":\"gen.js\",\"line\":3,\"column\":0}",
    )
    .unwrap();
    assert_eq!(fetcher.calls, 1);
    assert_eq!(r1, "{\"filename\":\"orig.ts\",\"line\":12,\"column\":4}");
    assert_eq!(r2, "{\"filename\":\"orig.ts\",\"line\":1,\"column\":1}");
}

#[test]
fn negative_fetch_outcome_is_cached_too() {
    let mut cache = SourceMapCache::new();
    let mut fetcher = TableFetcher::new(vec![]);
    let file = String::from("gen.js");
    let t1 = resolve_position(&mut cache, &mut fetcher, &file, 1, 2);
    let t2 = resolve_position(&mut cache, &mut fetcher, &file, 3, 4);
    assert_eq!(fetcher.calls, 1);
    assert_eq!(t1, (String::from("gen.js"), 1, 2));
    assert_eq!(t2, (String::from("gen.js"), 3, 4));
}

#[test]
fn format_error_message_only() {
    let mut cache = SourceMapCache::new();
    let mut fetcher = TableFetcher::new(vec![]);
    let req =
        "{\"error\":\"{\\\"message\\\":\\\"boom\\\",\\\"kind\\\":\\\"TypeError\\\",\\\"frames\\\":[]}\"}";
    let resp = op_format_error(&mut cache, &mut fetcher, req).unwrap();
    assert_eq!(resp, "{\"error\":\"TypeError: boom\"}");
}

#[test]
fn format_error_without_kind_is_message_alone() {
    let mut cache = SourceMapCache::new();
    let mut fetcher = TableFetcher::new(vec![]);
    let req = "{\"error\":\"{\\\"message\\\":\\\"boom\\\",\\\"frames\\\":[]}\"}";
    let resp = op_format_error(&mut cache, &mut fetcher, req).unwrap();
    assert_eq!(resp, "{\"error\":\"boom\"}");
}

#[test]
fn malformed_inner_error_fails_with_no_output() {
    let mut cache = SourceMapCache::new();
    let mut fetcher = TableFetcher::new(vec![]);
    let r = op_format_error(&mut cache, &mut fetcher, "{\"error\": \"not-json\"}");
    assert_eq!(r, Err(OpError::MalformedInput));
    assert_eq!(fetcher.calls, 0);
}

#[test]
fn missing_message_is_malformed() {
    let mut cache = SourceMapCache::new();
    let mut fetcher = TableFetcher::new(vec![]);
    let req = "{\"error\":\"{\\\"frames\\\":[]}\"}";
    let r = op_format_error(&mut cache, &mut fetcher, req);
    assert_eq!(r, Err(OpError::MalformedInput));
}

#[test]
fn missing_frames_is_malformed() {
    let mut cache = SourceMapCache::new();
    let mut fetcher = TableFetcher::new(vec![]);
    let req = "{\"error\":\"{\\\"message\\\":\\\"boom\\\"}\"}";
    let r = op_format_error(&mut cache, &mut fetcher, req);
    assert_eq!(r, Err(OpError::MalformedInput));
}

fn plain_frame(file: &str, line: i64, column: i64) -> Frame {
    Frame {
        function_name: None,
        file_name: String::from(file),
        line,
        column,
        is_native: false,
        is_eval: false,
    }
}

#[test]
fn format_resolves_frame_positions() {
    let mut cache = SourceMapCache::new();
    let mut fetcher =
        TableFetcher::new(vec![(String::from("gen.js"), simple_map_payload())]);
    let err = ParsedError {
        message: String::from("boom"),
        kind: Some(String::from("TypeError")),
        frames: vec![
            Frame {
                function_name: Some(String::from("inner")),
                file_name: String::from("gen.js"),
                line: 1,
                column: 8,
                is_native: false,
                is_eval: false,
            },
            plain_frame("other.js", 4, 2),
        ],
        cause: None,
    };
    let text = format_error(&mut cache, &mut fetcher, &err);
    assert_eq!(
        text,
        "TypeError: boom\n    at inner (orig.ts:12:4)\n    at <anonymous> (other.js:4:2)"
    );
}

#[test]
fn native_frame_keeps_reported_position_and_skips_resolver() {
    let mut cache = SourceMapCache::new();
    let mut fetcher =
        TableFetcher::new(vec![(String::from("gen.js"), simple_map_payload())]);
    let err = ParsedError {
        message: String::from("boom"),
        kind: None,
        frames: vec![Frame {
            function_name: Some(String::from("sys")),
            file_name: String::from("gen.js"),
            line: 1,
            column: 8,
            is_native: true,
            is_eval: false,
        }],
        cause: None,
    };
    let text = format_error(&mut cache, &mut fetcher, &err);
    // the position stays the reported one even though a map exists for the file
    assert_eq!(text, "boom\n    at sys (gen.js:1:8) [native]");
    assert_eq!(fetcher.calls, 0);
}

#[test]
fn eval_frame_keeps_reported_position() {
    let mut cache = SourceMapCache::new();
    let mut fetcher =
        TableFetcher::new(vec![(String::from("gen.js"), simple_map_payload())]);
    let err = ParsedError {
        message: String::from("boom"),
        kind: None,
        frames: vec![Frame {
            function_name: None,
            file_name: String::from("gen.js"),
            line: 1,
            column: 8,
            is_native: false,
            is_eval: true,
        }],
        cause: None,
    };
    let text = format_error(&mut cache, &mut fetcher, &err);
    assert_eq!(text, "boom\n    at <anonymous> (gen.js:1:8) [eval]");
    assert_eq!(fetcher.calls, 0);
}

#[test]
fn formatting_twice_is_byte_identical() {
    let mut cache = SourceMapCache::new();
    let mut fetcher =
        TableFetcher::new(vec![(String::from("gen.js"), simple_map_payload())]);
    let err = ParsedError {
        message: String::from("boom"),
        kind: Some(String::from("TypeError")),
        frames: vec![plain_frame("gen.js", 1, 8), plain_frame("gen.js", 3, 5)],
        cause: None,
    };
    let first = format_error(&mut cache, &mut fetcher, &err);
    let calls_after_first = fetcher.calls;
    let second = format_error(&mut cache, &mut fetcher, &err);
    assert_eq!(first, second);
    assert_eq!(fetcher.calls, calls_after_first);
}

#[test]
fn cause_chain_is_rendered_after_separator() {
    let mut cache = SourceMapCache::new();
    let mut fetcher = TableFetcher::new(vec![]);
    let inner = ParsedError {
        message: String::from("root"),
        kind: Some(String::from("Error")),
        frames: vec![],
        cause: None,
    };
    let err = ParsedError {
        message: String::from("outer"),
        kind: None,
        frames: vec![],
        cause: Some(Box::new(inner)),
    };
    let text = format_error(&mut cache, &mut fetcher, &err);
    assert_eq!(text, "outer\nCaused by: Error: root");
}

#[test]
fn cause_chain_parses_from_request() {
    let mut cache = SourceMapCache::new();
    let mut fetcher = TableFetcher::new(vec![]);
    let outer_doc =
        "{\"message\":\"outer\",\"frames\":[],\"cause\":{\"message\":\"root\",\"frames\":[]}}";
    let request = format!("{{\"error\":{}}}", serde_json::to_string(outer_doc).unwrap());
    let resp = op_format_error(&mut cache, &mut fetcher, &request).unwrap();
    assert_eq!(resp, "{\"error\":\"outer\\nCaused by: root\"}");
}

#[test]
fn filename_with_quote_is_escaped_in_response() {
    let mut cache = SourceMapCache::new();
    let mut fetcher = TableFetcher::new(vec![]);
    let request = "{\"filename\":\"we\\\"ird.js\",\"line\":1,\"column\":2}";
    let resp = op_apply_source_map(&mut cache, &mut fetcher, request).unwrap();
    assert_eq!(resp, "{\"filename\":\"we\\\"ird.js\",\"line\":1,\"column\":2}");
}

#[test]
fn frame_fields_default_when_absent() {
    let mut cache = SourceMapCache::new();
    let mut fetcher = TableFetcher::new(vec![]);
    let req = "{\"error\":\"{\\\"message\\\":\\\"m\\\",\\\"frames\\\":[{}]}\"}";
    let resp = op_format_error(&mut cache, &mut fetcher, req).unwrap();
    assert_eq!(resp, "{\"error\":\"m\\n    at <anonymous> (:0:0)\"}");
}

#[test]
fn frame_field_of_wrong_type_is_malformed() {
    let mut cache = SourceMapCache::new();
    let mut fetcher = TableFetcher::new(vec![]);
    let req =
        "{\"error\":\"{\\\"message\\\":\\\"m\\\",\\\"frames\\\":[{\\\"line\\\":\\\"one\\\"}]}\"}";
    let r = op_format_error(&mut cache, &mut fetcher, req);
    assert_eq!(r, Err(OpError::MalformedInput));
}

#[test]
fn get_map_reflects_fetch_outcome() {
    let mut cache = SourceMapCache::new();
    let mut fetcher =
        TableFetcher::new(vec![(String::from("gen.js"), simple_map_payload())]);
    let gen = String::from("gen.js");
    let other = String::from("other.js");
    assert!(cache.get_map(&gen).is_none());
    let _ = resolve_position(&mut cache, &mut fetcher, &gen, 1, 0);
    let _ = resolve_position(&mut cache, &mut fetcher, &other, 1, 0);
    let sm = cache.get_map(&gen).unwrap();
    assert_eq!(sm.file_table, vec![String::from("orig.ts")]);
    assert_eq!(sm.mappings.len(), 4);
    // the failed fetch left a negative entry: still no map for that file
    assert!(cache.get_map(&other).is_none());
}
