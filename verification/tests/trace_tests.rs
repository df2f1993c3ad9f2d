//! Tests for the trace recorder and its JSON rendering.

use fri3d_runtime::trace::TraceArg;
use fri3d_runtime::trace::TraceLog;

#[test]
fn trace_json_renders_an_empty_log() {
    let log = TraceLog::new();
    let out = log.trace_json("demo", 42, 0);
    let expected = "{\n  \"app\": \"demo\",\n  \"seed\": 42,\n  \"frames\": 0,\n  \"events\": [\n  ]\n}\n";
    assert_eq!(out, expected.as_bytes());
}

#[test]
fn trace_json_renders_calls_and_results() {
    let mut log = TraceLog::new();
    log.trace_begin(0);
    log.trace_call("canvas_clear", Vec::new());
    log.trace_call(
        "canvas_draw_dot",
        vec![TraceArg::of_int(3), TraceArg::of_int(-4)],
    );
    log.trace_call("canvas_width", Vec::new());
    log.trace_result(128);
    log.trace_begin(1);
    log.trace_call("canvas_draw_str", vec![
        TraceArg::of_int(0),
        TraceArg::of_int(10),
        TraceArg::of_str("hi\n\"x\""),
    ]);

    let out = log.trace_json("app-1", 7, 2);
    let mut expected = String::new();
    expected.push_str("{\n  \"app\": \"app-1\",\n  \"seed\": 7,\n  \"frames\": 2,\n  \"events\": [\n");
    expected.push_str("    {\"frame\": 0, \"fn\": \"canvas_clear\", \"args\": []},\n");
    expected.push_str("    {\"frame\": 0, \"fn\": \"canvas_draw_dot\", \"args\": [3, -4]},\n");
    expected.push_str("    {\"frame\": 0, \"fn\": \"canvas_width\", \"args\": [], \"ret\": 128},\n");
    expected.push_str("    {\"frame\": 1, \"fn\": \"canvas_draw_str\", \"args\": [0, 10, \"hi\\n\\\"x\\\"\"]}\n");
    expected.push_str("  ]\n}\n");
    assert_eq!(String::from_utf8(out).unwrap(), expected);
}

#[test]
fn trace_json_is_deterministic() {
    let build = || {
        let mut log = TraceLog::new();
        log.trace_begin(3);
        log.trace_call("random_get", Vec::new());
        log.trace_result(123456789);
        log.trace_json("same", 1, 4)
    };
    assert_eq!(build(), build());
}

#[test]
fn trace_reset_clears_the_log() {
    let mut log = TraceLog::new();
    log.trace_call("canvas_clear", Vec::new());
    log.trace_reset();
    let out = log.trace_json("x", 0, 0);
    let expected = "{\n  \"app\": \"x\",\n  \"seed\": 0,\n  \"frames\": 0,\n  \"events\": [\n  ]\n}\n";
    assert_eq!(out, expected.as_bytes());
}
