use knowledge_observer::observer::tail::{
    is_injected, new_lines, reconcile_watermark, strip_tool_results, INJECTED_MARKER,
    MAX_TOOL_RESULT_LEN,
};
use serde_json::Value;

// ---- new_lines ----

#[test]
fn new_lines_three_full_lines() {
    let buf = b"line one\nline two\nline three\n";
    let (lines, wm) = new_lines(buf, 0);
    assert_eq!(lines, vec!["line one", "line two", "line three"]);
    assert_eq!(wm, buf.len() as u64);
}

#[test]
fn new_lines_trailing_partial_not_consumed() {
    let buf = b"complete\npartial without newline";
    let (lines, wm) = new_lines(buf, 0);
    assert_eq!(lines, vec!["complete"]);
    // Watermark stops right after the first '\n'.
    assert_eq!(wm, "complete\n".len() as u64);
}

#[test]
fn new_lines_resumes_after_partial_completes() {
    let buf1 = b"complete\npartial";
    let (_lines1, wm1) = new_lines(buf1, 0);
    // Same buffer grew: the partial line now has its newline.
    let buf2 = b"complete\npartial now complete\n";
    let (lines2, wm2) = new_lines(buf2, wm1);
    assert_eq!(lines2, vec!["partial now complete"]);
    assert_eq!(wm2, buf2.len() as u64);
}

#[test]
fn new_lines_watermark_at_or_past_end() {
    let buf = b"only line\n";
    let (lines, wm) = new_lines(buf, buf.len() as u64);
    assert!(lines.is_empty());
    assert_eq!(wm, buf.len() as u64);

    let (lines2, wm2) = new_lines(buf, (buf.len() + 100) as u64);
    assert!(lines2.is_empty());
    assert_eq!(wm2, (buf.len() + 100) as u64);
}

#[test]
fn new_lines_multibyte_utf8_survives() {
    // "über — Größe 文字\n" contains multi-byte chars; slicing must be byte-safe.
    let s = "über — Größe 文字\nzweite Zeile\n";
    let buf = s.as_bytes();
    let (lines, wm) = new_lines(buf, 0);
    assert_eq!(lines, vec!["über — Größe 文字", "zweite Zeile"]);
    assert_eq!(wm, buf.len() as u64);
}

#[test]
fn new_lines_trims_trailing_cr() {
    let buf = b"windows line\r\nunix line\n";
    let (lines, wm) = new_lines(buf, 0);
    assert_eq!(lines, vec!["windows line", "unix line"]);
    assert_eq!(wm, buf.len() as u64);
}

// ---- reconcile_watermark ----

#[test]
fn reconcile_stem_changed_resets_to_zero() {
    assert_eq!(reconcile_watermark("old", 500, 1200, "new"), 0);
}

#[test]
fn reconcile_same_stem_shrank_clamps_to_file_len() {
    assert_eq!(reconcile_watermark("same", 500, 120, "same"), 120);
}

#[test]
fn reconcile_same_stem_grew_or_equal_keeps_prev() {
    assert_eq!(reconcile_watermark("same", 500, 900, "same"), 500);
    assert_eq!(reconcile_watermark("same", 500, 500, "same"), 500);
}

// ---- is_injected ----

#[test]
fn is_injected_empty_sentinel_is_false() {
    assert!(!is_injected("anything at all", ""));
}

#[test]
fn is_injected_matching_sentinel_is_true() {
    assert!(is_injected("prefix OBS-INJECT suffix", "OBS-INJECT"));
}

#[test]
fn is_injected_non_matching_is_false() {
    assert!(!is_injected("ordinary line", "OBS-INJECT"));
}

#[test]
fn is_injected_knowledge_marker_matches_hint_lines() {
    // The armed marker filters observer-injected hint/index lines by prefix.
    assert!(is_injected("[Knowledge] Index updated: 2 new node(s)", INJECTED_MARKER));
    assert!(is_injected("prefix [Knowledge] relevance nudge", INJECTED_MARKER));
    assert!(!is_injected("an ordinary user turn", INJECTED_MARKER));
}

// ---- strip_tool_results ----

fn content_string(line: &str) -> Option<String> {
    let v: Value = serde_json::from_str(line).ok()?;
    let arr = v.get("message")?.get("content")?.as_array()?;
    for b in arr {
        if b.get("type").and_then(|t| t.as_str()) == Some("tool_result") {
            return b.get("content").and_then(|c| c.as_str()).map(String::from);
        }
    }
    None
}

#[test]
fn strip_long_tool_result_string_truncated_with_marker() {
    let big = "X".repeat(5000);
    let line = format!(
        r#"{{"type":"user","message":{{"role":"user","content":[{{"type":"tool_result","tool_use_id":"T","content":"{big}"}}]}}}}"#
    );
    let out = strip_tool_results(&line, MAX_TOOL_RESULT_LEN);
    let c = content_string(&out).expect("content present");
    assert!(c.ends_with("…[gekürzt]"));
    // 2000 chars of payload + the marker.
    assert_eq!(c.chars().count(), MAX_TOOL_RESULT_LEN + "…[gekürzt]".chars().count());
    assert!(c.starts_with("XXXX"));
}

#[test]
fn strip_short_tool_result_unchanged() {
    let line = r#"{"type":"user","message":{"role":"user","content":[{"type":"tool_result","tool_use_id":"T","content":"short result"}]}}"#;
    let out = strip_tool_results(line, MAX_TOOL_RESULT_LEN);
    let c = content_string(&out).unwrap();
    assert_eq!(c, "short result");
    assert!(!c.contains("[gekürzt]"));
}

#[test]
fn strip_content_as_array_truncated() {
    let big = "Y".repeat(5000);
    let line = format!(
        r#"{{"type":"user","message":{{"role":"user","content":[{{"type":"tool_result","tool_use_id":"T","content":[{{"type":"text","text":"{big}"}}]}}]}}}}"#
    );
    let out = strip_tool_results(&line, MAX_TOOL_RESULT_LEN);
    let v: Value = serde_json::from_str(&out).unwrap();
    let text = v["message"]["content"][0]["content"][0]["text"]
        .as_str()
        .unwrap();
    assert!(text.ends_with("…[gekürzt]"));
    assert_eq!(
        text.chars().count(),
        MAX_TOOL_RESULT_LEN + "…[gekürzt]".chars().count()
    );
}

#[test]
fn strip_non_json_returned_verbatim() {
    let line = "this is not json {{{ broken";
    let out = strip_tool_results(line, MAX_TOOL_RESULT_LEN);
    assert_eq!(out, line);
}

#[test]
fn strip_no_tool_result_unchanged() {
    let line = r#"{"type":"assistant","message":{"role":"assistant","content":[{"type":"text","text":"just prose"}]}}"#;
    let out = strip_tool_results(line, MAX_TOOL_RESULT_LEN);
    // Returned unchanged (byte-for-byte) because nothing was stripped.
    assert_eq!(out, line);
}

#[test]
fn strip_respects_custom_max_len() {
    let line = r#"{"type":"user","message":{"role":"user","content":[{"type":"tool_result","tool_use_id":"T","content":"abcdefghij"}]}}"#;
    let out = strip_tool_results(line, 4);
    let c = content_string(&out).unwrap();
    assert_eq!(c, "abcd…[gekürzt]");
}
