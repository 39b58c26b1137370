use knowledge_observer::json::{
    parse_json, read_natural, try_parse_json, write_json, write_json_pretty, Json,
};
use knowledge_observer::observer::contract::{extract_json_object, strip_code_fences};
use knowledge_observer::observer::tail::new_lines;
use knowledge_observer::project::{pick_project_dir, positional_project_override};
use knowledge_observer::record::has_repeated;
use knowledge_observer::score::Score;
use knowledge_observer::text::{
    contains, find, is_blank, is_less, join, number, one_of, shorten, split_lines, trim,
};

#[test]
fn trimming_knows_unicode_white_space() {
    assert_eq!(trim("\u{3000}\u{a0} x y \n\u{2028}"), "x y");
    assert_eq!(trim("\u{200b}x"), "\u{200b}x");
    assert!(is_blank(" \t\u{85}"));
    assert!(!is_blank("\u{feff}"));
}

#[test]
fn searching_and_cutting_count_characters() {
    assert!(contains("Straße", "aß"));
    assert!(contains("abc", ""));
    assert!(!contains("abc", "abcd"));
    let h: Vec<char> = "äbäb".chars().collect();
    let n: Vec<char> = "äb".chars().collect();
    assert_eq!(find(&h, &n, 1), Some(2));
    assert_eq!(find(&h, &n, 3), None);
    assert_eq!(shorten("äöü", 2, "…"), "äö…");
    assert_eq!(shorten("äöü", 3, "…"), "äöü");
}

#[test]
fn texts_compare_like_str() {
    for (a, b) in [("a", "b"), ("", "a"), ("a", "ab"), ("Z", "a"), ("z", "ä"), ("\u{ffff}", "\u{10000}")] {
        assert!(is_less(a, b) && a < b, "{a} {b}");
        assert!(!is_less(b, a));
    }
    assert!(!is_less("a", "a"));
}

#[test]
fn lines_are_split_like_str() {
    for s in ["a\nb\n", "a\r\nb", "", "\n", "a\r", "x\n\ny"] {
        let expected: Vec<&str> = s.lines().collect();
        assert_eq!(split_lines(s), expected, "{s:?}");
    }
}

#[test]
fn numbers_and_joins() {
    assert_eq!(number(0), "0");
    assert_eq!(number(18446744073709551615), "18446744073709551615");
    assert_eq!(join(&vec!["a".into(), "b".into()], ", "), "a, b");
    assert_eq!(join(&vec![], ", "), "");
    assert!(one_of(&"b".to_string(), &vec!["a".into(), "b".into()]));
}

#[test]
fn json_is_read_and_written() {
    let j = parse_json(r#" {"b": [1, 2.5, true, null], "a": "x\u0041\n"} "#).unwrap();
    assert_eq!(j.get_text("a").as_deref(), Some("xA\n"));
    assert!(matches!(j.get("b"), Some(Json::Arr(v)) if v.len() == 4));
    assert_eq!(j.get("c"), None);
    assert_eq!(write_json(j.copy()), r#"{"a":"xA\n","b":[1,2.5,true,null]}"#);
    assert_eq!(write_json_pretty(parse_json(r#"{"a":[1]}"#).unwrap()), "{\n  \"a\": [\n    1\n  ]\n}");
    assert_eq!(parse_json("{"), None);
    assert!(try_parse_json("nope").unwrap_err().contains("line 1 column 2"));
}

#[test]
fn numbers_of_json_keep_their_kind() {
    let j = parse_json(r#"{"n": 7, "f": 7.0, "neg": -7, "big": 18446744073709551615, "s": "7", "t": true}"#).unwrap();
    assert_eq!(j.get_natural("n"), Some(7));
    assert_eq!(j.get_natural("f"), None);
    assert_eq!(j.get_natural("neg"), None);
    assert_eq!(j.get_natural("big"), Some(u64::MAX));
    assert_eq!(j.get_natural("s"), None);
    assert_eq!(j.get_flag("t"), Some(true));
    assert_eq!(j.get_flag("n"), None);
    assert_eq!(read_natural("42"), Some(42));
    assert_eq!(read_natural("4x"), None);
}

#[test]
fn the_last_of_two_equal_keys_counts() {
    let j = parse_json(r#"{"a": 1, "a": 2}"#).unwrap();
    assert_eq!(j.get_natural("a"), Some(2));
    assert!(has_repeated(r#"{"a": 1, "a": 2}"#, &vec!["a".to_string()]));
    assert!(has_repeated(r#"{"a": 1, "\u0061": 2}"#, &vec!["a".to_string()]));
    assert!(!has_repeated(r#"{"a": {"a": 1}}"#, &vec!["a".to_string()]));
    assert!(!has_repeated(r#"{"b": 1, "b": 2}"#, &vec!["a".to_string()]));
}

#[test]
fn objects_are_found_in_chatter() {
    let s = "Sure! {\"a\": \"}\", \"b\": {\"c\": 1}} and more }";
    assert_eq!(extract_json_object(s).as_deref(), Some("{\"a\": \"}\", \"b\": {\"c\": 1}}"));
    assert_eq!(extract_json_object("{ open"), None);
    assert_eq!(extract_json_object("none"), None);
    assert_eq!(strip_code_fences("```json\n{}\n```").trim(), "{}");
    assert_eq!(strip_code_fences(" {} ").trim(), "{}");
}

#[test]
fn bad_bytes_become_replacement_characters() {
    let (lines, next) = new_lines(b"a\xffb\nrest", 0);
    assert_eq!(lines, vec!["a\u{fffd}b"]);
    assert_eq!(next, 4);
}

#[test]
fn scores_compare_like_floats() {
    let values = [-2.5, -0.0, 0.0, 1e-310, 0.1, 1.0, f64::INFINITY, f64::NEG_INFINITY, f64::NAN];
    for a in values {
        for b in values {
            let s = Score { bits: a.to_bits() }.exceeds(&Score { bits: b.to_bits() });
            assert_eq!(s, a > b, "{a} > {b}");
        }
    }
}

#[test]
fn project_directories_are_picked_in_order() {
    let some = |s: &str| Some(s.to_string());
    assert_eq!(pick_project_dir(&vec![None, some(" "), some("/a")], some("/cwd")), "/a");
    assert_eq!(pick_project_dir(&vec![None], some("/cwd")), "/cwd");
    assert_eq!(pick_project_dir(&vec![], None), ".");
    let args = |v: Vec<&str>| -> Vec<String> { v.into_iter().map(str::to_string).collect() };
    assert_eq!(positional_project_override(&args(vec!["exe", "observer-daemon", "--flag", " ", "/p", "/q"])), some("/p"));
    assert_eq!(positional_project_override(&args(vec!["/exe", "observer", "daemon"])), None);
    assert_eq!(Json::Null.as_str(), None);
}
