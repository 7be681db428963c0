use jpnorm_core::{load_sudachi_synonyms, SudachiParseError, SynonymDict, SynonymDictError};

#[test]
fn basic_apply() {
    let mut d = SynonymDict::new();
    d.insert("パソコン", "パーソナルコンピュータ");
    d.insert("JR東", "東日本旅客鉄道");
    let out = d.apply("昨日パソコンとJR東を使った");
    assert_eq!(out, "昨日パーソナルコンピュータと東日本旅客鉄道を使った");
}

#[test]
fn longest_match() {
    let mut d = SynonymDict::new();
    d.insert("東京", "TOKYO");
    d.insert("東京都", "TOKYO-METRO");
    assert_eq!(d.apply("東京都に住む"), "TOKYO-METROに住む");
    assert_eq!(d.apply("東京に行く"), "TOKYOに行く");
}

#[test]
fn csv_load() {
    let csv = "# comment\nパソコン,パーソナルコンピュータ\nJR東,東日本旅客鉄道\n";
    let d = SynonymDict::from_delimited(csv, ',').unwrap();
    assert_eq!(d.len(), 2);
    assert_eq!(d.apply("パソコン"), "パーソナルコンピュータ");
}

#[test]
fn tsv_load() {
    let tsv = "受付\t受け付け\n";
    let d = SynonymDict::from_delimited(tsv, '\t').unwrap();
    assert_eq!(d.apply("受付"), "受け付け");
}

#[test]
fn csv_invalid_row_reports_its_line() {
    let csv = "a,b\n\n# note\nno separator here\nc,d\n";
    let e = SynonymDict::from_delimited(csv, ',').unwrap_err();
    assert!(matches!(e, SynonymDictError::InvalidRow { line: 4 }));
    assert_eq!(e.to_string(), "invalid row at line 4");
    let e = SynonymDict::from_delimited(" ,x", ',').unwrap_err();
    assert!(matches!(e, SynonymDictError::InvalidRow { line: 1 }));
}

#[test]
fn csv_rows_are_trimmed_and_split_once() {
    let d = SynonymDict::from_delimited("  a , b,c  \r\n", ',').unwrap();
    assert_eq!(d.iter(), vec![("a", "b,c")]);
}

#[test]
fn json_load() {
    let j = r#"{"パソコン": "パーソナルコンピュータ", "旧字": "新字"}"#;
    let d = SynonymDict::from_json(j).unwrap();
    assert_eq!(d.len(), 2);
    assert_eq!(d.apply("パソコン"), "パーソナルコンピュータ");
}

#[test]
fn json_unicode_escapes() {
    let j = r#"{"\u5e7d\u904a\u767d\u66f8": ["\u5e7d\u767d", "\ud83d\ude00"]}"#;
    let d = SynonymDict::from_json_grouped(j).unwrap();
    assert_eq!(d.apply("幽白と😀"), "幽遊白書と幽遊白書");
}

#[test]
fn json_all_escapes_and_whitespace() {
    let j = "{\r\n  \"a\\\"b\" : \"x\\/y\\n\" ,\n \"c\": \"\\b\\f\\r\\t\"\n}";
    let d = SynonymDict::from_json(j).unwrap();
    assert_eq!(d.apply("a\"b"), "x/y\n");
    assert_eq!(d.apply("c"), "\u{8}\u{c}\r\t");
}

#[test]
fn json_errors_are_descriptive() {
    let e = SynonymDict::from_json("[1, 2]").unwrap_err();
    assert!(matches!(e, SynonymDictError::InvalidJson { .. }));
    assert!(e.to_string().contains("top-level object"), "{}", e.to_string());
    let e = SynonymDict::from_json_grouped(r#"{"a": "b"}"#).unwrap_err();
    assert!(e.to_string().contains("array"), "{}", e.to_string());
    let e = SynonymDict::from_json(r#"{"a": "b"} x"#).unwrap_err();
    assert!(e.to_string().contains("trailing"), "{}", e.to_string());
    let e = SynonymDict::from_json(r#"{"a": "\ud800"}"#).unwrap_err();
    assert!(e.to_string().contains("surrogate"), "{}", e.to_string());
}

#[test]
fn json_error_offsets() {
    let e = SynonymDict::from_json(r#"{"a" "b"}"#).unwrap_err();
    assert_eq!(e.to_string(), "invalid json at char 5: expected ':' after object key");
    let e = SynonymDict::from_json(r#"{"a": "b"} x"#).unwrap_err();
    assert_eq!(e.to_string(), "invalid json at char 11: trailing characters after top-level value");
    let e = SynonymDict::from_json(r#"{"a": "\q"}"#).unwrap_err();
    assert_eq!(e.to_string(), "invalid json at char 9: invalid escape sequence");
    let e = SynonymDict::from_json(r#"{"a": "\u12G4"}"#).unwrap_err();
    assert_eq!(e.to_string(), "invalid json at char 11: expected 4 hex digits after \\u");
    let e = SynonymDict::from_json(r#"{"a": ["b"}"#).unwrap_err();
    assert_eq!(e.to_string(), "invalid json at char 10: expected ',' or ']'");
    let e = SynonymDict::from_json("").unwrap_err();
    assert_eq!(e.to_string(), "invalid json at char 0: unexpected end of input");
    let e = SynonymDict::from_json(r#"{"a": "b"#).unwrap_err();
    assert_eq!(e.to_string(), "invalid json at char 8: unterminated string");
    let e = SynonymDict::from_json(r#"{"a": "\ud83dx"}"#).unwrap_err();
    assert_eq!(e.to_string(), "invalid json at char 13: lone high surrogate in \\u escape");
}

#[test]
fn json_nested_values_are_read_and_skipped() {
    let j = r#"{"k": ["v", {"x": [1, true, null]}, "w"]}"#;
    let d = SynonymDict::from_json_grouped(j);
    assert!(matches!(d, Err(SynonymDictError::InvalidJson { offset: 0, message: "expected string in array" })));
    let d = SynonymDict::from_json_grouped(r#"{"k": [], "z": {"a": [1, {}]}}"#);
    assert!(matches!(d, Err(SynonymDictError::InvalidJson { offset: 0, message: "expected array of strings" })));
}

#[test]
fn json_tolerates_non_string_values_when_unused() {
    let e = SynonymDict::from_json(r#"{"a": 1}"#).unwrap_err();
    assert!(e.to_string().contains("string"), "{}", e.to_string());
}

#[test]
fn json_grouped_load() {
    let j = r#"{
        "幽遊白書": ["幽白", "ゆうはく", "幽☆遊☆白書"],
        "パソコン": ["PC", "パーコン"]
    }"#;
    let d = SynonymDict::from_json_grouped(j).unwrap();
    assert_eq!(d.apply("幽白とゆうはくと幽☆遊☆白書"), "幽遊白書と幽遊白書と幽遊白書");
    assert_eq!(d.apply("PCを買う"), "パソコンを買う");
    assert_eq!(d.apply("幽遊白書"), "幽遊白書");
}

#[test]
fn json_grouped_empty_variants() {
    let d = SynonymDict::from_json_grouped(r#"{"正規": []}"#).unwrap();
    assert_eq!(d.len(), 0);
}

#[test]
fn json_grouped_skips_the_canonical_form() {
    let d = SynonymDict::from_json_grouped(r#"{"A": ["A", "a"]}"#).unwrap();
    assert_eq!(d.iter(), vec![("a", "A")]);
}

#[test]
fn grouped_doc_example() {
    let j = r#"{"幽遊白書": ["幽白", "ゆうはく", "幽☆遊☆白書"]}"#;
    let d = SynonymDict::from_json_grouped(j).unwrap();
    assert_eq!(d.apply("昨日ゆうはくを読んだ"), "昨日幽遊白書を読んだ");
    assert_eq!(d.apply("幽☆遊☆白書は名作"), "幽遊白書は名作");
}

#[test]
fn empty_dict_passthrough() {
    let d = SynonymDict::new();
    assert_eq!(d.apply("何も変わらない"), "何も変わらない");
}

#[test]
fn insert_replaces_and_ignores_empty() {
    let mut d = SynonymDict::new();
    d.insert("", "x");
    assert!(d.is_empty());
    d.insert("a", "1");
    d.insert("b", "2");
    d.insert("a", "3");
    assert_eq!(d.len(), 2);
    assert_eq!(d.iter(), vec![("a", "3"), ("b", "2")]);
}

#[test]
fn extend_merges_entries() {
    let mut d = SynonymDict::new();
    d.insert("a", "1");
    let mut other = SynonymDict::new();
    other.insert("a", "2");
    other.insert("c", "3");
    d.extend(other);
    assert_eq!(d.iter(), vec![("a", "2"), ("c", "3")]);
    let copy = d.clone();
    assert_eq!(copy.iter(), d.iter());
}

const FIXTURE: &str = "\
000001,1,0,1,0,0,0,IT,パーソナルコンピュータ,,
000001,1,0,1,2,0,0,IT,パソコン,,
000001,1,0,1,2,1,0,IT,PC,,
000002,1,0,1,0,0,0,鉄道,東日本旅客鉄道,,
000002,1,0,1,2,1,0,鉄道,JR東日本,,
000002,1,0,1,2,1,0,鉄道,JR東,,
";

#[test]
fn parse_fixture() {
    let dict = load_sudachi_synonyms(FIXTURE).unwrap();
    assert!(dict.len() >= 4);
    assert_eq!(dict.apply("パソコンを買った"), "パーソナルコンピュータを買った");
    assert_eq!(dict.apply("JR東に乗る"), "東日本旅客鉄道に乗る");
}

#[test]
fn ignores_comments_and_blanks() {
    let text = "# header comment\n\n000001,1,0,1,0,0,0,x,代表,,\n000001,1,0,1,2,0,0,x,別名,,\n";
    let dict = load_sudachi_synonyms(text).unwrap();
    assert_eq!(dict.apply("別名"), "代表");
}

#[test]
fn sudachi_brackets_fallback_and_errors() {
    let text = "1,1,0,1,2,0,0,x,（甲）,,\n1,1,0,1,2,0,0,x,乙,,\nshort,row\nnocomma\n";
    let e = load_sudachi_synonyms(text).unwrap_err();
    assert!(matches!(e, SudachiParseError::TooFewColumns { line: 4 }));
    assert_eq!(e.to_string(), "sudachi synonyms: too few columns at line 4");
    let text = "1,1,0,1,2,0,0,x,（甲）,,\n1,1,0,1,2,0,0,x,乙,,\n2,1,0,1,+0,0,0,x,(丙),,\n2,1,0,1,9,0,0,x,丁,,\n";
    let dict = load_sudachi_synonyms(text).unwrap();
    assert_eq!(dict.iter(), vec![("乙", "甲"), ("丁", "丙")]);
}
