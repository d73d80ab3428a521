use zkjson::structural::{build_witness, check_rows, structurally_valid};

fn symbols(text: &str) -> Vec<u64> {
    text.chars().map(|c| c as u64).collect()
}

#[test]
fn test_simple_json() {
    let test_json = String::from("{\"a\": 1, \"b\": 2}");
    assert!(structurally_valid(&symbols(&test_json)));
}

#[test]
fn test_json_escaped_chars() {
    let test_json = String::from("{\"a{}\": 1, \"b\": \"\\\"\"}");
    assert!(structurally_valid(&symbols(&test_json)));
}

#[test]
fn test_json_escaped_chars_2() {
    let test_json = String::from("{\"a{}\": \" \\\" { \\\" { \\\" \", \"b\": \"\\\"\"}");
    assert!(structurally_valid(&symbols(&test_json)));
}

#[test]
fn test_json_escaped_chars_3() {
    let test_json = String::from("{\"a{}\": \"1\" \"2\", \"b\": \"\\\"\"}");
    assert!(structurally_valid(&symbols(&test_json)));
}

#[test]
fn rejects_unbalanced_braces() {
    assert!(!structurally_valid(&symbols("{\"a\":1}}")));
    assert!(!structurally_valid(&symbols("{{\"a\":1}")));
    assert!(!structurally_valid(&symbols("{\"a\":1")));
    assert!(!structurally_valid(&symbols("\"a\":1}")));
}

#[test]
fn rejects_premature_close_and_stray_quote() {
    // The level returns to zero before the end row.
    assert!(!structurally_valid(&symbols("{}{}")));
    // An unterminated string leaves the end row inside a string.
    assert!(!structurally_valid(&symbols("{\"a}")));
    // A backslash outside every string violates the escape gate.
    assert!(!structurally_valid(&symbols("{\\a}")));
}

#[test]
fn rejects_too_few_rows() {
    // Fewer than two symbols cannot hold a start and an end row.
    assert!(!structurally_valid(&symbols("")));
    assert!(!structurally_valid(&symbols("{")));
    // The smallest accepted document.
    assert!(structurally_valid(&symbols("{}")));
}

#[test]
fn witness_carries_levels_and_string_status() {
    let rows = build_witness(&symbols("{\"{\": {}}"));
    assert!(check_rows(&rows));
    // index:            0    1    2    3    4    5    6    7    8
    // symbol:           {    "    {    "    :    ' '  {    }    }
    let levels: Vec<i64> = rows.iter().map(|r| r.level).collect();
    assert_eq!(levels, vec![1, 1, 1, 1, 1, 1, 2, 1, 0]);
    let outside: Vec<bool> = rows.iter().map(|r| r.not_str).collect();
    assert_eq!(
        outside,
        vec![true, false, false, true, true, true, true, true, true]
    );
}

#[test]
fn witness_marks_escapes_once() {
    let rows = build_witness(&symbols("{\"\\\\\"}"));
    // index:            0    1    2    3    4    5
    // symbol:           {    "    \    \    "    }
    let escaped: Vec<bool> = rows.iter().map(|r| r.str_escaped).collect();
    assert_eq!(escaped, vec![false, false, true, false, false, false]);
    assert!(check_rows(&rows));
}

#[test]
fn checker_rejects_a_tampered_witness() {
    let mut rows = build_witness(&symbols("{\"a\": 1}"));
    assert!(check_rows(&rows));
    // Pretending the closing brace sits inside a string breaks the
    // string-toggle gate.
    let last = rows.len() - 1;
    rows[last - 1].not_str = false;
    assert!(!check_rows(&rows));
}
