use sail::regexp_extract_all::{
    coerce_types, extract_all_matches, parse_regex, regexp_extract_all_inner, ArgDataType,
    RegexpExtractAllError, UnsupportedArgumentTypes, DEFAULT_GROUP_INDEX,
};

type Rows = Vec<Option<Vec<Option<String>>>>;

fn run_regexp_extract_all(values: &[&str], pattern: &str, idx: i64) -> Result<Rows, RegexpExtractAllError> {
    let values: Vec<Option<String>> = values.iter().map(|s| Some(s.to_string())).collect();
    let patterns: Vec<Option<String>> = vec![Some(pattern.to_string()); values.len()];
    let idxs: Vec<Option<i64>> = vec![Some(idx); values.len()];
    regexp_extract_all_inner(&values, &patterns, &idxs)
}

fn run_with_nulls(
    values: &[Option<&str>],
    patterns: &[Option<&str>],
    idxs: &[Option<i64>],
) -> Result<Rows, RegexpExtractAllError> {
    let values: Vec<Option<String>> = values.iter().map(|v| v.map(|s| s.to_string())).collect();
    let patterns: Vec<Option<String>> = patterns.iter().map(|v| v.map(|s| s.to_string())).collect();
    regexp_extract_all_inner(&values, &patterns, &idxs.to_vec())
}

fn get_strings(result: &Rows, row: usize) -> Vec<String> {
    result[row]
        .as_ref()
        .unwrap()
        .iter()
        .map(|s| s.clone().unwrap_or_default())
        .collect()
}

#[test]
fn test_basic_match() {
    let result = run_regexp_extract_all(&["foo bar baz"], "(\\w+)", 1).unwrap();
    assert_eq!(get_strings(&result, 0), vec!["foo", "bar", "baz"]);
}

#[test]
fn test_group_zero() {
    let result = run_regexp_extract_all(&["100-200, 300-400"], "(\\d+)-(\\d+)", 0).unwrap();
    assert_eq!(get_strings(&result, 0), vec!["100-200", "300-400"]);
}

#[test]
fn test_capture_groups() {
    let result = run_regexp_extract_all(&["100-200, 300-400"], "(\\d+)-(\\d+)", 1).unwrap();
    assert_eq!(get_strings(&result, 0), vec!["100", "300"]);

    let result = run_regexp_extract_all(&["100-200, 300-400"], "(\\d+)-(\\d+)", 2).unwrap();
    assert_eq!(get_strings(&result, 0), vec!["200", "400"]);
}

#[test]
fn test_no_match() {
    let result = run_regexp_extract_all(&["hello"], "(\\d+)", 1).unwrap();
    assert_eq!(get_strings(&result, 0), Vec::<String>::new());
}

#[test]
fn test_empty_string_input() {
    let result = run_regexp_extract_all(&[""], "(\\w+)", 1).unwrap();
    assert_eq!(get_strings(&result, 0), Vec::<String>::new());
}

#[test]
fn test_null_input_value() {
    let result = run_with_nulls(&[None], &[Some("(\\d+)")], &[Some(1)]).unwrap();
    assert!(result[0].is_none());
}

#[test]
fn test_null_pattern() {
    let result = run_with_nulls(&[Some("abc")], &[None], &[Some(1)]).unwrap();
    assert!(result[0].is_none());
}

#[test]
fn test_null_idx() {
    let result = run_with_nulls(&[Some("abc")], &[Some("(\\w+)")], &[None]).unwrap();
    assert!(result[0].is_none());
}

#[test]
fn test_nested_capture_groups() {
    // Pattern ((a)(b)) has 3 groups: 1=ab, 2=a, 3=b
    let result = run_regexp_extract_all(&["ab ab"], "((a)(b))", 1).unwrap();
    assert_eq!(get_strings(&result, 0), vec!["ab", "ab"]);

    let result = run_regexp_extract_all(&["ab ab"], "((a)(b))", 2).unwrap();
    assert_eq!(get_strings(&result, 0), vec!["a", "a"]);

    let result = run_regexp_extract_all(&["ab ab"], "((a)(b))", 3).unwrap();
    assert_eq!(get_strings(&result, 0), vec!["b", "b"]);
}

#[test]
fn test_no_capture_groups_idx_zero() {
    // Pattern without groups, idx=0 returns entire match
    let result = run_regexp_extract_all(&["100-200,300-400"], "\\d+", 0).unwrap();
    assert_eq!(get_strings(&result, 0), vec!["100", "200", "300", "400"]);
}

#[test]
fn test_optional_group_not_matched() {
    // Pattern (a)?(b) — when matching "b", group 1 is not captured
    let result = run_regexp_extract_all(&["b ab"], "(a)?(b)", 1).unwrap();
    let strings = result[0].as_ref().unwrap();
    // First match: "b" alone — group 1 didn't match → None
    assert_eq!(strings.len(), 2);
    assert!(strings[0].is_none());
    // Second match: "ab" — group 1 matched "a"
    assert_eq!(strings[1].as_deref(), Some("a"));
}

#[test]
fn test_multiple_rows() {
    let result = run_regexp_extract_all(&["abc 123", "def 456"], "(\\d+)", 1).unwrap();
    assert_eq!(get_strings(&result, 0), vec!["123"]);
    assert_eq!(get_strings(&result, 1), vec!["456"]);
}

#[test]
fn test_unicode_input() {
    let result = run_regexp_extract_all(&["cafe\u{0301} naive\u{0308}"], "(\\w+)", 1).unwrap();
    let strings = get_strings(&result, 0);
    assert!(!strings.is_empty());
}

#[test]
fn test_greedy_vs_non_overlapping() {
    // Regex is greedy by default; "aaa" matches once as "aaa", not ["a","a","a"]
    let result = run_regexp_extract_all(&["aaa"], "(a+)", 1).unwrap();
    assert_eq!(get_strings(&result, 0), vec!["aaa"]);
}

#[test]
fn negative_group_index_is_refused() {
    let result = run_regexp_extract_all(&["abc"], "(\\w+)", -1);
    assert_eq!(result, Err(RegexpExtractAllError::NegativeGroupIndex(-1)));
}

#[test]
fn negative_group_index_on_null_row_is_not_looked_at() {
    let result = run_with_nulls(&[None], &[Some("(\\w+)")], &[Some(-5)]).unwrap();
    assert_eq!(result, vec![None]);
}

#[test]
fn invalid_pattern_is_refused() {
    let result = run_regexp_extract_all(&["abc"], "(", 1);
    assert_eq!(result, Err(RegexpExtractAllError::InvalidPattern));
}

#[test]
fn invalid_scalar_pattern_is_refused_even_without_rows() {
    let result = run_with_nulls(&[], &[Some("(")], &[Some(1)]);
    assert_eq!(result, Err(RegexpExtractAllError::InvalidPattern));
    let result = run_with_nulls(&[None, None], &[Some("[")], &[Some(1)]);
    assert_eq!(result, Err(RegexpExtractAllError::InvalidPattern));
}

#[test]
fn invalid_pattern_on_a_null_row_is_not_looked_at() {
    let result = run_with_nulls(&[None, Some("x")], &[Some("("), Some("x")], &[Some(0)]).unwrap();
    assert_eq!(result, vec![None, Some(vec![Some("x".to_string())])]);
}

#[test]
fn first_failing_row_decides_the_error() {
    let result = run_with_nulls(
        &[Some("a"), Some("b"), Some("c")],
        &[Some("a"), Some("b"), Some("(")],
        &[Some(0), Some(-2), Some(0)],
    );
    assert_eq!(result, Err(RegexpExtractAllError::NegativeGroupIndex(-2)));
}

#[test]
fn scalar_pattern_and_index_apply_to_every_row() {
    let result = run_with_nulls(&[Some("a1b22"), None, Some("333")], &[Some("\\d+")], &[Some(0)]).unwrap();
    assert_eq!(
        result,
        vec![
            Some(vec![Some("1".to_string()), Some("22".to_string())]),
            None,
            Some(vec![Some("333".to_string())]),
        ]
    );
    let repeated = run_with_nulls(
        &[Some("a1b22"), None, Some("333")],
        &[Some("\\d+"), Some("\\d+"), Some("\\d+")],
        &[Some(0), Some(0), Some(0)],
    )
    .unwrap();
    assert_eq!(result, repeated);
}

#[test]
fn group_beyond_the_pattern_gives_nulls() {
    let result = run_regexp_extract_all(&["ab ab"], "(a)b", 5).unwrap();
    assert_eq!(result, vec![Some(vec![None, None])]);
}

#[test]
fn extract_all_matches_of_group_zero_are_present() {
    let re = parse_regex("x*").unwrap();
    let matches = extract_all_matches("axxb", &re, 0).unwrap();
    assert!(matches.iter().all(|m| m.is_some()));
    assert_eq!(matches, vec![Some(String::new()), Some("xx".to_string()), Some(String::new())]);
}

#[test]
fn parse_regex_refuses_invalid_syntax() {
    assert!(parse_regex("a)").is_err());
    assert!(parse_regex("a(b)").is_ok());
}

#[test]
fn default_group_index_is_one() {
    assert_eq!(DEFAULT_GROUP_INDEX, 1);
}

#[test]
fn coerce_types_accepts_strings_and_integers() {
    assert_eq!(
        coerce_types(&vec![ArgDataType::Utf8, ArgDataType::LargeUtf8]),
        Ok(vec![ArgDataType::Utf8, ArgDataType::LargeUtf8])
    );
    assert_eq!(
        coerce_types(&vec![ArgDataType::Null, ArgDataType::Utf8View, ArgDataType::UInt8]),
        Ok(vec![ArgDataType::Utf8, ArgDataType::Utf8View, ArgDataType::Int64])
    );
    assert_eq!(
        coerce_types(&vec![ArgDataType::Utf8, ArgDataType::Utf8, ArgDataType::Null]),
        Ok(vec![ArgDataType::Utf8, ArgDataType::Utf8, ArgDataType::Int64])
    );
}

#[test]
fn coerce_types_refuses_other_types() {
    assert_eq!(coerce_types(&vec![ArgDataType::Int32, ArgDataType::Utf8]), Err(UnsupportedArgumentTypes));
    assert_eq!(coerce_types(&vec![ArgDataType::Utf8]), Err(UnsupportedArgumentTypes));
    assert_eq!(
        coerce_types(&vec![ArgDataType::Utf8, ArgDataType::Utf8, ArgDataType::Other]),
        Err(UnsupportedArgumentTypes)
    );
}

#[test]
fn coerce_types_looks_at_two_arguments_unless_there_are_three() {
    assert_eq!(
        coerce_types(&vec![ArgDataType::Utf8, ArgDataType::Utf8, ArgDataType::Other, ArgDataType::Other]),
        Ok(vec![ArgDataType::Utf8, ArgDataType::Utf8])
    );
}

#[test]
fn every_group_has_one_entry_per_match() {
    for group in 0..4 {
        let result = run_regexp_extract_all(&["b ab xb"], "(a)?(b)", group).unwrap();
        assert_eq!(result[0].as_ref().unwrap().len(), 3);
    }
}

#[test]
fn group_count_includes_group_zero() {
    assert_eq!(parse_regex("abc").unwrap().group_count(), 1);
    assert_eq!(parse_regex("((a)(b))").unwrap().group_count(), 4);
    assert_eq!(parse_regex("(?<x>a)(?:b)").unwrap().group_count(), 2);
}

#[test]
fn groups_at_or_past_the_count_give_one_null_per_match() {
    let re = parse_regex("(a)b").unwrap();
    let n = re.group_count() as i64;
    for g in [n, n + 3] {
        let matches = extract_all_matches("ab xab ab", &re, g).unwrap();
        assert_eq!(matches, vec![None, None, None]);
    }
}

#[test]
fn compiled_pattern_is_the_given_pattern() {
    // The compiled expression is the one of the pattern given: "b" must not match "a".
    let re = parse_regex("b").unwrap();
    assert_eq!(extract_all_matches("aba", &re, 0).unwrap(), vec![Some("b".to_string())]);
}
