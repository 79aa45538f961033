use dedent::analyze;
use dedent::dedent;
use dedent::remove_space;
use dedent::DedentError;

#[test]
fn dedent_a_string() {
    let s = analyze("\n          foo\n            bar\n        ");

    assert_eq!(s.least_spaces, 10);
    assert_eq!(s.lines.len(), 3);
    assert_eq!(s.lines[0].leading_space_count, 10);
    assert_eq!(s.lines[1].leading_space_count, 12);
    assert_eq!(s.lines[2].line.as_str(), "");
}

#[test]
fn aligned_lines() {
    let s = dedent("\n          foo\n          bar\n        ").unwrap();
    assert_eq!(s, "foo\nbar\n");
}

#[test]
fn indented_lines() {
    let s = dedent("\n          foo\n            bar\n        ").unwrap();
    assert_eq!(s, "foo\n  bar\n");
}

#[test]
fn with_lines_full_of_whitespace() {
    // the whitespace in here is 1 space more than bar
    let s = dedent("\n          foo\n             \n             \n            bar\n        ")
        .unwrap();
    assert_eq!(s, "foo\n   \n   \n  bar\n");
}

#[test]
fn a_raw_string_literal() {
    let s = dedent("\n          foo\n            \\\n        ").unwrap();
    assert_eq!(s, "foo\n  \\\n");
}

#[test]
fn a_raw_string_literal_with_hash_delimiters() {
    let s = dedent("\n          # dedent-macro\n          ## Installation\n        ").unwrap();
    assert_eq!(s, "# dedent-macro\n## Installation\n");
}

#[test]
fn single_significant_line() {
    let s = dedent("   hello").unwrap();
    assert_eq!(s, "hello");
}

#[test]
fn empty_input_is_reported() {
    assert_eq!(dedent(""), Err(DedentError::EmptyInput));
    assert_eq!(dedent("\n"), Err(DedentError::EmptyInput));
    assert_eq!(dedent("\"\""), Err(DedentError::EmptyInput));
    assert_eq!(dedent("\"\n\""), Err(DedentError::EmptyInput));
}

#[test]
fn framing_quotes_are_trimmed() {
    let s = dedent("\"\n  ab\n\"").unwrap();
    assert_eq!(s, "ab");
}

#[test]
fn trailing_line_of_mixed_whitespace_collapses() {
    let s = dedent("a\n\t ").unwrap();
    assert_eq!(s, "a\n");
}

#[test]
fn whitespace_line_does_not_shrink_the_minimum() {
    let with_gap = analyze("\n  foo\n \n  bar");
    let without_gap = analyze("\n  foo\n  bar");
    assert_eq!(with_gap.least_spaces, 2);
    assert_eq!(without_gap.least_spaces, 2);
    let a = dedent("\n  foo\n \n  bar").unwrap();
    let b = dedent("\n  foo\n  bar").unwrap();
    assert_eq!(a, "foo\n\nbar");
    assert_eq!(b, "foo\nbar");
}

#[test]
fn remove_space_strips_a_prefix_only() {
    assert_eq!(remove_space("    x".to_string(), 2), "  x");
    assert_eq!(remove_space(" x".to_string(), 3), "x");
    assert_eq!(remove_space("abc".to_string(), 2), "abc");
    assert_eq!(remove_space("  ".to_string(), 2), "");
}

#[test]
fn dedenting_twice_changes_nothing() {
    let once = dedent("\n   foo\n    bar").unwrap();
    assert_eq!(once, "foo\n bar");
    let twice = dedent(&once).unwrap();
    assert_eq!(twice, once);
}

#[test]
fn first_line_seeds_minimum_even_when_insignificant() {
    // the one-space first line seeds the minimum, so the significant line
    // keeps two of its three spaces
    let s = dedent(" \n   foo").unwrap();
    assert_eq!(s, "\n  foo");
}

#[test]
fn multibyte_characters_pass_through() {
    let s = dedent("\n  héllo\n    wörld").unwrap();
    assert_eq!(s, "héllo\n  wörld");
}
