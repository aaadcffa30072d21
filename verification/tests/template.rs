use molybdenum::line::Line;
use molybdenum::search::{Replace, Search};
use molybdenum::util::ErrorKind;

fn parts_of(r: &Replace) -> Vec<(i32, String)> {
    r.parts.clone()
}

#[test]
fn compile_with_marker_digit_pairs() {
    let r = Replace::new("$1-$2", &Some("$".to_string()));
    assert_eq!(parts_of(&r), vec![(1, "-".to_string()), (2, "".to_string())]);
}

#[test]
fn compile_without_marker_is_literal() {
    let r = Replace::new("X", &None);
    assert_eq!(parts_of(&r), vec![(-1, "X".to_string())]);
    let r2 = Replace::new("$1", &None);
    assert_eq!(parts_of(&r2), vec![(-1, "$1".to_string())]);
}

#[test]
fn compile_marker_without_digit_defaults_to_group_one() {
    let r = Replace::new("$x", &Some("$".to_string()));
    assert_eq!(parts_of(&r), vec![(1, "x".to_string())]);
}

#[test]
fn compile_marker_at_end_defaults_to_group_one() {
    let r = Replace::new("a$", &Some("$".to_string()));
    assert_eq!(parts_of(&r), vec![(-1, "a".to_string()), (1, "".to_string())]);
}

#[test]
fn compile_literal_prefix_before_marker() {
    let r = Replace::new("pre$2post", &Some("$".to_string()));
    assert_eq!(
        parts_of(&r),
        vec![(-1, "pre".to_string()), (2, "post".to_string())]
    );
}

#[test]
fn compile_group_zero_is_whole_match() {
    let r = Replace::new("$0", &Some("$".to_string()));
    assert_eq!(parts_of(&r), vec![(0, "".to_string())]);
}

#[test]
fn compile_multichar_marker() {
    let r = Replace::new("%%2mid%%", &Some("%%".to_string()));
    assert_eq!(parts_of(&r), vec![(2, "mid".to_string()), (1, "".to_string())]);
}

#[test]
fn render_template_against_groups() {
    // Rendering "$1-$2" against a match with groups {1: "foo", 2: "bar"}
    // yields "foo-bar".
    let search = Search::new("(foo)x(bar)", false, true).unwrap();
    let replace = Replace::new("$1-$2", &Some("$".to_string()));
    let content = b"fooxbar".to_vec();
    let mut line = Line::new(1, 0, content.len());
    assert!(line.search_for2(&search, &content));
    let mut out = Vec::new();
    line.replace_with2(&content, &search, &replace, &mut out).unwrap();
    assert_eq!(out, b"foo-bar".to_vec());
}

#[test]
fn render_group_zero_is_whole_match() {
    let search = Search::new("a(b)", false, true).unwrap();
    let replace = Replace::new("[$0]", &Some("$".to_string()));
    let content = b"xaby".to_vec();
    let mut line = Line::new(1, 0, content.len());
    assert!(line.search_for2(&search, &content));
    let mut out = Vec::new();
    line.replace_with2(&content, &search, &replace, &mut out).unwrap();
    assert_eq!(out, b"x[ab]y".to_vec());
}

#[test]
fn render_absent_group_is_ungroupable() {
    // Group 2 exists in the pattern but does not participate in this match.
    let search = Search::new("(a)|(b)", false, true).unwrap();
    let replace = Replace::new("$2", &Some("$".to_string()));
    let content = b"a".to_vec();
    let mut line = Line::new(1, 0, content.len());
    assert!(line.search_for2(&search, &content));
    let mut out = Vec::new();
    let r = line.replace_with2(&content, &search, &replace, &mut out);
    assert!(matches!(r, Err(ref e) if matches!(e.kind, ErrorKind::UngroupableCapture)));
}

#[test]
fn render_out_of_range_group_is_ungroupable() {
    let search = Search::new("(a)", false, true).unwrap();
    let replace = Replace::new("$5", &Some("$".to_string()));
    let content = b"a".to_vec();
    let mut line = Line::new(1, 0, content.len());
    assert!(line.search_for2(&search, &content));
    let mut out = Vec::new();
    let r = line.replace_with2(&content, &search, &replace, &mut out);
    assert!(matches!(r, Err(ref e) if matches!(e.kind, ErrorKind::UngroupableCapture)));
}
