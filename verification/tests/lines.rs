use molybdenum::file::Data;
use molybdenum::line::{Line, Span};
use molybdenum::search::{Replace, Search};

fn split(content: &[u8]) -> Data {
    let mut data = Data::new(None, false, None);
    data.load_content(String::new(), content.to_vec());
    data.split_in_lines().unwrap();
    data
}

#[test]
fn empty_buffer_yields_zero_lines() {
    let data = split(b"");
    assert_eq!(data.lines.len(), 0);
}

#[test]
fn lines_include_their_delimiter() {
    let data = split(b"a\nbb\nc");
    let spans: Vec<(usize, usize)> =
        data.lines.iter().map(|l| (l.range.start, l.range.end)).collect();
    assert_eq!(spans, vec![(0, 2), (2, 5), (5, 6)]);
    let nrs: Vec<u64> = data.lines.iter().map(|l| l.nr).collect();
    assert_eq!(nrs, vec![1, 2, 3]);
}

#[test]
fn delimiter_only_buffer() {
    let data = split(b"\n\n");
    let spans: Vec<(usize, usize)> =
        data.lines.iter().map(|l| (l.range.start, l.range.end)).collect();
    assert_eq!(spans, vec![(0, 1), (1, 2)]);
}

#[test]
fn concatenating_line_slices_reproduces_the_buffer() {
    for content in [
        &b""[..],
        &b"a"[..],
        &b"a\n"[..],
        &b"one\ntwo\nthree"[..],
        &b"\n\nx\n"[..],
        &[0u8, 10u8, 255u8, 10u8, 7u8][..],
    ] {
        let data = split(content);
        let mut rebuilt: Vec<u8> = Vec::new();
        for line in &data.lines {
            rebuilt.extend_from_slice(line.as_slice(&data.content));
        }
        assert_eq!(rebuilt, content.to_vec());
    }
}

#[test]
fn search_populates_ascending_disjoint_matches() {
    let search = Search::new("ab", false, true).unwrap();
    let content = b"abxxabxab".to_vec();
    let mut line = Line::new(1, 0, content.len());
    let found = line.search_for(&search, &content);
    assert!(found);
    let spans: Vec<(usize, usize)> = line.matches.iter().map(|m| (m.start, m.end)).collect();
    assert_eq!(spans, vec![(0, 2), (4, 6), (7, 9)]);
    for w in line.matches.windows(2) {
        assert!(w[0].end <= w[1].start);
    }
}

#[test]
fn search_without_match_leaves_empty_matches() {
    let search = Search::new("zz", false, true).unwrap();
    let content = b"abxxab".to_vec();
    let mut line = Line::new(1, 0, content.len());
    line.matches.push(Span { start: 0, end: 1 });
    let found = line.search_for2(&search, &content);
    assert!(!found);
    assert!(line.matches.is_empty());
}

#[test]
fn case_insensitive_and_word_boundary_flags() {
    let ci = Search::new("FOO", false, false).unwrap();
    let content = b"a foo b".to_vec();
    let mut line = Line::new(1, 0, content.len());
    assert!(line.search_for2(&ci, &content));

    let cs = Search::new("FOO", false, true).unwrap();
    assert!(!line.search_for2(&cs, &content));

    let wb = Search::new("foo", true, true).unwrap();
    let glued = b"xfoo foo".to_vec();
    let mut line2 = Line::new(1, 0, glued.len());
    assert!(line2.search_for2(&wb, &glued));
    let spans: Vec<(usize, usize)> = line2.matches.iter().map(|m| (m.start, m.end)).collect();
    assert_eq!(spans, vec![(5, 8)]);
}

#[test]
fn replace_with_rewrites_each_match() {
    let search = Search::new("b", false, true).unwrap();
    let content = b"abcb".to_vec();
    let mut line = Line::new(1, 0, content.len());
    assert!(line.search_for2(&search, &content));
    let mut out = Vec::new();
    line.replace_with(&content, "XY", &mut out);
    assert_eq!(out, b"aXYcXY".to_vec());
}

#[test]
fn only_matches_concatenates_match_bytes() {
    let search = Search::new("[bd]", false, true).unwrap();
    let content = b"abcd".to_vec();
    let mut line = Line::new(1, 0, content.len());
    assert!(line.search_for2(&search, &content));
    let mut out = Vec::new();
    line.only_matches(&content, &mut out);
    assert_eq!(out, b"bd".to_vec());
}

#[test]
fn transform_of_line_without_matches_is_identity() {
    // Round trip: a line with no matches renders back to its own bytes.
    let search = Search::new("zz", false, true).unwrap();
    let replace = Replace::new("$1", &Some("$".to_string()));
    let content = b"nothing here\n".to_vec();
    let mut line = Line::new(1, 0, content.len());
    assert!(!line.search_for2(&search, &content));
    let mut out = Vec::new();
    line.replace_with2(&content, &search, &replace, &mut out).unwrap();
    assert_eq!(out, content);
    let mut out2 = Vec::new();
    line.replace_with(&content, "anything", &mut out2);
    assert_eq!(out2, content);
}

#[test]
fn document_search_and_transform() {
    let search = Search::new("o(o)", false, true).unwrap();
    let replace = Replace::new("<$1>", &Some("$".to_string()));
    let mut data = Data::new(Some(search), false, Some(replace));
    data.load_content("p".to_string(), b"foo\nbar\nmoo".to_vec());
    data.split_in_lines().unwrap();
    assert!(data.search_for_matches());
    let out = data.replace_to_bytes().unwrap();
    assert_eq!(out, b"f<o>\nbar\nm<o>".to_vec());
}

#[test]
fn empty_pattern_matches_at_every_position() {
    let search = Search::new("", false, true).unwrap();
    let content = b"ab".to_vec();
    let mut line = Line::new(1, 0, content.len());
    assert!(line.search_for2(&search, &content));
    let spans: Vec<(usize, usize)> = line.matches.iter().map(|m| (m.start, m.end)).collect();
    assert_eq!(spans, vec![(0, 0), (1, 1), (2, 2)]);
    let mut out = Vec::new();
    line.replace_with(&content, "X", &mut out);
    assert_eq!(out, b"XaXbX".to_vec());
}
