use molybdenum::line::Line;
use molybdenum::render::Segment;
use molybdenum::search::{create_regex, Search};

fn seg_pairs(segs: &[Segment]) -> Vec<(&'static str, String)> {
    segs.iter()
        .map(|s| match s {
            Segment::LineNr(n) => ("nr", n.to_string()),
            Segment::Plain(t) => ("plain", t.clone()),
            Segment::Matched(t) => ("match", t.clone()),
            Segment::Replaced(t) => ("repl", t.clone()),
        })
        .collect()
}

#[test]
fn highlight_render_tags_matches() {
    let search = Search::new("b+", false, true).unwrap();
    let content = b"abba!".to_vec();
    let mut line = Line::new(3, 0, content.len());
    assert!(line.search_for2(&search, &content));
    let segs = line.colored_segments(&content, &None);
    assert_eq!(
        seg_pairs(&segs),
        vec![
            ("nr", "3".to_string()),
            ("plain", "a".to_string()),
            ("match", "bb".to_string()),
            ("plain", "a!".to_string()),
        ]
    );
}

#[test]
fn highlight_render_previews_fixed_replacement() {
    let search = Search::new("b+", false, true).unwrap();
    let content = b"abba!".to_vec();
    let mut line = Line::new(3, 0, content.len());
    assert!(line.search_for2(&search, &content));
    let segs = line.colored_segments(&content, &Some("Z".to_string()));
    assert_eq!(
        seg_pairs(&segs),
        vec![
            ("nr", "3".to_string()),
            ("plain", "a".to_string()),
            ("match", "bb".to_string()),
            ("plain", "a!".to_string()),
            ("nr", "3".to_string()),
            ("plain", "a".to_string()),
            ("repl", "Z".to_string()),
            ("plain", "a!".to_string()),
        ]
    );
}

#[test]
fn match_only_render_keeps_match_text_and_line_feed() {
    let search = Search::new("[aeiou]", false, true).unwrap();
    let content = b"banana".to_vec();
    let mut line = Line::new(1, 0, content.len());
    assert!(line.search_for2(&search, &content));
    let segs = line.match_segments(&content);
    assert_eq!(
        seg_pairs(&segs),
        vec![
            ("match", "a".to_string()),
            ("match", "a".to_string()),
            ("match", "a".to_string()),
            ("plain", "\n".to_string()),
        ]
    );
}

#[test]
fn match_only_render_skips_undecodable_bytes() {
    let search = Search::new("(?-u)\\xff", false, true).unwrap();
    let content = vec![b'a', 0xff, b'b'];
    let mut line = Line::new(1, 0, content.len());
    assert!(line.search_for2(&search, &content));
    let segs = line.match_segments(&content);
    assert_eq!(seg_pairs(&segs), vec![("plain", "\n".to_string())]);
}

#[test]
fn create_regex_compiles_and_rejects() {
    assert!(create_regex("a+", false, false).is_ok());
    assert!(create_regex("(", false, false).is_err());
    assert!(create_regex("a", true, true).is_ok());
}
