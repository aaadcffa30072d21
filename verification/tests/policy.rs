use molybdenum::cli::OutputOnly;
use molybdenum::file::Data;
use molybdenum::output::{
    file_report, stdin_line_action, LineAction, OutputConfig, OutputItem,
};
use molybdenum::render::Segment;
use molybdenum::search::{Replace, Search};
use molybdenum::util::ErrorKind;

fn cfg() -> OutputConfig {
    OutputConfig {
        output_only: None,
        null_separated_output: false,
        invert_pattern: false,
        simulate_replace: false,
        console_output: true,
        output_before: 0,
        output_after: 0,
    }
}

fn seg_pairs(segs: &[Segment]) -> Vec<(&'static str, String)> {
    segs.iter()
        .map(|s| match s {
            Segment::LineNr(n) => ("nr", n.to_string()),
            Segment::Plain(t) => ("plain", t.clone()),
            Segment::Matched(t) => ("match", t.clone()),
            Segment::Replaced(t) => ("repl", t.clone()),
        })
        .collect()
}

#[test]
fn streaming_non_interactive_forwards_everything_without_matches() {
    // A redirected destination with no matches anywhere reproduces the
    // whole input byte for byte.
    let search = Search::new("absent", false, true).unwrap();
    let input: Vec<&[u8]> = vec![b"one\n", b"two\n", b"three"];
    let mut forwarded: Vec<u8> = Vec::new();
    for (k, chunk) in input.iter().enumerate() {
        let action = stdin_line_action(
            (k + 1) as u64,
            &chunk.to_vec(),
            &search,
            &None,
            false,
            false,
            false,
        )
        .unwrap();
        match action {
            LineAction::Write(bytes) => forwarded.extend_from_slice(&bytes),
            _ => panic!("every line must be forwarded"),
        }
    }
    assert_eq!(forwarded, b"one\ntwo\nthree".to_vec());
}

#[test]
fn streaming_non_interactive_rewrites_matching_lines() {
    let search = Search::new("(t)wo", false, true).unwrap();
    let replace = Some(Replace::new("[$1]", &Some("$".to_string())));
    let mut out: Vec<u8> = Vec::new();
    for chunk in [&b"one\n"[..], &b"two\n"[..], &b"three"[..]] {
        match stdin_line_action(1, &chunk.to_vec(), &search, &replace, false, false, false)
            .unwrap()
        {
            LineAction::Write(bytes) => out.extend_from_slice(&bytes),
            _ => panic!("non-interactive always writes"),
        }
    }
    assert_eq!(out, b"one\n[t]\nthree".to_vec());
}

#[test]
fn streaming_non_interactive_match_only_keeps_match_bytes() {
    let search = Search::new("[aeiou]", false, true).unwrap();
    let replace = Some(Replace::new("x", &None));
    match stdin_line_action(1, &b"banana\n".to_vec(), &search, &replace, false, false, true)
        .unwrap()
    {
        LineAction::Write(bytes) => assert_eq!(bytes, b"aaa".to_vec()),
        _ => panic!("expected rewritten bytes"),
    }
}

#[test]
fn streaming_interactive_shows_only_matching_lines() {
    let search = Search::new("two", false, true).unwrap();
    let a1 = stdin_line_action(1, &b"one\n".to_vec(), &search, &None, false, true, false).unwrap();
    assert!(matches!(a1, LineAction::Nothing));
    let a2 = stdin_line_action(2, &b"two\n".to_vec(), &search, &None, false, true, false).unwrap();
    match a2 {
        LineAction::Show(segs) => {
            assert_eq!(
                seg_pairs(&segs),
                vec![
                    ("nr", "2".to_string()),
                    ("plain", "".to_string()),
                    ("match", "two".to_string()),
                    ("plain", "\n".to_string()),
                ]
            );
        },
        _ => panic!("matching line must be shown"),
    }
}

#[test]
fn invert_flips_the_report_but_not_the_matches() {
    let search = Search::new("two", false, true).unwrap();
    // A line with real matches is not interesting under invert...
    let a = stdin_line_action(1, &b"two\n".to_vec(), &search, &None, true, true, false).unwrap();
    assert!(matches!(a, LineAction::Nothing));
    // ...and a clean line becomes interesting; its match list stays empty,
    // so the render holds no matched segment.
    let b = stdin_line_action(1, &b"one\n".to_vec(), &search, &None, true, true, false).unwrap();
    match b {
        LineAction::Show(segs) => {
            assert_eq!(
                seg_pairs(&segs),
                vec![("nr", "1".to_string()), ("plain", "one\n".to_string())]
            );
        },
        _ => panic!("clean line is interesting under invert"),
    }
    // The match list itself is unaffected by invert: the same line searched
    // directly still reports its spans.
    let mut line = molybdenum::line::Line::new(1, 0, 4);
    assert!(line.search_for2(&search, b"two\n"));
    assert_eq!(line.matches.len(), 1);
}

#[test]
fn batch_report_console_display_and_write_back() {
    let search = Search::new("foo", false, true).unwrap();
    let replace = Replace::new("bar", &None);
    let mut data = Data::new(Some(search), false, Some(replace));
    data.load_content("dir/f.txt".to_string(), b"foo\nmid\nfoo\n".to_vec());
    let rep = file_report(&mut data, &cfg()).unwrap();
    assert!(rep.interesting);
    assert!(matches!(rep.display[0], OutputItem::Header(ref p) if p == "dir/f.txt"));
    let rendered = rep
        .display
        .iter()
        .filter(|i| matches!(i, OutputItem::Rendered { .. }))
        .count();
    assert_eq!(rendered, 2);
    let separators = rep
        .display
        .iter()
        .filter(|i| matches!(i, OutputItem::Separator))
        .count();
    assert_eq!(separators, 1);
    assert!(matches!(rep.display.last(), Some(OutputItem::Blank)));
    assert_eq!(rep.write_back.unwrap(), b"bar\nmid\nbar\n".to_vec());
}

#[test]
fn batch_report_uninteresting_file_produces_nothing() {
    let search = Search::new("absent", false, true).unwrap();
    let mut data = Data::new(Some(search), false, None);
    data.load_content("f".to_string(), b"aaa\nbbb\n".to_vec());
    let rep = file_report(&mut data, &cfg()).unwrap();
    assert!(!rep.interesting);
    assert!(rep.display.is_empty());
    assert!(rep.write_back.is_none());
}

#[test]
fn batch_report_invert_makes_clean_file_interesting() {
    let search = Search::new("absent", false, true).unwrap();
    let mut data = Data::new(Some(search), true, None);
    let mut c = cfg();
    c.invert_pattern = true;
    data.load_content("f".to_string(), b"aaa\n".to_vec());
    let rep = file_report(&mut data, &c).unwrap();
    assert!(rep.interesting);
}

#[test]
fn batch_report_filenames_only() {
    let search = Search::new("a", false, true).unwrap();
    let mut data = Data::new(Some(search), false, None);
    let mut c = cfg();
    c.output_only = Some(OutputOnly::Filenames);
    data.load_content("hit.txt".to_string(), b"a\n".to_vec());
    let rep = file_report(&mut data, &c).unwrap();
    assert_eq!(rep.display.len(), 1);
    assert!(matches!(rep.display[0], OutputItem::Path(ref p) if p == "hit.txt"));

    let search2 = Search::new("a", false, true).unwrap();
    let mut data2 = Data::new(Some(search2), false, None);
    let mut c2 = cfg();
    c2.output_only = Some(OutputOnly::Filenames);
    c2.null_separated_output = true;
    data2.load_content("hit.txt".to_string(), b"a\n".to_vec());
    let rep2 = file_report(&mut data2, &c2).unwrap();
    assert!(matches!(rep2.display[0], OutputItem::PathNull(ref p) if p == "hit.txt"));
}

#[test]
fn batch_report_simulate_never_writes() {
    let search = Search::new("foo", false, true).unwrap();
    let replace = Replace::new("bar", &None);
    let mut data = Data::new(Some(search), false, Some(replace));
    let mut c = cfg();
    c.simulate_replace = true;
    data.load_content("f".to_string(), b"foo\n".to_vec());
    let rep = file_report(&mut data, &c).unwrap();
    assert!(rep.interesting);
    assert!(rep.write_back.is_none());
}

#[test]
fn batch_report_non_console_prefixes_lines_with_path() {
    let search = Search::new("b", false, true).unwrap();
    let mut data = Data::new(Some(search), false, None);
    let mut c = cfg();
    c.console_output = false;
    data.load_content("p.txt".to_string(), b"abc\n".to_vec());
    let rep = file_report(&mut data, &c).unwrap();
    assert_eq!(rep.display.len(), 1);
    match &rep.display[0] {
        OutputItem::Rendered { prefix, segments } => {
            assert_eq!(prefix.as_deref(), Some("p.txt"));
            assert_eq!(
                seg_pairs(segments),
                vec![
                    ("nr", "1".to_string()),
                    ("plain", "a".to_string()),
                    ("match", "b".to_string()),
                    ("plain", "c\n".to_string()),
                ]
            );
        },
        other => panic!("unexpected item {:?}", other),
    }
}

#[test]
fn batch_report_ungroupable_capture_fails_the_file() {
    let search = Search::new("(a)|(b)", false, true).unwrap();
    let replace = Replace::new("$2", &Some("$".to_string()));
    let mut data = Data::new(Some(search), false, Some(replace));
    let mut c = cfg();
    c.output_only = Some(OutputOnly::Filenames);
    data.load_content("f".to_string(), b"a\n".to_vec());
    let r = file_report(&mut data, &c);
    assert!(matches!(r, Err(ref e) if matches!(e.kind, ErrorKind::UngroupableCapture)));
}

#[test]
fn preview_render_shows_replacement_after_highlight_pass() {
    let search = Search::new("(o+)", false, true).unwrap();
    let replace = Some(Replace::new("<$1>", &Some("$".to_string())));
    match stdin_line_action(7, &b"fool\n".to_vec(), &search, &replace, false, true, false).unwrap()
    {
        LineAction::Show(segs) => {
            assert_eq!(
                seg_pairs(&segs),
                vec![
                    ("nr", "7".to_string()),
                    ("plain", "f".to_string()),
                    ("match", "oo".to_string()),
                    ("plain", "l\n".to_string()),
                    ("nr", "7".to_string()),
                    ("plain", "f".to_string()),
                    ("repl", "<".to_string()),
                    ("repl", "oo".to_string()),
                    ("repl", ">".to_string()),
                    ("plain", "l\n".to_string()),
                ]
            );
        },
        _ => panic!("expected a shown line"),
    }
}
