use molybdenum::pattern::Searcher;
use molybdenum::search::Search;

#[test]
pub fn test_search() {
    let lines: Vec<String> = vec!["line 1\n".to_string(), "end 2".to_string()];

    let re = Search::new("line", false, true).unwrap();

    let mut searcher = Searcher::new();

    searcher.search(&re, &lines);
}

#[test]
fn searcher_keeps_matching_lines_with_numbers() {
    let lines: Vec<String> = vec![
        "alpha\n".to_string(),
        "beta\n".to_string(),
        "gamma beta\n".to_string(),
    ];
    let re = Search::new("beta", false, true).unwrap();
    let mut searcher = Searcher::new();
    let found = searcher.search(&re, &lines);
    assert!(found);
    let got: Vec<(u32, String)> =
        searcher.matches.iter().map(|m| (m.line_nr, m.content.clone())).collect();
    assert_eq!(
        got,
        vec![(2, "beta\n".to_string()), (3, "gamma beta\n".to_string())]
    );

    let re2 = Search::new("delta", false, true).unwrap();
    assert!(!searcher.search(&re2, &lines));
    assert!(searcher.matches.is_empty());
}
