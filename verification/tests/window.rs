use molybdenum::context::{context_events, ContextEvent};

fn shows(events: &[ContextEvent]) -> Vec<usize> {
    events
        .iter()
        .filter_map(|e| match e {
            ContextEvent::Show(i) => Some(*i),
            ContextEvent::Separator => None,
        })
        .collect()
}

fn separators(events: &[ContextEvent]) -> usize {
    events.iter().filter(|e| matches!(e, ContextEvent::Separator)).count()
}

#[test]
fn window_renders_before_match_after_without_trailing_separator() {
    // Lines [A, B, C(match), D, E] with before=1, after=1 render B, C, D and
    // stop without a trailing separator.
    let flags = vec![false, false, true, false, false];
    let events = context_events(&flags, 1, 1);
    assert_eq!(shows(&events), vec![1, 2, 3]);
    assert_eq!(separators(&events), 0);
}

#[test]
fn abutting_blocks_are_not_separated() {
    // A second match at E makes D both after-context of the first block and
    // before-context of the second; no separator appears between them.
    let flags = vec![false, false, true, false, true];
    let events = context_events(&flags, 1, 1);
    assert_eq!(shows(&events), vec![1, 2, 3]);
    assert_eq!(separators(&events), 0);
}

#[test]
fn separator_follows_exhausted_block_mid_document() {
    let flags = vec![true, false, false];
    let events = context_events(&flags, 0, 0);
    assert_eq!(shows(&events), vec![0]);
    assert_eq!(separators(&events), 1);
    assert!(matches!(events[0], ContextEvent::Show(0)));
    assert!(matches!(events[1], ContextEvent::Separator));
}

#[test]
fn distant_blocks_are_separated_once() {
    let flags = vec![true, false, false, false, true, false, false];
    let events = context_events(&flags, 0, 0);
    assert_eq!(shows(&events), vec![0, 4]);
    assert_eq!(separators(&events), 2);
    for w in events.windows(2) {
        assert!(
            !(matches!(w[0], ContextEvent::Separator)
                && matches!(w[1], ContextEvent::Separator))
        );
    }
}

#[test]
fn no_matches_render_nothing() {
    let flags = vec![false, false, false];
    let events = context_events(&flags, 2, 2);
    assert!(events.is_empty());
}

#[test]
fn after_context_extends_block() {
    let flags = vec![false, true, false, false, false];
    let events = context_events(&flags, 0, 2);
    assert_eq!(shows(&events), vec![1, 2, 3]);
    assert_eq!(separators(&events), 1);
}
