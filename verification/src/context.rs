//! The context-window controller: a single forward pass over the per-line
//! match flags that decides which lines accompany a match (`before` lines of
//! backlog, the match line, `after` lines of follow-up) and where a block
//! separator stands. It mirrors a lagging cursor that trails the leading one
//! by at most `before` lines.

use vstd::prelude::*;

verus! {

/// One step of the rendered output: show the line at an index, or emit the
/// block-separator marker.
#[derive(Clone, Copy, Debug, PartialEq, Eq, Structural)]
pub enum ContextEvent {
    Show(usize),
    Separator,
}

/// The events the controller emits from the given state on: `i` is the
/// leading cursor, `lag` the lagging one, `delay` how far `lag` trails, and
/// `pending` the countdown of lines still to be rendered. A match re-arms
/// the countdown to cover the backlog, the match line and the after-context;
/// an armed countdown renders the lagging line; an exhausted one emits the
/// separator; otherwise the backlog grows until it is `before` deep and the
/// oldest line is dropped thereafter.
pub open spec fn spec_context_events(
    flags: Seq<bool>,
    before: int,
    after: int,
    i: int,
    delay: int,
    lag: int,
    pending: Option<int>,
) -> Seq<ContextEvent>
    decreases flags.len() - i,
{
    if i < 0 || i >= flags.len() {
        Seq::empty()
    } else {
        let armed = if flags[i] {
            Some(delay + after + 1)
        } else {
            pending
        };
        match armed {
            Some(cnt) => {
                if cnt > 0 {
                    seq![ContextEvent::Show(lag as usize)] + spec_context_events(
                        flags,
                        before,
                        after,
                        i + 1,
                        delay,
                        lag + 1,
                        Some(cnt - 1),
                    )
                } else {
                    seq![ContextEvent::Separator] + spec_context_events(
                        flags,
                        before,
                        after,
                        i + 1,
                        delay,
                        lag + 1,
                        None,
                    )
                }
            },
            None => {
                if delay < before {
                    spec_context_events(flags, before, after, i + 1, delay + 1, lag, None)
                } else {
                    spec_context_events(flags, before, after, i + 1, delay, lag + 1, None)
                }
            },
        }
    }
}

/// Walk the match flags of a document's lines and decide, line by line,
/// which lines are shown and where a block separator stands.
pub fn context_events(flags: &Vec<bool>, before: u64, after: u64) -> (r: Vec<ContextEvent>)
    requires
        before + after + 1 <= u64::MAX,
    ensures
        r@ == spec_context_events(flags@, before as int, after as int, 0, 0, 0, None),
        forall|j: int|
            0 <= j < r@.len() ==> ((#[trigger] r@[j]) matches ContextEvent::Show(k) ==> k
                < flags@.len()),
{
    let n = flags.len();
    let ghost fl = flags@;
    let ghost b = before as int;
    let ghost a = after as int;
    let mut r: Vec<ContextEvent> = Vec::new();
    let mut delay: u64 = 0;
    let mut lag: usize = 0;
    let mut pending: Option<u64> = None;
    let mut i: usize = 0;
    proof {
        assert(r@ + spec_context_events(fl, b, a, 0, 0, 0, None) =~= spec_context_events(
            fl,
            b,
            a,
            0,
            0,
            0,
            None,
        ));
    }
    while i < n
        invariant
            i <= n,
            n == fl.len(),
            fl == flags@,
            b == before as int,
            a == after as int,
            b + a + 1 <= u64::MAX,
            delay <= before,
            lag <= i,
            spec_context_events(fl, b, a, 0, 0, 0, None) == r@ + spec_context_events(
                fl,
                b,
                a,
                i as int,
                delay as int,
                lag as int,
                match pending {
                    Some(c) => Some(c as int),
                    None => None,
                },
            ),
            forall|j: int|
                0 <= j < r@.len() ==> ((#[trigger] r@[j]) matches ContextEvent::Show(k) ==> k
                    < fl.len()),
        decreases n - i,
    {
        if *vstd::slice::slice_index_get(flags.as_slice(), i) {
            pending = Some(delay + after + 1);
        }
        match pending {
            Some(cnt) => {
                if cnt > 0 {
                    r.push(ContextEvent::Show(lag));
                    lag = lag + 1;
                    pending = Some(cnt - 1);
                } else {
                    r.push(ContextEvent::Separator);
                    lag = lag + 1;
                    pending = None;
                }
            },
            None => {
                if delay < before {
                    delay = delay + 1;
                } else {
                    lag = lag + 1;
                }
            },
        }
        i = i + 1;
    }
    r
}

proof fn lemma_context_first_event_shows(
    flags: Seq<bool>,
    before: int,
    after: int,
    i: int,
    delay: int,
    lag: int,
)
    requires
        delay >= 0,
        after >= 0,
    ensures
        ({
            let ev = spec_context_events(flags, before, after, i, delay, lag, None);
            ev.len() > 0 ==> ev[0] is Show
        }),
    decreases flags.len() - i,
{
    if !(i < 0 || i >= flags.len()) {
        if !flags[i] {
            if delay < before {
                lemma_context_first_event_shows(flags, before, after, i + 1, delay + 1, lag);
            } else {
                lemma_context_first_event_shows(flags, before, after, i + 1, delay, lag + 1);
            }
        }
    }
}

proof fn lemma_no_adjacent_separators_from(
    flags: Seq<bool>,
    before: int,
    after: int,
    i: int,
    delay: int,
    lag: int,
    pending: Option<int>,
)
    requires
        delay >= 0,
        after >= 0,
    ensures
        ({
            let ev = spec_context_events(flags, before, after, i, delay, lag, pending);
            forall|j: int|
                0 <= j < ev.len() - 1 ==> !((#[trigger] ev[j]) is Separator && ev[j + 1]
                    is Separator)
        }),
    decreases flags.len() - i,
{
    if !(i < 0 || i >= flags.len()) {
        let ev = spec_context_events(flags, before, after, i, delay, lag, pending);
        let armed = if flags[i] {
            Some(delay + after + 1)
        } else {
            pending
        };
        match armed {
            Some(cnt) => {
                if cnt > 0 {
                    let tail = spec_context_events(
                        flags,
                        before,
                        after,
                        i + 1,
                        delay,
                        lag + 1,
                        Some(cnt - 1),
                    );
                    lemma_no_adjacent_separators_from(
                        flags,
                        before,
                        after,
                        i + 1,
                        delay,
                        lag + 1,
                        Some(cnt - 1),
                    );
                    assert(forall|j: int| 0 <= j < tail.len() ==> ev[j + 1] == tail[j]);
                } else {
                    let tail = spec_context_events(flags, before, after, i + 1, delay, lag + 1, None);
                    lemma_no_adjacent_separators_from(
                        flags,
                        before,
                        after,
                        i + 1,
                        delay,
                        lag + 1,
                        None,
                    );
                    lemma_context_first_event_shows(flags, before, after, i + 1, delay, lag + 1);
                    assert(forall|j: int| 0 <= j < tail.len() ==> ev[j + 1] == tail[j]);
                    if tail.len() > 0 {
                        assert(ev[1] == tail[0]);
                        assert(!(tail[0] is Separator));
                    }
                }
            },
            None => {
                if delay < before {
                    lemma_no_adjacent_separators_from(
                        flags,
                        before,
                        after,
                        i + 1,
                        delay + 1,
                        lag,
                        None,
                    );
                } else {
                    lemma_no_adjacent_separators_from(
                        flags,
                        before,
                        after,
                        i + 1,
                        delay,
                        lag + 1,
                        None,
                    );
                }
            },
        }
    }
}

/// Abutting context blocks are never separated twice: over any match flags
/// and any context widths, the controller's event stream holds no two
/// adjacent block separators.
pub proof fn lemma_no_adjacent_separators(flags: Seq<bool>, before: int, after: int)
    requires
        after >= 0,
    ensures
        ({
            let ev = spec_context_events(flags, before, after, 0, 0, 0, None);
            forall|j: int|
                0 <= j < ev.len() - 1 ==> !((#[trigger] ev[j]) is Separator && ev[j + 1]
                    is Separator)
        }),
{
    lemma_no_adjacent_separators_from(flags, before, after, 0, 0, 0, None);
}

} // verus!
