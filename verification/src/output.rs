//! The destination-aware output policy. Batch mode turns one loaded
//! document into a report: whether it is interesting, what to display, and
//! what to write back. Streaming mode decides, line by line, whether to
//! forward, rewrite or show the line, honoring whether the destination is
//! interactive.

use crate::cli::OutputOnly;
use crate::context::{context_events, spec_context_events, ContextEvent};
use crate::file::{spec_document_transform, Data};
use crate::line::{spec_concat_matches, spec_transform_from, Line};
use crate::render::{
    segs_view,
    spec_colored2,
    spec_match_pass,
    SegView,
    Segment,
};
use crate::search::{regex_find, Replace, Search};
use crate::util::{ErrorKind, MyError};
use vstd::prelude::*;

verus! {

/// The configuration the engine needs from the caller: output shape,
/// separators, invert and simulate flags, whether the destination is
/// interactive, and the context widths.
pub struct OutputConfig {
    pub output_only: Option<OutputOnly>,
    pub null_separated_output: bool,
    pub invert_pattern: bool,
    pub simulate_replace: bool,
    pub console_output: bool,
    pub output_before: u64,
    pub output_after: u64,
}

/// One piece of a file's display output.
#[derive(Debug)]
pub enum OutputItem {
    /// The path alone, to be terminated with a newline.
    Path(String),
    /// The path alone, to be terminated with a NUL byte.
    PathNull(String),
    /// The highlighted filename banner shown on an interactive destination.
    Header(String),
    /// One rendered line; on a non-interactive destination it is prefixed
    /// with the path.
    Rendered { prefix: Option<String>, segments: Vec<Segment> },
    /// The block-separator marker between context blocks.
    Separator,
    /// The trailing empty line shown on an interactive destination.
    Blank,
}

/// The mathematical shape of a display item.
pub enum OutputItemView {
    Path(Seq<char>),
    PathNull(Seq<char>),
    Header(Seq<char>),
    Rendered(Option<Seq<char>>, Seq<SegView>),
    Separator,
    Blank,
}

pub open spec fn item_view(i: OutputItem) -> OutputItemView {
    match i {
        OutputItem::Path(p) => OutputItemView::Path(p@),
        OutputItem::PathNull(p) => OutputItemView::PathNull(p@),
        OutputItem::Header(p) => OutputItemView::Header(p@),
        OutputItem::Rendered { prefix, segments } => OutputItemView::Rendered(
            match prefix {
                None => None,
                Some(p) => Some(p@),
            },
            segs_view(segments@),
        ),
        OutputItem::Separator => OutputItemView::Separator,
        OutputItem::Blank => OutputItemView::Blank,
    }
}

pub open spec fn items_view(v: Seq<OutputItem>) -> Seq<OutputItemView> {
    v.map_values(|i: OutputItem| item_view(i))
}

/// The per-line match flags of a document's lines.
pub open spec fn spec_match_flags(lines: Seq<Line>) -> Seq<bool> {
    lines.map_values(|l: Line| l.matches@.len() > 0)
}

/// The display items that the context events of one document unfold to: a
/// shown line becomes its render (path-prefixed away from the console), a
/// separator is shown only on the console; `None` when some line's render
/// fails.
pub open spec fn spec_event_items(
    path: Seq<char>,
    console: bool,
    c: Seq<u8>,
    lines: Seq<Line>,
    events: Seq<ContextEvent>,
    rep: Option<Seq<(int, Seq<char>)>>,
    eff: Seq<char>,
    ci: bool,
) -> Option<Seq<OutputItemView>>
    decreases events.len(),
{
    if events.len() == 0 {
        Some(Seq::empty())
    } else {
        let head: Option<Seq<OutputItemView>> = match events[0] {
            ContextEvent::Show(i) => {
                let l = lines[i as int];
                let slice = c.subrange(l.range.start as int, l.range.end as int);
                match spec_colored2(l.nr, slice, l.matches@, rep, eff, ci) {
                    None => None,
                    Some(segs) => Some(
                        seq![
                            OutputItemView::Rendered(
                                if console {
                                    None
                                } else {
                                    Some(path)
                                },
                                segs,
                            ),
                        ],
                    ),
                }
            },
            ContextEvent::Separator => if console {
                Some(seq![OutputItemView::Separator])
            } else {
                Some(Seq::empty())
            },
        };
        match head {
            None => None,
            Some(h) => {
                match spec_event_items(path, console, c, lines, events.drop_first(), rep, eff, ci) {
                    None => None,
                    Some(t) => Some(h + t),
                }
            },
        }
    }
}

/// The whole display of one interesting document away from filenames-only
/// mode: the console banner, the context events' items, and the trailing
/// console blank line.
pub open spec fn spec_file_items(
    path: Seq<char>,
    console: bool,
    c: Seq<u8>,
    lines: Seq<Line>,
    events: Seq<ContextEvent>,
    rep: Option<Seq<(int, Seq<char>)>>,
    eff: Seq<char>,
    ci: bool,
) -> Option<Seq<OutputItemView>> {
    match spec_event_items(path, console, c, lines, events, rep, eff, ci) {
        None => None,
        Some(evs) => {
            let header: Seq<OutputItemView> = if console {
                seq![OutputItemView::Header(path)]
            } else {
                Seq::empty()
            };
            let trailer: Seq<OutputItemView> = if console {
                seq![OutputItemView::Blank]
            } else {
                Seq::empty()
            };
            Some(header + evs + trailer)
        },
    }
}

/// A processed document: whether it is interesting, what to show, and what
/// to write back.
pub struct FileReport {
    pub interesting: bool,
    pub display: Vec<OutputItem>,
    pub write_back: Option<Vec<u8>>,
}

/// The replacement template's shape as the renderers see it: its
/// instruction list, when one is configured.
pub open spec fn spec_replace_view(rep: Option<Replace>) -> Option<Seq<(int, Seq<char>)>> {
    match rep {
        None => None,
        Some(t) => Some(t.spec_parts()),
    }
}

/// Unfold the context events of one document into display items: each
/// shown line becomes its render, path-prefixed away from the console, and
/// each separator is kept only on the console. Fails when some line's
/// render fails.
#[verifier::rlimit(60)]
#[verifier::loop_isolation(false)]
fn build_event_items(
    path: &String,
    console: bool,
    content: &Vec<u8>,
    lines: &Vec<Line>,
    search: &Search,
    replace_opt: &Option<Replace>,
    events: &Vec<ContextEvent>,
) -> (r: Result<Vec<OutputItem>, MyError>)
    requires
        forall|i: int|
            0 <= i < lines@.len() ==> (#[trigger] lines@[i]).wf(content@.len() as int)
                && lines@[i].matches_wf(),
        forall|t: int|
            0 <= t < events@.len() ==> ((#[trigger] events@[t]) matches ContextEvent::Show(x) ==> x
                < lines@.len()),
    ensures
        ({
            let sp = spec_event_items(
                path@,
                console,
                content@,
                lines@,
                events@,
                spec_replace_view(*replace_opt),
                search.eff(),
                search.ci(),
            );
            match r {
                Ok(v) => sp == Some(items_view(v@)),
                Err(e) => sp is None && e.kind == ErrorKind::UngroupableCapture,
            }
        }),
{
    let ghost pathv = path@;
    let ghost c = content@;
    let ghost lns = lines@;
    let ghost evs = events@;
    let ghost rv = spec_replace_view(*replace_opt);
    let ghost eff = search.eff();
    let ghost ci = search.ci();
    let mut display: Vec<OutputItem> = Vec::new();
    let mut j: usize = 0;
    proof {
        assert(evs.skip(0) =~= evs);
    }
    while j < events.len()
        invariant
            j <= evs.len(),
            match spec_event_items(pathv, console, c, lns, evs.skip(j as int), rv, eff, ci) {
                None => spec_event_items(pathv, console, c, lns, evs, rv, eff, ci) is None,
                Some(t) => spec_event_items(pathv, console, c, lns, evs, rv, eff, ci) == Some(
                    items_view(display@) + t,
                ),
            },
        decreases evs.len() - j,
    {
        let ghost d0 = display@;
        let ev = events[j];
        proof {
            assert(evs.skip(j as int)[0] == evs[j as int]);
            assert(evs.skip(j as int).drop_first() =~= evs.skip(j + 1));
        }
        match ev {
            ContextEvent::Show(i) => {
                let l = &lines[i];
                let slice = l.as_slice(content.as_slice());
                match l.colored_segments2(slice, search, replace_opt) {
                    Err(e) => {
                        return Err(e);
                    },
                    Ok(segments) => {
                        let prefix: Option<String> = if console {
                            None
                        } else {
                            Some(path.clone())
                        };
                        display.push(OutputItem::Rendered { prefix, segments });
                    },
                }
            },
            ContextEvent::Separator => {
                if console {
                    display.push(OutputItem::Separator);
                }
            },
        }
        proof {
            let head: Seq<OutputItemView> = match evs[j as int] {
                ContextEvent::Show(i) => {
                    let l = lns[i as int];
                    let sl = c.subrange(l.range.start as int, l.range.end as int);
                    seq![
                        OutputItemView::Rendered(
                            if console {
                                None
                            } else {
                                Some(pathv)
                            },
                            spec_colored2(l.nr, sl, l.matches@, rv, eff, ci).unwrap(),
                        ),
                    ]
                },
                ContextEvent::Separator => if console {
                    seq![OutputItemView::Separator]
                } else {
                    Seq::empty()
                },
            };
            assert(items_view(display@) =~= items_view(d0) + head);
            match spec_event_items(pathv, console, c, lns, evs.skip(j + 1), rv, eff, ci) {
                None => {},
                Some(t2) => {
                    assert(spec_event_items(pathv, console, c, lns, evs.skip(j as int), rv, eff, ci)
                        == Some(head + t2));
                    assert(items_view(d0) + (head + t2) =~= items_view(display@) + t2);
                },
            }
        }
        j = j + 1;
    }
    proof {
        assert(evs.skip(evs.len() as int) =~= Seq::<ContextEvent>::empty());
        match spec_event_items(pathv, console, c, lns, evs, rv, eff, ci) {
            None => {},
            Some(t) => {
                assert(items_view(display@) + Seq::<OutputItemView>::empty() =~= items_view(
                    display@,
                ));
            },
        }
    }
    Ok(display)
}

/// Process one loaded document in batch mode: cut it into lines, search
/// every line, and decide the whole display and the optional write-back.
/// An uninteresting document (no match, with the invert flag applied)
/// produces nothing. In filenames-only mode the display is the path alone;
/// otherwise it is the context window's rendering, with the console banner
/// and trailing blank on an interactive destination. With a replacement
/// configured and simulation off, the transform-rendered content is handed
/// back for writing. Fails with `UngroupableCapture` exactly when a render
/// or the transform needs a capture group it cannot extract.
#[verifier::rlimit(100)]
#[verifier::loop_isolation(false)]
pub fn file_report(data: &mut Data, cfg: &OutputConfig) -> (r: Result<FileReport, MyError>)
    requires
        old(data).search_opt is Some,
        old(data).lines@.len() == 0,
        cfg.output_before + cfg.output_after + 1 <= u64::MAX,
    ensures
        final(data).search_opt == old(data).search_opt,
        final(data).invert_pattern == old(data).invert_pattern,
        final(data).replace_opt == old(data).replace_opt,
        final(data).path == old(data).path,
        final(data).content == old(data).content,
        final(data).lines_partition(),
        final(data).lines_wf(),
        forall|i: int|
            0 <= i < final(data).lines@.len() ==> (#[trigger] final(data).lines@[i]).nr == i + 1
                && final(data).lines@[i].matches@ == regex_find(
                old(data).search_opt.unwrap().eff(),
                old(data).search_opt.unwrap().ci(),
                final(data).content@.subrange(
                    final(data).lines@[i].range.start as int,
                    final(data).lines@[i].range.end as int,
                ),
            ),
        ({
            let search = old(data).search_opt.unwrap();
            let flags = spec_match_flags(final(data).lines@);
            let had = exists|i: int| 0 <= i < flags.len() && flags[i];
            let interesting = had != cfg.invert_pattern;
            let rv = spec_replace_view(old(data).replace_opt);
            let events = spec_context_events(
                flags,
                cfg.output_before as int,
                cfg.output_after as int,
                0,
                0,
                0,
                None,
            );
            let fitems = spec_file_items(
                old(data).path@,
                cfg.console_output,
                final(data).content@,
                final(data).lines@,
                events,
                rv,
                search.eff(),
                search.ci(),
            );
            let doc = spec_document_transform(
                final(data).content@,
                final(data).lines@,
                old(data).replace_opt.unwrap().spec_parts(),
                search.eff(),
                search.ci(),
            );
            let wants_write = interesting && old(data).replace_opt is Some
                && !cfg.simulate_replace;
            match r {
                Ok(rep) => {
                    &&& rep.interesting == interesting
                    &&& !interesting ==> rep.display@.len() == 0 && rep.write_back is None
                    &&& (interesting && cfg.output_only == Some(OutputOnly::Filenames))
                        ==> items_view(rep.display@) == (if cfg.null_separated_output {
                        seq![OutputItemView::PathNull(old(data).path@)]
                    } else {
                        seq![OutputItemView::Path(old(data).path@)]
                    })
                    &&& (interesting && cfg.output_only != Some(OutputOnly::Filenames)) ==> fitems
                        == Some(items_view(rep.display@))
                    &&& wants_write ==> (rep.write_back matches Some(v) && doc == Some(v@))
                    &&& !wants_write ==> rep.write_back is None
                },
                Err(e) => {
                    &&& e.kind == ErrorKind::UngroupableCapture
                    &&& interesting
                    &&& (cfg.output_only != Some(OutputOnly::Filenames) && fitems is None) || (
                    wants_write && doc is None)
                },
            }
        }),
{
    let _ = data.split_in_lines();
    let had = data.search_for_matches();
    let ghost lns = data.lines@;
    let ghost c = data.content@;
    let ghost fl = spec_match_flags(lns);
    proof {
        let f = |l: Line| (l.range.start as int, l.range.end as int);
        assert(data.lines@.map_values(f) =~= crate::file::spec_line_spans(data.content@, 0));
        let s0 = old(data).search_opt.unwrap();
        assert(forall|i: int|
            0 <= i < data.lines@.len() ==> (#[trigger] data.lines@[i]).nr == i + 1
                && data.lines@[i].matches@ == regex_find(
                s0.eff(),
                s0.ci(),
                data.content@.subrange(
                    data.lines@[i].range.start as int,
                    data.lines@[i].range.end as int,
                ),
            ));
        if had {
            let i = choose|i: int| 0 <= i < lns.len() && (#[trigger] lns[i]).matches@.len() > 0;
            assert(fl[i]);
        }
        if exists|i: int| 0 <= i < fl.len() && fl[i] {
            let i = choose|i: int| 0 <= i < fl.len() && #[trigger] fl[i];
            assert(lns[i].matches@.len() > 0);
        }
        assert(had == exists|i: int| 0 <= i < fl.len() && fl[i]);
    }
    let interesting = had ^ cfg.invert_pattern;
    if !interesting {
        let display: Vec<OutputItem> = Vec::new();
        return Ok(FileReport { interesting: false, display, write_back: None });
    }
    let search = match &data.search_opt {
        Some(s) => s,
        None => {
            proof {
                assert(false);
            }
            return Err(MyError::with_kind(ErrorKind::Custom, "no search configured"));
        },
    };
    let ghost eff = search.eff();
    let ghost ci = search.ci();
    let ghost rv = spec_replace_view(data.replace_opt);
    let ghost pathv = data.path@;
    let mut display: Vec<OutputItem> = Vec::new();
    if matches!(cfg.output_only, Some(OutputOnly::Filenames)) {
        if cfg.null_separated_output {
            display.push(OutputItem::PathNull(data.path.clone()));
            proof {
                assert(items_view(display@) =~= seq![OutputItemView::PathNull(pathv)]);
            }
        } else {
            display.push(OutputItem::Path(data.path.clone()));
            proof {
                assert(items_view(display@) =~= seq![OutputItemView::Path(pathv)]);
            }
        }
    } else {
        if cfg.console_output {
            display.push(OutputItem::Header(data.path.clone()));
            proof {
                assert(items_view(display@) =~= seq![OutputItemView::Header(pathv)]);
            }
        }
        let ghost base = display@;
        let n = data.lines.len();
        let mut flags: Vec<bool> = Vec::new();
        let mut k: usize = 0;
        while k < n
            invariant
                k <= n,
                n == lns.len(),
                lns == data.lines@,
                flags@.len() == k,
                forall|j: int| 0 <= j < k ==> flags@[j] == ((#[trigger] lns[j]).matches@.len() > 0),
            decreases n - k,
        {
            flags.push(data.lines[k].matches.len() > 0);
            k = k + 1;
        }
        proof {
            assert(flags@ =~= fl);
        }
        let events = context_events(&flags, cfg.output_before, cfg.output_after);
        let ghost evs = events@;
        let mut items = match build_event_items(
            &data.path,
            cfg.console_output,
            &data.content,
            &data.lines,
            search,
            &data.replace_opt,
            &events,
        ) {
            Err(e) => {
                return Err(e);
            },
            Ok(v) => v,
        };
        let ghost itemsv = items@;
        display.append(&mut items);
        if cfg.console_output {
            let ghost dpre = display@;
            display.push(OutputItem::Blank);
            proof {
                assert(items_view(display@) =~= items_view(dpre) + seq![OutputItemView::Blank]);
            }
        }
        proof {
            match spec_event_items(pathv, cfg.console_output, c, lns, evs, rv, eff, ci) {
                None => {
                    assert(false);
                },
                Some(t) => {
                    let header: Seq<OutputItemView> = if cfg.console_output {
                        seq![OutputItemView::Header(pathv)]
                    } else {
                        Seq::empty()
                    };
                    let trailer: Seq<OutputItemView> = if cfg.console_output {
                        seq![OutputItemView::Blank]
                    } else {
                        Seq::empty()
                    };
                    assert(items_view(base) =~= header);
                    assert(items_view(base + itemsv) =~= header + items_view(itemsv));
                    assert(items_view(display@) =~= header + t + trailer);
                },
            }
        }
    }
    let write_back: Option<Vec<u8>> = if data.replace_opt.is_some() && !cfg.simulate_replace {
        match data.replace_to_bytes() {
            Ok(v) => Some(v),
            Err(e) => {
                return Err(e);
            },
        }
    } else {
        None
    };
    Ok(FileReport { interesting: true, display, write_back })
}

/// The invert flag flips only whether a line is reported as interesting:
/// with it set the report is the complement of the plain report, while the
/// match spans — `regex_find` of the same pattern over the same bytes —
/// are the same either way, since they do not depend on the flag.
pub proof fn lemma_invert_flips_interest(eff: Seq<char>, ci: bool, hay: Seq<u8>)
    ensures
        ({
            let ms = regex_find(eff, ci, hay);
            ((ms.len() > 0) != true) == !((ms.len() > 0) != false)
        }),
{
}

/// What streaming mode does with one input line.
#[derive(Debug)]
pub enum LineAction {
    /// Send these exact bytes to the output stream.
    Write(Vec<u8>),
    /// Show these styled segments.
    Show(Vec<Segment>),
    /// Produce no output for this line.
    Nothing,
}

/// Decide what streaming mode does with one input line. On a
/// non-interactive destination every line is forwarded byte for byte unless
/// it is interesting and a replacement is configured, in which case the
/// rewritten bytes (or just the matched bytes) replace it; on an
/// interactive destination only interesting lines are shown. The invert
/// flag flips which lines are interesting without touching the match spans.
pub fn stdin_line_action(
    line_nr: u64,
    buffer: &Vec<u8>,
    search: &Search,
    replace_opt: &Option<Replace>,
    invert: bool,
    interactive: bool,
    match_only: bool,
) -> (r: Result<LineAction, MyError>)
    ensures
        ({
            let ms = regex_find(search.eff(), search.ci(), buffer@);
            let found = (ms.len() > 0) != invert;
            let rv = match replace_opt {
                None => None,
                Some(t) => Some(t.spec_parts()),
            };
            match r {
                Ok(a) => {
                    &&& (!interactive && !(found && replace_opt is Some)) ==> (a matches
                        LineAction::Write(v) && v@ == buffer@)
                    &&& (!interactive && found && replace_opt is Some && match_only) ==> (a matches
                        LineAction::Write(v) && v@ == spec_concat_matches(buffer@, ms))
                    &&& (!interactive && found && !match_only && replace_opt is Some) ==> (
                    a matches LineAction::Write(v) && spec_transform_from(
                        buffer@,
                        ms,
                        replace_opt.unwrap().spec_parts(),
                        search.eff(),
                        search.ci(),
                        0,
                    ) == Some(v@))
                    &&& (interactive && !found) ==> a is Nothing
                    &&& (interactive && found && match_only) ==> (a matches LineAction::Show(segs)
                        && segs_view(segs@) == spec_match_pass(buffer@, ms) + seq![
                        SegView::Plain("\n"@),
                    ])
                    &&& (interactive && found && !match_only) ==> (a matches LineAction::Show(segs)
                        && spec_colored2(line_nr, buffer@, ms, rv, search.eff(), search.ci())
                        == Some(segs_view(segs@)))
                },
                Err(e) => {
                    &&& e.kind == ErrorKind::UngroupableCapture
                    &&& found
                    &&& !match_only
                    &&& !interactive ==> (replace_opt is Some && spec_transform_from(
                        buffer@,
                        ms,
                        replace_opt.unwrap().spec_parts(),
                        search.eff(),
                        search.ci(),
                        0,
                    ) is None)
                    &&& interactive ==> spec_colored2(
                        line_nr,
                        buffer@,
                        ms,
                        rv,
                        search.eff(),
                        search.ci(),
                    ) is None
                },
            }
        }),
{
    let mut line = Line::new(line_nr, 0, buffer.len());
    let raw_found = line.search_for2(search, buffer.as_slice());
    let found = raw_found ^ invert;
    proof {
        assert(buffer@.subrange(0, buffer@.len() as int) =~= buffer@);
    }
    if !interactive {
        match replace_opt {
            Some(replace) if found => {
                let mut out: Vec<u8> = Vec::new();
                if match_only {
                    line.only_matches(buffer.as_slice(), &mut out);
                    Ok(LineAction::Write(out))
                } else {
                    match line.replace_with2(buffer.as_slice(), search, replace, &mut out) {
                        Ok(_) => Ok(LineAction::Write(out)),
                        Err(e) => Err(e),
                    }
                }
            },
            _ => Ok(LineAction::Write(buffer.clone())),
        }
    } else {
        if found {
            if match_only {
                Ok(LineAction::Show(line.match_segments(buffer.as_slice())))
            } else {
                match line.colored_segments2(buffer.as_slice(), search, replace_opt) {
                    Ok(segs) => Ok(LineAction::Show(segs)),
                    Err(e) => Err(e),
                }
            }
        } else {
            Ok(LineAction::Nothing)
        }
    }
}

} // verus!
