//! The display renderers: they turn a line's bytes and match spans into an
//! ordered list of styled segments — plain text, highlighted match text,
//! replacement preview text, and the line-number tag — without altering any
//! byte. Only text that decodes as UTF-8 is shown, mirroring the engine's
//! treatment of arbitrary byte content.

use crate::line::{spans_disjoint, spans_within, Line, Span};
use crate::search::{regex_capture, Replace, Search};
use crate::util::{ErrorKind, MyError};
use vstd::prelude::*;
use vstd::slice::slice_subrange;
use vstd::string::StringExecFns;
use vstd::utf8::{decode_utf8, encode_utf8, encode_utf8_decode_utf8, valid_utf8};

verus! {

/// One styled piece of rendered output.
#[derive(Debug)]
pub enum Segment {
    /// The line's 1-based number, shown as a tag before the text.
    LineNr(u64),
    /// Unstyled text.
    Plain(String),
    /// A matched span, visually distinguished.
    Matched(String),
    /// Replacement text shown in a preview, visually distinguished.
    Replaced(String),
}

/// The mathematical shape of a segment: its style and its characters.
pub enum SegView {
    LineNr(u64),
    Plain(Seq<char>),
    Matched(Seq<char>),
    Replaced(Seq<char>),
}

pub open spec fn seg_view(s: Segment) -> SegView {
    match s {
        Segment::LineNr(n) => SegView::LineNr(n),
        Segment::Plain(t) => SegView::Plain(t@),
        Segment::Matched(t) => SegView::Matched(t@),
        Segment::Replaced(t) => SegView::Replaced(t@),
    }
}

pub open spec fn segs_view(v: Seq<Segment>) -> Seq<SegView> {
    v.map_values(|s: Segment| seg_view(s))
}

/// Relies on core::str::from_utf8: `Some` exactly on valid UTF-8 input, and
/// the returned string slice views the same bytes.
#[verifier::external_body]
fn bytes_to_str(b: &[u8]) -> (r: Option<&str>)
    ensures
        r is Some <==> valid_utf8(b@),
        r matches Some(s) ==> encode_utf8(s@) == b@,
{
    core::str::from_utf8(b).ok()
}

/// The segments one highlight pass over a line emits: for each match, the
/// text before it and then either the fixed replacement text or the match
/// itself; then the trailing text. A piece whose bytes do not decode as
/// UTF-8 is not shown, and a match that cannot be shown hides its preceding
/// text as well.
pub open spec fn spec_highlight_pass(
    c: Seq<u8>,
    ms: Seq<Span>,
    repl: Option<Seq<char>>,
    off: int,
) -> Seq<SegView>
    decreases ms.len(),
{
    if ms.len() == 0 {
        let tail = c.subrange(off, c.len() as int);
        if valid_utf8(tail) {
            seq![SegView::Plain(decode_utf8(tail))]
        } else {
            Seq::empty()
        }
    } else {
        let pre = c.subrange(off, ms[0].start as int);
        let mb = c.subrange(ms[0].start as int, ms[0].end as int);
        let head: Seq<SegView> = if valid_utf8(pre) {
            match repl {
                Some(rp) => seq![SegView::Plain(decode_utf8(pre)), SegView::Replaced(rp)],
                None => if valid_utf8(mb) {
                    seq![SegView::Plain(decode_utf8(pre)), SegView::Matched(decode_utf8(mb))]
                } else {
                    Seq::empty()
                },
            }
        } else {
            Seq::empty()
        };
        head + spec_highlight_pass(c, ms.drop_first(), repl, ms[0].end as int)
    }
}

/// The whole highlight render of a line: the line-number tag, a pass showing
/// the matches themselves, and — when a fixed replacement is configured — a
/// second tagged pass showing the replacement in place of each match.
pub open spec fn spec_colored(nr: u64, c: Seq<u8>, ms: Seq<Span>, repl: Option<Seq<char>>) -> Seq<
    SegView,
> {
    let pass1 = seq![SegView::LineNr(nr)] + spec_highlight_pass(c, ms, None, 0);
    match repl {
        None => pass1,
        Some(rp) => pass1 + seq![SegView::LineNr(nr)] + spec_highlight_pass(c, ms, Some(rp), 0),
    }
}

/// The segments of the match-only render: each match's bytes when they
/// decode as UTF-8, then a line feed.
pub open spec fn spec_match_pass(c: Seq<u8>, ms: Seq<Span>) -> Seq<SegView>
    decreases ms.len(),
{
    if ms.len() == 0 {
        Seq::empty()
    } else {
        let mb = c.subrange(ms[0].start as int, ms[0].end as int);
        let head: Seq<SegView> = if valid_utf8(mb) {
            seq![SegView::Matched(decode_utf8(mb))]
        } else {
            Seq::empty()
        };
        head + spec_match_pass(c, ms.drop_first())
    }
}

fn push_highlight_pass(c: &[u8], ms: &Vec<Span>, repl: Option<&String>, out: &mut Vec<Segment>)
    requires
        spans_within(ms@, c@.len() as int),
        spans_disjoint(ms@),
    ensures
        segs_view(final(out)@) == segs_view(old(out)@) + spec_highlight_pass(
            c@,
            ms@,
            match repl {
                Some(s) => Some(s@),
                None => None,
            },
            0,
        ),
{
    let ghost cs = c@;
    let ghost msv = ms@;
    let ghost rv: Option<Seq<char>> = match repl {
        Some(s) => Some(s@),
        None => None,
    };
    let ghost base = out@;
    let mut offset: usize = 0;
    let mut k: usize = 0;
    proof {
        assert(msv.skip(0) =~= msv);
        assert(segs_view(base) + Seq::<SegView>::empty() =~= segs_view(base));
    }
    while k < ms.len()
        invariant
            spans_within(msv, cs.len() as int),
            spans_disjoint(msv),
            msv == ms@,
            cs == c@,
            rv == match repl {
                Some(s) => Some(s@),
                None => None,
            },
            k <= msv.len(),
            offset as int == if k == 0 {
                0int
            } else {
                msv[k - 1].end as int
            },
            offset <= cs.len(),
            segs_view(out@) + spec_highlight_pass(cs, msv.skip(k as int), rv, offset as int)
                == segs_view(base) + spec_highlight_pass(cs, msv, rv, 0),
        decreases msv.len() - k,
    {
        let ghost out0 = out@;
        let m = ms[k];
        proof {
            assert(msv[k as int].start <= msv[k as int].end <= cs.len());
            if k > 0 {
                assert(msv[k - 1].end <= msv[k as int].start);
            }
            assert(offset <= m.start);
            assert(msv.skip(k as int)[0] == msv[k as int]);
            assert(msv.skip(k as int).drop_first() =~= msv.skip(k + 1));
        }
        let pre = slice_subrange(c, offset, m.start);
        let mb = slice_subrange(c, m.start, m.end);
        match bytes_to_str(pre) {
            None => (),
            Some(pre_str) => {
                match repl {
                    Some(rp) => {
                        out.push(Segment::Plain(pre_str.to_owned()));
                        out.push(Segment::Replaced(rp.clone()));
                        proof {
                            encode_utf8_decode_utf8(pre_str@);
                        }
                    },
                    None => {
                        match bytes_to_str(mb) {
                            None => (),
                            Some(mb_str) => {
                                out.push(Segment::Plain(pre_str.to_owned()));
                                out.push(Segment::Matched(mb_str.to_owned()));
                                proof {
                                    encode_utf8_decode_utf8(pre_str@);
                                    encode_utf8_decode_utf8(mb_str@);
                                }
                            },
                        }
                    },
                }
            },
        }
        proof {
            assert(segs_view(out@) =~= segs_view(out0) + segs_view(out@.skip(out0.len() as int)));
            assert(segs_view(out@) + spec_highlight_pass(cs, msv.skip(k + 1), rv, m.end as int)
                =~= segs_view(base) + spec_highlight_pass(cs, msv, rv, 0));
        }
        offset = m.end;
        k = k + 1;
    }
    let tail = slice_subrange(c, offset, c.len());
    match bytes_to_str(tail) {
        None => (),
        Some(tail_str) => {
            out.push(Segment::Plain(tail_str.to_owned()));
            proof {
                encode_utf8_decode_utf8(tail_str@);
            }
        },
    }
    proof {
        assert(msv.skip(msv.len() as int) =~= Seq::<Span>::empty());
        assert(segs_view(final(out)@) =~= segs_view(base) + spec_highlight_pass(cs, msv, rv, 0));
    }
}

/// The preview segments one match's template rendering emits: each group
/// reference becomes that capture group's text, each literal suffix its own
/// text, all visually distinguished; `None` when a referenced group cannot
/// be extracted or its bytes do not decode as UTF-8.
pub open spec fn spec_preview_parts(
    parts: Seq<(int, Seq<char>)>,
    eff: Seq<char>,
    ci: bool,
    mtext: Seq<u8>,
) -> Option<Seq<SegView>>
    decreases parts.len(),
{
    if parts.len() == 0 {
        Some(Seq::empty())
    } else {
        match spec_preview_parts(parts.drop_first(), eff, ci, mtext) {
            None => None,
            Some(tail) => {
                if parts[0].0 >= 0 {
                    match regex_capture(eff, ci, mtext, parts[0].0) {
                        None => None,
                        Some(g) => if valid_utf8(g) {
                            Some(
                                seq![
                                    SegView::Replaced(decode_utf8(g)),
                                    SegView::Replaced(parts[0].1),
                                ] + tail,
                            )
                        } else {
                            None
                        },
                    }
                } else {
                    Some(seq![SegView::Replaced(parts[0].1)] + tail)
                }
            },
        }
    }
}

/// The template-preview pass over a line: for each match whose surrounding
/// text decodes as UTF-8, the text before it and then the template's
/// preview; the unmatched trailing text last, when it decodes.
pub open spec fn spec_preview_pass(
    c: Seq<u8>,
    ms: Seq<Span>,
    parts: Seq<(int, Seq<char>)>,
    eff: Seq<char>,
    ci: bool,
    off: int,
) -> Option<Seq<SegView>>
    decreases ms.len(),
{
    if ms.len() == 0 {
        let tail = c.subrange(off, c.len() as int);
        if valid_utf8(tail) {
            Some(seq![SegView::Plain(decode_utf8(tail))])
        } else {
            Some(Seq::empty())
        }
    } else {
        let pre = c.subrange(off, ms[0].start as int);
        let mb = c.subrange(ms[0].start as int, ms[0].end as int);
        let head: Option<Seq<SegView>> = if valid_utf8(pre) && valid_utf8(mb) {
            match spec_preview_parts(parts, eff, ci, mb) {
                None => None,
                Some(ps) => Some(seq![SegView::Plain(decode_utf8(pre))] + ps),
            }
        } else {
            Some(Seq::empty())
        };
        match head {
            None => None,
            Some(h) => {
                match spec_preview_pass(c, ms.drop_first(), parts, eff, ci, ms[0].end as int) {
                    None => None,
                    Some(t) => Some(h + t),
                }
            },
        }
    }
}

/// The whole render of a line against an optional template: the highlight
/// pass behind the line-number tag, and — when a template is configured — a
/// second tagged pass previewing the template against each match.
pub open spec fn spec_colored2(
    nr: u64,
    c: Seq<u8>,
    ms: Seq<Span>,
    rep: Option<Seq<(int, Seq<char>)>>,
    eff: Seq<char>,
    ci: bool,
) -> Option<Seq<SegView>> {
    let pass1 = seq![SegView::LineNr(nr)] + spec_highlight_pass(c, ms, None, 0);
    match rep {
        None => Some(pass1),
        Some(parts) => match spec_preview_pass(c, ms, parts, eff, ci, 0) {
            None => None,
            Some(p2) => Some(pass1 + seq![SegView::LineNr(nr)] + p2),
        },
    }
}

fn push_preview_parts(search: &Search, replace: &Replace, mtext: &[u8], out: &mut Vec<Segment>) -> (r:
    Result<(), MyError>)
    ensures
        match r {
            Ok(_) => spec_preview_parts(replace.spec_parts(), search.eff(), search.ci(), mtext@)
                matches Some(t) && segs_view(final(out)@) == segs_view(old(out)@) + t,
            Err(e) => spec_preview_parts(replace.spec_parts(), search.eff(), search.ci(), mtext@)
                is None && e.kind == ErrorKind::UngroupableCapture,
        },
{
    let ghost p = replace.spec_parts();
    let ghost eff = search.eff();
    let ghost ci = search.ci();
    let ghost base = out@;
    let mut k: usize = 0;
    proof {
        assert(p.skip(0) =~= p);
    }
    while k < replace.parts.len()
        invariant
            k <= replace.parts.len(),
            p == replace.spec_parts(),
            eff == search.eff(),
            ci == search.ci(),
            p.len() == replace.parts.len(),
            out@.len() >= base.len(),
            out@.subrange(0, base.len() as int) == base,
            match spec_preview_parts(p.skip(k as int), eff, ci, mtext@) {
                None => spec_preview_parts(p, eff, ci, mtext@) is None,
                Some(t) => spec_preview_parts(p, eff, ci, mtext@) == Some(
                    segs_view(out@.subrange(base.len() as int, out@.len() as int)) + t,
                ),
            },
        decreases replace.parts.len() - k,
    {
        let ghost out0 = out@;
        let (ix, lit) = (replace.parts[k].0, &replace.parts[k].1);
        proof {
            assert(p[k as int] == (ix as int, lit@));
            assert(p.skip(k as int)[0] == p[k as int]);
            assert(p.skip(k as int).drop_first() =~= p.skip(k + 1));
        }
        if ix >= 0 {
            let g = match search.capture_group(mtext, ix as usize) {
                None => {
                    return Err(
                        MyError::with_kind(
                            ErrorKind::UngroupableCapture,
                            "Could not extract a capture group required by the replacement template",
                        ),
                    );
                },
                Some(g) => g,
            };
            match bytes_to_str(g.as_slice()) {
                None => {
                    return Err(
                        MyError::with_kind(
                            ErrorKind::UngroupableCapture,
                            "A capture group's bytes are not valid UTF-8 and cannot be shown",
                        ),
                    );
                },
                Some(g_str) => {
                    out.push(Segment::Replaced(g_str.to_owned()));
                    proof {
                        encode_utf8_decode_utf8(g_str@);
                    }
                },
            }
        }
        out.push(Segment::Replaced(lit.clone()));
        proof {
            assert(out@.subrange(0, base.len() as int) =~= base);
            assert(segs_view(out@.subrange(base.len() as int, out@.len() as int)) =~= segs_view(
                out0.subrange(base.len() as int, out0.len() as int),
            ) + segs_view(out@.subrange(out0.len() as int, out@.len() as int)));
            match spec_preview_parts(p.skip(k + 1), eff, ci, mtext@) {
                None => {},
                Some(t) => {
                    assert(segs_view(out0.subrange(base.len() as int, out0.len() as int))
                        + (segs_view(out@.subrange(out0.len() as int, out@.len() as int)) + t)
                        =~= segs_view(out@.subrange(base.len() as int, out@.len() as int)) + t);
                },
            }
        }
        k = k + 1;
    }
    proof {
        assert(p.skip(p.len() as int) =~= Seq::<(int, Seq<char>)>::empty());
        match spec_preview_parts(p, eff, ci, mtext@) {
            None => {},
            Some(t) => {
                assert(segs_view(out@.subrange(base.len() as int, out@.len() as int))
                    + Seq::<SegView>::empty() =~= segs_view(
                    out@.subrange(base.len() as int, out@.len() as int),
                ));
                assert(segs_view(base) + segs_view(
                    out@.subrange(base.len() as int, out@.len() as int),
                ) =~= segs_view(out@));
            },
        }
    }
    Ok(())
}

#[verifier::rlimit(60)]
fn push_preview_pass(
    c: &[u8],
    ms: &Vec<Span>,
    search: &Search,
    replace: &Replace,
    out: &mut Vec<Segment>,
) -> (r: Result<(), MyError>)
    requires
        spans_within(ms@, c@.len() as int),
        spans_disjoint(ms@),
    ensures
        ({
            let pv = spec_preview_pass(
                c@,
                ms@,
                replace.spec_parts(),
                search.eff(),
                search.ci(),
                0,
            );
            match r {
                Ok(_) => pv matches Some(t) && segs_view(final(out)@) == segs_view(old(out)@) + t,
                Err(e) => pv is None && e.kind == ErrorKind::UngroupableCapture,
            }
        }),
{
    let ghost cs = c@;
    let ghost msv = ms@;
    let ghost p = replace.spec_parts();
    let ghost eff = search.eff();
    let ghost ci = search.ci();
    let ghost base = out@;
    let mut offset: usize = 0;
    let mut k: usize = 0;
    proof {
        assert(msv.skip(0) =~= msv);
    }
    while k < ms.len()
        invariant
            spans_within(msv, cs.len() as int),
            spans_disjoint(msv),
            msv == ms@,
            cs == c@,
            p == replace.spec_parts(),
            eff == search.eff(),
            ci == search.ci(),
            k <= msv.len(),
            offset as int == if k == 0 {
                0int
            } else {
                msv[k - 1].end as int
            },
            offset <= cs.len(),
            out@.len() >= base.len(),
            segs_view(out@).subrange(0, base.len() as int) == segs_view(base),
            match spec_preview_pass(cs, msv.skip(k as int), p, eff, ci, offset as int) {
                None => spec_preview_pass(cs, msv, p, eff, ci, 0) is None,
                Some(t) => spec_preview_pass(cs, msv, p, eff, ci, 0) == Some(
                    segs_view(out@).subrange(base.len() as int, out@.len() as int) + t,
                ),
            },
        decreases msv.len() - k,
    {
        let ghost out0 = out@;
        let m = ms[k];
        proof {
            assert(msv[k as int].start <= msv[k as int].end <= cs.len());
            if k > 0 {
                assert(msv[k - 1].end <= msv[k as int].start);
            }
            assert(offset <= m.start);
            assert(msv.skip(k as int)[0] == msv[k as int]);
            assert(msv.skip(k as int).drop_first() =~= msv.skip(k + 1));
        }
        let pre = slice_subrange(c, offset, m.start);
        let mb = slice_subrange(c, m.start, m.end);
        match bytes_to_str(pre) {
            None => (),
            Some(pre_str) => {
                match bytes_to_str(mb) {
                    None => (),
                    Some(_mb_str) => {
                        out.push(Segment::Plain(pre_str.to_owned()));
                        proof {
                            encode_utf8_decode_utf8(pre_str@);
                        }
                        match push_preview_parts(search, replace, mb, out) {
                            Err(e) => {
                                return Err(e);
                            },
                            Ok(_) => (),
                        }
                    },
                }
            },
        }
        proof {
            let sv0 = segs_view(out0);
            let sv1 = segs_view(out@);
            let pre_b = cs.subrange(offset as int, m.start as int);
            let mb_b = cs.subrange(m.start as int, m.end as int);
            assert(sv1.subrange(0, out0.len() as int) =~= sv0);
            let app = sv1.subrange(out0.len() as int, sv1.len() as int);
            assert(sv1 =~= sv0 + app);
            let head: Seq<SegView> = if valid_utf8(pre_b) && valid_utf8(mb_b) {
                seq![SegView::Plain(decode_utf8(pre_b))] + spec_preview_parts(
                    p,
                    eff,
                    ci,
                    mb_b,
                ).unwrap()
            } else {
                Seq::empty()
            };
            if valid_utf8(pre_b) && valid_utf8(mb_b) {
                assert(app =~= head);
            } else {
                assert(app =~= head);
            }
            assert(sv1.subrange(0, base.len() as int) =~= segs_view(base));
            match spec_preview_pass(cs, msv.skip(k + 1), p, eff, ci, m.end as int) {
                None => {},
                Some(t2) => {
                    assert(spec_preview_pass(cs, msv.skip(k as int), p, eff, ci, offset as int)
                        == Some(head + t2));
                    assert(sv0.subrange(base.len() as int, sv0.len() as int) + (head + t2)
                        =~= sv1.subrange(base.len() as int, sv1.len() as int) + t2);
                },
            }
        }
        offset = m.end;
        k = k + 1;
    }
    let tail = slice_subrange(c, offset, c.len());
    match bytes_to_str(tail) {
        None => (),
        Some(tail_str) => {
            out.push(Segment::Plain(tail_str.to_owned()));
            proof {
                encode_utf8_decode_utf8(tail_str@);
            }
        },
    }
    proof {
        assert(msv.skip(msv.len() as int) =~= Seq::<Span>::empty());
        match spec_preview_pass(cs, msv, p, eff, ci, 0) {
            None => {},
            Some(t) => {
                assert(segs_view(final(out)@) =~= segs_view(final(out)@).subrange(
                    0,
                    base.len() as int,
                ) + segs_view(final(out)@).subrange(base.len() as int, final(out)@.len() as int));
                assert(segs_view(final(out)@) =~= segs_view(base) + t);
            },
        }
    }
    Ok(())
}

impl Line {
    /// Render the line against an optional replacement template: the
    /// highlight pass, then — when a template is configured — a tagged
    /// preview pass that shows each match's template rendering in its place.
    /// Fails with `UngroupableCapture` when a referenced capture group
    /// cannot be extracted from some match or cannot be shown.
    pub fn colored_segments2(
        &self,
        content: &[u8],
        search: &Search,
        replace_opt: &Option<Replace>,
    ) -> (r: Result<Vec<Segment>, MyError>)
        requires
            spans_within(self.matches@, content@.len() as int),
            spans_disjoint(self.matches@),
        ensures
            ({
                let cv = spec_colored2(
                    self.nr,
                    content@,
                    self.matches@,
                    match replace_opt {
                        None => None,
                        Some(t) => Some(t.spec_parts()),
                    },
                    search.eff(),
                    search.ci(),
                );
                match r {
                    Ok(v) => cv == Some(segs_view(v@)),
                    Err(e) => cv is None && e.kind == ErrorKind::UngroupableCapture,
                }
            }),
    {
        let mut out: Vec<Segment> = Vec::new();
        out.push(Segment::LineNr(self.nr));
        proof {
            assert(segs_view(out@) =~= seq![SegView::LineNr(self.nr)]);
        }
        push_highlight_pass(content, &self.matches, None, &mut out);
        match replace_opt {
            None => Ok(out),
            Some(replace) => {
                let ghost mid = out@;
                out.push(Segment::LineNr(self.nr));
                proof {
                    assert(segs_view(out@) =~= segs_view(mid) + seq![SegView::LineNr(self.nr)]);
                }
                let ghost mid2 = out@;
                match push_preview_pass(content, &self.matches, search, replace, &mut out) {
                    Err(e) => Err(e),
                    Ok(_) => {
                        proof {
                            match spec_preview_pass(
                                content@,
                                self.matches@,
                                replace.spec_parts(),
                                search.eff(),
                                search.ci(),
                                0,
                            ) {
                                None => {},
                                Some(t) => {
                                    assert(segs_view(out@) =~= (seq![SegView::LineNr(self.nr)]
                                        + spec_highlight_pass(content@, self.matches@, None, 0))
                                        + seq![SegView::LineNr(self.nr)] + t);
                                },
                            }
                        }
                        Ok(out)
                    },
                }
            },
        }
    }
}

impl Line {
    /// Highlight render: the line's text with each matched span visually
    /// distinguished, behind the line-number tag; with a fixed replacement
    /// configured, a second pass previews it in place of each match.
    pub fn colored_segments(&self, content: &[u8], replace: &Option<String>) -> (r: Vec<Segment>)
        requires
            spans_within(self.matches@, content@.len() as int),
            spans_disjoint(self.matches@),
        ensures
            segs_view(r@) == spec_colored(
                self.nr,
                content@,
                self.matches@,
                match replace {
                    Some(s) => Some(s@),
                    None => None,
                },
            ),
    {
        let mut out: Vec<Segment> = Vec::new();
        out.push(Segment::LineNr(self.nr));
        proof {
            assert(segs_view(out@) =~= seq![SegView::LineNr(self.nr)]);
        }
        push_highlight_pass(content, &self.matches, None, &mut out);
        match replace {
            None => (),
            Some(rp) => {
                let ghost mid = out@;
                out.push(Segment::LineNr(self.nr));
                proof {
                    assert(segs_view(out@) =~= segs_view(mid) + seq![SegView::LineNr(self.nr)]);
                }
                push_highlight_pass(content, &self.matches, Some(rp), &mut out);
            },
        }
        proof {
            assert(segs_view(out@) =~= spec_colored(
                self.nr,
                content@,
                self.matches@,
                match replace {
                    Some(s) => Some(s@),
                    None => None,
                },
            ));
        }
        out
    }

    /// Match-only render: just the matched spans' text, each visually
    /// distinguished, followed by a line feed.
    pub fn match_segments(&self, content: &[u8]) -> (r: Vec<Segment>)
        requires
            spans_within(self.matches@, content@.len() as int),
        ensures
            segs_view(r@) == spec_match_pass(content@, self.matches@) + seq![SegView::Plain("\n"@)],
    {
        let ghost cs = content@;
        let ghost msv = self.matches@;
        let mut out: Vec<Segment> = Vec::new();
        let mut k: usize = 0;
        proof {
            assert(msv.skip(0) =~= msv);
            assert(segs_view(out@) + spec_match_pass(cs, msv) =~= spec_match_pass(cs, msv));
        }
        while k < self.matches.len()
            invariant
                spans_within(msv, cs.len() as int),
                msv == self.matches@,
                cs == content@,
                k <= msv.len(),
                segs_view(out@) + spec_match_pass(cs, msv.skip(k as int)) == spec_match_pass(
                    cs,
                    msv,
                ),
            decreases msv.len() - k,
        {
            let ghost out0 = out@;
            let m = self.matches[k];
            proof {
                assert(msv[k as int].start <= msv[k as int].end <= cs.len());
                assert(msv.skip(k as int)[0] == msv[k as int]);
                assert(msv.skip(k as int).drop_first() =~= msv.skip(k + 1));
            }
            let mb = slice_subrange(content, m.start, m.end);
            match bytes_to_str(mb) {
                None => (),
                Some(mb_str) => {
                    out.push(Segment::Matched(mb_str.to_owned()));
                    proof {
                        encode_utf8_decode_utf8(mb_str@);
                    }
                },
            }
            proof {
                assert(segs_view(out@) =~= segs_view(out0) + segs_view(
                    out@.skip(out0.len() as int),
                ));
                assert(segs_view(out@) + spec_match_pass(cs, msv.skip(k + 1)) =~= spec_match_pass(
                    cs,
                    msv,
                ));
            }
            k = k + 1;
        }
        out.push(Segment::Plain(String::from_str("\n")));
        proof {
            assert(msv.skip(msv.len() as int) =~= Seq::<Span>::empty());
            assert(segs_view(out@) =~= spec_match_pass(cs, msv) + seq![SegView::Plain("\n"@)]);
        }
        out
    }
}

} // verus!
