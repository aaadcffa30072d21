//! One line of a byte buffer: its 1-based number, its half-open span into the
//! buffer, and the match spans found inside it. The byte-exact rewriting
//! renderers live here as well.

use crate::search::{regex_capture, regex_find, Replace, Search};
use crate::util::{ErrorKind, MyError};
use vstd::prelude::*;
use vstd::slice::slice_subrange;
use vstd::string::StringSliceAdditionalSpecFns;
use vstd::utf8::encode_utf8;

verus! {

/// A half-open byte-offset range `[start, end)` into a buffer.
#[derive(Clone, Copy, Debug, PartialEq, Eq, Structural)]
pub struct Span {
    pub start: usize,
    pub end: usize,
}

/// Every span is well-formed and lies inside a buffer of length `len`.
pub open spec fn spans_within(ms: Seq<Span>, len: int) -> bool {
    forall|i: int| 0 <= i < ms.len() ==> (#[trigger] ms[i]).start <= ms[i].end <= len
}

/// The spans are ascending and pairwise non-overlapping.
pub open spec fn spans_disjoint(ms: Seq<Span>) -> bool {
    forall|i: int, j: int| 0 <= i < j < ms.len() ==> (#[trigger] ms[i]).end <= (#[trigger] ms[j]).start
}

/// The bytes of `c` from `off` on, with each span of `ms` replaced by `r`.
pub open spec fn spec_replace_from(c: Seq<u8>, ms: Seq<Span>, r: Seq<u8>, off: int) -> Seq<u8>
    decreases ms.len(),
{
    if ms.len() == 0 {
        c.subrange(off, c.len() as int)
    } else {
        c.subrange(off, ms[0].start as int) + r + spec_replace_from(c, ms.drop_first(), r, ms[0].end as int)
    }
}

/// The bytes of the spans of `ms` in `c`, concatenated.
pub open spec fn spec_concat_matches(c: Seq<u8>, ms: Seq<Span>) -> Seq<u8>
    decreases ms.len(),
{
    if ms.len() == 0 {
        Seq::empty()
    } else {
        c.subrange(ms[0].start as int, ms[0].end as int) + spec_concat_matches(c, ms.drop_first())
    }
}

/// A line of a buffer: 1-based ordinal, span into the buffer, and the match
/// spans of the latest search, each relative to the start of the line's span.
pub struct Line {
    pub nr: u64,
    pub range: Span,
    pub matches: Vec<Span>,
}

impl Line {
    /// The number of bytes the line covers.
    pub open spec fn spec_len(&self) -> int {
        self.range.end - self.range.start
    }

    /// The line's span fits a buffer of length `content_len`.
    pub open spec fn wf(&self, content_len: int) -> bool {
        self.range.start <= self.range.end <= content_len
    }

    /// The match spans are well-formed relative to the line's length.
    pub open spec fn matches_wf(&self) -> bool {
        spans_within(self.matches@, self.spec_len()) && spans_disjoint(self.matches@)
    }

    /// `(start, size)` indicate a part of some buffer.
    pub fn new(nr: u64, start: usize, size: usize) -> (r: Line)
        requires
            start + size <= usize::MAX,
        ensures
            r.nr == nr,
            r.range.start == start,
            r.range.end == start + size,
            r.matches@ == Seq::<Span>::empty(),
    {
        Line { nr, range: Span { start, end: start + size }, matches: Vec::new() }
    }

    /// The line's bytes inside the buffer it was cut from.
    pub fn as_slice<'a>(&self, s: &'a [u8]) -> (r: &'a [u8])
        requires
            self.wf(s@.len() as int),
        ensures
            r@ == s@.subrange(self.range.start as int, self.range.end as int),
            r@.len() == self.spec_len(),
    {
        slice_subrange(s, self.range.start, self.range.end)
    }

    /// Rewrite the line: every matched span becomes `replace`, the rest of
    /// `content` is kept byte for byte.
    pub fn replace_with(&self, content: &[u8], replace: &str, output: &mut Vec<u8>)
        requires
            spans_within(self.matches@, content@.len() as int),
            spans_disjoint(self.matches@),
        ensures
            final(output)@ == spec_replace_from(content@, self.matches@, replace.spec_bytes(), 0),
    {
        output.clear();
        let rb = replace.as_bytes();
        let ghost c = content@;
        let ghost ms = self.matches@;
        let ghost r = rb@;
        let mut offset: usize = 0;
        let mut i: usize = 0;
        proof {
            assert(ms.skip(0) =~= ms);
            assert(output@ + spec_replace_from(c, ms, r, 0) =~= spec_replace_from(c, ms, r, 0));
        }
        while i < self.matches.len()
            invariant
                spans_within(ms, c.len() as int),
                spans_disjoint(ms),
                ms == self.matches@,
                c == content@,
                r == rb@,
                i <= ms.len(),
                offset as int == if i == 0 { 0int } else { ms[i - 1].end as int },
                offset <= c.len(),
                spec_replace_from(c, ms, r, 0) == output@ + spec_replace_from(c, ms.skip(i as int), r, offset as int),
            decreases ms.len() - i,
        {
            let m = self.matches[i];
            proof {
                assert(ms[i as int].start <= ms[i as int].end <= c.len());
                if i > 0 {
                    assert(ms[i - 1].end <= ms[i as int].start);
                }
                assert(offset <= m.start);
            }
            output.extend_from_slice(slice_subrange(content, offset, m.start));
            output.extend_from_slice(rb);
            proof {
                assert(ms.skip(i as int).drop_first() =~= ms.skip(i + 1));
                assert(ms.skip(i as int)[0] == ms[i as int]);
                assert(spec_replace_from(c, ms.skip(i as int), r, offset as int) == c.subrange(
                    offset as int,
                    m.start as int,
                ) + r + spec_replace_from(c, ms.skip(i + 1), r, m.end as int));
                assert(spec_replace_from(c, ms, r, 0) == output@ + spec_replace_from(
                    c,
                    ms.skip(i + 1),
                    r,
                    m.end as int,
                ));
            }
            offset = m.end;
            i = i + 1;
        }
        output.extend_from_slice(slice_subrange(content, offset, content.len()));
        proof {
            assert(ms.skip(ms.len() as int) =~= Seq::<Span>::empty());
            assert(final(output)@ == spec_replace_from(c, ms, r, 0));
        }
    }

    /// Emit just the matched spans' bytes, concatenated; all unmatched text
    /// is discarded.
    pub fn only_matches(&self, content: &[u8], output: &mut Vec<u8>)
        requires
            spans_within(self.matches@, content@.len() as int),
        ensures
            final(output)@ == spec_concat_matches(content@, self.matches@),
    {
        output.clear();
        let ghost c = content@;
        let ghost ms = self.matches@;
        let mut i: usize = 0;
        proof {
            assert(ms.skip(0) =~= ms);
            assert(output@ + spec_concat_matches(c, ms) =~= spec_concat_matches(c, ms));
        }
        while i < self.matches.len()
            invariant
                spans_within(ms, c.len() as int),
                ms == self.matches@,
                c == content@,
                i <= ms.len(),
                spec_concat_matches(c, ms) == output@ + spec_concat_matches(c, ms.skip(i as int)),
            decreases ms.len() - i,
        {
            let m = self.matches[i];
            proof {
                assert(ms[i as int].start <= ms[i as int].end <= c.len());
            }
            output.extend_from_slice(slice_subrange(content, m.start, m.end));
            proof {
                assert(ms.skip(i as int).drop_first() =~= ms.skip(i + 1));
                assert(ms.skip(i as int)[0] == ms[i as int]);
            }
            i = i + 1;
        }
        proof {
            assert(ms.skip(ms.len() as int) =~= Seq::<Span>::empty());
        }
    }

    /// Clear and repopulate `matches` with every non-overlapping match of the
    /// search pattern inside the line's slice of `content`; report whether
    /// any match was found.
    pub fn search_for(&mut self, search: &Search, content: &[u8]) -> (r: bool)
        requires
            old(self).wf(content@.len() as int),
        ensures
            final(self).nr == old(self).nr,
            final(self).range == old(self).range,
            final(self).matches@ == regex_find(
                search.eff(),
                search.ci(),
                content@.subrange(old(self).range.start as int, old(self).range.end as int),
            ),
            final(self).matches_wf(),
            r == (final(self).matches@.len() > 0),
    {
        self.search_for2(search, content)
    }

    /// Clear and repopulate `matches` with every non-overlapping match of the
    /// search pattern inside the line's slice of `content`; report whether
    /// any match was found.
    pub fn search_for2(&mut self, search: &Search, content: &[u8]) -> (r: bool)
        requires
            old(self).wf(content@.len() as int),
        ensures
            final(self).nr == old(self).nr,
            final(self).range == old(self).range,
            final(self).matches@ == regex_find(
                search.eff(),
                search.ci(),
                content@.subrange(old(self).range.start as int, old(self).range.end as int),
            ),
            final(self).matches_wf(),
            r == (final(self).matches@.len() > 0),
    {
        let slice = self.as_slice(content);
        self.matches = search.find_spans(slice);
        self.matches.len() > 0
    }
}

/// The bytes that rendering the instruction list against one match's text
/// yields: each group reference becomes that capture group's bytes, each
/// literal suffix its UTF-8 bytes; `None` when a referenced group cannot be
/// extracted from the match.
pub open spec fn spec_render_parts(
    parts: Seq<(int, Seq<char>)>,
    eff: Seq<char>,
    ci: bool,
    mtext: Seq<u8>,
) -> Option<Seq<u8>>
    decreases parts.len(),
{
    if parts.len() == 0 {
        Some(Seq::empty())
    } else {
        match spec_render_parts(parts.drop_first(), eff, ci, mtext) {
            None => None,
            Some(tail) => {
                if parts[0].0 >= 0 {
                    match regex_capture(eff, ci, mtext, parts[0].0) {
                        None => None,
                        Some(g) => Some(g + encode_utf8(parts[0].1) + tail),
                    }
                } else {
                    Some(encode_utf8(parts[0].1) + tail)
                }
            },
        }
    }
}

/// The bytes of `c` from `off` on, with each matched span rewritten by the
/// instruction list; `None` when any match's rendering fails.
pub open spec fn spec_transform_from(
    c: Seq<u8>,
    ms: Seq<Span>,
    parts: Seq<(int, Seq<char>)>,
    eff: Seq<char>,
    ci: bool,
    off: int,
) -> Option<Seq<u8>>
    decreases ms.len(),
{
    if ms.len() == 0 {
        Some(c.subrange(off, c.len() as int))
    } else {
        match spec_render_parts(parts, eff, ci, c.subrange(ms[0].start as int, ms[0].end as int)) {
            None => None,
            Some(rend) => {
                match spec_transform_from(c, ms.drop_first(), parts, eff, ci, ms[0].end as int) {
                    None => None,
                    Some(tail) => Some(c.subrange(off, ms[0].start as int) + rend + tail),
                }
            },
        }
    }
}

/// Round trip: rewriting a line that has no matches yields the original
/// line bytes unchanged, both for a fixed replacement and for a template.
pub proof fn lemma_transform_no_matches(
    c: Seq<u8>,
    r: Seq<u8>,
    parts: Seq<(int, Seq<char>)>,
    eff: Seq<char>,
    ci: bool,
)
    ensures
        spec_replace_from(c, Seq::empty(), r, 0) == c,
        spec_transform_from(c, Seq::empty(), parts, eff, ci, 0) == Some(c),
{
    assert(c.subrange(0, c.len() as int) =~= c);
}

/// Append to `out` the rendering of the instruction list against one match's
/// bytes `mtext`; fail when a referenced capture group cannot be extracted.
fn render_template(search: &Search, replace: &Replace, mtext: &[u8], out: &mut Vec<u8>) -> (r:
    Result<(), MyError>)
    ensures
        match r {
            Ok(_) => spec_render_parts(replace.spec_parts(), search.eff(), search.ci(), mtext@)
                matches Some(t) && final(out)@ == old(out)@ + t,
            Err(e) => spec_render_parts(replace.spec_parts(), search.eff(), search.ci(), mtext@)
                is None && e.kind == ErrorKind::UngroupableCapture,
        },
{
    let ghost p = replace.spec_parts();
    let ghost eff = search.eff();
    let ghost ci = search.ci();
    let ghost base = out@;
    let mut k: usize = 0;
    proof {
        assert(p.skip(0) =~= p);
    }
    while k < replace.parts.len()
        invariant
            k <= replace.parts.len(),
            p == replace.spec_parts(),
            eff == search.eff(),
            ci == search.ci(),
            p.len() == replace.parts.len(),
            match spec_render_parts(p.skip(k as int), eff, ci, mtext@) {
                None => spec_render_parts(p, eff, ci, mtext@) is None,
                Some(t) => spec_render_parts(p, eff, ci, mtext@) == Some(
                    out@.subrange(base.len() as int, out@.len() as int) + t,
                ),
            },
            out@.len() >= base.len(),
            out@.subrange(0, base.len() as int) == base,
        decreases replace.parts.len() - k,
    {
        let ghost out0 = out@;
        let (ix, lit) = (replace.parts[k].0, &replace.parts[k].1);
        proof {
            assert(p[k as int] == (ix as int, lit@));
            assert(p.skip(k as int)[0] == p[k as int]);
            assert(p.skip(k as int).drop_first() =~= p.skip(k + 1));
        }
        if ix >= 0 {
            match search.capture_group(mtext, ix as usize) {
                None => {
                    return Err(
                        MyError::with_kind(
                            ErrorKind::UngroupableCapture,
                            "Could not extract a capture group required by the replacement template",
                        ),
                    );
                },
                Some(g) => {
                    out.extend_from_slice(g.as_slice());
                },
            }
        }
        out.extend_from_slice(lit.as_str().as_bytes());
        proof {
            assert(out@.subrange(0, base.len() as int) =~= base);
            match spec_render_parts(p.skip(k + 1), eff, ci, mtext@) {
                None => {},
                Some(t) => {
                    if ix >= 0 {
                        let g = regex_capture(eff, ci, mtext@, ix as int).unwrap();
                        assert(out@.subrange(base.len() as int, out@.len() as int) =~= out0.subrange(
                            base.len() as int,
                            out0.len() as int,
                        ) + g + encode_utf8(lit@));
                        assert(out0.subrange(base.len() as int, out0.len() as int) + (g
                            + encode_utf8(lit@) + t) =~= out@.subrange(
                            base.len() as int,
                            out@.len() as int,
                        ) + t);
                    } else {
                        assert(out@.subrange(base.len() as int, out@.len() as int) =~= out0.subrange(
                            base.len() as int,
                            out0.len() as int,
                        ) + encode_utf8(lit@));
                        assert(out0.subrange(base.len() as int, out0.len() as int) + (encode_utf8(
                            lit@,
                        ) + t) =~= out@.subrange(base.len() as int, out@.len() as int) + t);
                    }
                },
            }
        }
        k = k + 1;
    }
    proof {
        assert(p.skip(p.len() as int) =~= Seq::<(int, Seq<char>)>::empty());
        match spec_render_parts(p, eff, ci, mtext@) {
            None => {},
            Some(t) => {
                assert(out@.subrange(base.len() as int, out@.len() as int) + Seq::<u8>::empty()
                    =~= out@.subrange(base.len() as int, out@.len() as int));
                assert(base + out@.subrange(base.len() as int, out@.len() as int) =~= out@);
            },
        }
    }
    Ok(())
}

impl Line {
    /// Rewrite the line: every matched span is replaced by the template's
    /// rendering against that match, the rest of `content` is kept byte for
    /// byte. Fails with `UngroupableCapture` when a referenced capture group
    /// cannot be extracted from some match.
    pub fn replace_with2(
        &self,
        content: &[u8],
        search: &Search,
        replace: &Replace,
        output: &mut Vec<u8>,
    ) -> (r: Result<(), MyError>)
        requires
            spans_within(self.matches@, content@.len() as int),
            spans_disjoint(self.matches@),
        ensures
            match r {
                Ok(_) => spec_transform_from(
                    content@,
                    self.matches@,
                    replace.spec_parts(),
                    search.eff(),
                    search.ci(),
                    0,
                ) == Some(final(output)@),
                Err(e) => spec_transform_from(
                    content@,
                    self.matches@,
                    replace.spec_parts(),
                    search.eff(),
                    search.ci(),
                    0,
                ) is None && e.kind == ErrorKind::UngroupableCapture,
            },
    {
        output.clear();
        let ghost c = content@;
        let ghost ms = self.matches@;
        let ghost p = replace.spec_parts();
        let ghost eff = search.eff();
        let ghost ci = search.ci();
        let mut offset: usize = 0;
        let mut i: usize = 0;
        proof {
            assert(ms.skip(0) =~= ms);
        }
        while i < self.matches.len()
            invariant
                spans_within(ms, c.len() as int),
                spans_disjoint(ms),
                ms == self.matches@,
                c == content@,
                p == replace.spec_parts(),
                eff == search.eff(),
                ci == search.ci(),
                i <= ms.len(),
                offset as int == if i == 0 { 0int } else { ms[i - 1].end as int },
                offset <= c.len(),
                match spec_transform_from(c, ms.skip(i as int), p, eff, ci, offset as int) {
                    None => spec_transform_from(c, ms, p, eff, ci, 0) is None,
                    Some(t) => spec_transform_from(c, ms, p, eff, ci, 0) == Some(output@ + t),
                },
            decreases ms.len() - i,
        {
            let ghost out0 = output@;
            let m = self.matches[i];
            proof {
                assert(ms[i as int].start <= ms[i as int].end <= c.len());
                if i > 0 {
                    assert(ms[i - 1].end <= ms[i as int].start);
                }
                assert(offset <= m.start);
                assert(ms.skip(i as int)[0] == ms[i as int]);
                assert(ms.skip(i as int).drop_first() =~= ms.skip(i + 1));
            }
            output.extend_from_slice(slice_subrange(content, offset, m.start));
            let mtext = slice_subrange(content, m.start, m.end);
            let rendered = render_template(search, replace, mtext, output);
            match rendered {
                Err(e) => {
                    return Err(e);
                },
                Ok(_) => {},
            }
            proof {
                let rend = spec_render_parts(p, eff, ci, c.subrange(
                    m.start as int,
                    m.end as int,
                )).unwrap();
                assert(output@ =~= out0 + c.subrange(offset as int, m.start as int) + rend);
                match spec_transform_from(c, ms.skip(i + 1), p, eff, ci, m.end as int) {
                    None => {},
                    Some(t) => {
                        assert(out0 + (c.subrange(offset as int, m.start as int) + rend + t)
                            =~= output@ + t);
                    },
                }
            }
            offset = m.end;
            i = i + 1;
        }
        output.extend_from_slice(slice_subrange(content, offset, content.len()));
        proof {
            assert(ms.skip(ms.len() as int) =~= Seq::<Span>::empty());
            match spec_transform_from(c, ms, p, eff, ci, 0) {
                None => {},
                Some(t) => {
                    assert(final(output)@ =~= t);
                },
            }
        }
        Ok(())
    }
}

} // verus!
