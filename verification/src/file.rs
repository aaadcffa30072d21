//! A document: path identity, byte content, and the ordered lines cut from
//! it. The line index partitions the content at line-feed bytes; the search
//! pass populates each line's matches; the transform render produces the
//! byte-exact rewritten content.

use crate::line::{spec_transform_from, Line, Span};
use crate::search::{regex_find, Replace, Search};
use crate::util::{ErrorKind, MyError};
use vstd::prelude::*;
use vstd::slice::slice_subrange;

verus! {

/// The position of the first occurrence of byte `b` in `c` at or after
/// `from`.
pub open spec fn spec_find_byte(c: Seq<u8>, b: u8, from: int) -> Option<int>
    decreases c.len() - from,
{
    if from < 0 || from >= c.len() {
        None
    } else if c[from] == b {
        Some(from)
    } else {
        spec_find_byte(c, b, from + 1)
    }
}

proof fn lemma_find_byte_bounds(c: Seq<u8>, b: u8, from: int, j: int)
    requires
        spec_find_byte(c, b, from) == Some(j),
    ensures
        from <= j < c.len(),
        c[j] == b,
    decreases c.len() - from,
{
    if !(from < 0 || from >= c.len()) && c[from] != b {
        lemma_find_byte_bounds(c, b, from + 1, j);
    }
}

/// Where the line that begins at `start` ends: one past the next line-feed
/// byte, or the end of the buffer when none follows.
pub open spec fn spec_line_end(c: Seq<u8>, start: int) -> int {
    match spec_find_byte(c, 10, start) {
        Some(j) => j + 1,
        None => c.len() as int,
    }
}

proof fn lemma_line_end_bounds(c: Seq<u8>, start: int)
    requires
        0 <= start < c.len(),
    ensures
        start < spec_line_end(c, start) <= c.len(),
{
    match spec_find_byte(c, 10, start) {
        Some(j) => lemma_find_byte_bounds(c, 10, start, j),
        None => (),
    }
}

/// The spans that the line index produces over `c` from `start` on: each
/// runs to and including the next line-feed byte, or to the end of the
/// buffer for the final, possibly delimiter-less, line.
pub open spec fn spec_line_spans(c: Seq<u8>, start: int) -> Seq<(int, int)>
    decreases c.len() - start,
    via spec_line_spans_decreases
{
    if start < 0 || start >= c.len() {
        Seq::empty()
    } else {
        seq![(start, spec_line_end(c, start))] + spec_line_spans(c, spec_line_end(c, start))
    }
}

#[via_fn]
proof fn spec_line_spans_decreases(c: Seq<u8>, start: int) {
    if !(start < 0 || start >= c.len()) {
        lemma_line_end_bounds(c, start);
    }
}

/// The bytes of the given spans of `c`, concatenated in order.
pub open spec fn spec_concat_spans(c: Seq<u8>, sp: Seq<(int, int)>) -> Seq<u8>
    decreases sp.len(),
{
    if sp.len() == 0 {
        Seq::empty()
    } else {
        c.subrange(sp[0].0, sp[0].1) + spec_concat_spans(c, sp.drop_first())
    }
}

proof fn lemma_line_spans_concat_from(c: Seq<u8>, start: int)
    requires
        0 <= start <= c.len(),
    ensures
        spec_concat_spans(c, spec_line_spans(c, start)) == c.subrange(start, c.len() as int),
    decreases c.len() - start,
{
    if start >= c.len() {
        assert(c.subrange(start, c.len() as int) =~= Seq::<u8>::empty());
    } else {
        let e = spec_line_end(c, start);
        lemma_line_end_bounds(c, start);
        lemma_line_spans_concat_from(c, e);
        let sp = spec_line_spans(c, start);
        assert(sp.drop_first() =~= spec_line_spans(c, e));
        assert(c.subrange(start, e) + c.subrange(e, c.len() as int) =~= c.subrange(
            start,
            c.len() as int,
        ));
    }
}

/// Lossless partition: concatenating the byte slices of all lines that the
/// line index produces over `c`, in order, reproduces `c` exactly.
pub proof fn lemma_line_index_lossless(c: Seq<u8>)
    ensures
        spec_concat_spans(c, spec_line_spans(c, 0)) == c,
{
    lemma_line_spans_concat_from(c, 0);
    assert(c.subrange(0, c.len() as int) =~= c);
}

/// The same, stated of a document: once its lines partition its content,
/// concatenating their byte slices in order reproduces the content exactly.
pub proof fn lemma_document_lossless(d: &Data)
    requires
        d.lines_partition(),
    ensures
        spec_concat_spans(
            d.content@,
            d.lines@.map_values(|l: Line| (l.range.start as int, l.range.end as int)),
        ) == d.content@,
{
    lemma_line_index_lossless(d.content@);
}

/// The position of the first occurrence of byte `b` in `c` at or after
/// `from`, if any.
fn find_byte(c: &[u8], b: u8, from: usize) -> (r: Option<usize>)
    requires
        from <= c@.len(),
    ensures
        match r {
            Some(j) => spec_find_byte(c@, b, from as int) == Some(j as int),
            None => spec_find_byte(c@, b, from as int) is None,
        },
{
    let n = c.len();
    let mut j: usize = from;
    while j < n
        invariant
            from <= j <= n,
            n == c@.len(),
            spec_find_byte(c@, b, from as int) == spec_find_byte(c@, b, j as int),
        decreases n - j,
    {
        if *vstd::slice::slice_index_get(c, j) == b {
            return Some(j);
        }
        j = j + 1;
    }
    None
}

/// The bytes that transform-rendering every line of a document yields, in
/// order; `None` when any line's rendering fails.
pub open spec fn spec_document_transform(
    c: Seq<u8>,
    lines: Seq<Line>,
    parts: Seq<(int, Seq<char>)>,
    eff: Seq<char>,
    ci: bool,
) -> Option<Seq<u8>>
    decreases lines.len(),
{
    if lines.len() == 0 {
        Some(Seq::empty())
    } else {
        let slice = c.subrange(lines[0].range.start as int, lines[0].range.end as int);
        match spec_transform_from(slice, lines[0].matches@, parts, eff, ci, 0) {
            None => None,
            Some(rend) => {
                match spec_document_transform(c, lines.drop_first(), parts, eff, ci) {
                    None => None,
                    Some(tail) => Some(rend + tail),
                }
            },
        }
    }
}

/// A document under processing: the configured search and replacement, the
/// path it was read from, its bytes, and the lines cut from them.
pub struct Data {
    pub search_opt: Option<Search>,
    pub invert_pattern: bool,
    pub replace_opt: Option<Replace>,
    pub path: String,
    pub content: Vec<u8>,
    pub lines: Vec<Line>,
}

impl Data {
    /// Every line's span fits the content and its matches fit the line.
    pub open spec fn lines_wf(&self) -> bool {
        forall|i: int|
            0 <= i < self.lines@.len() ==> (#[trigger] self.lines@[i]).wf(self.content@.len() as int)
                && self.lines@[i].matches_wf()
    }

    /// The lines' spans are exactly what the line index produces over the
    /// content.
    pub open spec fn lines_partition(&self) -> bool {
        self.lines@.map_values(|l: Line| (l.range.start as int, l.range.end as int))
            == spec_line_spans(self.content@, 0)
    }

    pub fn new(search_opt: Option<Search>, invert_pattern: bool, replace_opt: Option<Replace>) -> (r:
        Data)
        ensures
            r.search_opt == search_opt,
            r.invert_pattern == invert_pattern,
            r.replace_opt == replace_opt,
            r.path@.len() == 0,
            r.content@.len() == 0,
            r.lines@.len() == 0,
    {
        Data {
            search_opt,
            invert_pattern,
            replace_opt,
            path: String::new(),
            content: Vec::new(),
            lines: Vec::new(),
        }
    }

    /// Install the bytes read from `path` as the document's content and
    /// forget the previous document's lines. The reading itself is the
    /// caller's: this core treats each input as an opaque byte buffer.
    pub fn load_content(&mut self, path: String, content: Vec<u8>)
        ensures
            final(self).search_opt == old(self).search_opt,
            final(self).invert_pattern == old(self).invert_pattern,
            final(self).replace_opt == old(self).replace_opt,
            final(self).path == path,
            final(self).content == content,
            final(self).lines@.len() == 0,
    {
        self.path = path;
        self.content = content;
        self.lines.clear();
    }

    /// Cut the content into lines: each span runs from the previous
    /// line-feed byte (exclusive) to and including the next, or to the end
    /// of the buffer; an empty buffer yields zero lines.
    pub fn split_in_lines(&mut self) -> (r: Result<(), MyError>)
        requires
            old(self).lines@.len() == 0,
        ensures
            r is Ok,
            final(self).search_opt == old(self).search_opt,
            final(self).invert_pattern == old(self).invert_pattern,
            final(self).replace_opt == old(self).replace_opt,
            final(self).path == old(self).path,
            final(self).content == old(self).content,
            final(self).lines_partition(),
            final(self).lines_wf(),
            forall|i: int|
                0 <= i < final(self).lines@.len() ==> (#[trigger] final(self).lines@[i]).nr == i + 1
                    && final(self).lines@[i].matches@.len() == 0,
    {
        let ghost c = self.content@;
        let n = self.content.len();
        let mut start: usize = 0;
        let mut nr: u64 = 0;
        proof {
            assert(self.lines@.map_values(|l: Line| (l.range.start as int, l.range.end as int))
                =~= Seq::<(int, int)>::empty());
        }
        while start < n
            invariant
                start <= n,
                n == self.content@.len(),
                c == self.content@,
                nr == self.lines@.len(),
                self.lines@.len() <= start,
                self.search_opt == old(self).search_opt,
                self.invert_pattern == old(self).invert_pattern,
                self.replace_opt == old(self).replace_opt,
                self.path == old(self).path,
                self.content == old(self).content,
                spec_line_spans(c, 0) == self.lines@.map_values(
                    |l: Line| (l.range.start as int, l.range.end as int),
                ) + spec_line_spans(c, start as int),
                forall|i: int|
                    0 <= i < self.lines@.len() ==> (#[trigger] self.lines@[i]).nr == i + 1
                        && self.lines@[i].matches@.len() == 0 && self.lines@[i].wf(c.len() as int)
                        && self.lines@[i].matches_wf(),
            decreases n - start,
        {
            nr = nr + 1;
            let e: usize = match find_byte(self.content.as_slice(), 10, start) {
                Some(j) => {
                    proof {
                        lemma_find_byte_bounds(c, 10, start as int, j as int);
                    }
                    j + 1
                },
                None => n,
            };
            proof {
                match spec_find_byte(c, 10, start as int) {
                    Some(j) => lemma_find_byte_bounds(c, 10, start as int, j),
                    None => (),
                }
                assert(e as int == spec_line_end(c, start as int));
            }
            let line = Line::new(nr, start, e - start);
            self.lines.push(line);
            proof {
                let f = |l: Line| (l.range.start as int, l.range.end as int);
                assert(self.lines@.map_values(f) =~= self.lines@.drop_last().map_values(f) + seq![
                    (start as int, e as int),
                ]);
                assert(spec_line_spans(c, start as int) == seq![(start as int, e as int)]
                    + spec_line_spans(c, e as int));
                assert(spec_line_spans(c, 0) == self.lines@.map_values(f) + spec_line_spans(
                    c,
                    e as int,
                ));
            }
            start = e;
        }
        proof {
            assert(spec_line_spans(c, start as int) =~= Seq::<(int, int)>::empty());
            assert(spec_line_spans(c, 0) =~= self.lines@.map_values(
                |l: Line| (l.range.start as int, l.range.end as int),
            ));
        }
        Ok(())
    }

    /// Run the search over every line, clearing and repopulating each line's
    /// matches; report whether any line matched. Without a configured search
    /// nothing changes and no match is reported.
    pub fn search_for_matches(&mut self) -> (r: bool)
        requires
            old(self).lines_wf(),
        ensures
            final(self).search_opt == old(self).search_opt,
            final(self).invert_pattern == old(self).invert_pattern,
            final(self).replace_opt == old(self).replace_opt,
            final(self).path == old(self).path,
            final(self).content == old(self).content,
            final(self).lines@.len() == old(self).lines@.len(),
            final(self).lines_wf(),
            old(self).search_opt is None ==> final(self).lines == old(self).lines && r == false,
            old(self).search_opt matches Some(search) ==> {
                &&& forall|i: int|
                    0 <= i < final(self).lines@.len() ==> {
                        &&& (#[trigger] final(self).lines@[i]).nr == old(self).lines@[i].nr
                        &&& final(self).lines@[i].range == old(self).lines@[i].range
                        &&& final(self).lines@[i].matches@ == regex_find(
                            search.eff(),
                            search.ci(),
                            old(self).content@.subrange(
                                old(self).lines@[i].range.start as int,
                                old(self).lines@[i].range.end as int,
                            ),
                        )
                    }
                &&& r == exists|i: int|
                    0 <= i < final(self).lines@.len()
                        && (#[trigger] final(self).lines@[i]).matches@.len() > 0
            },
    {
        match &self.search_opt {
            None => false,
            Some(search) => {
                let ghost c = self.content@;
                let mut found_match = false;
                let mut i: usize = 0;
                let n = self.lines.len();
                while i < n
                    invariant
                        i <= n,
                        n == self.lines@.len(),
                        n == old(self).lines@.len(),
                        c == self.content@,
                        self.search_opt == old(self).search_opt,
                        self.invert_pattern == old(self).invert_pattern,
                        self.replace_opt == old(self).replace_opt,
                        self.path == old(self).path,
                        self.content == old(self).content,
                        old(self).search_opt matches Some(s) && s == search,
                        old(self).lines_wf(),
                        forall|k: int|
                            i <= k < n ==> #[trigger] self.lines@[k] == old(self).lines@[k],
                        forall|k: int|
                            0 <= k < i ==> {
                                &&& (#[trigger] self.lines@[k]).nr == old(self).lines@[k].nr
                                &&& self.lines@[k].range == old(self).lines@[k].range
                                &&& self.lines@[k].matches@ == regex_find(
                                    search.eff(),
                                    search.ci(),
                                    c.subrange(
                                        old(self).lines@[k].range.start as int,
                                        old(self).lines@[k].range.end as int,
                                    ),
                                )
                                &&& self.lines@[k].wf(c.len() as int)
                                &&& self.lines@[k].matches_wf()
                            },
                        found_match == exists|k: int|
                            0 <= k < i && (#[trigger] self.lines@[k]).matches@.len() > 0,
                    decreases n - i,
                {
                    let ghost before = self.lines@;
                    let ghost prev_found = found_match;
                    let line = &mut self.lines[i];
                    let has = line.search_for(search, self.content.as_slice());
                    found_match = has || found_match;
                    proof {
                        let inew = i as int;
                        assert(forall|k: int|
                            0 <= k < n && k != inew ==> #[trigger] self.lines@[k] == before[k]);
                        if has {
                            assert(self.lines@[inew].matches@.len() > 0);
                            assert(exists|k: int|
                                0 <= k < inew + 1 && (#[trigger] self.lines@[k]).matches@.len()
                                    > 0);
                        } else if prev_found {
                            let k0 = choose|k: int|
                                0 <= k < inew && (#[trigger] before[k]).matches@.len() > 0;
                            assert(self.lines@[k0] == before[k0]);
                            assert(exists|k: int|
                                0 <= k < inew + 1 && (#[trigger] self.lines@[k]).matches@.len()
                                    > 0);
                        } else {
                            assert forall|k: int| 0 <= k < inew + 1 implies (#[trigger] self
                                .lines@[k]).matches@.len() == 0 by {
                                if k < inew {
                                    assert(self.lines@[k] == before[k]);
                                    assert(!(before[k].matches@.len() > 0));
                                }
                            }
                        }
                    }
                    i = i + 1;
                }
                found_match
            },
        }
    }

    /// Transform-render the whole document: every line is rewritten by the
    /// configured template, and the renderings are concatenated in line
    /// order. Fails with `UngroupableCapture` when a referenced capture
    /// group cannot be extracted from some match; no partial result is then
    /// returned.
    pub fn replace_to_bytes(&self) -> (r: Result<Vec<u8>, MyError>)
        requires
            self.lines_wf(),
            self.search_opt is Some,
            self.replace_opt is Some,
        ensures
            ({
                let search = self.search_opt.unwrap();
                let replace = self.replace_opt.unwrap();
                let doc = spec_document_transform(
                    self.content@,
                    self.lines@,
                    replace.spec_parts(),
                    search.eff(),
                    search.ci(),
                );
                match r {
                    Ok(v) => doc == Some(v@),
                    Err(e) => doc is None && e.kind == ErrorKind::UngroupableCapture,
                }
            }),
    {
        let search = match &self.search_opt {
            Some(s) => s,
            None => {
                proof {
                    assert(false);
                }
                return Err(MyError::with_kind(ErrorKind::Custom, "no search configured"));
            },
        };
        let replace = match &self.replace_opt {
            Some(t) => t,
            None => {
                proof {
                    assert(false);
                }
                return Err(MyError::with_kind(ErrorKind::Custom, "no replacement configured"));
            },
        };
        let ghost c = self.content@;
        let ghost lns = self.lines@;
        let ghost p = replace.spec_parts();
        let ghost eff = search.eff();
        let ghost ci = search.ci();
        let mut out: Vec<u8> = Vec::new();
        let mut rend: Vec<u8> = Vec::new();
        let mut i: usize = 0;
        proof {
            assert(lns.skip(0) =~= lns);
        }
        while i < self.lines.len()
            invariant
                i <= lns.len(),
                lns == self.lines@,
                c == self.content@,
                self.lines_wf(),
                self.search_opt matches Some(s) && s == search,
                self.replace_opt matches Some(t) && t == replace,
                p == replace.spec_parts(),
                eff == search.eff(),
                ci == search.ci(),
                match spec_document_transform(c, lns.skip(i as int), p, eff, ci) {
                    None => spec_document_transform(c, lns, p, eff, ci) is None,
                    Some(t) => spec_document_transform(c, lns, p, eff, ci) == Some(out@ + t),
                },
            decreases lns.len() - i,
        {
            let ghost out0 = out@;
            proof {
                assert(lns.skip(i as int)[0] == lns[i as int]);
                assert(lns.skip(i as int).drop_first() =~= lns.skip(i + 1));
            }
            let line = &self.lines[i];
            let slice = line.as_slice(self.content.as_slice());
            match line.replace_with2(slice, search, replace, &mut rend) {
                Err(e) => {
                    return Err(e);
                },
                Ok(_) => {},
            }
            out.extend_from_slice(rend.as_slice());
            proof {
                match spec_document_transform(c, lns.skip(i + 1), p, eff, ci) {
                    None => {},
                    Some(t) => {
                        assert(out0 + (rend@ + t) =~= out@ + t);
                    },
                }
            }
            i = i + 1;
        }
        proof {
            assert(lns.skip(lns.len() as int) =~= Seq::<Line>::empty());
            match spec_document_transform(c, lns, p, eff, ci) {
                None => {},
                Some(t) => {
                    assert(out@ + Seq::<u8>::empty() =~= out@);
                },
            }
        }
        Ok(out)
    }
}

} // verus!
