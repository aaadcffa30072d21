//! A whole-line collector: it walks a batch of text lines and keeps each
//! line that the search pattern matches, with its 1-based number.

use crate::search::{regex_find, Search};
use vstd::prelude::*;
use vstd::string::StringSliceAdditionalSpecFns;

verus! {

/// One kept line: its 1-based number and its text.
pub struct Match {
    pub line_nr: u32,
    pub content: String,
}

/// The lines among `lines` that the pattern matches, with their 1-based
/// numbers counted from `base`.
pub open spec fn spec_search_hits(lines: Seq<Seq<char>>, eff: Seq<char>, ci: bool, base: int) -> Seq<
    (int, Seq<char>),
>
    decreases lines.len(),
{
    if lines.len() == 0 {
        Seq::empty()
    } else {
        let head: Seq<(int, Seq<char>)> = if regex_find(
            eff,
            ci,
            vstd::utf8::encode_utf8(lines[0]),
        ).len() > 0 {
            seq![(base, lines[0])]
        } else {
            Seq::empty()
        };
        head + spec_search_hits(lines.drop_first(), eff, ci, base + 1)
    }
}

/// Collects the matching lines of a batch.
pub struct Searcher {
    pub matches: Vec<Match>,
}

pub open spec fn matches_view(ms: Seq<Match>) -> Seq<(int, Seq<char>)> {
    ms.map_values(|m: Match| (m.line_nr as int, m.content@))
}

impl Searcher {
    pub fn new() -> (r: Searcher)
        ensures
            r.matches@.len() == 0,
    {
        Searcher { matches: Vec::new() }
    }

    /// Clear the collection, then keep every line of the batch that the
    /// pattern matches, numbered from 1 in input order; report whether
    /// anything was kept.
    pub fn search(&mut self, search: &Search, lines: &Vec<String>) -> (r: bool)
        requires
            lines@.len() + 1 <= u32::MAX,
        ensures
            matches_view(final(self).matches@) == spec_search_hits(
                lines@.map_values(|l: String| l@),
                search.eff(),
                search.ci(),
                1,
            ),
            r == (final(self).matches@.len() > 0),
    {
        self.matches.clear();
        let ghost ls = lines@.map_values(|l: String| l@);
        let ghost eff = search.eff();
        let ghost ci = search.ci();
        let mut i: usize = 0;
        proof {
            assert(ls.skip(0) =~= ls);
            assert(matches_view(self.matches@) + spec_search_hits(ls, eff, ci, 1) =~= spec_search_hits(
                ls,
                eff,
                ci,
                1,
            ));
        }
        while i < lines.len()
            invariant
                i <= lines@.len(),
                lines@.len() + 1 <= u32::MAX,
                ls == lines@.map_values(|l: String| l@),
                eff == search.eff(),
                ci == search.ci(),
                spec_search_hits(ls, eff, ci, 1) == matches_view(self.matches@) + spec_search_hits(
                    ls.skip(i as int),
                    eff,
                    ci,
                    i + 1,
                ),
            decreases lines@.len() - i,
        {
            let ghost before = self.matches@;
            let line = &lines[i];
            let spans = search.find_spans(line.as_str().as_bytes());
            proof {
                assert(ls.skip(i as int)[0] == ls[i as int]);
                assert(ls.skip(i as int).drop_first() =~= ls.skip(i + 1));
                assert(ls[i as int] == lines@[i as int]@);
            }
            if spans.len() > 0 {
                self.matches.push(Match { line_nr: (i + 1) as u32, content: line.clone() });
                proof {
                    assert(matches_view(self.matches@) =~= matches_view(before) + seq![
                        ((i + 1) as int, ls[i as int]),
                    ]);
                }
            }
            i = i + 1;
        }
        proof {
            assert(ls.skip(ls.len() as int) =~= Seq::<Seq<char>>::empty());
            assert(matches_view(self.matches@) + Seq::<(int, Seq<char>)>::empty() =~= matches_view(
                self.matches@,
            ));
        }
        self.matches.len() > 0
    }
}

} // verus!
