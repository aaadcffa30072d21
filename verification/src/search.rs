//! The pattern compiler and the replacement-template compiler.
//!
//! A `Search` couples a compiled byte-oriented matcher with the pattern text
//! and the flags it was built from; the matcher itself comes from the `regex`
//! crate and is reached only through the trusted wrappers below. A `Replace`
//! is the compiled form of a replacement string: an ordered list of
//! instructions, each a capture-group selector (or the no-group sentinel)
//! followed by a literal suffix.

use crate::line::{spans_disjoint, spans_within, Span};
use crate::util::{ErrorKind, MyError};
use regex::bytes::Regex;
use vstd::prelude::*;
use vstd::string::StrSliceExecFns;
use vstd::string::StringExecFns;

verus! {

#[verifier::external_type_specification]
#[verifier::external_body]
pub struct ExRegex(Regex);

/// Whether `pattern` compiles as a byte-oriented expression with the given
/// case-insensitivity; what the regex crate's builder decides.
pub uninterp spec fn regex_compiles(pattern: Seq<char>, case_insensitive: bool) -> bool;

/// The successive non-overlapping match spans that the compiled form of
/// `pattern` yields over `hay`, in ascending order.
pub uninterp spec fn regex_find(pattern: Seq<char>, case_insensitive: bool, hay: Seq<u8>) -> Seq<Span>;

/// The bytes of capture group `group` in the first match of the compiled form
/// of `pattern` over `hay`; `None` when `hay` has no match, the group did not
/// participate in it, or the index is out of range.
pub uninterp spec fn regex_capture(
    pattern: Seq<char>,
    case_insensitive: bool,
    hay: Seq<u8>,
    group: int,
) -> Option<Seq<u8>>;

/// The pattern as handed to the regex builder: wrapped with word-boundary
/// anchors when asked, unchanged otherwise.
pub open spec fn effective_pattern(p: Seq<char>, word_boundary: bool) -> Seq<char> {
    if word_boundary {
        "\\b"@ + p + "\\b"@
    } else {
        p
    }
}

/// Relies on regex::bytes::RegexBuilder (new, case_insensitive, build): the
/// builder returns a matcher exactly when `pattern` is a valid expression.
#[verifier::external_body]
fn build_regex(pattern: &str, case_insensitive: bool) -> (r: Option<Regex>)
    ensures
        r is Some <==> regex_compiles(pattern@, case_insensitive),
{
    regex::bytes::RegexBuilder::new(pattern).case_insensitive(case_insensitive).build().ok()
}

/// A compiled search pattern together with the inputs it was built from.
///
/// The fields are private and `new` is the only way to build a value, so
/// the matcher always is the compiled form of the stored pattern and flags;
/// the contracts of the trusted wrappers below rely on that.
pub struct Search {
    regex: Regex,
    pattern: String,
    word_boundary: bool,
    case_sensitive: bool,
}

impl Search {
    /// The pattern text the search was built from, before boundary wrapping.
    pub closed spec fn spec_pattern(&self) -> Seq<char> {
        self.pattern@
    }

    pub closed spec fn spec_word_boundary(&self) -> bool {
        self.word_boundary
    }

    pub closed spec fn spec_case_sensitive(&self) -> bool {
        self.case_sensitive
    }

    /// The pattern as compiled, with boundary wrapping applied.
    pub open spec fn eff(&self) -> Seq<char> {
        effective_pattern(self.spec_pattern(), self.spec_word_boundary())
    }

    /// Case-insensitivity flag as handed to the builder.
    pub open spec fn ci(&self) -> bool {
        !self.spec_case_sensitive()
    }

    /// Compile `pattern`, wrapped with word-boundary anchors when asked and
    /// honoring case sensitivity; fails with `InvalidPattern` exactly when
    /// the (possibly wrapped) expression is not a valid one.
    pub fn new(pattern: &str, word_boundary: bool, case_sensitive: bool) -> (r: Result<
        Search,
        MyError,
    >)
        ensures
            r is Ok <==> regex_compiles(
                effective_pattern(pattern@, word_boundary),
                !case_sensitive,
            ),
            r matches Ok(s) ==> s.spec_pattern() == pattern@ && s.spec_word_boundary()
                == word_boundary && s.spec_case_sensitive() == case_sensitive,
            r matches Err(e) ==> e.kind == ErrorKind::InvalidPattern,
    {
        let mut eff = String::from_str(pattern);
        if word_boundary {
            let mut s = String::from_str("\\b");
            s.append(pattern);
            s.append("\\b");
            eff = s;
        }
        match build_regex(eff.as_str(), !case_sensitive) {
            Some(regex) => Ok(
                Search { regex, pattern: pattern.to_owned(), word_boundary, case_sensitive },
            ),
            None => {
                let mut descr = String::from_str("Pattern \"");
                descr.append(pattern);
                descr.append("\" is not a valid regex");
                Err(MyError::with_kind(ErrorKind::InvalidPattern, descr.as_str()))
            },
        }
    }

    /// Relies on regex::bytes::Regex::find_iter: it yields the successive
    /// non-overlapping matches of the haystack, ascending, each within it.
    #[verifier::external_body]
    pub(crate) fn find_spans(&self, hay: &[u8]) -> (r: Vec<Span>)
        ensures
            r@ == regex_find(self.eff(), self.ci(), hay@),
            spans_within(r@, hay@.len() as int),
            spans_disjoint(r@),
    {
        let mut v = Vec::new();
        for m in self.regex.find_iter(hay) {
            v.push(Span { start: m.start(), end: m.end() });
        }
        v
    }

    /// Relies on regex::bytes::Regex::captures and Captures::get: the bytes
    /// of capture group `group` in the first match of the haystack, or `None`
    /// when the haystack has no match, the group did not participate in that
    /// match, or the index is out of range.
    #[verifier::external_body]
    pub(crate) fn capture_group(&self, hay: &[u8], group: usize) -> (r: Option<Vec<u8>>)
        ensures
            match r {
                Some(v) => regex_capture(self.eff(), self.ci(), hay@, group as int) == Some(v@),
                None => regex_capture(self.eff(), self.ci(), hay@, group as int) is None,
            },
    {
        match self.regex.captures(hay) {
            None => None,
            Some(caps) => caps.get(group).map(|m| m.as_bytes().to_vec()),
        }
    }
}

/// Compile `pattern` into a bare matcher, wrapped with word-boundary anchors
/// when asked; fails with `InvalidPattern` exactly when the (possibly
/// wrapped) expression is not a valid one.
pub fn create_regex(pattern: &str, word_boundary: bool, case_sensitive: bool) -> (r: Result<
    Regex,
    MyError,
>)
    ensures
        r is Ok <==> regex_compiles(effective_pattern(pattern@, word_boundary), !case_sensitive),
        r matches Err(e) ==> e.kind == ErrorKind::InvalidPattern,
{
    match Search::new(pattern, word_boundary, case_sensitive) {
        Ok(s) => Ok(s.into_regex()),
        Err(e) => Err(e),
    }
}

impl Search {
    /// Hand out the bare compiled matcher.
    pub fn into_regex(self) -> Regex {
        self.regex
    }
}

/// A decimal digit character.
pub open spec fn is_digit_char(c: char) -> bool {
    48 <= c as u32 <= 57
}

/// The numeric value of a decimal digit character.
pub open spec fn digit_val(c: char) -> int {
    c as u32 - 48
}

/// `m` occurs in `s` at position `i`.
pub open spec fn starts_with_at(s: Seq<char>, i: int, m: Seq<char>) -> bool {
    0 <= i && i + m.len() <= s.len() && s.subrange(i, i + m.len() as int) == m
}

/// The position of the first occurrence of `m` in `s` at or after `from`.
pub open spec fn spec_find(s: Seq<char>, m: Seq<char>, from: int) -> Option<int>
    decreases s.len() - from,
{
    if m.len() == 0 || from < 0 || from + m.len() > s.len() {
        None
    } else if starts_with_at(s, from, m) {
        Some(from)
    } else {
        spec_find(s, m, from + 1)
    }
}

proof fn lemma_find_bounds(s: Seq<char>, m: Seq<char>, from: int, j: int)
    requires
        spec_find(s, m, from) == Some(j),
    ensures
        from <= j,
        starts_with_at(s, j, m),
    decreases s.len() - from,
{
    if !(m.len() == 0 || from < 0 || from + m.len() > s.len()) && !starts_with_at(s, from, m) {
        lemma_find_bounds(s, m, from + 1, j);
    }
}

/// The instruction list that compiling replacement text `s` against marker
/// `m` yields: at each step, a leading marker selects a capture group (the
/// following digit, or group 1 when none follows), no leading marker selects
/// the no-group sentinel, and the literal suffix runs to the next marker
/// occurrence or to the end.
pub open spec fn spec_template_parts(s: Seq<char>, m: Seq<char>) -> Seq<(int, Seq<char>)>
    decreases s.len(),
    via spec_template_parts_decreases
{
    if m.len() == 0 || s.len() == 0 {
        Seq::empty()
    } else if starts_with_at(s, 0, m) {
        let rest = s.skip(m.len() as int);
        let ix: int = if rest.len() > 0 && is_digit_char(rest[0]) {
            digit_val(rest[0])
        } else {
            1
        };
        let rest2 = if rest.len() > 0 && is_digit_char(rest[0]) {
            rest.drop_first()
        } else {
            rest
        };
        let lit_end = match spec_find(rest2, m, 0) {
            Some(j) => j,
            None => rest2.len() as int,
        };
        seq![(ix, rest2.take(lit_end))] + spec_template_parts(rest2.skip(lit_end), m)
    } else {
        let lit_end = match spec_find(s, m, 0) {
            Some(j) => j,
            None => s.len() as int,
        };
        seq![(-1int, s.take(lit_end))] + spec_template_parts(s.skip(lit_end), m)
    }
}

proof fn lemma_starts_with_shift(s: Seq<char>, d: int, i: int, m: Seq<char>)
    requires
        0 <= d <= s.len(),
        0 <= i,
    ensures
        starts_with_at(s.skip(d), i, m) == starts_with_at(s, d + i, m),
{
    if i + m.len() <= s.len() - d {
        assert(s.skip(d).subrange(i, i + m.len() as int) =~= s.subrange(
            d + i,
            d + i + m.len() as int,
        ));
    }
}

proof fn lemma_find_shift(s: Seq<char>, m: Seq<char>, d: int, from: int)
    requires
        0 <= d <= s.len(),
        0 <= from,
    ensures
        spec_find(s.skip(d), m, from) == match spec_find(s, m, from + d) {
            Some(j) => Some(j - d),
            None => None::<int>,
        },
    decreases s.len() - d - from,
{
    lemma_starts_with_shift(s, d, from, m);
    if !(m.len() == 0 || from + m.len() > s.len() - d) && !starts_with_at(s.skip(d), from, m) {
        lemma_find_shift(s, m, d, from + 1);
    }
}

#[via_fn]
proof fn spec_template_parts_decreases(s: Seq<char>, m: Seq<char>) {
    if !(m.len() == 0 || s.len() == 0) {
        if starts_with_at(s, 0, m) {
            let rest = s.skip(m.len() as int);
            let rest2 = if rest.len() > 0 && is_digit_char(rest[0]) {
                rest.drop_first()
            } else {
                rest
            };
            match spec_find(rest2, m, 0) {
                Some(j) => {
                    lemma_find_bounds(rest2, m, 0, j);
                    assert(rest2.skip(j).len() < s.len());
                },
                None => {
                    assert(rest2.skip(rest2.len() as int).len() == 0);
                },
            }
        } else {
            match spec_find(s, m, 0) {
                Some(j) => {
                    lemma_find_bounds(s, m, 0, j);
                    assert(j != 0);
                    assert(s.skip(j).len() < s.len());
                },
                None => {
                    assert(s.skip(s.len() as int).len() == 0);
                },
            }
        }
    }
}

/// The numeric value of `c` when it is a decimal digit.
fn digit_value(c: char) -> (r: Option<i32>)
    ensures
        match r {
            Some(d) => is_digit_char(c) && d as int == digit_val(c),
            None => !is_digit_char(c),
        },
{
    match c {
        '0' => Some(0),
        '1' => Some(1),
        '2' => Some(2),
        '3' => Some(3),
        '4' => Some(4),
        '5' => Some(5),
        '6' => Some(6),
        '7' => Some(7),
        '8' => Some(8),
        '9' => Some(9),
        _ => None,
    }
}

/// Whether `m` occurs in `s` at character position `i`.
fn starts_with_marker(s: &str, i: usize, m: &str) -> (r: bool)
    requires
        i <= s@.len(),
    ensures
        r == starts_with_at(s@, i as int, m@),
{
    let sl = s.unicode_len();
    let ml = m.unicode_len();
    if ml > sl - i {
        return false;
    }
    let mut k: usize = 0;
    while k < ml
        invariant
            i + ml <= sl,
            sl == s@.len(),
            ml == m@.len(),
            k <= ml,
            forall|t: int| 0 <= t < k ==> s@[i + t] == m@[t],
        decreases ml - k,
    {
        if s.get_char(i + k) != m.get_char(k) {
            proof {
                assert(s@[i + k] != m@[k as int]);
                if starts_with_at(s@, i as int, m@) {
                    assert(s@.subrange(i as int, i + ml as int)[k as int] == s@[i + k]);
                }
            }
            return false;
        }
        k = k + 1;
    }
    proof {
        assert(s@.subrange(i as int, i + ml as int) =~= m@);
    }
    true
}

/// The character position of the first occurrence of `m` in `s` at or after
/// `from`, if any.
fn find_marker(s: &str, from: usize, m: &str) -> (r: Option<usize>)
    requires
        from <= s@.len(),
    ensures
        match r {
            Some(j) => spec_find(s@, m@, from as int) == Some(j as int),
            None => spec_find(s@, m@, from as int) is None,
        },
{
    let sl = s.unicode_len();
    let ml = m.unicode_len();
    if ml == 0 || ml > sl - from {
        return None;
    }
    let mut j: usize = from;
    while j <= sl - ml
        invariant
            from <= j,
            j <= sl,
            sl == s@.len(),
            ml == m@.len(),
            ml >= 1,
            ml <= sl,
            spec_find(s@, m@, from as int) == spec_find(s@, m@, j as int),
        decreases sl - j,
    {
        if starts_with_marker(s, j, m) {
            return Some(j);
        }
        j = j + 1;
    }
    None
}

/// A compiled replacement template: the replacement text, the marker it was
/// compiled against, and the ordered instruction list. Each instruction is a
/// capture-group index (or `-1`, the no-group sentinel) followed by a
/// literal suffix.
pub struct Replace {
    pub repl: String,
    pub prefix: Option<String>,
    pub parts: Vec<(i32, String)>,
}

/// The instruction list as the mathematical pairs it stands for.
pub open spec fn parts_view(ps: Seq<(i32, String)>) -> Seq<(int, Seq<char>)> {
    ps.map_values(|p: (i32, String)| (p.0 as int, p.1@))
}

impl Replace {
    /// The instruction list as the mathematical pairs it stands for.
    pub open spec fn spec_parts(&self) -> Seq<(int, Seq<char>)> {
        parts_view(self.parts@)
    }

    /// Compile replacement text `repl` against an optional marker. With no
    /// marker the whole text is a single literal instruction; with a marker
    /// the text is parsed left to right as `spec_template_parts` states.
    pub fn new(repl: &str, prefix_opt: &Option<String>) -> (r: Replace)
        requires
            prefix_opt matches Some(p) ==> p@.len() > 0,
        ensures
            r.repl@ == repl@,
            match prefix_opt {
                None => r.prefix is None && r.spec_parts() =~= seq![(-1int, repl@)],
                Some(p) => r.prefix matches Some(q) && q@ == p@ && r.spec_parts()
                    == spec_template_parts(repl@, p@),
            },
    {
        match prefix_opt {
            None => {
                let mut parts: Vec<(i32, String)> = Vec::new();
                parts.push((-1, repl.to_owned()));
                Replace { repl: repl.to_owned(), prefix: None, parts }
            },
            Some(prefix) => {
                let mut parts: Vec<(i32, String)> = Vec::new();
                let n = repl.unicode_len();
                let ml = prefix.unicode_len();
                let mut pos: usize = 0;
                proof {
                    assert(repl@.skip(0) =~= repl@);
                    assert(parts_view(parts@) + spec_template_parts(repl@, prefix@)
                        =~= spec_template_parts(repl@, prefix@));
                }
                while pos < n
                    invariant
                        pos <= n,
                        n == repl@.len(),
                        ml == prefix@.len(),
                        ml >= 1,
                        spec_template_parts(repl@, prefix@) == parts_view(parts@)
                            + spec_template_parts(repl@.skip(pos as int), prefix@),
                    decreases n - pos,
                {
                    let ghost s = repl@.skip(pos as int);
                    let mut ix: i32 = -1;
                    let mut cur: usize = pos;
                    proof {
                        lemma_starts_with_shift(repl@, pos as int, 0, prefix@);
                    }
                    if starts_with_marker(repl, pos, prefix) {
                        cur = pos + ml;
                        proof {
                            assert(s.skip(ml as int) =~= repl@.skip(cur as int));
                        }
                        if cur == n {
                            ix = 1;
                        } else {
                            let c = repl.get_char(cur);
                            proof {
                                assert(repl@.skip(cur as int)[0] == repl@[cur as int]);
                            }
                            match digit_value(c) {
                                Some(d) => {
                                    ix = d;
                                    proof {
                                        assert(repl@.skip(cur as int).drop_first() =~= repl@.skip(
                                            cur + 1,
                                        ));
                                    }
                                    cur = cur + 1;
                                },
                                None => {
                                    ix = 1;
                                },
                            }
                        }
                    }
                    // The remainder after the (possibly consumed) marker and
                    // digit; the literal suffix runs to the next marker.
                    let ghost rest2 = repl@.skip(cur as int);
                    let lit_end: usize = match find_marker(repl, cur, prefix) {
                        Some(j) => j,
                        None => n,
                    };
                    proof {
                        lemma_find_shift(repl@, prefix@, cur as int, 0);
                        match spec_find(repl@, prefix@, cur as int) {
                            Some(jj) => lemma_find_bounds(repl@, prefix@, cur as int, jj),
                            None => (),
                        }
                    }
                    let part = repl.substring_char(cur, lit_end).to_owned();
                    parts.push((ix, part));
                    proof {
                        assert(rest2.take(lit_end - cur) =~= repl@.subrange(
                            cur as int,
                            lit_end as int,
                        ));
                        assert(rest2.skip(lit_end - cur) =~= repl@.skip(lit_end as int));
                        assert(parts_view(parts@) =~= parts_view(parts@.drop_last()) + seq![
                            (ix as int, repl@.subrange(cur as int, lit_end as int)),
                        ]);
                        assert(spec_template_parts(s, prefix@) == seq![
                            (ix as int, rest2.take(lit_end - cur)),
                        ] + spec_template_parts(rest2.skip(lit_end - cur), prefix@));
                        assert(spec_template_parts(repl@, prefix@) == parts_view(parts@)
                            + spec_template_parts(repl@.skip(lit_end as int), prefix@));
                    }
                    pos = lit_end;
                }
                proof {
                    assert(repl@.skip(n as int) =~= Seq::<char>::empty());
                    assert(spec_template_parts(repl@.skip(pos as int), prefix@)
                        =~= Seq::<(int, Seq<char>)>::empty());
                }
                Replace { repl: repl.to_owned(), prefix: Some(prefix.clone()), parts }
            },
        }
    }
}

} // verus!
