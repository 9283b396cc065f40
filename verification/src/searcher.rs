//! The match index: a full-stream regular-expression scan and the
//! arithmetic over its results.
//!
//! The regex engine is a black box: a pattern either compiles into a
//! matcher or does not, and a matcher maps a byte haystack to an ordered
//! list of non-overlapping spans.  Both steps go through trusted wrappers
//! around the `grep` crates; everything after — dropping empty matches,
//! capping the list, match navigation, highlight offsets — is verified.

use crate::error::Error;
use crate::reader::{BiBufReader, InputReader};
use grep::matcher::Matcher;
use vstd::prelude::*;

verus! {

/// Ceiling on collected matches and on highlighted bytes, for bounded
/// memory on huge streams.
pub const MATCH_CAP: usize = 3000;

#[verifier::external_type_specification]
#[verifier::external_body]
pub struct ExRegexMatcher(grep::regex::RegexMatcher);

/// True when the pattern is accepted by the regex engine; compiling is a
/// function of the pattern alone.
pub uninterp spec fn regex_ok(pattern: Seq<char>) -> bool;

/// The spans the regex engine reports for a pattern over a haystack, in
/// the order reported; a function of pattern and haystack alone.
pub uninterp spec fn regex_spans(pattern: Seq<char>, hay: Seq<u8>) -> Seq<(usize, usize)>;

/// A compiled pattern: the engine's matcher together with the pattern text
/// it was built from.
pub struct Query {
    matcher: grep::regex::RegexMatcher,
    pattern: String,
}

/// Relies on grep_regex's `RegexMatcher::new`: whether a pattern compiles
/// depends on the pattern alone, and the returned matcher is determined by
/// it.
#[verifier::external_body]
fn compile_query(pattern: &str) -> (r: Option<Query>)
    ensures
        r is Some <==> regex_ok(pattern@),
        match r {
            Some(q) => q.pattern@ == pattern@,
            None => true,
        },
{
    match grep::regex::RegexMatcher::new(pattern) {
        Ok(m) => Some(Query { matcher: m, pattern: pattern.to_string() }),
        Err(_) => None,
    }
}

/// Relies on grep_matcher's `Matcher::find_iter`: it reports successive
/// non-overlapping matches of the compiled pattern over the haystack, in
/// order of position, each within bounds; the spans depend on the pattern
/// and haystack alone.
#[verifier::external_body]
fn find_spans(q: &Query, hay: &[u8]) -> (r: Vec<(usize, usize)>)
    ensures
        r@ == regex_spans(q.pattern@, hay@),
        forall|i: int| 0 <= i < r@.len() ==> (#[trigger] r@[i]).0 <= r@[i].1 <= hay@.len(),
        forall|i: int, j: int| 0 <= i < j < r@.len() ==> (#[trigger] r@[i]).0 <= (#[trigger] r@[j]).0,
{
    let mut out: Vec<(usize, usize)> = Vec::new();
    let _ = q.matcher.find_iter(hay, |m| {
        out.push((m.start(), m.end()));
        true
    });
    out
}

/// One recorded match: its span in the stream, in absolute byte offsets.
#[derive(Debug, Clone, Copy, PartialEq, Eq, Structural)]
pub struct MatchSpan {
    pub start: usize,
    pub end: usize,
}

/// The matches kept from the raw span list, from span `i` on with `count`
/// already kept: empty spans are dropped, and collection stops at the cap.
/// Each kept entry pairs the absolute offset of the match with its span.
pub open spec fn collect_matches(spans: Seq<(usize, usize)>, i: int, count: int) -> Seq<
    (u64, MatchSpan),
>
    decreases spans.len() - i,
{
    if i < 0 || i >= spans.len() || count >= MATCH_CAP as int {
        Seq::empty()
    } else {
        let s = spans[i].0;
        let e = spans[i].1;
        if s == e {
            collect_matches(spans, i + 1, count)
        } else {
            seq![(s as u64, MatchSpan { start: s, end: e })] + collect_matches(
                spans,
                i + 1,
                count + 1,
            )
        }
    }
}

/// The match list a search of `data` for `pattern` produces.
pub open spec fn match_list(pattern: Seq<char>, data: Seq<u8>) -> Seq<(u64, MatchSpan)> {
    collect_matches(regex_spans(pattern, data), 0, 0)
}

/// Every entry's offset names its span's start, the span is non-empty and
/// within the stream, and offsets never decrease.
pub open spec fn matches_wf(ms: Seq<(u64, MatchSpan)>, len: int) -> bool {
    &&& forall|i: int|
        0 <= i < ms.len() ==> {
            let (off, sp) = #[trigger] ms[i];
            &&& off == sp.start as u64
            &&& (sp.start as int) < sp.end as int <= len
        }
    &&& forall|i: int, j: int| 0 <= i < j < ms.len() ==> (#[trigger] ms[i]).0 <= (#[trigger] ms[j]).0
}

/// Scans `data` for `pattern` and returns the capped list of non-empty
/// matches in position order, or `SearchError` exactly when the pattern
/// does not compile.
pub fn search_data(data: &[u8], pattern: &str) -> (r: Result<Vec<(u64, MatchSpan)>, Error>)
    ensures
        r is Ok <==> regex_ok(pattern@),
        match r {
            Ok(ms) => ms@ == match_list(pattern@, data@) && matches_wf(ms@, data@.len() as int)
                && ms@.len() <= MATCH_CAP as int,
            Err(e) => e == Error::SearchError,
        },
{
    let q = match compile_query(pattern) {
        Some(q) => q,
        None => {
            return Err(Error::SearchError);
        },
    };
    let spans = find_spans(&q, data);
    let n = spans.len();
    let mut out: Vec<(u64, MatchSpan)> = Vec::new();
    let mut i: usize = 0;
    while i < n && out.len() < MATCH_CAP
        invariant
            n == spans@.len(),
            i <= n,
            spans@ == regex_spans(pattern@, data@),
            forall|a: int| 0 <= a < n ==> (#[trigger] spans@[a]).0 <= spans@[a].1 <= data@.len(),
            forall|a: int, b: int|
                0 <= a < b < n ==> (#[trigger] spans@[a]).0 <= (#[trigger] spans@[b]).0,
            out@.len() <= MATCH_CAP as int,
            match_list(pattern@, data@) == out@ + collect_matches(
                spans@,
                i as int,
                out@.len() as int,
            ),
            forall|a: int|
                0 <= a < out@.len() ==> {
                    let (off, sp) = #[trigger] out@[a];
                    &&& off == sp.start as u64
                    &&& (sp.start as int) < sp.end as int <= data@.len()
                },
            forall|a: int, b: int|
                0 <= a < b < out@.len() ==> (#[trigger] out@[a]).0 <= (#[trigger] out@[b]).0,
            forall|a: int, j: int|
                0 <= a < out@.len() && i <= j < n ==> (#[trigger] out@[a]).0 <= (
                #[trigger] spans@[j]).0 as u64,
        decreases n - i,
    {
        let (s, e) = spans[i];
        if s != e {
            let ghost old_out = out@;
            out.push((s as u64, MatchSpan { start: s, end: e }));
            proof {
                assert(collect_matches(spans@, i as int, old_out.len() as int) == seq![
                    (s as u64, MatchSpan { start: s, end: e }),
                ] + collect_matches(spans@, i as int + 1, old_out.len() as int + 1));
                assert(old_out + collect_matches(spans@, i as int, old_out.len() as int) =~= out@
                    + collect_matches(spans@, i as int + 1, out@.len() as int));
            }
        } else {
            proof {
                assert(collect_matches(spans@, i as int, out@.len() as int) == collect_matches(
                    spans@,
                    i as int + 1,
                    out@.len() as int,
                ));
            }
        }
        i = i + 1;
    }
    proof {
        assert(collect_matches(spans@, i as int, out@.len() as int) =~= Seq::empty());
        assert(match_list(pattern@, data@) =~= out@);
    }
    Ok(out)
}

impl InputReader {
    /// Scans the whole current source for the pattern, appending every
    /// match found; a pattern that does not compile leaves the list
    /// untouched.  The reader itself is not moved.
    pub fn search(&mut self, matches: &mut Vec<(u64, MatchSpan)>, pattern: &str)
        requires
            old(self).wf(),
        ensures
            *final(self) == *old(self),
            final(self).wf(),
            regex_ok(pattern@) ==> final(matches)@ == old(matches)@ + match_list(
                pattern@,
                old(self).bytes(),
            ),
            regex_ok(pattern@) ==> matches_wf(
                match_list(pattern@, old(self).bytes()),
                old(self).bytes().len() as int,
            ),
            !regex_ok(pattern@) ==> final(matches)@ == old(matches)@,
    {
        let data = self.cur_data();
        match search_data(data.as_slice(), pattern) {
            Ok(mut ms) => {
                matches.append(&mut ms);
            },
            Err(_) => (),
        }
    }
}

impl BiBufReader {
    /// Searches the whole current source from its start; the cursor stays
    /// where it was.
    pub fn search(&mut self, matches: &mut Vec<(u64, MatchSpan)>, pattern: &str)
        requires
            old(self).wf(),
        ensures
            *final(self) == *old(self),
            final(self).wf(),
            regex_ok(pattern@) ==> final(matches)@ == old(matches)@ + match_list(
                pattern@,
                old(self).bytes(),
            ),
            regex_ok(pattern@) ==> matches_wf(
                match_list(pattern@, old(self).bytes()),
                old(self).bytes().len() as int,
            ),
            !regex_ok(pattern@) ==> final(matches)@ == old(matches)@,
    {
        let data = self.cur_data();
        match search_data(data.as_slice(), pattern) {
            Ok(mut ms) => {
                matches.append(&mut ms);
            },
            Err(_) => (),
        }
    }
}

/// The page-relative offsets of every byte a visible match covers, from
/// match `i` on with `acc` offsets already emitted: matches starting
/// before the page are skipped, each other match contributes the range of
/// its bytes, and after the cap is exceeded no further match is taken.
pub open spec fn hl_offsets(start: int, ms: Seq<(u64, MatchSpan)>, i: int, acc: int) -> Seq<u64>
    decreases ms.len() - i,
{
    if i < 0 || i >= ms.len() {
        Seq::empty()
    } else {
        let sp = ms[i].1;
        if (sp.start as int) < start {
            hl_offsets(start, ms, i + 1, acc)
        } else {
            let rng = Seq::new(
                (sp.end - sp.start) as nat,
                |j: int| (sp.start - start + j) as u64,
            );
            if acc + rng.len() > MATCH_CAP as int {
                rng
            } else {
                rng + hl_offsets(start, ms, i + 1, acc + rng.len())
            }
        }
    }
}

/// The page-relative byte offsets to highlight for a page starting at
/// `start`, capped.
pub fn search_offsets(start: u64, matches: &Vec<(u64, MatchSpan)>) -> (r: Vec<u64>)
    requires
        forall|i: int|
            0 <= i < matches@.len() ==> {
                let (off, sp) = #[trigger] matches@[i];
                off == sp.start as u64 && sp.start <= sp.end
            },
    ensures
        r@ == hl_offsets(start as int, matches@, 0, 0),
{
    let mut res: Vec<u64> = Vec::new();
    let n = matches.len();
    let mut i: usize = 0;
    while i < n
        invariant
            n == matches@.len(),
            i <= n,
            forall|a: int|
                0 <= a < n ==> {
                    let (off, sp) = #[trigger] matches@[a];
                    off == sp.start as u64 && sp.start <= sp.end
                },
            hl_offsets(start as int, matches@, 0, 0) == res@ + hl_offsets(
                start as int,
                matches@,
                i as int,
                res@.len() as int,
            ),
        decreases n - i,
    {
        let (_, sp) = matches[i];
        if (sp.start as u64) < start {
            proof {
                assert(hl_offsets(start as int, matches@, i as int, res@.len() as int)
                    == hl_offsets(start as int, matches@, i as int + 1, res@.len() as int));
            }
            i = i + 1;
            continue ;
        }
        let s_rel: u64 = sp.start as u64 - start;
        let m_len: usize = sp.end - sp.start;
        let ghost rng = Seq::new(
            (sp.end - sp.start) as nat,
            |j: int| (sp.start as int - start as int + j) as u64,
        );
        let ghost res0 = res@;
        let mut j: usize = 0;
        while j < m_len
            invariant
                m_len == rng.len(),
                j <= m_len,
                s_rel as int == sp.start as int - start as int,
                s_rel + m_len as u64 <= u64::MAX,
                rng == Seq::new(
                    (sp.end - sp.start) as nat,
                    |jj: int| (sp.start as int - start as int + jj) as u64,
                ),
                res@ == res0 + rng.take(j as int),
            decreases m_len - j,
        {
            res.push(s_rel + j as u64);
            proof {
                assert(rng.take(j as int).push(rng[j as int]) =~= rng.take(j + 1));
                assert(res0 + rng.take(j as int).push(rng[j as int]) =~= (res0 + rng.take(
                    j as int,
                )).push(rng[j as int]));
            }
            j = j + 1;
        }
        proof {
            assert(rng.take(m_len as int) =~= rng);
            assert(res@ =~= res0 + rng);
        }
        if res.len() > MATCH_CAP {
            proof {
                assert(hl_offsets(start as int, matches@, i as int, res0.len() as int) == rng);
                assert(hl_offsets(start as int, matches@, 0, 0) =~= res@);
            }
            return res;
        }
        proof {
            assert(hl_offsets(start as int, matches@, i as int, res0.len() as int) == rng
                + hl_offsets(start as int, matches@, i as int + 1, res0.len() + rng.len() as int));
            assert(res0 + (rng + hl_offsets(
                start as int,
                matches@,
                i as int + 1,
                res@.len() as int,
            )) =~= res@ + hl_offsets(start as int, matches@, i as int + 1, res@.len() as int));
        }
        i = i + 1;
    }
    proof {
        assert(hl_offsets(start as int, matches@, 0, 0) =~= res@);
    }
    res
}

} // verus!
