//! Wrap arithmetic over grapheme clusters.
//!
//! A *break* is either a literal line terminator (`\n`, or `\r\n` as one
//! unit) or, when a wrap width is given, the point where a line has filled
//! that many columns.  These functions find the byte offset just past the
//! n-th break, counted from the start or from the end of a buffer, which is
//! how the navigator moves by logical lines.
//!
//! Cluster boundaries come from the `unicode_segmentation` crate through one
//! trusted wrapper; everything computed from them is verified.

use crate::utf8_validation::run_utf8_validation;
use unicode_segmentation::UnicodeSegmentation;
use vstd::prelude::*;
use vstd::slice::{slice_index_get, slice_subrange, slice_to_vec};
use vstd::utf8::valid_utf8;

verus! {

/// The byte offsets at which the extended grapheme clusters of a valid
/// UTF-8 buffer start, in increasing order.
pub uninterp spec fn grapheme_starts(s: Seq<u8>) -> Seq<usize>;

/// Relies on unicode_segmentation's `grapheme_indices` (extended grapheme
/// clusters): the cluster start offsets depend on the bytes alone, partition
/// the text, begin at offset zero, and increase strictly.
#[verifier::external_body]
fn grapheme_boundaries(buf: &[u8]) -> (r: Vec<usize>)
    requires
        valid_utf8(buf@),
    ensures
        r@ == grapheme_starts(buf@),
        buf@.len() == 0 ==> r@.len() == 0,
        buf@.len() > 0 ==> r@.len() > 0 && r@[0] == 0,
        forall|i: int, j: int| 0 <= i < j < r@.len() ==> r@[i] < r@[j],
        forall|i: int| 0 <= i < r@.len() ==> r@[i] < buf@.len(),
{
    let text = core::str::from_utf8(buf).unwrap();
    let mut out: Vec<usize> = Vec::new();
    for (off, _) in UnicodeSegmentation::grapheme_indices(text, true) {
        out.push(off);
    }
    out
}

/// True of the byte content of a single grapheme cluster that counts as a
/// line terminator: a bare line feed, or a carriage return plus line feed.
pub open spec fn is_newline_bytes(g: Seq<u8>) -> bool {
    (g.len() == 1 && g[0] == 0x0A) || (g.len() == 2 && g[0] == 0x0D && g[1] == 0x0A)
}

/// End offset of cluster `i`: the next cluster's start, or the buffer end
/// for the last cluster.
pub open spec fn seg_end(cuts: Seq<usize>, len: int, i: int) -> int {
    if i + 1 < cuts.len() {
        cuts[i + 1] as int
    } else {
        len
    }
}

/// True when cluster `i` of `s` is a line terminator.
pub open spec fn seg_is_newline(s: Seq<u8>, cuts: Seq<usize>, i: int) -> bool {
    is_newline_bytes(s.subrange(cuts[i] as int, seg_end(cuts, s.len() as int, i)))
}

/// True when a line that now holds `newcol` columns has reached the wrap
/// width, if one is set.
pub open spec fn wrap_break(w: Option<int>, newcol: int) -> bool {
    match w {
        Some(ww) => newcol >= ww,
        None => false,
    }
}

/// The end offsets of every break in `s` from cluster `i` on, with `col`
/// columns already used on the current line.  A cluster that is a line
/// terminator or that fills the wrap width ends a line and resets the
/// column count; terminator and width count as one break when they meet on
/// the same cluster.
pub open spec fn break_ends_from(
    s: Seq<u8>,
    cuts: Seq<usize>,
    w: Option<int>,
    i: int,
    col: int,
) -> Seq<int>
    decreases cuts.len() - i,
{
    if i < 0 || i >= cuts.len() {
        Seq::empty()
    } else if seg_is_newline(s, cuts, i) || wrap_break(w, col + 1) {
        seq![seg_end(cuts, s.len() as int, i)] + break_ends_from(s, cuts, w, i + 1, 0)
    } else {
        break_ends_from(s, cuts, w, i + 1, col + 1)
    }
}

/// The end offsets of every break in `s`, in order.
pub open spec fn break_ends(s: Seq<u8>, cuts: Seq<usize>, w: Option<int>) -> Seq<int> {
    break_ends_from(s, cuts, w, 0, 0)
}

/// Offset just past the `n`-th break counted from the start; the end of the
/// buffer when fewer than `n` breaks exist.
pub open spec fn nth_forward_break(n: int, s: Seq<u8>, cuts: Seq<usize>, w: Option<int>) -> int {
    let bs = break_ends(s, cuts, w);
    if 1 <= n <= bs.len() {
        bs[n - 1]
    } else {
        s.len() as int
    }
}

/// Offset just past the `n`-th break counted from the end; the start of the
/// buffer when fewer than `n` breaks exist.
pub open spec fn nth_back_break(n: int, s: Seq<u8>, cuts: Seq<usize>, w: Option<int>) -> int {
    let bs = break_ends(s, cuts, w);
    if bs.len() < n {
        0
    } else {
        bs[bs.len() - n]
    }
}

/// The k-th break from the start and the (total − k + 1)-th break from the
/// end are the same offset: counting breaks forward and backward over one
/// text agrees.
pub proof fn lemma_forward_backward_breaks_agree(
    n: int,
    s: Seq<u8>,
    cuts: Seq<usize>,
    w: Option<int>,
)
    requires
        1 <= n <= break_ends(s, cuts, w).len(),
    ensures
        nth_forward_break(n, s, cuts, w) == nth_back_break(
            break_ends(s, cuts, w).len() - n + 1,
            s,
            cuts,
            w,
        ),
{
}

/// Every break end lies within the buffer.
proof fn lemma_break_ends_bounds(s: Seq<u8>, cuts: Seq<usize>, w: Option<int>, i: int, col: int)
    requires
        forall|a: int, b: int| 0 <= a < b < cuts.len() ==> cuts[a] < cuts[b],
        forall|k: int| 0 <= k < cuts.len() ==> (cuts[k] as int) < s.len(),
    ensures
        forall|k: int|
            0 <= k < break_ends_from(s, cuts, w, i, col).len() ==> 0 < #[trigger] break_ends_from(
                s,
                cuts,
                w,
                i,
                col,
            )[k] <= s.len(),
    decreases cuts.len() - i,
{
    if i < 0 || i >= cuts.len() {
    } else {
        let bs = break_ends_from(s, cuts, w, i, col);
        if seg_is_newline(s, cuts, i) || wrap_break(w, col + 1) {
            lemma_break_ends_bounds(s, cuts, w, i + 1, 0);
            assert(0 < seg_end(cuts, s.len() as int, i) <= s.len());
            assert forall|k: int| 0 <= k < bs.len() implies 0 < #[trigger] bs[k] <= s.len() by {
                if k > 0 {
                    assert(bs[k] == break_ends_from(s, cuts, w, i + 1, 0)[k - 1]);
                }
            }
        } else {
            lemma_break_ends_bounds(s, cuts, w, i + 1, col + 1);
            assert forall|k: int| 0 <= k < bs.len() implies 0 < #[trigger] bs[k] <= s.len() by {
                assert(bs[k] == break_ends_from(s, cuts, w, i + 1, col + 1)[k]);
            }
        }
    }
}

/// Two wrap widths of one column or less break at every cluster alike.
pub(crate) proof fn lemma_break_ends_small_width(
    s: Seq<u8>,
    cuts: Seq<usize>,
    w1: int,
    w2: int,
    i: int,
    col: int,
)
    requires
        w1 <= 1,
        w2 <= 1,
        col >= 0,
    ensures
        break_ends_from(s, cuts, Some(w1), i, col) == break_ends_from(s, cuts, Some(w2), i, col),
    decreases cuts.len() - i,
{
    if i < 0 || i >= cuts.len() {
    } else {
        lemma_break_ends_small_width(s, cuts, w1, w2, i + 1, 0);
    }
}

/// Collects the end offset of every break of `buf`, in order.
fn collect_break_ends(buf: &[u8], wrap: Option<usize>) -> (r: Vec<usize>)
    requires
        valid_utf8(buf@),
    ensures
        ({
            let bs = break_ends(buf@, grapheme_starts(buf@), opt_width(wrap));
            &&& r@.len() == bs.len()
            &&& forall|k: int| 0 <= k < bs.len() ==> r@[k] as int == bs[k]
        }),
        forall|a: int, b: int|
            0 <= a < b < grapheme_starts(buf@).len() ==> grapheme_starts(buf@)[a]
                < grapheme_starts(buf@)[b],
        forall|a: int|
            0 <= a < grapheme_starts(buf@).len() ==> (#[trigger] grapheme_starts(buf@)[a] as int)
                < buf@.len(),
{
    let cuts = grapheme_boundaries(buf);
    let len = buf.len();
    let m = cuts.len();
    let ghost s = buf@;
    let ghost cs = cuts@;
    let ghost ww = opt_width(wrap);
    let mut out: Vec<usize> = Vec::new();
    let mut i: usize = 0;
    let mut col: usize = 0;
    while i < m
        invariant
            valid_utf8(s),
            len == s.len(),
            len == buf@.len(),
            s == buf@,
            m == cs.len(),
            cuts@ == cs,
            cs == grapheme_starts(s),
            ww == opt_width(wrap),
            forall|a: int, b: int| 0 <= a < b < cs.len() ==> cs[a] < cs[b],
            forall|a: int| 0 <= a < cs.len() ==> (cs[a] as int) < len,
            i <= m,
            col <= i,
            break_ends(s, cs, ww) == out@.map_values(|x: usize| x as int) + break_ends_from(
                s,
                cs,
                ww,
                i as int,
                col as int,
            ),
        decreases m - i,
    {
        let start = cuts[i];
        let end = if i + 1 < m {
            cuts[i + 1]
        } else {
            len
        };
        let seg_len = end - start;
        let is_nl = if seg_len == 1 {
            *slice_index_get(buf, start) == 0x0A
        } else if seg_len == 2 {
            *slice_index_get(buf, start) == 0x0D && *slice_index_get(buf, start + 1) == 0x0A
        } else {
            false
        };
        proof {
            let seg = s.subrange(cs[i as int] as int, seg_end(cs, len as int, i as int));
            assert(seg.len() == seg_len);
            assert(seg_len >= 1 ==> seg[0] == s[start as int]);
            assert(seg_len >= 2 ==> seg[1] == s[start + 1]);
            assert(is_nl == seg_is_newline(s, cs, i as int));
        }
        let brk = is_nl || (match wrap {
            Some(w) => col + 1 >= w,
            None => false,
        });
        proof {
            assert(brk == (seg_is_newline(s, cs, i as int) || wrap_break(ww, col as int + 1)));
        }
        if brk {
            let ghost old_out = out@;
            out.push(end);
            proof {
                assert(break_ends_from(s, cs, ww, i as int, col as int) == seq![
                    seg_end(cs, len as int, i as int),
                ] + break_ends_from(s, cs, ww, i as int + 1, 0));
                assert(out@.map_values(|x: usize| x as int) =~= old_out.map_values(
                    |x: usize| x as int,
                ).push(end as int));
                assert(old_out.map_values(|x: usize| x as int) + (seq![
                    seg_end(cs, len as int, i as int),
                ] + break_ends_from(s, cs, ww, i as int + 1, 0)) =~= out@.map_values(
                    |x: usize| x as int,
                ) + break_ends_from(s, cs, ww, i as int + 1, 0));
            }
            col = 0;
        } else {
            proof {
                assert(break_ends_from(s, cs, ww, i as int, col as int) == break_ends_from(
                    s,
                    cs,
                    ww,
                    i as int + 1,
                    col as int + 1,
                ));
            }
            col = col + 1;
        }
        i = i + 1;
    }
    proof {
        assert(break_ends(s, cs, ww) =~= out@.map_values(|x: usize| x as int));
    }
    out
}

/// Spec view of an optional wrap width given as a machine integer.
pub open spec fn opt_width(w: Option<usize>) -> Option<int> {
    match w {
        Some(x) => Some(x as int),
        None => None,
    }
}

/// Offset just past the `n`-th break of `buf` counted from the start, or
/// the buffer end when fewer than `n` breaks exist.
pub(crate) fn forward_break_pos(n: usize, buf: &[u8], wrap: Option<usize>) -> (r: usize)
    requires
        valid_utf8(buf@),
        n >= 1,
    ensures
        r as int == nth_forward_break(n as int, buf@, grapheme_starts(buf@), opt_width(wrap)),
        r <= buf@.len(),
{
    let ends = collect_break_ends(buf, wrap);
    proof {
        lemma_break_ends_bounds(buf@, grapheme_starts(buf@), opt_width(wrap), 0, 0);
        assert(break_ends(buf@, grapheme_starts(buf@), opt_width(wrap)) == break_ends_from(
            buf@,
            grapheme_starts(buf@),
            opt_width(wrap),
            0,
            0,
        ));
    }
    if n <= ends.len() {
        ends[n - 1]
    } else {
        buf.len()
    }
}

/// Offset just past the `n`-th break of `buf` counted from the end, or the
/// buffer start when fewer than `n` breaks exist.
pub(crate) fn backward_break_pos(n: usize, buf: &[u8], wrap: Option<usize>) -> (r: usize)
    requires
        valid_utf8(buf@),
        n >= 1,
    ensures
        r as int == nth_back_break(n as int, buf@, grapheme_starts(buf@), opt_width(wrap)),
        r <= buf@.len(),
{
    let ends = collect_break_ends(buf, wrap);
    proof {
        lemma_break_ends_bounds(buf@, grapheme_starts(buf@), opt_width(wrap), 0, 0);
        assert(break_ends(buf@, grapheme_starts(buf@), opt_width(wrap)) == break_ends_from(
            buf@,
            grapheme_starts(buf@),
            opt_width(wrap),
            0,
            0,
        ));
    }
    if ends.len() < n {
        0
    } else {
        let idx = ends.len() - n;
        proof {
            let bs0 = break_ends_from(buf@, grapheme_starts(buf@), opt_width(wrap), 0, 0);
            assert(0 < bs0[idx as int] <= buf@.len());
        }
        ends[idx]
    }
}

/// Byte offset just past the `n`-th (wrap-aware) line break of `buf`,
/// scanning from the start; the end of the buffer when fewer breaks exist.
pub fn nth_newline_wrapped(n: usize, buf: &[u8], screen_width: usize) -> (r: usize)
    requires
        valid_utf8(buf@),
        n >= 1,
    ensures
        r as int == nth_forward_break(
            n as int,
            buf@,
            grapheme_starts(buf@),
            Some(screen_width as int),
        ),
        r <= buf@.len(),
{
    forward_break_pos(n, buf, Some(screen_width))
}

/// Byte offset just past the `n`-th (wrap-aware) line break of `buf`,
/// counted from the end; zero when fewer than `n` breaks exist.
pub fn nth_last_newline_wrapped(n: usize, buf: &[u8], screen_width: usize) -> (r: usize)
    requires
        valid_utf8(buf@),
        n >= 1,
    ensures
        r as int == nth_back_break(
            n as int,
            buf@,
            grapheme_starts(buf@),
            Some(screen_width as int),
        ),
        r <= buf@.len(),
{
    backward_break_pos(n, buf, Some(screen_width))
}

/// Byte offset just past the second-to-last (wrap-aware) line break.
pub fn snd_last_newline_wrapped(buf: &[u8], screen_width: usize) -> (r: usize)
    requires
        valid_utf8(buf@),
    ensures
        r as int == nth_back_break(2, buf@, grapheme_starts(buf@), Some(screen_width as int)),
        r <= buf@.len(),
{
    nth_last_newline_wrapped(2, buf, screen_width)
}

/// Offset just past the last literal line terminator of `buf`, or `None`
/// when the buffer holds none.
pub fn last_newline_offset(buf: &[u8]) -> (r: Option<usize>)
    requires
        valid_utf8(buf@),
    ensures
        ({
            let bs = break_ends(buf@, grapheme_starts(buf@), None);
            match r {
                Some(k) => bs.len() > 0 && k as int == bs.last(),
                None => bs.len() == 0,
            }
        }),
{
    let ends = collect_break_ends(buf, None);
    if ends.len() == 0 {
        None
    } else {
        Some(ends[ends.len() - 1])
    }
}

/// Number of grapheme clusters in `buf`.
pub fn grapheme_count(buf: &[u8]) -> (r: usize)
    requires
        valid_utf8(buf@),
    ensures
        r == grapheme_starts(buf@).len(),
{
    let cuts = grapheme_boundaries(buf);
    cuts.len()
}

/// Byte offset at which the `n`-th grapheme cluster (counted from zero)
/// starts, or `None` past the last cluster.
pub fn nth_grapheme_offset(buf: &[u8], n: usize) -> (r: Option<usize>)
    requires
        valid_utf8(buf@),
    ensures
        ({
            let cuts = grapheme_starts(buf@);
            match r {
                Some(k) => n < cuts.len() && k == cuts[n as int],
                None => n >= cuts.len(),
            }
        }),
{
    let cuts = grapheme_boundaries(buf);
    if n < cuts.len() {
        Some(cuts[n])
    } else {
        None
    }
}

/// True of a grapheme cluster that is a line terminator: a bare line feed
/// or a carriage-return-line-feed pair.
pub fn is_newline(grapheme: &[u8]) -> (r: bool)
    ensures
        r == is_newline_bytes(grapheme@),
{
    if grapheme.len() == 1 {
        *slice_index_get(grapheme, 0) == 0x0A
    } else if grapheme.len() == 2 {
        *slice_index_get(grapheme, 0) == 0x0D && *slice_index_get(grapheme, 1) == 0x0A
    } else {
        false
    }
}

/// Size of a grapheme cluster in bytes.
pub fn grapheme_size(grapheme: &[u8]) -> (r: usize)
    ensures
        r == grapheme@.len(),
{
    grapheme.len()
}

/// Offset of the longest suffix of `s` that is valid UTF-8: the smallest
/// number of leading bytes whose removal leaves a valid buffer.
pub open spec fn valid_suffix_start(s: Seq<u8>) -> int
    decreases s.len(),
{
    if valid_utf8(s) {
        0
    } else {
        1 + valid_suffix_start(s.subrange(1, s.len() as int))
    }
}

/// The suffix chosen by `valid_suffix_start` lies within the buffer and is
/// valid UTF-8.
proof fn lemma_valid_suffix_start(s: Seq<u8>)
    ensures
        0 <= valid_suffix_start(s) <= s.len(),
        valid_utf8(s.subrange(valid_suffix_start(s), s.len() as int)),
    decreases s.len(),
{
    if valid_utf8(s) {
        assert(s.subrange(0, s.len() as int) =~= s);
    } else {
        let rest = s.subrange(1, s.len() as int);
        lemma_valid_suffix_start(rest);
        assert(rest.subrange(valid_suffix_start(rest), rest.len() as int) =~= s.subrange(
            1 + valid_suffix_start(rest),
            s.len() as int,
        ));
    }
}

/// Drops bytes from the front of `buf` until what remains is valid UTF-8;
/// used to clean the head of a backward-read buffer that may start in the
/// middle of a character.
pub fn make_valid(buf: Vec<u8>) -> (r: Vec<u8>)
    ensures
        r@ == buf@.subrange(valid_suffix_start(buf@), buf@.len() as int),
        valid_utf8(r@),
        0 <= valid_suffix_start(buf@) <= buf@.len(),
{
    let len = buf.len();
    let mut offset: usize = 0;
    proof {
        assert(buf@.subrange(0, len as int) =~= buf@);
    }
    loop
        invariant
            len == buf@.len(),
            offset <= len,
            valid_suffix_start(buf@) == offset + valid_suffix_start(
                buf@.subrange(offset as int, len as int),
            ),
        decreases len - offset,
    {
        let suffix = slice_subrange(buf.as_slice(), offset, len);
        let ghost suf = buf@.subrange(offset as int, len as int);
        match run_utf8_validation(suffix) {
            Ok(()) => {
                proof {
                    assert(valid_suffix_start(suf) == 0);
                    lemma_valid_suffix_start(buf@);
                }
                return slice_to_vec(suffix);
            },
            Err(_) => {
                proof {
                    assert(!valid_utf8(suf));
                    assert(suf.len() > 0);
                    assert(suf.subrange(1, suf.len() as int) =~= buf@.subrange(
                        offset + 1,
                        len as int,
                    ));
                }
                offset = offset + 1;
            },
        }
    }
}

} // verus!
