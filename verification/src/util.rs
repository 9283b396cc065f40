//! Break positions with an optional wrap width, and screen geometry
//! arithmetic.
//!
//! These are the entry points the navigator uses: the wrap width is `None`
//! when soft wrapping is off, and may be any machine integer a terminal
//! query produced; a width of one column or less breaks at every cluster.

use crate::string_util::{
    backward_break_pos, break_ends, break_ends_from, forward_break_pos, grapheme_starts,
    lemma_break_ends_small_width, nth_back_break, nth_forward_break, opt_width,
};
use vstd::prelude::*;
use vstd::utf8::valid_utf8;

verus! {

/// Spec view of a wrap width given as an optional signed integer.
pub open spec fn signed_width(w: Option<i32>) -> Option<int> {
    match w {
        Some(x) => Some(x as int),
        None => None,
    }
}

/// A width of one column or less breaks at every cluster, so all such
/// widths give the same break positions.
proof fn lemma_small_widths_agree(s: Seq<u8>, cuts: Seq<usize>, w1: int, w2: int)
    requires
        w1 <= 1,
        w2 <= 1,
    ensures
        break_ends(s, cuts, Some(w1)) == break_ends(s, cuts, Some(w2)),
{
    lemma_break_ends_small_width(s, cuts, w1, w2, 0, 0);
}

/// Byte offset just past the `n`-th break of `buf` from the start, with an
/// optional wrap width; the end of the buffer when fewer breaks exist.
pub fn nth_newline_pos(n: usize, buf: &[u8], screen_width: Option<i32>) -> (r: usize)
    requires
        valid_utf8(buf@),
        n >= 1,
    ensures
        r as int == nth_forward_break(
            n as int,
            buf@,
            grapheme_starts(buf@),
            signed_width(screen_width),
        ),
        r <= buf@.len(),
{
    match screen_width {
        None => forward_break_pos(n, buf, None),
        Some(x) => {
            if x <= 0 {
                let r = forward_break_pos(n, buf, Some(1));
                proof {
                    lemma_small_widths_agree(buf@, grapheme_starts(buf@), 1, x as int);
                }
                r
            } else {
                forward_break_pos(n, buf, Some(x as usize))
            }
        },
    }
}

/// Byte offset just past the `n`-th break of `buf` from the end, with an
/// optional wrap width; zero when fewer breaks exist.
pub fn nth_last_newline_pos(n: usize, buf: &[u8], screen_width: Option<i32>) -> (r: usize)
    requires
        valid_utf8(buf@),
        n >= 1,
    ensures
        r as int == nth_back_break(
            n as int,
            buf@,
            grapheme_starts(buf@),
            signed_width(screen_width),
        ),
        r <= buf@.len(),
{
    match screen_width {
        None => backward_break_pos(n, buf, None),
        Some(x) => {
            if x <= 0 {
                let r = backward_break_pos(n, buf, Some(1));
                proof {
                    lemma_small_widths_agree(buf@, grapheme_starts(buf@), 1, x as int);
                }
                r
            } else {
                backward_break_pos(n, buf, Some(x as usize))
            }
        },
    }
}

/// Rows in half a content screen: the content area is one row shorter than
/// the terminal, and half of the remainder rounds down.
pub fn screen_height_half(screen_height: usize) -> (r: usize)
    requires
        screen_height >= 1,
    ensures
        r == (screen_height - 1) / 2,
{
    (screen_height - 1) / 2
}

} // verus!
