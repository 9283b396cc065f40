//! The controller: owns the navigator, the match list and the command-line
//! machine, and applies exactly one command per key event.
//!
//! Every key event first runs through the mode machine; the command it
//! yields is then dispatched to the navigator or the match index.  A failed
//! motion leaves everything but the already-updated command line unchanged,
//! so a failure is never more than a missing movement on screen.

use crate::error::Error;
use crate::input::{cl_step, input_wf, text_spec, Command, CommandLine, SpecCmd, UserInput};
use crate::reader::{
    clamp_pos, down_result, down_window, jump_end_result, jump_pct_result, snap_pos, up_result,
    BiBufReader, InputReader, ValidReader,
};
use crate::searcher::{match_list, matches_wf, regex_ok, search_offsets, MatchSpan};
use crate::util::screen_height_half;
use vstd::prelude::*;

verus! {

broadcast use crate::reader::lemma_bibuf_obs_eq_refl, crate::reader::lemma_bibuf_obs_eq_same_view;

/// Rows of content on screen: the terminal height less the status line.
pub open spec fn content_rows(height: int) -> int {
    if height >= 1 {
        height - 1
    } else {
        0
    }
}

/// Rows in half a content screen.
pub open spec fn half_rows(height: int) -> int {
    if content_rows(height) >= 1 {
        (content_rows(height) - 1) / 2
    } else {
        0
    }
}

/// A downward motion must consume at least one break.
pub open spec fn at_least_one(n: int) -> int {
    if n < 1 {
        1
    } else {
        n
    }
}

/// The first recorded match strictly after `cur`, scanning forward from
/// entry `i`.
pub open spec fn first_after(ms: Seq<(u64, MatchSpan)>, cur: int, i: int) -> Option<u64>
    decreases ms.len() - i,
{
    if i < 0 || i >= ms.len() {
        None
    } else if (ms[i].0 as int) > cur {
        Some(ms[i].0)
    } else {
        first_after(ms, cur, i + 1)
    }
}

/// The last recorded match strictly before `cur`, scanning backward from
/// entry `i`.
pub open spec fn last_before(ms: Seq<(u64, MatchSpan)>, cur: int, i: int) -> Option<u64>
    decreases i,
{
    if i <= 0 || i > ms.len() {
        None
    } else if (ms[i - 1].0 as int) < cur {
        Some(ms[i - 1].0)
    } else {
        last_before(ms, cur, i - 1)
    }
}

/// The session state: the navigator, the current match list, the command
/// line, and the quit flag the run loop polls.
pub struct Controller {
    pub reader: BiBufReader,
    pub quit: bool,
    command_line: CommandLine,
    pub matches: Vec<(u64, MatchSpan)>,
}

impl Controller {
    /// True in search mode.
    pub closed spec fn cl_in_search(&self) -> bool {
        self.command_line.in_search()
    }

    /// The command line's buffer.
    pub closed spec fn cl_buffer(&self) -> Seq<char> {
        self.command_line.buffer_view()
    }

    /// The current match list.
    pub closed spec fn matches_view(&self) -> Seq<(u64, MatchSpan)> {
        self.matches@
    }

    /// The quit flag.
    pub closed spec fn quit_spec(&self) -> bool {
        self.quit
    }

    /// Bytes of the stream currently viewed.
    pub closed spec fn nav_bytes(&self) -> Seq<u8> {
        self.reader.bytes()
    }

    /// The cursor position.
    pub closed spec fn nav_pos(&self) -> int {
        self.reader.pos_spec()
    }

    /// The navigator's page capacity.
    pub closed spec fn nav_cap(&self) -> int {
        self.reader.page_cap()
    }

    /// The navigator's wrap width.
    pub closed spec fn nav_wrap(&self) -> Option<int> {
        self.reader.wrap_w()
    }

    /// The navigator's terminal height.
    pub closed spec fn nav_height(&self) -> int {
        self.reader.height_spec()
    }

    /// Whether soft wrapping is on.
    pub closed spec fn nav_wrap_flag(&self) -> bool {
        self.reader.wrap_spec()
    }

    /// Everything is well-formed: the navigator, the command line, and the
    /// match list relative to the current stream.
    pub closed spec fn wf(&self) -> bool {
        &&& self.reader.wf()
        &&& self.command_line.wf()
        &&& matches_wf(self.matches@, self.reader.bytes().len() as int)
    }

    /// The navigator is observably unchanged.
    pub closed spec fn reader_same(&self, o: &Controller) -> bool {
        self.reader.obs_eq(&o.reader)
    }

    /// Quit flag and match list are unchanged, and the navigator moved (or
    /// stayed put) as `res` says: `Some(p)` means success landing at `p`,
    /// `None` means the motion failed and the cursor kept its place.
    pub closed spec fn nav_moved(&self, o: &Controller, res: Option<int>, ok: bool) -> bool {
        &&& self.quit == o.quit
        &&& self.matches@ == o.matches@
        &&& self.reader.same_but_cur_pos(&o.reader)
        &&& self.reader.bytes() == o.reader.bytes()
        &&& match res {
            Some(p) => ok && self.reader.pos_spec() == p,
            None => !ok && self.reader.pos_spec() == o.reader.pos_spec(),
        }
    }

    /// Quit flag and match list are unchanged, and the navigator jumped to
    /// the target match offset (snapped to a boundary) if one was given.
    pub closed spec fn match_nav(&self, o: &Controller, target: Option<u64>, ok: bool) -> bool {
        &&& self.quit == o.quit
        &&& self.matches@ == o.matches@
        &&& match target {
            None => ok && self.reader.obs_eq(&o.reader),
            Some(off) => {
                &&& self.reader.same_but_cur_pos(&o.reader)
                &&& self.reader.bytes() == o.reader.bytes()
                &&& match snap_pos(
                    o.reader.bytes(),
                    clamp_pos(off as int, o.reader.bytes().len() as int),
                ) {
                    Some(p) => ok && self.reader.pos_spec() == p,
                    None => !ok && self.reader.pos_spec() == o.reader.pos_spec(),
                }
            },
        }
    }

    /// A committed search: the match list is rebuilt from scratch (empty
    /// when the pattern does not compile), then the cursor jumps to the
    /// first match after its position, if any.
    pub closed spec fn search_effect(&self, o: &Controller, pat: Seq<char>, ok: bool) -> bool {
        let new_ms = if regex_ok(pat) {
            match_list(pat, o.reader.bytes())
        } else {
            Seq::<(u64, MatchSpan)>::empty()
        };
        let target = first_after(new_ms, o.reader.pos_spec(), 0);
        &&& self.quit == o.quit
        &&& self.matches@ == new_ms
        &&& match target {
            None => ok && self.reader.obs_eq(&o.reader),
            Some(off) => {
                &&& self.reader.same_but_cur_pos(&o.reader)
                &&& self.reader.bytes() == o.reader.bytes()
                &&& match snap_pos(
                    o.reader.bytes(),
                    clamp_pos(off as int, o.reader.bytes().len() as int),
                ) {
                    Some(p) => ok && self.reader.pos_spec() == p,
                    None => !ok && self.reader.pos_spec() == o.reader.pos_spec(),
                }
            },
        }
    }

    /// A file switch: with several files the next one is selected (cycling)
    /// and the match list is discarded; with captured standard input
    /// nothing changes.
    pub closed spec fn next_file_effect(&self, o: &Controller) -> bool {
        &&& self.quit == o.quit
        &&& if o.reader.is_stdin() {
            self.reader.obs_eq(&o.reader) && self.matches@ == o.matches@
        } else {
            &&& self.matches@ == Seq::<(u64, MatchSpan)>::empty()
            &&& self.reader.is_stdin() == o.reader.is_stdin()
            &&& self.reader.file_count() == o.reader.file_count()
            &&& self.reader.cur_index() == if o.reader.cur_index() + 1 == o.reader.file_count() {
                0int
            } else {
                o.reader.cur_index() + 1
            }
            &&& forall|i: int|
                0 <= i < o.reader.file_count() ==> self.reader.file_bytes(i)
                    == o.reader.file_bytes(i) && self.reader.file_pos(i) == o.reader.file_pos(i)
        }
    }

    /// A fresh controller over the given input, with the given wrap flag
    /// and screen geometry.
    pub fn new(input_reader: InputReader, wrap: bool, screen_width: u16, screen_height: u16) -> (r:
        Controller)
        requires
            input_reader.wf(),
        ensures
            r.wf(),
            !r.quit_spec(),
            r.matches_view().len() == 0,
            !r.cl_in_search(),
            r.cl_buffer().len() == 0,
            r.nav_bytes() == input_reader.bytes(),
            r.nav_pos() == input_reader.pos_spec(),
            r.nav_height() == screen_height as int,
            r.nav_wrap() == if wrap {
                Some(screen_width as int)
            } else {
                None::<int>
            },
    {
        let reader = BiBufReader::new(ValidReader::new(input_reader), wrap, screen_width,
            screen_height);
        Controller {
            reader,
            quit: false,
            command_line: CommandLine::new(),
            matches: Vec::new(),
        }
    }

    /// Rows to move for a half-screen command, at least one for a downward
    /// motion's sake computed by the caller.
    fn half_screen_rows(&self) -> (r: usize)
        ensures
            r as int == half_rows(self.nav_height()),
            r <= 0xFFFF,
    {
        let h = self.reader.screen_height() as usize;
        let c = if h >= 1 {
            h - 1
        } else {
            0
        };
        if c >= 1 {
            screen_height_half(c)
        } else {
            0
        }
    }

    /// Rows to move for a full-screen command.
    fn full_screen_rows(&self) -> (r: usize)
        ensures
            r as int == content_rows(self.nav_height()),
            r <= 0xFFFF,
    {
        let h = self.reader.screen_height() as usize;
        if h >= 1 {
            h - 1
        } else {
            0
        }
    }

    /// Rebuilds the match list for a new pattern; a pattern that does not
    /// compile leaves it empty.
    fn find_matches(&mut self, pattern: &str)
        requires
            old(self).wf(),
        ensures
            final(self).wf(),
            final(self).reader == old(self).reader,
            final(self).reader_same(old(self)),
            final(self).quit == old(self).quit,
            final(self).command_line == old(self).command_line,
            final(self).matches@ == if regex_ok(pattern@) {
                match_list(pattern@, old(self).reader.bytes())
            } else {
                Seq::<(u64, MatchSpan)>::empty()
            },
    {
        self.matches.clear();
        self.reader.search(&mut self.matches, pattern);
        proof {
            if regex_ok(pattern@) {
                assert(self.matches@ =~= match_list(pattern@, old(self).reader.bytes()));
            } else {
                assert(self.matches@ =~= Seq::<(u64, MatchSpan)>::empty());
            }
        }
    }

    /// Jumps to the first match after `cur`, if any; no match means no
    /// motion and success.
    fn jump_forward_match(&mut self, cur: u64) -> (r: Result<(), Error>)
        requires
            old(self).wf(),
        ensures
            final(self).wf(),
            final(self).command_line == old(self).command_line,
            final(self).match_nav(
                old(self),
                first_after(old(self).matches@, cur as int, 0),
                r is Ok,
            ),
            r is Ok || r == Err::<(), Error>(Error::Other),
    {
        let n = self.matches.len();
        let mut i: usize = 0;
        while i < n
            invariant
                n == self.matches@.len(),
                i <= n,
                *self == *old(self),
                self.wf(),
                first_after(self.matches@, cur as int, 0) == first_after(
                    self.matches@,
                    cur as int,
                    i as int,
                ),
            decreases n - i,
        {
            let (off, _) = self.matches[i];
            if off > cur {
                return self.reader.jump_offset(off);
            }
            i = i + 1;
        }
        Ok(())
    }

    /// Jumps to the last match before `cur`, if any; no match means no
    /// motion and success.
    fn jump_backward_match(&mut self, cur: u64) -> (r: Result<(), Error>)
        requires
            old(self).wf(),
        ensures
            final(self).wf(),
            final(self).command_line == old(self).command_line,
            final(self).match_nav(
                old(self),
                last_before(old(self).matches@, cur as int, old(self).matches@.len() as int),
                r is Ok,
            ),
            r is Ok || r == Err::<(), Error>(Error::Other),
    {
        let n = self.matches.len();
        let mut i: usize = n;
        while i > 0
            invariant
                n == self.matches@.len(),
                i <= n,
                *self == *old(self),
                self.wf(),
                last_before(self.matches@, cur as int, n as int) == last_before(
                    self.matches@,
                    cur as int,
                    i as int,
                ),
            decreases i,
        {
            let (off, _) = self.matches[i - 1];
            if off < cur {
                return self.reader.jump_offset(off);
            }
            i = i - 1;
        }
        Ok(())
    }

    /// Cycles to the next file and discards the match list; with captured
    /// standard input this does nothing.
    fn next_file(&mut self)
        requires
            old(self).wf(),
        ensures
            final(self).wf(),
            final(self).command_line == old(self).command_line,
            final(self).next_file_effect(old(self)),
    {
        match self.reader.next_file() {
            Err(_) => (),
            Ok(_) => {
                self.matches.clear();
                proof {
                    assert(self.matches@ =~= Seq::<(u64, MatchSpan)>::empty());
                }
            },
        }
    }

    /// Feeds one key event through the mode machine and applies the
    /// command it produces.  On a failed motion the command line has still
    /// advanced, but navigator, matches and quit flag are unchanged.
    pub fn update(&mut self, input: &UserInput) -> (r: Result<(), Error>)
        requires
            old(self).wf(),
            input_wf(*input),
        ensures
            final(self).wf(),
            r is Ok || r == Err::<(), Error>(Error::Other),
            ({
                let (sm, buf, sc) = cl_step(old(self).cl_in_search(), old(self).cl_buffer(), *input);
                &&& final(self).cl_in_search() == sm
                &&& final(self).cl_buffer() == buf
                &&& match sc {
                    SpecCmd::Quit => r is Ok && final(self).quit_spec() && final(self).reader_same(
                        old(self),
                    ) && final(self).matches_view() == old(self).matches_view(),
                    SpecCmd::NoOp => r is Ok && final(self).quit_spec() == old(self).quit_spec()
                        && final(self).reader_same(old(self)) && final(self).matches_view() == old(
                        self,
                    ).matches_view(),
                    SpecCmd::UpOneLine => final(self).nav_moved(
                        old(self),
                        up_result(
                            old(self).nav_bytes(),
                            old(self).nav_pos(),
                            old(self).nav_cap(),
                            1,
                            old(self).nav_wrap(),
                        ),
                        r is Ok,
                    ),
                    SpecCmd::DownOneLine => final(self).nav_moved(
                        old(self),
                        down_result(
                            old(self).nav_bytes(),
                            old(self).nav_pos(),
                            old(self).nav_cap(),
                            1,
                            old(self).nav_wrap(),
                        ),
                        r is Ok,
                    ),
                    SpecCmd::UpHalfScreen => final(self).nav_moved(
                        old(self),
                        up_result(
                            old(self).nav_bytes(),
                            old(self).nav_pos(),
                            old(self).nav_cap(),
                            half_rows(old(self).nav_height()),
                            old(self).nav_wrap(),
                        ),
                        r is Ok,
                    ),
                    SpecCmd::DownHalfScreen => final(self).nav_moved(
                        old(self),
                        down_result(
                            old(self).nav_bytes(),
                            old(self).nav_pos(),
                            old(self).nav_cap(),
                            at_least_one(half_rows(old(self).nav_height())),
                            old(self).nav_wrap(),
                        ),
                        r is Ok,
                    ),
                    SpecCmd::UpOneScreen => final(self).nav_moved(
                        old(self),
                        up_result(
                            old(self).nav_bytes(),
                            old(self).nav_pos(),
                            old(self).nav_cap(),
                            content_rows(old(self).nav_height()),
                            old(self).nav_wrap(),
                        ),
                        r is Ok,
                    ),
                    SpecCmd::DownOneScreen => final(self).nav_moved(
                        old(self),
                        down_result(
                            old(self).nav_bytes(),
                            old(self).nav_pos(),
                            old(self).nav_cap(),
                            at_least_one(content_rows(old(self).nav_height())),
                            old(self).nav_wrap(),
                        ),
                        r is Ok,
                    ),
                    SpecCmd::JumpBeginning => final(self).nav_moved(
                        old(self),
                        jump_pct_result(
                            old(self).nav_bytes(),
                            old(self).nav_cap(),
                            0,
                            old(self).nav_wrap(),
                        ),
                        r is Ok,
                    ) && r is Ok && final(self).nav_pos() == 0,
                    SpecCmd::JumpPercent(v) => final(self).nav_moved(
                        old(self),
                        jump_pct_result(
                            old(self).nav_bytes(),
                            old(self).nav_cap(),
                            v,
                            old(self).nav_wrap(),
                        ),
                        r is Ok,
                    ),
                    SpecCmd::JumpEnd => final(self).nav_moved(
                        old(self),
                        jump_end_result(
                            old(self).nav_bytes(),
                            old(self).nav_cap(),
                            old(self).nav_wrap(),
                            old(self).nav_height(),
                        ),
                        r is Ok,
                    ),
                    SpecCmd::JumpNextMatch => final(self).match_nav(
                        old(self),
                        first_after(old(self).matches_view(), old(self).nav_pos(), 0),
                        r is Ok,
                    ),
                    SpecCmd::JumpPrevMatch => final(self).match_nav(
                        old(self),
                        last_before(
                            old(self).matches_view(),
                            old(self).nav_pos(),
                            old(self).matches_view().len() as int,
                        ),
                        r is Ok,
                    ),
                    SpecCmd::Search(pat) => final(self).search_effect(old(self), pat, r is Ok),
                    SpecCmd::NextFile => r is Ok && final(self).next_file_effect(old(self)),
                }
            }),
    {
        let command = self.command_line.parse_input(input);
        match command {
            Command::UpOneLine => self.reader.up_n_lines(1),
            Command::DownOneLine => self.reader.down_n_lines(1),
            Command::DownHalfScreen => {
                let h = self.half_screen_rows();
                let n = if h < 1 {
                    1
                } else {
                    h
                };
                self.reader.down_n_lines(n)
            },
            Command::UpHalfScreen => {
                let n = self.half_screen_rows();
                self.reader.up_n_lines(n)
            },
            Command::DownOneScreen => {
                let h = self.full_screen_rows();
                let n = if h < 1 {
                    1
                } else {
                    h
                };
                self.reader.down_n_lines(n)
            },
            Command::UpOneScreen => {
                let n = self.full_screen_rows();
                self.reader.up_n_lines(n)
            },
            Command::JumpBeginning => self.reader.jump_percentage(0),
            Command::JumpEnd => self.reader.jump_end(),
            Command::JumpPercent(p) => self.reader.jump_percentage(p),
            Command::JumpNextMatch => {
                let cur = self.reader.current_offset();
                self.jump_forward_match(cur)
            },
            Command::JumpPrevMatch => {
                let cur = self.reader.current_offset();
                self.jump_backward_match(cur)
            },
            Command::Search(pattern) => {
                self.find_matches(pattern.as_str());
                let cur = self.reader.current_offset();
                self.jump_forward_match(cur)
            },
            Command::NextFile => {
                self.next_file();
                Ok(())
            },
            Command::Quit => {
                self.quit = true;
                Ok(())
            },
            Command::NoOp => Ok(()),
        }
    }

    /// One page of bytes at the cursor and the offset it starts at; the
    /// cursor does not move.
    pub fn page(&self) -> (r: (u64, Vec<u8>))
        requires
            self.wf(),
        ensures
            r.0 as int == self.nav_pos(),
            r.1@ == down_window(self.nav_bytes(), self.nav_pos(), self.nav_cap()),
    {
        self.reader.page()
    }

    /// The status-line text for the current mode and buffer.
    pub fn command_line_text(&self) -> (r: String)
        requires
            self.wf(),
        ensures
            r@ == text_spec(self.cl_in_search(), self.cl_buffer()),
    {
        self.command_line.text()
    }

    /// Whether soft wrapping is on.
    pub fn is_wrap(&self) -> (r: bool)
        ensures
            r == self.nav_wrap_flag(),
    {
        self.reader.is_wrap()
    }

    /// The page-relative highlight offsets for the current page and match
    /// list.
    pub fn highlight_offsets(&self) -> (r: Vec<u64>)
        requires
            self.wf(),
        ensures
            r@ == crate::searcher::hl_offsets(self.nav_pos(), self.matches_view(), 0, 0),
    {
        let start = self.reader.current_offset();
        search_offsets(start, &self.matches)
    }
}

} // verus!
