//! The byte sources and the position-correcting cursor.
//!
//! A `ByteSource` is a seekable in-memory stream: either the captured bytes
//! of standard input or the bytes of one file, held by an `InputReader` that
//! can cycle through several files.  A `ValidReader` wraps the reader so
//! that every seek lands on a UTF-8 scalar boundary: after the raw seek it
//! probes up to eight bytes forward and snaps to the first valid start, or
//! reports a boundary failure.  `BiBufReader` on top moves by logical lines,
//! percentages and absolute offsets using bounded peeks.

use crate::error::Error;
use crate::string_util::{grapheme_starts, make_valid, nth_back_break, nth_forward_break,
    valid_suffix_start};
use crate::utf8_validation::{first_valid_index, first_valid_pos, lemma_prefix_len_full,
    run_utf8_validation, utf8_prefix_len};
use crate::util::{nth_last_newline_pos, nth_newline_pos, signed_width};
use vstd::prelude::*;
use vstd::utf8::{valid_first_scalar, valid_utf8};

verus! {

/// Where a seek is measured from; offsets beyond the stream clamp to its
/// ends.
#[derive(Debug, Clone, Copy)]
pub enum SeekFrom {
    Start(u64),
    End(i64),
    Current(i64),
}

/// Clamps a position into `[0, len]`.
pub open spec fn clamp_pos(v: int, len: int) -> int {
    if v < 0 {
        0
    } else if v > len {
        len
    } else {
        v
    }
}

/// The position a seek resolves to, clamped into the stream.
pub open spec fn seek_target(len: int, pos: int, from: SeekFrom) -> int {
    match from {
        SeekFrom::Start(o) => clamp_pos(o as int, len),
        SeekFrom::End(d) => clamp_pos(len + d, len),
        SeekFrom::Current(d) => clamp_pos(pos + d, len),
    }
}

/// The window of at most eight bytes the cursor probes after a raw seek.
pub open spec fn probe_window(data: Seq<u8>, p: int) -> Seq<u8> {
    data.subrange(
        p,
        if p + 8 <= data.len() {
            p + 8
        } else {
            data.len() as int
        },
    )
}

/// The boundary a raw seek to `p` snaps to: `p` itself at the stream start,
/// otherwise the first valid scalar start in the probe window; `None` when
/// the window holds no valid start.
pub open spec fn snap_pos(data: Seq<u8>, p: int) -> Option<int> {
    if p == 0 {
        Some(0)
    } else {
        match first_valid_index(probe_window(data, p)) {
            Some(k) => Some(p + k),
            None => None,
        }
    }
}

/// True of a cursor position the pager may expose: the stream start, the
/// stream end, or the start of a valid scalar encoding.
pub open spec fn boundary_pos(data: Seq<u8>, p: int) -> bool {
    ||| p == 0
    ||| p == data.len()
    ||| valid_first_scalar(data.subrange(p, data.len() as int))
}

/// The cursor-position invariant: whenever a snap succeeds, the position it
/// lands on is the stream start, the stream end, or the start of a valid
/// UTF-8 scalar.  Every public motion of the corrected reader ends in such
/// a snap, so every externally observable position satisfies this.
pub proof fn lemma_snap_pos_is_boundary(data: Seq<u8>, t: int)
    requires
        0 <= t <= data.len(),
    ensures
        match snap_pos(data, t) {
            Some(p) => boundary_pos(data, p),
            None => true,
        },
{
    if t != 0 {
        let w = probe_window(data, t);
        if w.len() == 0 {
        } else {
            crate::utf8_validation::lemma_first_valid_from_range(w, 0);
            match first_valid_index(w) {
                Some(k) => {
                    let m = if t + 8 <= data.len() {
                        t + 8
                    } else {
                        data.len() as int
                    };
                    let rest = data.subrange(t + k, data.len() as int);
                    assert(w.subrange(k, w.len() as int) =~= rest.subrange(0, m - (t + k)));
                    crate::utf8_validation::lemma_valid_first_scalar_of_prefix(rest, m - (t + k));
                },
                None => {},
            }
        }
    }
}

/// Resolves a seek against concrete stream bounds without overflow.
fn seek_target_exec(len: u64, pos: u64, from: SeekFrom) -> (r: u64)
    requires
        pos <= len,
    ensures
        r as int == seek_target(len as int, pos as int, from),
        r <= len,
{
    let raw: i128 = match from {
        SeekFrom::Start(o) => o as i128,
        SeekFrom::End(d) => len as i128 + d as i128,
        SeekFrom::Current(d) => pos as i128 + d as i128,
    };
    if raw < 0 {
        0
    } else if raw > len as i128 {
        len
    } else {
        raw as u64
    }
}

/// One seekable in-memory byte stream: the captured bytes and a cursor
/// position, always within `[0, len]`.
pub struct ByteSource {
    data: Vec<u8>,
    pos: u64,
}

impl ByteSource {
    /// The bytes of the stream.
    pub closed spec fn bytes(&self) -> Seq<u8> {
        self.data@
    }

    /// The cursor position.
    pub closed spec fn pos_spec(&self) -> int {
        self.pos as int
    }

    /// The position lies within the stream.
    pub open spec fn wf(&self) -> bool {
        0 <= self.pos_spec() <= self.bytes().len()
    }

    /// Observable equality: same bytes, same position.
    pub open spec fn obs_eq(&self, other: &ByteSource) -> bool {
        self.bytes() == other.bytes() && self.pos_spec() == other.pos_spec()
    }

    /// A source over the given bytes, positioned at the start.
    pub fn new(data: Vec<u8>) -> (r: ByteSource)
        ensures
            r.bytes() == data@,
            r.pos_spec() == 0,
            r.wf(),
    {
        ByteSource { data, pos: 0 }
    }

    /// Total length of the stream in bytes.
    pub fn len(&self) -> (r: u64)
        ensures
            r as int == self.bytes().len(),
    {
        self.data.len() as u64
    }

    /// The cursor position.
    pub fn position(&self) -> (r: u64)
        ensures
            r as int == self.pos_spec(),
    {
        self.pos
    }

    /// Borrows the underlying bytes.
    pub(crate) fn data_ref(&self) -> (r: &Vec<u8>)
        ensures
            r@ == self.bytes(),
    {
        &self.data
    }

    /// Moves the cursor to where the seek resolves and returns it.
    pub fn seek(&mut self, from: SeekFrom) -> (r: u64)
        requires
            old(self).wf(),
        ensures
            final(self).wf(),
            final(self).bytes() == old(self).bytes(),
            final(self).pos_spec() == seek_target(
                old(self).bytes().len() as int,
                old(self).pos_spec(),
                from,
            ),
            r as int == final(self).pos_spec(),
    {
        let t = seek_target_exec(self.data.len() as u64, self.pos, from);
        self.pos = t;
        t
    }

    /// Places the cursor at a known-good position.
    pub(crate) fn set_pos(&mut self, p: u64)
        requires
            old(self).wf(),
            p as int <= old(self).bytes().len(),
        ensures
            final(self).wf(),
            final(self).bytes() == old(self).bytes(),
            final(self).pos_spec() == p as int,
    {
        self.pos = p;
    }

    /// Reads the bytes in `[at, at + max)` clipped to the stream, without
    /// moving the cursor.
    pub fn peek_at(&self, at: u64, max: usize) -> (r: Vec<u8>)
        requires
            self.wf(),
            at as int <= self.bytes().len(),
        ensures
            r@ == self.bytes().subrange(
                at as int,
                if at + max <= self.bytes().len() {
                    at as int + max
                } else {
                    self.bytes().len() as int
                },
            ),
    {
        let len = self.data.len();
        let start = at as usize;
        let end = if max <= len - start {
            start + max
        } else {
            len
        };
        vstd::slice::slice_to_vec(vstd::slice::slice_subrange(self.data.as_slice(), start, end))
    }

    /// Reads up to `max` bytes at the cursor and advances it past them.
    pub fn read(&mut self, max: usize) -> (r: Vec<u8>)
        requires
            old(self).wf(),
        ensures
            final(self).wf(),
            final(self).bytes() == old(self).bytes(),
            ({
                let pos = old(self).pos_spec();
                let len = old(self).bytes().len() as int;
                let end = if pos + max <= len {
                    pos + max
                } else {
                    len
                };
                &&& r@ == old(self).bytes().subrange(pos, end)
                &&& final(self).pos_spec() == end
            }),
    {
        let len = self.data.len() as u64;
        let r = self.peek_at(self.pos, max);
        proof {
            assert(self.pos + r@.len() <= len);
        }
        self.pos = self.pos + r.len() as u64;
        r
    }
}

/// The two kinds of input: one captured standard-input stream, or a
/// non-empty list of file contents.
pub enum InputType {
    Stdin(ByteSource),
    Files(Vec<ByteSource>),
}

/// A reader over the current input: the captured stream, or the currently
/// selected file of several.
pub struct InputReader {
    input_type: InputType,
    current_file: usize,
}

impl InputReader {
    /// True when reading the captured standard-input stream.
    pub closed spec fn is_stdin(&self) -> bool {
        self.input_type is Stdin
    }

    /// How many sources can be cycled through.
    pub closed spec fn file_count(&self) -> int {
        match self.input_type {
            InputType::Stdin(_) => 1,
            InputType::Files(fs) => fs@.len() as int,
        }
    }

    /// Index of the currently selected source.
    pub closed spec fn cur_index(&self) -> int {
        match self.input_type {
            InputType::Stdin(_) => 0,
            InputType::Files(_) => self.current_file as int,
        }
    }

    /// The source currently read.
    pub closed spec fn cur_source(&self) -> ByteSource {
        match self.input_type {
            InputType::Stdin(c) => c,
            InputType::Files(fs) => fs@[self.current_file as int],
        }
    }

    /// Bytes of source `i`.
    pub closed spec fn file_bytes(&self, i: int) -> Seq<u8> {
        match self.input_type {
            InputType::Stdin(c) => c.bytes(),
            InputType::Files(fs) => fs@[i].bytes(),
        }
    }

    /// Cursor position of source `i`.
    pub closed spec fn file_pos(&self, i: int) -> int {
        match self.input_type {
            InputType::Stdin(c) => c.pos_spec(),
            InputType::Files(fs) => fs@[i].pos_spec(),
        }
    }

    /// Bytes of the current source.
    pub open spec fn bytes(&self) -> Seq<u8> {
        self.cur_source().bytes()
    }

    /// Cursor position in the current source.
    pub open spec fn pos_spec(&self) -> int {
        self.cur_source().pos_spec()
    }

    /// Every source is well-formed and the selection is in range.
    pub closed spec fn wf(&self) -> bool {
        match self.input_type {
            InputType::Stdin(c) => c.wf(),
            InputType::Files(fs) => {
                &&& fs@.len() > 0
                &&& (self.current_file as int) < fs@.len()
                &&& forall|i: int| 0 <= i < fs@.len() ==> (#[trigger] fs@[i]).wf()
            },
        }
    }

    /// Observable equality apart from the current cursor: same kind, same
    /// selection, same bytes everywhere, same positions in the others.
    pub open spec fn same_but_cur_pos(&self, other: &InputReader) -> bool {
        &&& self.is_stdin() == other.is_stdin()
        &&& self.file_count() == other.file_count()
        &&& self.cur_index() == other.cur_index()
        &&& forall|i: int| 0 <= i < self.file_count() ==> self.file_bytes(i) == other.file_bytes(i)
        &&& forall|i: int|
            0 <= i < self.file_count() && i != self.cur_index() ==> self.file_pos(i)
                == other.file_pos(i)
    }

    /// Full observable equality.
    pub open spec fn obs_eq(&self, other: &InputReader) -> bool {
        self.same_but_cur_pos(other) && self.pos_spec() == other.pos_spec()
    }

    /// A reader over the given input, with the first source selected.
    pub fn new(input_type: InputType) -> (r: InputReader)
        requires
            match input_type {
                InputType::Stdin(c) => c.wf(),
                InputType::Files(fs) => fs@.len() > 0 && forall|i: int|
                    0 <= i < fs@.len() ==> (#[trigger] fs@[i]).wf(),
            },
        ensures
            r.wf(),
            r.cur_index() == 0,
            r.is_stdin() == input_type is Stdin,
            r.bytes() == match input_type {
                InputType::Stdin(c) => c.bytes(),
                InputType::Files(fs) => fs@[0].bytes(),
            },
            r.pos_spec() == match input_type {
                InputType::Stdin(c) => c.pos_spec(),
                InputType::Files(fs) => fs@[0].pos_spec(),
            },
    {
        InputReader { input_type, current_file: 0 }
    }

    /// Length of the current source.
    pub fn len(&self) -> (r: u64)
        requires
            self.wf(),
        ensures
            r as int == self.bytes().len(),
    {
        match &self.input_type {
            InputType::Stdin(c) => c.len(),
            InputType::Files(fs) => fs[self.current_file].len(),
        }
    }

    /// Cursor position in the current source.
    pub fn position(&self) -> (r: u64)
        requires
            self.wf(),
        ensures
            r as int == self.pos_spec(),
    {
        match &self.input_type {
            InputType::Stdin(c) => c.position(),
            InputType::Files(fs) => fs[self.current_file].position(),
        }
    }

    /// Borrows the bytes of the current source.
    pub(crate) fn cur_data(&self) -> (r: &Vec<u8>)
        requires
            self.wf(),
        ensures
            r@ == self.bytes(),
    {
        match &self.input_type {
            InputType::Stdin(c) => c.data_ref(),
            InputType::Files(fs) => fs[self.current_file].data_ref(),
        }
    }

    /// Peeks at the current source without moving its cursor.
    pub fn peek_at(&self, at: u64, max: usize) -> (r: Vec<u8>)
        requires
            self.wf(),
            at as int <= self.bytes().len(),
        ensures
            r@ == self.bytes().subrange(
                at as int,
                if at + max <= self.bytes().len() {
                    at as int + max
                } else {
                    self.bytes().len() as int
                },
            ),
    {
        match &self.input_type {
            InputType::Stdin(c) => c.peek_at(at, max),
            InputType::Files(fs) => fs[self.current_file].peek_at(at, max),
        }
    }

    /// Seeks the current source; every other source keeps its position.
    pub fn seek(&mut self, from: SeekFrom) -> (r: u64)
        requires
            old(self).wf(),
        ensures
            final(self).wf(),
            final(self).same_but_cur_pos(old(self)),
            final(self).bytes() == old(self).bytes(),
            final(self).pos_spec() == seek_target(
                old(self).bytes().len() as int,
                old(self).pos_spec(),
                from,
            ),
            r as int == final(self).pos_spec(),
    {
        match &mut self.input_type {
            InputType::Stdin(c) => c.seek(from),
            InputType::Files(fs) => {
                let i = self.current_file;
                fs[i].seek(from)
            },
        }
    }

    /// Reads up to `max` bytes at the current cursor and advances it.
    pub fn read(&mut self, max: usize) -> (r: Vec<u8>)
        requires
            old(self).wf(),
        ensures
            final(self).wf(),
            final(self).same_but_cur_pos(old(self)),
            final(self).bytes() == old(self).bytes(),
            ({
                let pos = old(self).pos_spec();
                let len = old(self).bytes().len() as int;
                let end = if pos + max <= len {
                    pos + max
                } else {
                    len
                };
                &&& r@ == old(self).bytes().subrange(pos, end)
                &&& final(self).pos_spec() == end
            }),
    {
        match &mut self.input_type {
            InputType::Stdin(c) => c.read(max),
            InputType::Files(fs) => {
                let i = self.current_file;
                fs[i].read(max)
            },
        }
    }

    /// Restores the current source's cursor to a known-good position.
    pub(crate) fn set_pos(&mut self, p: u64)
        requires
            old(self).wf(),
            p as int <= old(self).bytes().len(),
        ensures
            final(self).wf(),
            final(self).same_but_cur_pos(old(self)),
            final(self).bytes() == old(self).bytes(),
            final(self).pos_spec() == p as int,
    {
        match &mut self.input_type {
            InputType::Stdin(c) => c.set_pos(p),
            InputType::Files(fs) => {
                let i = self.current_file;
                fs[i].set_pos(p)
            },
        }
    }

    /// Advances to the next file, wrapping to the first after the last;
    /// reading captured standard input there is no next file.  Every file,
    /// including the one left, keeps its bytes and position.
    pub fn next_file(&mut self) -> (r: Result<(), Error>)
        requires
            old(self).wf(),
        ensures
            final(self).wf(),
            old(self).is_stdin() ==> r == Err::<(), Error>(Error::NoNextFile) && final(self).obs_eq(
                old(self),
            ),
            !old(self).is_stdin() ==> {
                &&& r is Ok
                &&& final(self).is_stdin() == old(self).is_stdin()
                &&& final(self).file_count() == old(self).file_count()
                &&& final(self).cur_index() == if old(self).cur_index() + 1 == old(
                    self,
                ).file_count() {
                    0int
                } else {
                    old(self).cur_index() + 1
                }
                &&& forall|i: int|
                    0 <= i < old(self).file_count() ==> final(self).file_bytes(i) == old(
                        self,
                    ).file_bytes(i) && final(self).file_pos(i) == old(self).file_pos(i)
            },
    {
        let n = match &self.input_type {
            InputType::Stdin(_) => {
                return Err(Error::NoNextFile);
            },
            InputType::Files(fs) => fs.len(),
        };
        self.current_file = if self.current_file == n - 1 {
            0
        } else {
            self.current_file + 1
        };
        Ok(())
    }
}

/// Cycling to the next input, for every layer of the reader stack.
pub trait FileSwitcher {
    /// The well-formedness the switch preserves.
    spec fn switch_wf(&self) -> bool;

    /// Advances to the next file, or reports that none exists.
    fn next_file(&mut self) -> (r: Result<(), Error>)
        requires
            old(self).switch_wf(),
        ensures
            final(self).switch_wf(),
    ;
}

impl FileSwitcher for InputReader {
    open spec fn switch_wf(&self) -> bool {
        self.wf()
    }

    fn next_file(&mut self) -> Result<(), Error> {
        InputReader::next_file(self)
    }
}

/// A reader whose every seek lands on a UTF-8 scalar boundary.
///
/// The start of the stream counts as valid.  After any other seek the
/// reader probes up to eight bytes forward — enough, since a scalar
/// encoding spans at most four — and snaps to the first valid start; when
/// the probe window holds none, the seek fails and the reader is left
/// unchanged.
pub struct ValidReader {
    inner: InputReader,
}

impl ValidReader {
    /// Bytes of the current source.
    pub closed spec fn bytes(&self) -> Seq<u8> {
        self.inner.bytes()
    }

    /// Cursor position in the current source.
    pub closed spec fn pos_spec(&self) -> int {
        self.inner.pos_spec()
    }

    /// The wrapped reader is well-formed.
    pub closed spec fn wf(&self) -> bool {
        self.inner.wf()
    }

    /// Observable equality apart from the current cursor.
    pub closed spec fn same_but_cur_pos(&self, other: &ValidReader) -> bool {
        self.inner.same_but_cur_pos(&other.inner)
    }

    /// Full observable equality.
    pub open spec fn obs_eq(&self, other: &ValidReader) -> bool {
        self.same_but_cur_pos(other) && self.pos_spec() == other.pos_spec()
    }

    /// True when reading captured standard input.
    pub closed spec fn is_stdin(&self) -> bool {
        self.inner.is_stdin()
    }

    /// Wraps a reader; the start position is assumed valid.
    pub fn new(reader: InputReader) -> (r: ValidReader)
        requires
            reader.wf(),
        ensures
            r.wf(),
            r.bytes() == reader.bytes(),
            r.pos_spec() == reader.pos_spec(),
            r.is_stdin() == reader.is_stdin(),
    {
        ValidReader { inner: reader }
    }

    /// Length of the current source.
    pub fn len(&self) -> (r: u64)
        requires
            self.wf(),
        ensures
            r as int == self.bytes().len(),
    {
        self.inner.len()
    }

    /// Cursor position in the current source.
    pub fn position(&self) -> (r: u64)
        requires
            self.wf(),
        ensures
            r as int == self.pos_spec(),
    {
        self.inner.position()
    }

    /// Borrows the bytes of the current source.
    pub(crate) fn cur_data(&self) -> (r: &Vec<u8>)
        requires
            self.wf(),
        ensures
            r@ == self.bytes(),
    {
        self.inner.cur_data()
    }

    /// Peeks at the current source without moving its cursor.
    pub fn peek_at(&self, at: u64, max: usize) -> (r: Vec<u8>)
        requires
            self.wf(),
            at as int <= self.bytes().len(),
        ensures
            r@ == self.bytes().subrange(
                at as int,
                if at + max <= self.bytes().len() {
                    at as int + max
                } else {
                    self.bytes().len() as int
                },
            ),
    {
        self.inner.peek_at(at, max)
    }

    /// Reads up to `max` bytes at the cursor and advances it.
    pub fn read(&mut self, max: usize) -> (r: Vec<u8>)
        requires
            old(self).wf(),
        ensures
            final(self).wf(),
            final(self).same_but_cur_pos(old(self)),
            final(self).bytes() == old(self).bytes(),
            ({
                let pos = old(self).pos_spec();
                let len = old(self).bytes().len() as int;
                let end = if pos + max <= len {
                    pos + max
                } else {
                    len
                };
                &&& r@ == old(self).bytes().subrange(pos, end)
                &&& final(self).pos_spec() == end
            }),
    {
        self.inner.read(max)
    }

    /// Restores the cursor to a previously observed position.
    pub(crate) fn set_pos(&mut self, p: u64)
        requires
            old(self).wf(),
            p as int <= old(self).bytes().len(),
        ensures
            final(self).wf(),
            final(self).same_but_cur_pos(old(self)),
            final(self).bytes() == old(self).bytes(),
            final(self).pos_spec() == p as int,
    {
        self.inner.set_pos(p)
    }

    /// How many sources can be cycled through.
    pub closed spec fn file_count(&self) -> int {
        self.inner.file_count()
    }

    /// Index of the currently selected source.
    pub closed spec fn cur_index(&self) -> int {
        self.inner.cur_index()
    }

    /// Bytes of source `i`.
    pub closed spec fn file_bytes(&self, i: int) -> Seq<u8> {
        self.inner.file_bytes(i)
    }

    /// Cursor position of source `i`.
    pub closed spec fn file_pos(&self, i: int) -> int {
        self.inner.file_pos(i)
    }

    /// Advances to the next file, wrapping after the last; for captured
    /// standard input there is no next file.
    pub fn next_file(&mut self) -> (r: Result<(), Error>)
        requires
            old(self).wf(),
        ensures
            final(self).wf(),
            old(self).is_stdin() ==> r == Err::<(), Error>(Error::NoNextFile) && final(self).obs_eq(
                old(self),
            ),
            !old(self).is_stdin() ==> {
                &&& r is Ok
                &&& final(self).is_stdin() == old(self).is_stdin()
                &&& final(self).file_count() == old(self).file_count()
                &&& final(self).cur_index() == if old(self).cur_index() + 1 == old(
                    self,
                ).file_count() {
                    0int
                } else {
                    old(self).cur_index() + 1
                }
                &&& forall|i: int|
                    0 <= i < old(self).file_count() ==> final(self).file_bytes(i) == old(
                        self,
                    ).file_bytes(i) && final(self).file_pos(i) == old(self).file_pos(i)
            },
    {
        self.inner.next_file()
    }

    /// Seeks, then snaps the position to the next valid scalar boundary.
    /// When no boundary lies within the probe window the seek fails and the
    /// reader is unchanged.
    pub fn seek(&mut self, from: SeekFrom) -> (r: Result<u64, Error>)
        requires
            old(self).wf(),
        ensures
            final(self).wf(),
            final(self).same_but_cur_pos(old(self)),
            final(self).bytes() == old(self).bytes(),
            ({
                let t = seek_target(old(self).bytes().len() as int, old(self).pos_spec(), from);
                match snap_pos(old(self).bytes(), t) {
                    Some(p) => r matches Ok(pp) && pp as int == p && final(self).pos_spec() == p,
                    None => r == Err::<u64, Error>(Error::Other) && final(self).pos_spec() == old(
                        self,
                    ).pos_spec(),
                }
            }),
    {
        let len = self.inner.len();
        let pos = self.inner.position();
        let t = seek_target_exec(len, pos, from);
        if t == 0 {
            let p = self.inner.seek(SeekFrom::Start(0));
            return Ok(p);
        }
        let window = self.inner.peek_at(t, 8);
        proof {
            assert(window@ =~= probe_window(self.bytes(), t as int));
        }
        match first_valid_pos(window.as_slice()) {
            Some(k) => {
                proof {
                    assert(t + k <= len);
                }
                let p = self.inner.seek(SeekFrom::Start(t + k as u64));
                Ok(p)
            },
            None => Err(Error::Other),
        }
    }
}

/// End of the forward window: `cap` bytes past `pos`, clipped to the
/// stream.
pub open spec fn win_end(len: int, pos: int, cap: int) -> int {
    if pos + cap <= len {
        pos + cap
    } else {
        len
    }
}

/// The bytes a downward motion examines: at most one page buffer starting
/// at the cursor.
pub open spec fn down_window(data: Seq<u8>, pos: int, cap: int) -> Seq<u8> {
    data.subrange(pos, win_end(data.len() as int, pos, cap))
}

/// The raw target of a downward motion: the cursor advanced past the
/// `n`-th break of the window's valid UTF-8 prefix.
pub open spec fn down_raw(data: Seq<u8>, pos: int, cap: int, n: int, w: Option<int>) -> int {
    let win = down_window(data, pos, cap);
    let tw = win.subrange(0, utf8_prefix_len(win));
    pos + nth_forward_break(n, tw, grapheme_starts(tw), w)
}

/// Where a downward motion ends up: `None` when no bytes lie ahead (the
/// motion fails) or when the snapped target has no valid boundary.
pub open spec fn down_result(data: Seq<u8>, pos: int, cap: int, n: int, w: Option<int>) -> Option<
    int,
> {
    if down_window(data, pos, cap).len() == 0 {
        None
    } else {
        snap_pos(data, down_raw(data, pos, cap, n, w))
    }
}

/// The bytes an upward motion examines: at most one page buffer ending at
/// the cursor.
pub open spec fn up_window(data: Seq<u8>, pos: int, cap: int) -> Seq<u8> {
    data.subrange(
        if pos - cap >= 0 {
            pos - cap
        } else {
            0
        },
        pos,
    )
}

/// The raw target of an upward motion over the window's valid UTF-8
/// suffix: the `n+1`-th break from the end, because the current line's own
/// leading break must be skipped to reach the target line's start.
pub open spec fn up_raw(data: Seq<u8>, pos: int, cap: int, n: int, w: Option<int>) -> int {
    let win = up_window(data, pos, cap);
    let tw = win.subrange(valid_suffix_start(win), win.len() as int);
    pos - (tw.len() - nth_back_break(n + 1, tw, grapheme_starts(tw), w))
}

/// Where an upward motion ends up: the start of the stream is a fixed
/// point, and elsewhere the raw target is snapped to a valid boundary.
pub open spec fn up_result(data: Seq<u8>, pos: int, cap: int, n: int, w: Option<int>) -> Option<
    int,
> {
    if pos == 0 {
        Some(0)
    } else {
        snap_pos(data, up_raw(data, pos, cap, n, w))
    }
}

/// The byte offset `percent` percent into a stream, clipped to its length.
pub open spec fn pct_target(len: int, percent: int) -> int {
    if len * percent / 100 > len {
        len
    } else {
        len * percent / 100
    }
}

/// Where a percentage jump ends up: seek to the percent offset (snapped),
/// then move up one line to the start of the containing line.
pub open spec fn jump_pct_result(
    data: Seq<u8>,
    cap: int,
    percent: int,
    w: Option<int>,
) -> Option<int> {
    match snap_pos(data, pct_target(data.len() as int, percent)) {
        Some(p1) => up_result(data, p1, cap, 1, w),
        None => None,
    }
}

/// Where an end jump lands: seek to the stream end, then move up one
/// content screen less one line, so the last page fills the screen.
pub open spec fn jump_end_result(data: Seq<u8>, cap: int, w: Option<int>, height: int) -> Option<
    int,
> {
    let n = if height >= 2 {
        height - 2
    } else {
        0
    };
    match snap_pos(data, pct_target(data.len() as int, 100)) {
        Some(p1) => up_result(data, p1, cap, n, w),
        None => None,
    }
}

/// The line navigator: a boundary-correcting reader plus the screen
/// geometry its motions are measured in.  `wrap` chooses whether lines
/// soft-wrap at the screen width.
pub struct BiBufReader {
    inner: ValidReader,
    pub wrap: bool,
    width: u16,
    height: u16,
}

impl BiBufReader {
    /// Bytes of the current source.
    pub closed spec fn bytes(&self) -> Seq<u8> {
        self.inner.bytes()
    }

    /// Cursor position in the current source.
    pub closed spec fn pos_spec(&self) -> int {
        self.inner.pos_spec()
    }

    /// The wrapped reader is well-formed.
    pub closed spec fn wf(&self) -> bool {
        self.inner.wf()
    }

    /// Screen width in columns.
    pub closed spec fn width_spec(&self) -> int {
        self.width as int
    }

    /// Terminal height in rows.
    pub closed spec fn height_spec(&self) -> int {
        self.height as int
    }

    /// Whether soft wrapping is on.
    pub closed spec fn wrap_spec(&self) -> bool {
        self.wrap
    }

    /// The wrap width motions use: the screen width when wrapping is on.
    pub open spec fn wrap_w(&self) -> Option<int> {
        if self.wrap_spec() {
            Some(self.width_spec())
        } else {
            None
        }
    }

    /// Page buffer capacity: a full screen of the widest possible UTF-8
    /// characters, clipped to what a buffer can address.
    pub open spec fn page_cap(&self) -> int {
        let raw = self.width_spec() * self.height_spec() * 4;
        if raw > usize::MAX as int {
            usize::MAX as int
        } else {
            raw
        }
    }

    /// Observable equality apart from the current cursor.
    pub closed spec fn same_but_cur_pos(&self, other: &BiBufReader) -> bool {
        &&& self.inner.same_but_cur_pos(&other.inner)
        &&& self.wrap == other.wrap
        &&& self.width == other.width
        &&& self.height == other.height
    }

    /// Full observable equality.
    pub open spec fn obs_eq(&self, other: &BiBufReader) -> bool {
        self.same_but_cur_pos(other) && self.pos_spec() == other.pos_spec()
    }

    /// True when reading captured standard input.
    pub closed spec fn is_stdin(&self) -> bool {
        self.inner.is_stdin()
    }

    /// A navigator over the given reader with the given screen geometry.
    pub fn new(inner: ValidReader, wrap: bool, screen_width: u16, screen_height: u16) -> (r:
        BiBufReader)
        requires
            inner.wf(),
        ensures
            r.wf(),
            r.bytes() == inner.bytes(),
            r.pos_spec() == inner.pos_spec(),
            r.wrap_spec() == wrap,
            r.width_spec() == screen_width as int,
            r.height_spec() == screen_height as int,
            r.is_stdin() == inner.is_stdin(),
    {
        BiBufReader { inner, wrap, width: screen_width, height: screen_height }
    }

    /// Bytes one page buffer can hold.
    fn page_size(&self) -> (r: usize)
        ensures
            r as int == self.page_cap(),
    {
        let w = self.width as u64;
        let h = self.height as u64;
        proof {
            assert(w * h * 4 <= 0xFFFFu64 * 0xFFFFu64 * 4) by (nonlinear_arith)
                requires
                    w <= 0xFFFF,
                    h <= 0xFFFF,
            ;
        }
        let p = w * h * 4;
        if p > usize::MAX as u64 {
            usize::MAX
        } else {
            p as usize
        }
    }

    /// Bytes a motion's window can hold; the same as one page buffer.
    fn search_buf_size(&self) -> (r: usize)
        ensures
            r as int == self.page_cap(),
    {
        self.page_size()
    }

    /// The wrap width as the break arithmetic takes it.
    fn wrap_width(&self) -> (r: Option<i32>)
        ensures
            signed_width(r) == self.wrap_w(),
    {
        if self.wrap {
            Some(self.width as i32)
        } else {
            None
        }
    }

    /// Whether soft wrapping is on.
    pub fn is_wrap(&self) -> (r: bool)
        ensures
            r == self.wrap_spec(),
    {
        self.wrap
    }

    /// The terminal height this navigator was configured with.
    pub fn screen_height(&self) -> (r: u16)
        ensures
            r as int == self.height_spec(),
    {
        self.height
    }

    /// The cursor's absolute position.
    pub fn current_offset(&self) -> (r: u64)
        requires
            self.wf(),
        ensures
            r as int == self.pos_spec(),
    {
        self.inner.position()
    }

    /// Moves the cursor to the given absolute offset, snapped to a valid
    /// boundary; on failure the navigator is unchanged.
    pub fn jump_offset(&mut self, offset: u64) -> (r: Result<(), Error>)
        requires
            old(self).wf(),
        ensures
            final(self).wf(),
            final(self).same_but_cur_pos(old(self)),
            final(self).bytes() == old(self).bytes(),
            ({
                let t = clamp_pos(offset as int, old(self).bytes().len() as int);
                match snap_pos(old(self).bytes(), t) {
                    Some(p) => r is Ok && final(self).pos_spec() == p,
                    None => r == Err::<(), Error>(Error::Other) && final(self).pos_spec() == old(
                        self,
                    ).pos_spec(),
                }
            }),
    {
        match self.inner.seek(SeekFrom::Start(offset)) {
            Ok(_) => Ok(()),
            Err(e) => Err(e),
        }
    }

    /// Seeks to the given percentage of the stream, snapped to a valid
    /// boundary, and returns the resulting position; on failure the
    /// navigator is unchanged.
    pub fn seek_percent(&mut self, percent: u64) -> (r: Result<u64, Error>)
        requires
            old(self).wf(),
        ensures
            final(self).wf(),
            final(self).same_but_cur_pos(old(self)),
            final(self).bytes() == old(self).bytes(),
            ({
                let t = pct_target(old(self).bytes().len() as int, percent as int);
                match snap_pos(old(self).bytes(), t) {
                    Some(p) => r matches Ok(pp) && pp as int == p && final(self).pos_spec() == p,
                    None => r == Err::<u64, Error>(Error::Other) && final(self).pos_spec() == old(
                        self,
                    ).pos_spec(),
                }
            }),
    {
        let size = self.inner.len();
        let pct: u64 = if percent > 100 {
            100
        } else {
            percent
        };
        proof {
            assert((size as int) * (pct as int) <= (u64::MAX as int) * 100) by (nonlinear_arith)
                requires
                    size <= u64::MAX,
                    pct <= 100,
            ;
        }
        let prod: u128 = (size as u128) * (pct as u128) / 100;
        let offset: u64 = if prod > size as u128 {
            size
        } else {
            prod as u64
        };
        proof {
            let len = old(self).bytes().len() as int;
            if percent > 100 {
                assert(len * 100 / 100 == len) by (nonlinear_arith)
                    requires
                        len >= 0,
                ;
                assert(len * (percent as int) / 100 >= len * 100 / 100) by (nonlinear_arith)
                    requires
                        len >= 0,
                        percent > 100,
                ;
            }
            assert(offset as int == pct_target(len, percent as int));
        }
        self.inner.seek(SeekFrom::Start(offset))
    }

    /// Moves the cursor up `n` logical lines: it lands on the start of the
    /// line `n` breaks before the current one, computed from a bounded
    /// backward peek.  At the stream start this is a no-op that succeeds;
    /// on a boundary failure the navigator is unchanged.
    pub fn up_n_lines(&mut self, n: usize) -> (r: Result<(), Error>)
        requires
            old(self).wf(),
            n < usize::MAX,
        ensures
            final(self).wf(),
            final(self).same_but_cur_pos(old(self)),
            final(self).bytes() == old(self).bytes(),
            ({
                let res = up_result(
                    old(self).bytes(),
                    old(self).pos_spec(),
                    old(self).page_cap(),
                    n as int,
                    old(self).wrap_w(),
                );
                match res {
                    Some(p) => r is Ok && final(self).pos_spec() == p,
                    None => r == Err::<(), Error>(Error::Other) && final(self).pos_spec() == old(
                        self,
                    ).pos_spec(),
                }
            }),
            old(self).pos_spec() == 0 ==> r is Ok && final(self).pos_spec() == 0,
    {
        let cap = self.search_buf_size();
        let pos = self.inner.position();
        let size: usize = if (cap as u64) <= pos {
            cap
        } else {
            pos as usize
        };
        let start = pos - size as u64;
        let win = self.inner.peek_at(start, size);
        proof {
            assert(win@ =~= up_window(self.bytes(), pos as int, self.page_cap()));
        }
        let ghost w0 = win@;
        let tw = make_valid(win);
        proof {
            assert(w0.len() == size);
            assert(tw@.len() <= size);
        }
        let back = nth_last_newline_pos(n + 1, tw.as_slice(), self.wrap_width());
        let offset = tw.len() - back;
        let dest = pos - offset as u64;
        proof {
            assert(dest as int == up_raw(
                self.bytes(),
                pos as int,
                self.page_cap(),
                n as int,
                self.wrap_w(),
            ));
        }
        match self.inner.seek(SeekFrom::Start(dest)) {
            Ok(_) => Ok(()),
            Err(e) => Err(e),
        }
    }

    /// Moves the cursor down `n` logical lines: it lands just past the
    /// `n`-th break ahead, or at the end of the peeked window when fewer
    /// breaks lie within it.  Fails without moving when no bytes lie ahead
    /// or no valid boundary is found at the target.
    pub fn down_n_lines(&mut self, n: usize) -> (r: Result<(), Error>)
        requires
            old(self).wf(),
            n >= 1,
        ensures
            final(self).wf(),
            final(self).same_but_cur_pos(old(self)),
            final(self).bytes() == old(self).bytes(),
            ({
                let res = down_result(
                    old(self).bytes(),
                    old(self).pos_spec(),
                    old(self).page_cap(),
                    n as int,
                    old(self).wrap_w(),
                );
                match res {
                    Some(p) => r is Ok && final(self).pos_spec() == p,
                    None => r == Err::<(), Error>(Error::Other) && final(self).pos_spec() == old(
                        self,
                    ).pos_spec(),
                }
            }),
    {
        let cap = self.search_buf_size();
        let pos = self.inner.position();
        let len = self.inner.len();
        let avail = len - pos;
        let size: usize = if (cap as u64) <= avail {
            cap
        } else {
            avail as usize
        };
        if size == 0 {
            return Err(Error::Other);
        }
        let mut win = self.inner.peek_at(pos, size);
        proof {
            assert(win@ =~= down_window(self.bytes(), pos as int, self.page_cap()));
        }
        let ghost w0 = win@;
        let vp: usize = match run_utf8_validation(win.as_slice()) {
            Ok(()) => {
                proof {
                    lemma_prefix_len_full(win@);
                    assert(win@.subrange(0, win@.len() as int) =~= win@);
                }
                win.len()
            },
            Err(e) => {
                proof {
                    assert(valid_utf8(w0.subrange(0, e.valid_up_to as int)));
                }
                e.valid_up_to
            },
        };
        win.truncate(vp);
        proof {
            assert(win@ =~= w0.subrange(0, utf8_prefix_len(w0)));
            assert(valid_utf8(win@));
            assert(win@ =~= down_window(self.bytes(), pos as int, self.page_cap()).subrange(
                0,
                utf8_prefix_len(down_window(self.bytes(), pos as int, self.page_cap())),
            ));
        }
        let fwd = nth_newline_pos(n, win.as_slice(), self.wrap_width());
        let dest = pos + fwd as u64;
        proof {
            assert(dest as int == down_raw(
                self.bytes(),
                pos as int,
                self.page_cap(),
                n as int,
                self.wrap_w(),
            ));
        }
        match self.inner.seek(SeekFrom::Start(dest)) {
            Ok(_) => Ok(()),
            Err(e) => Err(e),
        }
    }

    /// Jumps to the given percentage of the stream, then up one line, so
    /// the cursor lands at the start of the line containing the percentage
    /// point.  Zero percent always lands at offset zero.  On failure the
    /// navigator is unchanged.
    pub fn jump_percentage(&mut self, percent: u64) -> (r: Result<(), Error>)
        requires
            old(self).wf(),
        ensures
            final(self).wf(),
            final(self).same_but_cur_pos(old(self)),
            final(self).bytes() == old(self).bytes(),
            ({
                let res = jump_pct_result(
                    old(self).bytes(),
                    old(self).page_cap(),
                    percent as int,
                    old(self).wrap_w(),
                );
                match res {
                    Some(p) => r is Ok && final(self).pos_spec() == p,
                    None => r == Err::<(), Error>(Error::Other) && final(self).pos_spec() == old(
                        self,
                    ).pos_spec(),
                }
            }),
            percent == 0 ==> r is Ok && final(self).pos_spec() == 0,
    {
        let saved = self.inner.position();
        match self.seek_percent(percent) {
            Ok(_) => (),
            Err(e) => {
                return Err(e);
            },
        }
        match self.up_n_lines(1) {
            Ok(()) => Ok(()),
            Err(e) => {
                self.inner.set_pos(saved);
                Err(e)
            },
        }
    }

    /// Jumps near the end of the stream: to the very end, then up one
    /// screen less one line, so the final page fills the screen.  On
    /// failure the navigator is unchanged.
    pub fn jump_end(&mut self) -> (r: Result<(), Error>)
        requires
            old(self).wf(),
        ensures
            final(self).wf(),
            final(self).same_but_cur_pos(old(self)),
            final(self).bytes() == old(self).bytes(),
            ({
                let res = jump_end_result(
                    old(self).bytes(),
                    old(self).page_cap(),
                    old(self).wrap_w(),
                    old(self).height_spec(),
                );
                match res {
                    Some(p) => r is Ok && final(self).pos_spec() == p,
                    None => r == Err::<(), Error>(Error::Other) && final(self).pos_spec() == old(
                        self,
                    ).pos_spec(),
                }
            }),
    {
        let saved = self.inner.position();
        match self.seek_percent(100) {
            Ok(_) => (),
            Err(e) => {
                return Err(e);
            },
        }
        let n: usize = if self.height >= 2 {
            (self.height - 2) as usize
        } else {
            0
        };
        match self.up_n_lines(n) {
            Ok(()) => Ok(()),
            Err(e) => {
                self.inner.set_pos(saved);
                Err(e)
            },
        }
    }

    /// One page of bytes at the cursor, without moving it: the absolute
    /// offset the page starts at and the bytes read.
    pub fn page(&self) -> (r: (u64, Vec<u8>))
        requires
            self.wf(),
        ensures
            r.0 as int == self.pos_spec(),
            r.1@ == down_window(self.bytes(), self.pos_spec(), self.page_cap()),
    {
        let size = self.page_size();
        let pos = self.inner.position();
        let bytes = self.inner.peek_at(pos, size);
        proof {
            assert(bytes@ =~= down_window(self.bytes(), pos as int, self.page_cap()));
        }
        (pos, bytes)
    }

    /// Borrows the bytes of the current source.
    pub(crate) fn cur_data(&self) -> (r: &Vec<u8>)
        requires
            self.wf(),
        ensures
            r@ == self.bytes(),
    {
        self.inner.cur_data()
    }

    /// How many sources can be cycled through.
    pub closed spec fn file_count(&self) -> int {
        self.inner.file_count()
    }

    /// Index of the currently selected source.
    pub closed spec fn cur_index(&self) -> int {
        self.inner.cur_index()
    }

    /// Bytes of source `i`.
    pub closed spec fn file_bytes(&self, i: int) -> Seq<u8> {
        self.inner.file_bytes(i)
    }

    /// Cursor position of source `i`.
    pub closed spec fn file_pos(&self, i: int) -> int {
        self.inner.file_pos(i)
    }

    /// Advances to the next file, wrapping after the last; for captured
    /// standard input there is no next file.  The geometry and wrap flag
    /// are kept.
    pub fn next_file(&mut self) -> (r: Result<(), Error>)
        requires
            old(self).wf(),
        ensures
            final(self).wf(),
            final(self).wrap_spec() == old(self).wrap_spec(),
            final(self).width_spec() == old(self).width_spec(),
            final(self).height_spec() == old(self).height_spec(),
            old(self).is_stdin() ==> r == Err::<(), Error>(Error::NoNextFile) && final(self).obs_eq(
                old(self),
            ),
            !old(self).is_stdin() ==> {
                &&& r is Ok
                &&& final(self).is_stdin() == old(self).is_stdin()
                &&& final(self).file_count() == old(self).file_count()
                &&& final(self).cur_index() == if old(self).cur_index() + 1 == old(
                    self,
                ).file_count() {
                    0int
                } else {
                    old(self).cur_index() + 1
                }
                &&& forall|i: int|
                    0 <= i < old(self).file_count() ==> final(self).file_bytes(i) == old(
                        self,
                    ).file_bytes(i) && final(self).file_pos(i) == old(self).file_pos(i)
            },
    {
        self.inner.next_file()
    }
}

/// Observable equality of a navigator with itself always holds.
pub broadcast proof fn lemma_bibuf_obs_eq_refl(a: &BiBufReader)
    ensures
        #[trigger] a.obs_eq(a),
{
}

/// Observably equal navigators view the same bytes at the same position.
pub broadcast proof fn lemma_bibuf_obs_eq_same_view(a: &BiBufReader, b: &BiBufReader)
    requires
        a.wf(),
        #[trigger] a.obs_eq(b),
    ensures
        a.bytes() == b.bytes(),
        a.pos_spec() == b.pos_spec(),
{
    assert(a.bytes() == a.file_bytes(a.cur_index()));
    assert(b.bytes() == b.file_bytes(b.cur_index()));
    assert(0 <= a.cur_index() < a.file_count());
}

impl FileSwitcher for ValidReader {
    open spec fn switch_wf(&self) -> bool {
        self.wf()
    }

    fn next_file(&mut self) -> Result<(), Error> {
        ValidReader::next_file(self)
    }
}

impl FileSwitcher for BiBufReader {
    open spec fn switch_wf(&self) -> bool {
        self.wf()
    }

    fn next_file(&mut self) -> Result<(), Error> {
        BiBufReader::next_file(self)
    }
}

} // verus!
