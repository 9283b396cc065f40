//! A small fixed-size cache of known line numbers and their byte offsets.
//!
//! The cache holds up to twenty-four `(line number, byte offset)` pairs and
//! answers two queries: the cached entry nearest *before* a byte offset, and
//! the cached entry nearest to it in either direction.  Scans run in slot
//! order and keep the first entry that attains the least distance.

use vstd::prelude::*;

verus! {

/// A line number paired with the byte offset where that line starts.
#[derive(Debug, Copy, Clone, PartialEq, Eq, Structural)]
pub struct LineNum {
    pub num: i32,
    pub offset: usize,
}

/// Fixed-size cache of line-number entries; empty slots are `None`.
pub struct LineNumCache {
    pub line_nums: [Option<LineNum>; 24],
}

/// Index of the first free slot at or after `i`, or the length when none is
/// free.
pub open spec fn first_free(entries: Seq<Option<LineNum>>, i: int) -> int
    decreases entries.len() - i,
{
    if i < 0 || i >= entries.len() {
        entries.len() as int
    } else if entries[i] is None {
        i
    } else {
        first_free(entries, i + 1)
    }
}

/// One step of the backward-distance scan: keep `best` unless slot `i`
/// holds an entry strictly before `offset` and strictly closer than the
/// best distance so far (the bound starts at `i64::MAX`).
pub open spec fn prev_scan(
    entries: Seq<Option<LineNum>>,
    offset: int,
    i: int,
    best: Option<(LineNum, int)>,
) -> Option<(LineNum, int)>
    decreases entries.len() - i,
{
    if i < 0 || i >= entries.len() {
        best
    } else {
        let bound = match best {
            Some(b) => b.1,
            None => i64::MAX as int,
        };
        let next = match entries[i] {
            Some(ln) => {
                let d = offset - ln.offset;
                if d > 0 && d < bound {
                    Some((ln, d))
                } else {
                    best
                }
            },
            None => best,
        };
        prev_scan(entries, offset, i + 1, next)
    }
}

/// One step of the absolute-distance scan: keep `best` unless slot `i`
/// holds an entry whose signed distance `ln.offset - offset` is strictly
/// smaller in magnitude than the best so far.
pub open spec fn closest_scan(
    entries: Seq<Option<LineNum>>,
    offset: int,
    i: int,
    best: Option<(LineNum, int)>,
) -> Option<(LineNum, int)>
    decreases entries.len() - i,
{
    if i < 0 || i >= entries.len() {
        best
    } else {
        let bound = match best {
            Some(b) => if b.1 < 0 {
                -b.1
            } else {
                b.1
            },
            None => i64::MAX as int,
        };
        let next = match entries[i] {
            Some(ln) => {
                let d = ln.offset - offset;
                let a = if d < 0 {
                    -d
                } else {
                    d
                };
                if a < bound {
                    Some((ln, d))
                } else {
                    best
                }
            },
            None => best,
        };
        closest_scan(entries, offset, i + 1, next)
    }
}

/// All stored offsets fit in a signed 64-bit distance computation.
pub open spec fn offsets_bounded(entries: Seq<Option<LineNum>>) -> bool {
    forall|i: int|
        0 <= i < entries.len() ==> match #[trigger] entries[i] {
            Some(ln) => ln.offset <= i64::MAX as usize,
            None => true,
        }
}

impl LineNumCache {
    /// An empty cache.
    pub fn new() -> (r: LineNumCache)
        ensures
            r.line_nums@.len() == 24,
            forall|i: int| 0 <= i < 24 ==> r.line_nums@[i] is None,
            offsets_bounded(r.line_nums@),
    {
        LineNumCache { line_nums: [None;24] }
    }

    /// Stores the entry in the first free slot, or reports that the cache
    /// is full.
    fn try_add(&mut self, line_num: LineNum) -> (r: Result<(), ()>)
        ensures
            ({
                let j = first_free(old(self).line_nums@, 0);
                if j < old(self).line_nums@.len() {
                    r is Ok && final(self).line_nums@ == old(self).line_nums@.update(
                        j,
                        Some(line_num),
                    )
                } else {
                    r is Err && final(self).line_nums@ == old(self).line_nums@
                }
            }),
    {
        let mut i: usize = 0;
        while i < 24
            invariant
                self.line_nums@.len() == 24,
                i <= 24,
                self.line_nums@ == old(self).line_nums@,
                first_free(old(self).line_nums@, 0) == first_free(old(self).line_nums@, i as int),
            decreases 24 - i,
        {
            if self.line_nums[i].is_none() {
                self.line_nums[i] = Some(line_num);
                return Ok(());
            }
            i = i + 1;
        }
        Err(())
    }

    /// Overwrites the first slot; used when no slot is free.
    fn add_important(&mut self, line_num: LineNum)
        requires
            old(self).line_nums@.len() == 24,
        ensures
            final(self).line_nums@ == old(self).line_nums@.update(0, Some(line_num)),
    {
        self.line_nums[0] = Some(line_num);
    }

    /// Stores the entry in the first free slot, evicting the first slot
    /// when the cache is full.
    pub fn add(&mut self, line_num: LineNum)
        ensures
            ({
                let j = first_free(old(self).line_nums@, 0);
                if j < old(self).line_nums@.len() {
                    final(self).line_nums@ == old(self).line_nums@.update(j, Some(line_num))
                } else {
                    final(self).line_nums@ == old(self).line_nums@.update(0, Some(line_num))
                }
            }),
    {
        match self.try_add(line_num) {
            Ok(_) => (),
            Err(_) => self.add_important(line_num),
        }
    }

    /// The cached entry nearest strictly before `offset`, with its
    /// distance; `None` when no cached entry lies before `offset`.
    pub fn prev(&mut self, offset: usize) -> (r: Option<(LineNum, i64)>)
        requires
            offset <= i64::MAX as usize,
            offsets_bounded(old(self).line_nums@),
        ensures
            *final(self) == *old(self),
            ({
                let spec_r = prev_scan(old(self).line_nums@, offset as int, 0, None);
                match r {
                    Some((ln, d)) => spec_r == Some((ln, d as int)),
                    None => spec_r is None,
                }
            }),
    {
        let mut best: Option<(LineNum, i64)> = None;
        let mut i: usize = 0;
        while i < 24
            invariant
                offset <= i64::MAX as usize,
                offsets_bounded(self.line_nums@),
                self.line_nums@.len() == 24,
                self == old(self),
                i <= 24,
                ({
                    let b = match best {
                        Some((ln, d)) => Some((ln, d as int)),
                        None => None,
                    };
                    &&& prev_scan(self.line_nums@, offset as int, 0, None) == prev_scan(
                        self.line_nums@,
                        offset as int,
                        i as int,
                        b,
                    )
                    &&& match best {
                        Some((ln, d)) => 0 < d <= i64::MAX,
                        None => true,
                    }
                }),
            decreases 24 - i,
        {
            match self.line_nums[i] {
                Some(ln) => {
                    let d = offset as i64 - ln.offset as i64;
                    let bound = match best {
                        Some((_, bd)) => bd,
                        None => i64::MAX,
                    };
                    if d > 0 && d < bound {
                        best = Some((ln, d));
                    }
                },
                None => (),
            }
            i = i + 1;
        }
        best
    }

    /// The cached entry nearest to `offset` in either direction, with its
    /// signed distance; `None` when the cache is empty.
    pub fn closest(&mut self, offset: usize) -> (r: Option<(LineNum, i64)>)
        requires
            offset <= i64::MAX as usize,
            offsets_bounded(old(self).line_nums@),
        ensures
            *final(self) == *old(self),
            ({
                let spec_r = closest_scan(old(self).line_nums@, offset as int, 0, None);
                match r {
                    Some((ln, d)) => spec_r == Some((ln, d as int)),
                    None => spec_r is None,
                }
            }),
    {
        let mut best: Option<(LineNum, i64)> = None;
        let mut i: usize = 0;
        while i < 24
            invariant
                offset <= i64::MAX as usize,
                offsets_bounded(self.line_nums@),
                self.line_nums@.len() == 24,
                self == old(self),
                i <= 24,
                ({
                    let b = match best {
                        Some((ln, d)) => Some((ln, d as int)),
                        None => None,
                    };
                    &&& closest_scan(self.line_nums@, offset as int, 0, None) == closest_scan(
                        self.line_nums@,
                        offset as int,
                        i as int,
                        b,
                    )
                    &&& match best {
                        Some((ln, d)) => -(i64::MAX as int) <= d <= i64::MAX,
                        None => true,
                    }
                }),
            decreases 24 - i,
        {
            match self.line_nums[i] {
                Some(ln) => {
                    let d = ln.offset as i64 - offset as i64;
                    let a = if d < 0 {
                        -d
                    } else {
                        d
                    };
                    let bound = match best {
                        Some((_, bd)) => if bd < 0 {
                            -bd
                        } else {
                            bd
                        },
                        None => i64::MAX,
                    };
                    if a < bound {
                        best = Some((ln, d));
                    }
                },
                None => (),
            }
            i = i + 1;
        }
        best
    }
}

} // verus!
