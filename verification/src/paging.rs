//! Window boundaries for paging through a file of known size.
//!
//! A file is mapped one bounded window at a time: every window is one page
//! long except the last, which is truncated to what remains. The page size
//! is read once at startup and must be a positive multiple of sixteen, so
//! that every window but the last holds whole dump lines.

use vstd::prelude::*;

verus! {

/// The length of the next window when `remaining` bytes are left and
/// windows are bounded by `page`: the smaller of the two.
pub open spec fn chunk_len(remaining: int, page: int) -> int {
    if remaining > page {
        page
    } else {
        remaining
    }
}

/// How many windows a file of `total` bytes takes with windows bounded by
/// `page` bytes: zero for an empty file, else one per started page.
pub open spec fn window_count(total: nat, page: nat) -> nat
    decreases total,
{
    if page == 0 || total == 0 {
        0
    } else if total <= page {
        1
    } else {
        1 + window_count((total - page) as nat, page)
    }
}

/// Walks the windows of one file: holds the total size, the page size and
/// the absolute offset of the next window.
pub struct Pager {
    pub total: u64,
    pub page: u64,
    pub offset: u64,
}

impl Pager {
    /// A valid pager: a positive page size that holds whole sixteen-byte
    /// lines, and an offset that never passes the end of the file.
    pub open spec fn wf(self) -> bool {
        &&& self.page > 0
        &&& self.page % 16 == 0
        &&& self.offset <= self.total
    }

    /// How many bytes are left to map.
    pub open spec fn remaining(self) -> int {
        self.total - self.offset
    }

    /// A pager at the start of a file of `total` bytes, mapping windows of
    /// at most `page` bytes.
    pub fn new(total: u64, page: u64) -> (r: Pager)
        requires
            page > 0,
            page % 16 == 0,
        ensures
            r.wf(),
            r.total == total,
            r.page == page,
            r.offset == 0,
    {
        Pager { total, page, offset: 0 }
    }

    /// The next window to map, as its absolute offset and length, or
    /// `None` once the whole file has been consumed. Every window returned
    /// is nonempty, at most one page long, ends within the file, and is a
    /// whole number of dump lines unless it reaches the end of the file.
    pub fn next_window(&mut self) -> (r: Option<(u64, u64)>)
        requires
            old(self).wf(),
        ensures
            final(self).wf(),
            final(self).total == old(self).total,
            final(self).page == old(self).page,
            old(self).offset == old(self).total ==> r is None && final(self).offset == old(
                self,
            ).offset,
            old(self).offset < old(self).total ==> (match r {
                Some(w) => {
                    &&& w.0 == old(self).offset
                    &&& w.1 == chunk_len(old(self).remaining(), old(self).page as int)
                    &&& 0 < w.1 <= old(self).page
                    &&& w.0 as int + w.1 as int <= final(self).total
                    &&& final(self).offset == w.0 + w.1
                    &&& (w.1 < old(self).page ==> final(self).offset == final(self).total)
                    &&& (w.1 as int % 16 == 0 || final(self).offset == final(self).total)
                    &&& window_count(
                        (final(self).total - final(self).offset) as nat,
                        final(self).page as nat,
                    ) + 1 == window_count(
                        (old(self).total - old(self).offset) as nat,
                        old(self).page as nat,
                    )
                },
                None => false,
            }),
    {
        if self.offset == self.total {
            return None;
        }
        let remaining: u64 = self.total - self.offset;
        let len: u64 = if remaining > self.page {
            self.page
        } else {
            remaining
        };
        let start: u64 = self.offset;
        self.offset = start + len;
        Some((start, len))
    }
}

} // verus!
