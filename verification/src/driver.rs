//! The paged dump pipeline over in-memory bytes.
//!
//! A file is dumped by walking page-bounded windows and rendering each one
//! as it is mapped. Because every window except the last is a whole number
//! of dump lines, the windows' renderings concatenate to exactly the dump
//! of the whole file; `dump_paged` carries that proof, so a caller that
//! feeds windows one at a time prints the same bytes as a caller that
//! renders the file in one piece.

use vstd::prelude::*;

use crate::laws::lemma_window_split;
use crate::paging::Pager;
use crate::render::{dump_trailer, dump_window, file_dump_rep, window_rep};

verus! {

/// Render the dump of `bytes` by paging through windows of at most `page`
/// bytes, exactly as a memory-mapped run does: the result is the complete
/// dump, byte for byte, of the whole input.
pub fn dump_paged(bytes: &[u8], page: u64) -> (r: Vec<u8>)
    requires
        page > 0,
        page % 16 == 0,
    ensures
        r@ == file_dump_rep(bytes@),
{
    let total_len: usize = bytes.len();
    let total: u64 = total_len as u64;
    let mut pager = Pager::new(total, page);
    let mut out: Vec<u8> = Vec::new();
    proof {
        assert(bytes@.take(0) =~= Seq::<u8>::empty());
        assert(out@ =~= window_rep(0, bytes@.take(0)));
    }
    while pager.offset < pager.total
        invariant
            pager.wf(),
            pager.total == total,
            pager.page == page,
            total == bytes@.len(),
            total_len == bytes@.len(),
            pager.offset as int % 16 == 0 || pager.offset == total,
            out@ == window_rep(0, bytes@.take(pager.offset as int)),
        decreases pager.total - pager.offset,
    {
        match pager.next_window() {
            None => {
                proof {
                    assert(false);
                }
            },
            Some((start, len)) => {
                proof {
                    assert(start as int + len as int <= total as int);
                    assert(total as int == total_len as int);
                    assert(total_len as int <= usize::MAX as int);
                }
                let s: usize = start as usize;
                let e: usize = (start + len) as usize;
                let window: &[u8] = &bytes[s..e];
                proof {
                    assert(window@ =~= bytes@.subrange(
                        start as int,
                        start as int + len as int,
                    ));
                }
                dump_window(&mut out, window, start);
                proof {
                    lemma_window_split(
                        bytes@.take(start as int + len as int),
                        0,
                        start as int,
                    );
                    assert(bytes@.take(start as int + len as int).take(start as int) =~= bytes@.take(
                        start as int,
                    ));
                    assert(bytes@.take(start as int + len as int).skip(start as int) =~= bytes@.subrange(
                        start as int,
                        start as int + len as int,
                    ));
                    assert(out@ =~= window_rep(0, bytes@.take(pager.offset as int)));
                }
            },
        }
    }
    proof {
        assert(bytes@.take(total as int) =~= bytes@);
    }
    if total_len > 0 {
        dump_trailer(&mut out, total);
    }
    proof {
        assert(out@ =~= file_dump_rep(bytes@));
    }
    out
}

} // verus!
