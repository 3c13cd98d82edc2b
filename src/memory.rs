//! Bookkeeping of the pages that a code emitter allocates: rounding to whole
//! pages and placing each request inside the current page run.

use vstd::prelude::*;
use vstd::arithmetic::div_mod::{lemma_fundamental_div_mod, lemma_mod_multiples_basic};

verus! {

/// Rounds `size` up to the nearest multiple of `page_size`.
pub fn round_up_to_page_size(size: usize, page_size: usize) -> (r: usize)
    requires
        page_size > 0,
        size + page_size - 1 <= usize::MAX,
    ensures
        r % page_size == 0,
        size <= r,
        r < size + page_size,
{
    let x = size + (page_size - 1);
    let r = x - x % page_size;
    proof {
        lemma_fundamental_div_mod(x as int, page_size as int);
        lemma_mod_multiples_basic(x as int / page_size as int, page_size as int);
        assert(r == page_size * (x as int / page_size as int));
        assert((x as int / page_size as int) * page_size as int == page_size * (x as int / page_size as int)) by (nonlinear_arith);
    }
    r
}

/// Where a request for memory is placed.
#[derive(Clone, Copy, Debug, PartialEq, Eq, Structural)]
pub enum Placement {
    /// At this offset of the current page run.
    Current { offset: usize },
    /// At the start of a new page run.
    Fresh,
}

/// The smallest multiple of `align` that is at least `position`.
pub open spec fn aligned_up(position: int, align: int) -> int {
    if position % align == 0 {
        position
    } else {
        position + (align - position % align)
    }
}

/// Places a request of `size` bytes, aligned to `align`, given the position
/// reached in the current page run of `current_len` bytes. Returns the
/// placement and the position after it.
pub fn place(position: usize, current_len: usize, size: usize, align: usize) -> (r: (Placement, usize))
    requires
        align > 0,
        position + align <= usize::MAX,
    ensures
        ({
            let a = aligned_up(position as int, align as int);
            if a <= current_len && size <= current_len - a {
                r.0 == Placement::Current { offset: a as usize } && r.1 == a + size
            } else {
                r.0 == Placement::Fresh && r.1 == size
            }
        }),
{
    let mut pos = position;
    if pos % align != 0 {
        pos = pos + (align - pos % align);
    }
    if pos <= current_len && size <= current_len - pos {
        (Placement::Current { offset: pos }, pos + size)
    } else {
        (Placement::Fresh, size)
    }
}

} // verus!
