//! The decisions of a paginated fetch of contract records.

use vstd::prelude::*;

verus! {

/// Records asked for per page.
pub const PAGE_SIZE: u32 = 1000;

/// What to do once a page has been fetched and appended.
#[derive(Clone, Copy, Debug, PartialEq, Eq, Structural)]
pub enum PageStep {
    /// Fetch the page starting at `offset`.
    Fetch { offset: u32 },
    /// Stop, keeping the first `keep` records gathered.
    Stop { keep: usize },
}

/// The step after the page at `offset` brought `batch_len` records, `total` being the number
/// gathered so far (this page included), under an optional cap of `max_records`.
pub open spec fn next_step(offset: u32, total: usize, batch_len: usize, max_records: Option<u32>) -> PageStep {
    if batch_len < PAGE_SIZE {
        PageStep::Stop { keep: total }
    } else if max_records is Some && total >= max_records.unwrap() {
        PageStep::Stop { keep: max_records.unwrap() as usize }
    } else {
        PageStep::Fetch { offset: (offset + PAGE_SIZE) as u32 }
    }
}

/// Decides the step after a page: a short page ends the fetch with everything gathered; a full
/// one moves to the next offset, unless the cap is reached, which ends it truncated to the cap.
pub fn after_page(offset: u32, total: usize, batch_len: usize, max_records: Option<u32>) -> (r: PageStep)
    requires
        batch_len >= PAGE_SIZE ==> offset + PAGE_SIZE <= u32::MAX,
    ensures
        r == next_step(offset, total, batch_len, max_records),
{
    if batch_len < PAGE_SIZE as usize {
        return PageStep::Stop { keep: total };
    }
    match max_records {
        Some(m) => {
            if total >= m as usize {
                return PageStep::Stop { keep: m as usize };
            }
        },
        None => {},
    }
    PageStep::Fetch { offset: offset + PAGE_SIZE }
}

} // verus!
