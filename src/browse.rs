//! Decisions of an index browser: checking a typed index, moving the
//! cursor, and the identifiers of the rows on screen.
use vstd::prelude::*;
use crate::identifier::{identifier_text, index_to_uuid, INDEX_LIMIT};

verus! {

/// The verdict on an index typed by a user.
#[derive(Debug, Clone, Copy, PartialEq, Eq, Structural)]
pub enum IndexStatus {
    /// A number below `INDEX_LIMIT`.
    Valid,
    /// The text is not an unsigned integer.
    NotANumber,
    /// A number, but not below `INDEX_LIMIT`.
    OutOfBounds,
}

/// Judges the result of parsing typed text as an unsigned integer
/// (`None` when it did not parse).
pub fn validate_index(parsed: Option<u128>) -> (s: IndexStatus)
    ensures
        s == (match parsed {
            None => IndexStatus::NotANumber,
            Some(i) => if i < INDEX_LIMIT {
                IndexStatus::Valid
            } else {
                IndexStatus::OutOfBounds
            },
        }),
{
    match parsed {
        None => IndexStatus::NotANumber,
        Some(i) => if i < INDEX_LIMIT {
            IndexStatus::Valid
        } else {
            IndexStatus::OutOfBounds
        },
    }
}

/// The cursor one row further down; past the last index it wraps to 0.
pub fn scroll_down(start: u128) -> (r: u128)
    ensures
        r == (if start + 1 < INDEX_LIMIT {
            start + 1
        } else {
            0
        }),
{
    if start < INDEX_LIMIT - 1 {
        start + 1
    } else {
        0
    }
}

/// The cursor one row further up; it stays at 0 at the top, and a cursor
/// whose predecessor is out of range goes to 0.
pub fn scroll_up(start: u128) -> (r: u128)
    ensures
        r == (if 0 < start && start - 1 < INDEX_LIMIT {
            start - 1
        } else {
            0
        }),
{
    if 0 < start && start - 1 < INDEX_LIMIT {
        start - 1
    } else {
        0
    }
}

/// Number of indices in `start .. start + count` that are below `INDEX_LIMIT`.
pub open spec fn rows_in_range(start: u128, count: usize) -> int {
    if start >= INDEX_LIMIT {
        0
    } else if count < INDEX_LIMIT - start {
        count as int
    } else {
        INDEX_LIMIT - start
    }
}

/// The identifiers of the `count` consecutive indices from `start`, stopping
/// at the last index.
pub fn visible_rows(start: u128, count: usize) -> (rows: Vec<String>)
    ensures
        rows.len() == rows_in_range(start, count),
        forall|k: int| 0 <= k < rows.len() ==> #[trigger] rows[k]@ == identifier_text(
            (start + k) as u128,
        ),
{
    let mut rows: Vec<String> = Vec::new();
    if start >= INDEX_LIMIT {
        return rows;
    }
    let mut k: usize = 0;
    while k < count && start + (k as u128) < INDEX_LIMIT
        invariant
            start < INDEX_LIMIT,
            k <= count,
            start + k <= INDEX_LIMIT,
            rows.len() == k,
            forall|j: int| 0 <= j < k ==> #[trigger] rows[j]@ == identifier_text(
                (start + j) as u128,
            ),
        decreases count - k,
    {
        let index = start + (k as u128);
        match index_to_uuid(index) {
            Ok(text) => {
                rows.push(text);
            },
            Err(_) => {
                return rows;
            },
        }
        k = k + 1;
    }
    rows
}

} // verus!
