//! Bounded numeric selections.
//!
//! Every menu asks for a whole number within bounds that it states. A number
//! outside the bounds selects nothing: the caller says which numbers are
//! valid and asks again.

use vstd::prelude::*;

verus! {

/// Whether `input` lies in the closed range from `lo` to `hi`.
pub open spec fn within(input: int, lo: int, hi: int) -> bool {
    lo <= input <= hi
}

/// The selection that `input` makes on a menu numbered from `lo` to `hi`.
pub fn accept(input: i64, lo: i64, hi: i64) -> (choice: Option<i64>)
    ensures
        choice == (if within(input as int, lo as int, hi as int) {
            Some(input)
        } else {
            None::<i64>
        }),
{
    if lo <= input && input <= hi {
        Some(input)
    } else {
        None
    }
}

/// The position, counted from zero, that `input` selects among `count` items
/// numbered from one.
pub open spec fn position_of(input: int, count: int) -> Option<int> {
    if within(input, 1, count) {
        Some(input - 1)
    } else {
        None
    }
}

/// The position that `input` selects among `count` items numbered from one.
pub fn accept_position(input: i64, count: usize) -> (position: Option<usize>)
    ensures
        match position_of(input as int, count as int) {
            Some(at) => position == Some(at as usize) && at < count,
            None => position is None,
        },
{
    if input < 1 {
        return None;
    }
    let wanted: u64 = input as u64;
    if wanted <= count as u64 {
        Some((wanted - 1) as usize)
    } else {
        None
    }
}

} // verus!
