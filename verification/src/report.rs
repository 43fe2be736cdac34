//! The report renderer's flagging decisions.
//!
//! The terminal table itself is presentation and lives outside the library;
//! which cells it highlights is decided here, from the aggregation alone,
//! which is never mutated.

use vstd::prelude::*;

verus! {

/// An unrated track is always worth flagging: the zero-star cell is
/// highlighted exactly when its count is non-zero, sealed or not.
pub fn zero_star_flagged(count: usize) -> (r: bool)
    ensures
        r == (count != 0),
{
    count != 0
}

/// An unsealed directory's language coverage is worth re-checking: a
/// language cell is highlighted exactly when a sealed-directory list was
/// supplied and the row's directory is not in it. With no list supplied,
/// no language cell is ever highlighted.
pub fn language_flagged(sealed_list_supplied: bool, sealed: bool) -> (r: bool)
    ensures
        r == (sealed_list_supplied && !sealed),
{
    sealed_list_supplied && !sealed
}

} // verus!
