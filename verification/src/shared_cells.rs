//! What is handed to the cells that threads share, and what they hand back.
//!
//! Other threads may change a cell at any time, so nothing is claimed of the value in it. Each
//! relation below is that of one operation on one cell: what a call with these arguments comes to.
//! It is known only of calls that were made.

use vstd::prelude::*;

use std::sync::atomic::{AtomicBool, AtomicU32, AtomicU8, Ordering};

verus! {

/// `cell` was made with the given value.
pub open spec fn byte_is_new(value: u8, cell: AtomicU8) -> bool {
    call_ensures(AtomicU8::new, (value,), cell)
}

/// The given value was stored in `cell`.
pub open spec fn byte_is_stored(cell: AtomicU8, value: u8) -> bool {
    call_ensures(AtomicU8::store, (&cell, value, Ordering::Release), ())
}

/// The given value was loaded from `cell`.
pub open spec fn byte_is_loaded(cell: AtomicU8, value: u8) -> bool {
    call_ensures(AtomicU8::load, (&cell, Ordering::Acquire), value)
}

/// An exchange of `current` for `new` was tried on `cell`, and came to `outcome`: it succeeds only
/// where the cell holds `current`.
pub open spec fn byte_is_exchanged(
    cell: AtomicU8,
    current: u8,
    new: u8,
    outcome: Result<u8, u8>,
) -> bool {
    call_ensures(
        AtomicU8::compare_exchange,
        (&cell, current, new, Ordering::AcqRel, Ordering::Acquire),
        outcome,
    )
}

/// `cell` was made with the given value.
pub open spec fn word_is_new(value: u32, cell: AtomicU32) -> bool {
    call_ensures(AtomicU32::new, (value,), cell)
}

/// The given value was stored in `cell`.
pub open spec fn word_is_stored(cell: AtomicU32, value: u32) -> bool {
    call_ensures(AtomicU32::store, (&cell, value, Ordering::Release), ())
}

/// The given value was loaded from `cell`.
pub open spec fn word_is_loaded(cell: AtomicU32, value: u32) -> bool {
    call_ensures(AtomicU32::load, (&cell, Ordering::Acquire), value)
}

/// `cell` was made with the given value.
pub open spec fn flag_is_new(value: bool, cell: AtomicBool) -> bool {
    call_ensures(AtomicBool::new, (value,), cell)
}

/// The given value was stored in `cell`, without ordering other accesses.
pub open spec fn flag_is_set(cell: AtomicBool, value: bool) -> bool {
    call_ensures(AtomicBool::store, (&cell, value, Ordering::Relaxed), ())
}

/// The given value was loaded from `cell`, without ordering other accesses.
pub open spec fn flag_is_read(cell: AtomicBool, value: bool) -> bool {
    call_ensures(AtomicBool::load, (&cell, Ordering::Relaxed), value)
}

/// The given value was stored in `cell`.
pub open spec fn flag_is_stored(cell: AtomicBool, value: bool) -> bool {
    call_ensures(AtomicBool::store, (&cell, value, Ordering::Release), ())
}

/// The given value was loaded from `cell`.
pub open spec fn flag_is_loaded(cell: AtomicBool, value: bool) -> bool {
    call_ensures(AtomicBool::load, (&cell, Ordering::Acquire), value)
}

/// An exchange of `current` for `new` was tried on `cell`, and came to `outcome`: it succeeds only
/// where the cell holds `current`.
pub open spec fn flag_is_exchanged(
    cell: AtomicBool,
    current: bool,
    new: bool,
    outcome: Result<bool, bool>,
) -> bool {
    call_ensures(
        AtomicBool::compare_exchange,
        (&cell, current, new, Ordering::AcqRel, Ordering::Acquire),
        outcome,
    )
}

/// What an exchange of `current` for `new` comes to on a cell that holds `held` and that no other
/// thread accesses meanwhile, and what the cell holds then.
pub open spec fn exchange_alone<T>(held: T, current: T, new: T) -> (Result<T, T>, T) {
    if held == current {
        (Ok(held), new)
    } else {
        (Err(held), held)
    }
}

} // verus!
