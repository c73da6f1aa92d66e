//! Atomic cells of `portable_atomic`, with contracts over what they hold.
//!
//! A cell is changed here only through an exclusive borrow, and the cells are
//! private to the types that own them. So what a cell holds cannot change while
//! it is borrowed shared, and a load has one answer.

use portable_atomic::{AtomicBool, AtomicUsize};
use vstd::prelude::*;

verus! {

/// Declares `portable_atomic::AtomicBool`. Nothing is said of what is inside.
#[verifier::external_type_specification]
#[verifier::external_body]
pub struct ExAtomicBool(AtomicBool);

/// Declares `portable_atomic::AtomicUsize`. Nothing is said of what is inside.
#[verifier::external_type_specification]
#[verifier::external_body]
pub struct ExAtomicUsize(AtomicUsize);

/// What an `AtomicBool` holds.
pub uninterp spec fn flag_value(cell: AtomicBool) -> bool;

/// What an `AtomicUsize` holds.
pub uninterp spec fn cursor_value(cell: AtomicUsize) -> usize;

/// Calls `AtomicBool::new`: the new cell holds `value`.
#[verifier::external_body]
pub(crate) fn new_flag(value: bool) -> (cell: AtomicBool)
    ensures
        flag_value(cell) == value,
{
    AtomicBool::new(value)
}

/// Calls `AtomicBool::load` with acquire ordering: it returns what the cell holds.
#[verifier::external_body]
pub(crate) fn load_flag(cell: &AtomicBool) -> (value: bool)
    ensures
        value == flag_value(*cell),
{
    cell.load(core::sync::atomic::Ordering::Acquire)
}

/// Calls `AtomicBool::store` with release ordering: the cell holds `value`
/// afterwards.
#[verifier::external_body]
pub(crate) fn store_flag(cell: &mut AtomicBool, value: bool)
    ensures
        flag_value(*final(cell)) == value,
{
    cell.store(value, core::sync::atomic::Ordering::Release)
}

/// Calls `AtomicBool::swap` with acquire and release ordering: the cell holds
/// `value` afterwards, and what it held before is returned.
#[verifier::external_body]
pub(crate) fn swap_flag(cell: &mut AtomicBool, value: bool) -> (before: bool)
    ensures
        before == flag_value(*old(cell)),
        flag_value(*final(cell)) == value,
{
    cell.swap(value, core::sync::atomic::Ordering::AcqRel)
}

/// Calls `AtomicUsize::new`: the new cell holds `value`.
#[verifier::external_body]
pub(crate) fn new_cursor(value: usize) -> (cell: AtomicUsize)
    ensures
        cursor_value(cell) == value,
{
    AtomicUsize::new(value)
}

/// Calls `AtomicUsize::load` with acquire ordering: it returns what the cell holds.
#[verifier::external_body]
pub(crate) fn load_cursor(cell: &AtomicUsize) -> (value: usize)
    ensures
        value == cursor_value(*cell),
{
    cell.load(core::sync::atomic::Ordering::Acquire)
}

/// Calls `AtomicUsize::store` with release ordering: the cell holds `value`
/// afterwards.
#[verifier::external_body]
pub(crate) fn store_cursor(cell: &mut AtomicUsize, value: usize)
    ensures
        cursor_value(*final(cell)) == value,
{
    cell.store(value, core::sync::atomic::Ordering::Release)
}

} // verus!
