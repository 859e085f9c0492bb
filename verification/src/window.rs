//! The editor's window.

use vstd::prelude::*;

use crate::arithmetic::{sums, Arithmetic};
use crate::exact::{is_exact, lemma_order_is_by_value};
use crate::pointer::Position;
use crate::shared_cells::{flag_is_loaded, flag_is_stored};
use crate::single::Single;
use crate::updates::UpdateFlag;

use std::sync::atomic::{AtomicBool, Ordering};
use std::sync::Arc;

verus! {

/// A rectangle in the window.
#[derive(Clone, Copy, PartialEq, Eq, Debug, Structural)]
pub struct BoundingBox {
    pub x: Single,
    pub y: Single,
    pub w: Single,
    pub h: Single,
}

/// `r` tells whether a position lies in a rectangle, whose right and lower edges are not part of it.
pub open spec fn is_inside<A: Arithmetic>(
    bounds: BoundingBox,
    position: Position,
    r: bool,
) -> bool {
    exists|right: Single, bottom: Single| #[trigger]
        sums::<A>(bounds.x, bounds.w, right) && #[trigger] sums::<A>(bounds.y, bounds.h, bottom)
            && r == (bounds.x.at_most(position.x) && position.x.below(right) && bounds.y.at_most(
            position.y,
        ) && position.y.below(bottom))
}

/// Whether a position lies in a rectangle.
pub fn contains<A: Arithmetic>(bounds: BoundingBox, position: Position) -> (r: bool)
    ensures
        is_inside::<A>(bounds, position, r),
{
    let right = A::sum(bounds.x, bounds.w);
    let bottom = A::sum(bounds.y, bounds.h);
    bounds.x.at_most(position.x) && position.x.below(right) && bounds.y.at_most(position.y)
        && position.y.below(bottom)
}

/// Whether the window is to be told that the pointer entered it: it moved inside of the window, but
/// the window does not know that it is there. The window forgets about the pointer when it is
/// dragged outside, and is not told by the system when it comes back.
pub fn restores_hover<A: Arithmetic>(
    is_over: bool,
    bounds: BoundingBox,
    position: Position,
) -> (r: bool)
    ensures
        is_over ==> !r,
        !is_over ==> is_inside::<A>(bounds, position, r),
{
    !is_over && contains::<A>(bounds, position)
}

/// A cell that is read and written as a whole.
#[verifier::external_type_specification]
#[verifier::external_body]
#[verifier::reject_recursive_types(T)]
pub struct ExAtomicCell<T>(crossbeam::atomic::AtomicCell<T>);

/// `crossbeam::atomic::AtomicCell::new`: a cell with the given value. Other threads may change it at
/// any time, so nothing is claimed of its value.
#[verifier::external_body]
fn new_scale_cell(scale: Option<Single>) -> crossbeam::atomic::AtomicCell<Option<Single>> {
    crossbeam::atomic::AtomicCell::new(scale)
}

/// `crossbeam::atomic::AtomicCell::load`: the current value. Other threads may change it at any time,
/// so nothing is claimed of it.
#[verifier::external_body]
fn load_scale(cell: &crossbeam::atomic::AtomicCell<Option<Single>>) -> Option<Single> {
    cell.load()
}

/// `crossbeam::atomic::AtomicCell::store`: replaces the current value.
#[verifier::external_body]
fn store_scale(cell: &crossbeam::atomic::AtomicCell<Option<Single>>, scale: Option<Single>) {
    cell.store(scale)
}

/// What the host and the window tell each other.
pub struct ViziaEditor {
    /// The scaling factor reported by the host, if any.
    scaling_factor: crossbeam::atomic::AtomicCell<Option<Single>>,
    /// Whether the window is open.
    open: Arc<AtomicBool>,
    /// Whether to tell the widgets that parameters changed during the next idle callback.
    emit_parameters_changed_event: UpdateFlag,
}

/// Whether the host may change the scale: not while the window is open, as there is no way to handle
/// that.
#[verifier::allow_in_spec]
pub fn accepts_scale(is_open: bool) -> bool
    returns
        !is_open,
{
    !is_open
}

impl ViziaEditor {
    /// The flag that tells whether the window is open.
    pub closed spec fn open_flag(self) -> Arc<AtomicBool> {
        self.open
    }

    /// The flag that tells whether parameters changed.
    pub closed spec fn changes(self) -> UpdateFlag {
        self.emit_parameters_changed_event
    }

    /// The cell for the scaling factor was made with the given value.
    pub closed spec fn is_scale_new(self, scale: Option<Single>) -> bool {
        call_ensures(new_scale_cell, (scale,), self.scaling_factor)
    }

    /// The given scaling factor was loaded.
    pub closed spec fn is_scale_loaded(self, scale: Option<Single>) -> bool {
        call_ensures(load_scale, (&self.scaling_factor,), scale)
    }

    /// The given scaling factor was stored.
    pub closed spec fn is_scale_stored(self, scale: Option<Single>) -> bool {
        call_ensures(store_scale, (&self.scaling_factor, scale), ())
    }

    /// An editor whose window is told about by the given flag.
    pub fn new(open: Arc<AtomicBool>) -> (editor: ViziaEditor)
        ensures
            editor.open_flag() == open,
            editor.is_scale_new(None),
            editor.changes().is_new(false),
    {
        ViziaEditor {
            scaling_factor: new_scale_cell(None),
            open,
            emit_parameters_changed_event: UpdateFlag::lowered(),
        }
    }

    /// The scaling factor reported by the host, if any.
    pub fn scale_factor(&self) -> (scale: Option<Single>)
        ensures
            self.is_scale_loaded(scale),
    {
        load_scale(&self.scaling_factor)
    }

    /// Takes the scaling factor that the host reports, and tells whether it was accepted.
    pub fn set_scale_factor(&self, factor: Single) -> (accepted: bool)
        ensures
            exists|is_open: bool| #[trigger]
                flag_is_loaded(*self.open_flag(), is_open) && accepted == accepts_scale(is_open),
            accepted ==> self.is_scale_stored(Some(factor)),
    {
        let is_open = self.open.load(Ordering::Acquire);
        assert(flag_is_loaded(*self.open_flag(), is_open));
        let accepted = accepts_scale(is_open);
        if accepted {
            store_scale(&self.scaling_factor, Some(factor));
        }
        accepted
    }

    /// The host or the user changed parameters.
    pub fn param_values_changed(&self)
        ensures
            self.changes().is_raised(),
    {
        self.emit_parameters_changed_event.raise();
    }

    /// Whether the widgets are to be told that parameters changed, once for any number of changes.
    pub fn take_parameters_changed(&self) -> (taken: bool)
        ensures
            self.changes().is_taken(taken),
    {
        self.emit_parameters_changed_event.take()
    }

    /// The window was opened.
    pub fn opened(&self)
        ensures
            flag_is_stored(*self.open_flag(), true),
    {
        self.open.store(true, Ordering::Release);
    }

    /// The window is no longer needed, where `window_is_open` tells whether the system still has it:
    /// on some hosts it may already have been destroyed. Tells whether it is to be closed.
    pub fn dropped(&self, window_is_open: bool) -> (closes: bool)
        ensures
            closes == window_is_open,
            flag_is_stored(*self.open_flag(), false),
    {
        self.open.store(false, Ordering::Release);
        window_is_open
    }
}

/// A position lies in a rectangle where it lies at most its width to the right of its left edge and
/// at most its height below its upper edge. The edges on the other side are not part of it.
pub proof fn law_rectangles_hold_what_lies_between_their_edges<A: Arithmetic>(
    bounds: BoundingBox,
    position: Position,
    r: bool,
)
    requires
        is_exact::<A>(),
        bounds.x.is_finite() && bounds.y.is_finite(),
        bounds.w.is_finite() && bounds.h.is_finite(),
        position.x.is_finite() && position.y.is_finite(),
        is_inside::<A>(bounds, position, r),
    ensures
        r == (0real <= position.x.value() - bounds.x.value() < bounds.w.value() && 0real
            <= position.y.value() - bounds.y.value() < bounds.h.value()),
{
    let (right, bottom) = choose|right: Single, bottom: Single| #[trigger]
        sums::<A>(bounds.x, bounds.w, right) && #[trigger] sums::<A>(bounds.y, bounds.h, bottom)
            && r == (bounds.x.at_most(position.x) && position.x.below(right) && bounds.y.at_most(
            position.y,
        ) && position.y.below(bottom));
    lemma_order_is_by_value(bounds.x, position.x);
    lemma_order_is_by_value(position.x, right);
    lemma_order_is_by_value(bounds.y, position.y);
    lemma_order_is_by_value(position.y, bottom);
}

} // verus!
