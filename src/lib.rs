//! Layout and drag-reorder logic for an "elastic box": a row of equally sized
//! cards inside a container that grows to make room for a card dragged over it.
//!
//! Coordinates are integers in a unit chosen by the caller (for example a
//! thousandth of a pixel); sizes are non-negative. Where a layout needs half
//! of a width or of a card, the half is rounded down.
mod geometry;
mod reflow;
mod session;

pub use geometry::{calculate_box_size, calculate_child_translation, Size};
pub use reflow::{reorder_child_transforms, slot_index};
pub use session::{
    midpoint, resolve_index, DragEnter, DragLeave, DragSession, ElementId, ReorderChildren,
    Resize, TickOutput,
};
