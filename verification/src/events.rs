//! The raw click a display backend reports: window coordinates only.
//! Translating it into an outbound event envelope is the session's job.

use vstd::prelude::*;

verus! {

/// A pointer click at window coordinates, as polled from the display.
#[derive(Debug, Clone, Copy)]
pub struct ClickEvent {
    pub x: i32,
    pub y: i32,
}

} // verus!
