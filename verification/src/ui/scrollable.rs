//! Scrollbar sizes for the two kinds of scrollable areas.
use vstd::prelude::*;

verus! {

/// Where a scrollbar is shown.
#[derive(Debug, Clone, Copy, PartialEq, Eq, Structural)]
pub enum ScrollbarRole {
    /// A full pane (file lists, editors).
    Pane,
    /// A scroller inside a row or toolbar.
    Inline,
}

/// Sizes of a scrollbar, in pixels.
#[derive(Debug, Clone, Copy, PartialEq, Eq, Structural)]
pub struct ScrollbarMetrics {
    pub width: u16,
    pub scroller_width: u16,
    pub margin: u16,
}

/// The sizes used for a scrollbar role.
pub fn scrollbar_metrics(role: ScrollbarRole) -> (m: ScrollbarMetrics)
    ensures
        m == match role {
            ScrollbarRole::Pane => ScrollbarMetrics { width: 5, scroller_width: 3, margin: 1 },
            ScrollbarRole::Inline => ScrollbarMetrics { width: 3, scroller_width: 2, margin: 0 },
        },
{
    match role {
        ScrollbarRole::Pane => ScrollbarMetrics { width: 5, scroller_width: 3, margin: 1 },
        ScrollbarRole::Inline => ScrollbarMetrics { width: 3, scroller_width: 2, margin: 0 },
    }
}

} // verus!
