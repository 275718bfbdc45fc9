//! Tones of menu entries.
use vstd::prelude::*;

verus! {

/// Colour family of a menu entry.
#[derive(Debug, Clone, Copy, PartialEq, Eq, Structural)]
pub enum MenuTone {
    Neutral,
    Accent,
    Danger,
}

} // verus!
