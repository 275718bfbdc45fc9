//! Messages and descriptors of the log view's tab bar.
use vstd::prelude::*;

verus! {

/// Messages of the tab bar.
#[derive(Debug, Clone, Copy, PartialEq, Eq, Structural)]
pub enum LogTabsMessage {
    /// Switch to the tab at this index.
    SelectTab(usize),
    /// Close the tab at this index (never sent for permanent tabs).
    CloseTab(usize),
    /// Open a new empty tab.
    NewTab,
}

/// One tab of the bar.
pub struct TabDescriptor<'a> {
    pub label: &'a str,
    pub is_active: bool,
    pub is_closable: bool,
}

} // verus!
