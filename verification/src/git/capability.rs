//! Single source for App Store sandbox capability gates.
//!
//! This library is built for the desktop channel only: the store channel has
//! no build switch here, so every gate reports the desktop answer.
use vstd::prelude::*;

verus! {

/// Whether this build is the sandboxed App Store build (never, for this crate).
pub open spec fn spec_is_app_store_build() -> bool {
    false
}

/// `true` only for the sandboxed store build.
pub fn is_app_store_build() -> (b: bool)
    ensures
        b == spec_is_app_store_build(),
{
    false
}

/// Spawn `git` from PATH. Off in the store build.
pub fn system_git() -> (b: bool)
    ensures
        b == !spec_is_app_store_build(),
{
    !is_app_store_build()
}

/// Check GitHub Releases for updates. Off in the store build.
pub fn github_updater() -> (b: bool)
    ensures
        b == !spec_is_app_store_build(),
{
    !is_app_store_build()
}

/// Read `~/.ssh` and ssh-agent. Off in the store build.
pub fn implicit_home_ssh() -> (b: bool)
    ensures
        b == !spec_is_app_store_build(),
{
    !is_app_store_build()
}

/// Persist and restore user-selected folders with security-scoped bookmarks:
/// only the store build on macOS does so.
pub fn requires_bookmarks() -> (b: bool)
    ensures
        b == false,
        b ==> spec_is_app_store_build(),
{
    is_app_store_build() && false
}

} // verus!
