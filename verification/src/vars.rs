//! Where things are installed, & what this is.

use vstd::prelude::*;

verus! {

/// The root of the installation
pub const PREFIX: &'static str = "/usr/local";

/// Where configuration files are kept
pub const SYSCONFDIR: &'static str = "/usr/local/etc";

/// Where files that change are kept
pub const LOCALSTATEDIR: &'static str = "/usr/local/var";

/// The version of this program
pub const VERSION: &'static str = "0.3.5";

/// The author of this program
pub const AUTHOR: &'static str = "Michael Herstine <sp1ff@pobox.com>";

} // verus!
