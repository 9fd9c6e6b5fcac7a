//! The home screen's model.  It carries no state of its own; everything
//! it shows is static.

use vstd::prelude::*;

verus! {

/// The home screen.
pub struct MainMenu;

impl MainMenu {
    /// The home screen, ready to show.
    pub fn new() -> MainMenu {
        MainMenu
    }
}

} // verus!
