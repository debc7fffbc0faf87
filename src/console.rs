use vstd::prelude::*;

verus! {

/// Whether the console output pane is shown; the menu layer owns one of these.
pub struct ConsoleVisibility {
    pub visible: bool,
}

impl ConsoleVisibility {
    /// The console starts hidden.
    pub fn new() -> (r: ConsoleVisibility)
        ensures
            !r.visible,
    {
        ConsoleVisibility { visible: false }
    }

    /// Flips the flag and returns its new value.
    pub fn toggle(&mut self) -> (r: bool)
        ensures
            final(self).visible == !old(self).visible,
            r == final(self).visible,
    {
        self.visible = !self.visible;
        self.visible
    }
}

} // verus!
