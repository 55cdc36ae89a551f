use vstd::prelude::*;

verus! {

/// A request, raised while a frame runs, to act on the screens: `action`
/// names what to do ("start", "restart" or a screen-specific action) and
/// `screen` names the screen it concerns. Empty strings mean "no request".
pub struct ScreenChange {
    pub screen: String,
    pub action: String,
}

impl ScreenChange {
    /// A change that requests nothing.
    pub fn new() -> (c: ScreenChange)
        ensures
            c.screen@ == Seq::<char>::empty(),
            c.action@ == Seq::<char>::empty(),
    {
        ScreenChange { screen: String::new(), action: String::new() }
    }

    /// Forgets the pending request.
    pub fn reset(&mut self)
        ensures
            final(self).screen@ == Seq::<char>::empty(),
            final(self).action@ == Seq::<char>::empty(),
    {
        self.screen = String::new();
        self.action = String::new();
    }

    /// Records a request.
    pub fn set(&mut self, screen: String, action: String)
        ensures
            final(self).screen@ == screen@,
            final(self).action@ == action@,
    {
        self.screen = screen;
        self.action = action;
    }
}

impl Clone for ScreenChange {
    fn clone(&self) -> (c: Self)
        ensures
            c.screen@ == self.screen@,
            c.action@ == self.action@,
    {
        ScreenChange { screen: self.screen.clone(), action: self.action.clone() }
    }
}

impl Default for ScreenChange {
    fn default() -> (c: Self)
        ensures
            c.screen@ == Seq::<char>::empty(),
            c.action@ == Seq::<char>::empty(),
    {
        ScreenChange::new()
    }
}

} // verus!
