use vstd::prelude::*;

verus! {

/// A static image: the name of a frame in one of the loaded sprite sheets.
pub struct Sprite {
    pub frame_name: String,
}

impl Sprite {
    /// Creates a sprite that shows the frame called `frame_name`.
    pub fn new(frame_name: &str) -> (s: Sprite)
        ensures
            s.frame_name@ == frame_name@,
    {
        Sprite { frame_name: frame_name.to_owned() }
    }
}

impl Clone for Sprite {
    fn clone(&self) -> (s: Self)
        ensures
            s.frame_name@ == self.frame_name@,
    {
        Sprite { frame_name: self.frame_name.clone() }
    }
}

} // verus!
