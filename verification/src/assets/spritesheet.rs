use vstd::prelude::*;

verus! {

/// A rectangle in pixels.
#[derive(Clone, Copy, Debug, PartialEq, Eq, Structural)]
pub struct FrameData {
    pub x: usize,
    pub y: usize,
    pub w: usize,
    pub h: usize,
}

/// A size in pixels.
#[derive(Clone, Copy, Debug, PartialEq, Eq, Structural)]
pub struct Size {
    pub w: usize,
    pub h: usize,
}

/// One named picture of a sprite sheet: where it lies in the sheet's image
/// and how large it is drawn.
#[derive(Debug)]
pub struct Frame {
    pub filename: String,
    pub frame: FrameData,
    pub rotated: bool,
    pub trimmed: bool,
    pub sprite_source_size: FrameData,
    pub source_size: Size,
}

/// Facts about the sheet as a whole: the size of its image.
#[derive(Clone, Copy, Debug, PartialEq, Eq, Structural)]
pub struct Meta {
    pub size: Size,
}

/// A sprite sheet: the frames packed into one image.
#[derive(Debug)]
pub struct Spritesheet {
    pub frames: Vec<Frame>,
    pub meta: Meta,
}

/// The position of the first frame called `name`, if any.
pub open spec fn first_frame_named(frames: Seq<Frame>, name: Seq<char>, from: int) -> Option<int>
    decreases frames.len() - from,
{
    if from < 0 || from >= frames.len() {
        None
    } else if frames[from].filename@ == name {
        Some(from)
    } else {
        first_frame_named(frames, name, from + 1)
    }
}

impl Spritesheet {
    /// The position of the first frame called `name`, or `None` when the
    /// sheet has no such frame.
    pub fn frame_index(&self, name: &str) -> (r: Option<usize>)
        ensures
            match r {
                Some(i) => first_frame_named(self.frames@, name@, 0) == Some(i as int),
                None => first_frame_named(self.frames@, name@, 0) is None,
            },
    {
        let wanted = String::from_str(name);
        let n = self.frames.len();
        for i in 0..n
            invariant
                n == self.frames@.len(),
                wanted@ == name@,
                first_frame_named(self.frames@, name@, 0) == first_frame_named(self.frames@, name@, i as int),
        {
            if self.frames[i].filename == wanted {
                return Some(i);
            }
        }
        None
    }
}

} // verus!
