use vstd::prelude::*;
use vstd::hash_map::StringHashMap;

verus! {

/// Named animations (each a list of frame names) and the animation being
/// shown: its name, the index of the frame being shown and whether it runs.
/// The timing of the frames is kept by the caller.
pub struct AnimationSheet {
    pub animations: StringHashMap<Vec<String>>,
    pub current_animation: String,
    pub current_index: usize,
    pub playing: bool,
}

impl AnimationSheet {
    /// The current animation is either unset (the empty name) or one of the
    /// sheet's animations.
    pub open spec fn wf(&self) -> bool {
        self.current_animation@.len() == 0 || self.animations@.contains_key(self.current_animation@)
    }

    /// The frames of the current animation.
    pub open spec fn current_frames(&self) -> Vec<String> {
        self.animations@[self.current_animation@]
    }

    /// A sheet without animations, showing nothing, not running.
    pub fn new() -> (s: AnimationSheet)
        ensures
            s.animations@ == Map::<Seq<char>, Vec<String>>::empty(),
            s.current_animation@ == Seq::<char>::empty(),
            s.current_index == 0,
            !s.playing,
            s.wf(),
    {
        AnimationSheet {
            animations: StringHashMap::new(),
            current_animation: String::new(),
            current_index: 0,
            playing: false,
        }
    }

    /// Adds (or replaces) the animation `name`; the first animation added to
    /// a sheet that shows nothing becomes the current one.
    pub fn add_animation(&mut self, name: String, frames: Vec<String>)
        ensures
            final(self).animations@ == old(self).animations@.insert(name@, frames),
            final(self).current_animation@ == if old(self).current_animation@.len() == 0 {
                name@
            } else {
                old(self).current_animation@
            },
            final(self).current_index == old(self).current_index,
            final(self).playing == old(self).playing,
            old(self).wf() ==> final(self).wf(),
    {
        if self.current_animation.as_str().is_empty() {
            self.current_animation = name.clone();
        }
        self.animations.insert(name, frames);
    }

    /// The frames of the current animation.
    pub fn get_current_animation(&self) -> (frames: &Vec<String>)
        requires
            self.animations@.contains_key(self.current_animation@),
        ensures
            *frames == self.current_frames(),
    {
        self.animations.get(self.current_animation.as_str()).unwrap()
    }

    /// Whether the current animation exists and has a frame at the current index.
    pub fn has_current_frame(&self) -> (r: bool)
        ensures
            r == (self.animations@.contains_key(self.current_animation@) && self.current_index
                < self.current_frames()@.len()),
    {
        match self.animations.get(self.current_animation.as_str()) {
            None => false,
            Some(frames) => self.current_index < frames.len(),
        }
    }

    /// The name of the frame being shown.
    pub fn get_current_frame(&self) -> (frame: &String)
        requires
            self.animations@.contains_key(self.current_animation@),
            self.current_index < self.current_frames()@.len(),
        ensures
            *frame == self.current_frames()@[self.current_index as int],
    {
        let frames = self.get_current_animation();
        &frames[self.current_index]
    }

    /// Switches to the animation `name`, from its first frame.
    pub fn set_current_animation(&mut self, name: &str)
        requires
            old(self).animations@.contains_key(name@),
        ensures
            final(self).current_animation@ == name@,
            final(self).current_index == 0,
            final(self).animations@ == old(self).animations@,
            final(self).playing == old(self).playing,
            final(self).wf(),
    {
        self.current_animation = name.to_owned();
        self.current_index = 0;
    }
}

} // verus!
