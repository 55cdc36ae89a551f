use vstd::prelude::*;
use vstd::hash_map::StringHashMap;
use crate::assets::spritesheet::{Frame, Spritesheet, first_frame_named};

verus! {

/// The frame index after the frames of sheet `name` are registered: each
/// frame's name leads to `name`, later registrations replacing earlier ones.
pub open spec fn register_frames(
    index: Map<Seq<char>, String>,
    frames: Seq<Frame>,
    name: String,
) -> Map<Seq<char>, String>
    decreases frames.len(),
{
    if frames.len() == 0 {
        index
    } else {
        register_frames(index, frames.drop_last(), name).insert(frames.last().filename@, name)
    }
}

/// The loaded sprite sheets by name, and for every frame name the sheet
/// that holds it. The sheets' textures are held by the caller.
pub struct SpritesheetMap {
    pub frame_to_sheet_name: StringHashMap<String>,
    pub sheet_name_map: StringHashMap<Spritesheet>,
}

impl SpritesheetMap {
    /// The frame `frame_name` can be drawn: it is indexed, its sheet is
    /// loaded and the sheet has a frame of that name.
    pub open spec fn locatable(&self, frame_name: Seq<char>) -> bool {
        &&& self.frame_to_sheet_name@.contains_key(frame_name)
        &&& self.sheet_name_map@.contains_key(self.frame_to_sheet_name@[frame_name]@)
        &&& first_frame_named(
            self.sheet_name_map@[self.frame_to_sheet_name@[frame_name]@].frames@,
            frame_name,
            0,
        ) is Some
    }

    /// No sheets.
    pub fn new() -> (m: SpritesheetMap)
        ensures
            m.frame_to_sheet_name@ == Map::<Seq<char>, String>::empty(),
            m.sheet_name_map@ == Map::<Seq<char>, Spritesheet>::empty(),
    {
        SpritesheetMap { frame_to_sheet_name: StringHashMap::new(), sheet_name_map: StringHashMap::new() }
    }

    /// Loads the sheet `name`: each of its frames now leads to it, and it
    /// replaces any sheet loaded under the same name.
    pub fn add_sheet(&mut self, name: String, spritesheet: Spritesheet)
        ensures
            final(self).frame_to_sheet_name@ == register_frames(
                old(self).frame_to_sheet_name@,
                spritesheet.frames@,
                name,
            ),
            final(self).sheet_name_map@ == old(self).sheet_name_map@.insert(name@, spritesheet),
    {
        let n = spritesheet.frames.len();
        let ghost start = self.frame_to_sheet_name@;
        for i in 0..n
            invariant
                n == spritesheet.frames@.len(),
                self.frame_to_sheet_name@ == register_frames(start, spritesheet.frames@.take(i as int), name),
                self.sheet_name_map@ == old(self).sheet_name_map@,
        {
            self.frame_to_sheet_name.insert(spritesheet.frames[i].filename.clone(), name.clone());
            proof {
                assert(spritesheet.frames@.take(i + 1).drop_last() =~= spritesheet.frames@.take(i as int));
            }
        }
        proof {
            assert(spritesheet.frames@.take(n as int) =~= spritesheet.frames@);
        }
        self.sheet_name_map.insert(name, spritesheet);
    }

    /// Whether the frame `frame_name` can be drawn.
    pub fn can_locate_frame(&self, frame_name: &str) -> (r: bool)
        ensures
            r == self.locatable(frame_name@),
    {
        match self.frame_to_sheet_name.get(frame_name) {
            None => false,
            Some(sheet_name) => match self.sheet_name_map.get(sheet_name.as_str()) {
                None => false,
                Some(sheet) => sheet.frame_index(frame_name).is_some(),
            },
        }
    }

    /// Where the frame `frame_name` is drawn from: the name of its sheet, the
    /// sheet, and the position of the first frame of that name in the sheet.
    pub fn locate_frame(&self, frame_name: &str) -> (r: (&String, &Spritesheet, usize))
        requires
            self.locatable(frame_name@),
        ensures
            *r.0 == self.frame_to_sheet_name@[frame_name@],
            *r.1 == self.sheet_name_map@[r.0@],
            first_frame_named(r.1.frames@, frame_name@, 0) == Some(r.2 as int),
    {
        let sheet_name = self.frame_to_sheet_name.get(frame_name).unwrap();
        let sheet = self.sheet_name_map.get(sheet_name.as_str()).unwrap();
        let index = sheet.frame_index(frame_name).unwrap();
        (sheet_name, sheet, index)
    }
}

/// After sheet `name` is loaded, each of its frames leads to it, and frame
/// names it does not have lead where they led before.
pub proof fn lemma_registered_frames(index: Map<Seq<char>, String>, frames: Seq<Frame>, name: String)
    ensures
        forall|i: int|
            0 <= i < frames.len() ==> register_frames(index, frames, name).contains_key(#[trigger] frames[i].filename@)
                && register_frames(index, frames, name)[frames[i].filename@] == name,
        forall|k: Seq<char>|
            (forall|i: int| 0 <= i < frames.len() ==> #[trigger] frames[i].filename@ != k) ==> (
            #[trigger] register_frames(index, frames, name).contains_key(k) == index.contains_key(k)
                && (index.contains_key(k) ==> register_frames(index, frames, name)[k] == index[k])),
    decreases frames.len(),
{
    if frames.len() > 0 {
        let d = frames.drop_last();
        lemma_registered_frames(index, d, name);
        assert forall|i: int| 0 <= i < frames.len() implies register_frames(index, frames, name).contains_key(
            #[trigger] frames[i].filename@,
        ) && register_frames(index, frames, name)[frames[i].filename@] == name by {
            if i < d.len() {
                assert(d[i] == frames[i]);
            }
        }
        assert forall|k: Seq<char>|
            (forall|i: int| 0 <= i < frames.len() ==> #[trigger] frames[i].filename@ != k) implies (
            #[trigger] register_frames(index, frames, name).contains_key(k) == index.contains_key(k)
                && (index.contains_key(k) ==> register_frames(index, frames, name)[k] == index[k])) by {
            assert(frames[frames.len() - 1].filename@ != k);
            assert forall|i: int| 0 <= i < d.len() implies #[trigger] d[i].filename@ != k by {
                assert(d[i] == frames[i]);
            }
            assert(register_frames(index, d, name).contains_key(k) == index.contains_key(k));
            assert(index.contains_key(k) ==> register_frames(index, d, name)[k] == index[k]);
        }
    }
}

} // verus!
