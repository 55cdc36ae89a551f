use vstd::prelude::*;
use crate::components::animation_sheet::AnimationSheet;
use crate::components::input::Input;

verus! {

/// Moves the player with the arrow actions "left", "right", "up" and "down".
#[derive(Clone, Copy, Debug, PartialEq, Eq)]
pub struct PlayerSystem;

/// What one frame of steering decided: which directions are held (the caller
/// moves the player one step per held direction, in the order left, right,
/// up, down), whether the sprite is mirrored and whether the player moves.
#[derive(Clone, Copy, Debug, PartialEq, Eq, Structural)]
pub struct Steering {
    pub left: bool,
    pub right: bool,
    pub up: bool,
    pub down: bool,
    pub flip: bool,
    pub moving: bool,
}

/// The animation after one step: holding a direction selects its animation.
pub open spec fn select(cur: Seq<char>, held: bool, name: Seq<char>) -> Seq<char> {
    if held { name } else { cur }
}

/// The animations in force after each of the four directions is handled:
/// left and right both select "right", up selects "up", down selects "down".
pub open spec fn anim_after_left(cur: Seq<char>, l: bool) -> Seq<char> {
    select(cur, l, "right"@)
}

pub open spec fn anim_after_right(cur: Seq<char>, l: bool, r: bool) -> Seq<char> {
    select(anim_after_left(cur, l), r, "right"@)
}

pub open spec fn anim_after_up(cur: Seq<char>, l: bool, r: bool, u: bool) -> Seq<char> {
    select(anim_after_right(cur, l, r), u, "up"@)
}

pub open spec fn anim_after_down(cur: Seq<char>, l: bool, r: bool, u: bool, d: bool) -> Seq<char> {
    select(anim_after_up(cur, l, r, u), d, "down"@)
}

/// Whether some step switched to a different animation (which restarts it).
pub open spec fn animation_switched(cur: Seq<char>, l: bool, r: bool, u: bool, d: bool) -> bool {
    ||| l && cur != "right"@
    ||| r && anim_after_left(cur, l) != "right"@
    ||| u && anim_after_right(cur, l, r) != "up"@
    ||| d && anim_after_up(cur, l, r, u) != "down"@
}

/// Every animation that a step switches to exists in `names`.
pub open spec fn switches_available(cur: Seq<char>, names: Set<Seq<char>>, l: bool, r: bool, u: bool, d: bool) -> bool {
    &&& l && cur != "right"@ ==> names.contains("right"@)
    &&& r && anim_after_left(cur, l) != "right"@ ==> names.contains("right"@)
    &&& u && anim_after_right(cur, l, r) != "up"@ ==> names.contains("up"@)
    &&& d && anim_after_up(cur, l, r, u) != "down"@ ==> names.contains("down"@)
}

/// The first animation, in the order of the steps, that a step switches to
/// and `names` lacks; `None` when every switch is available.
pub open spec fn first_missing(cur: Seq<char>, names: Set<Seq<char>>, l: bool, r: bool, u: bool, d: bool) -> Option<Seq<char>> {
    if l && cur != "right"@ && !names.contains("right"@) {
        Some("right"@)
    } else if r && anim_after_left(cur, l) != "right"@ && !names.contains("right"@) {
        Some("right"@)
    } else if u && anim_after_right(cur, l, r) != "up"@ && !names.contains("up"@) {
        Some("up"@)
    } else if d && anim_after_up(cur, l, r, u) != "down"@ && !names.contains("down"@) {
        Some("down"@)
    } else {
        None
    }
}

/// The mirroring after the four steps: left mirrors, right unmirrors, and
/// switching to "up" or "down" unmirrors.
pub open spec fn flip_after(cur: Seq<char>, flip: bool, l: bool, r: bool, u: bool, d: bool) -> bool {
    let f1 = if l { true } else { flip };
    let f2 = if r { false } else { f1 };
    let f3 = if u && anim_after_right(cur, l, r) != "up"@ { false } else { f2 };
    if d && anim_after_up(cur, l, r, u) != "down"@ { false } else { f3 }
}

/// The animation shown after steering is that of the last held direction
/// in the order left, right, up, down; with no direction held, the
/// animation, its frame and the mirroring stay as they were.
pub proof fn lemma_steering_selects(cur: Seq<char>, flip: bool, l: bool, r: bool, u: bool, d: bool)
    ensures
        d ==> anim_after_down(cur, l, r, u, d) == "down"@,
        !d && u ==> anim_after_down(cur, l, r, u, d) == "up"@,
        !d && !u && (l || r) ==> anim_after_down(cur, l, r, u, d) == "right"@,
        !l && !r && !u && !d ==> anim_after_down(cur, l, r, u, d) == cur
            && !animation_switched(cur, l, r, u, d) && flip_after(cur, flip, l, r, u, d) == flip,
{
}

/// The mirroring after steering, from the held directions, the mirroring
/// before and the animation before (`cur`): holding right unmirrors; holding
/// left (without right) mirrors unless up or down is also held, which
/// switch away from the side view; with only up or only down held the
/// mirroring is kept only when that animation was already shown; with up
/// and down both held it is dropped; with nothing held it is kept.
pub open spec fn flip_rules(cur: Seq<char>, flip: bool, l: bool, r: bool, u: bool, d: bool, result: bool) -> bool {
    &&& r ==> !result
    &&& l && !r ==> (result <==> !u && !d)
    &&& !l && !r && u && d ==> !result
    &&& !l && !r && u && !d ==> (result <==> flip && cur == "up"@)
    &&& !l && !r && !u && d ==> (result <==> flip && cur == "down"@)
    &&& !l && !r && !u && !d ==> (result <==> flip)
}

proof fn lemma_distinct_names()
    ensures
        "right"@ != "up"@,
        "right"@ != "down"@,
        "up"@ != "down"@,
{
    reveal_strlit("right");
    reveal_strlit("up");
    reveal_strlit("down");
    assert("right"@.len() == 5);
    assert("up"@.len() == 2);
    assert("down"@.len() == 4);
}

/// A step that ends on another animation than the one shown before switched
/// (so the animation restarted); with no direction held nothing switches.
pub proof fn lemma_switch_restarts(cur: Seq<char>, l: bool, r: bool, u: bool, d: bool)
    ensures
        anim_after_down(cur, l, r, u, d) != cur ==> animation_switched(cur, l, r, u, d),
        !l && !r && !u && !d ==> !animation_switched(cur, l, r, u, d),
{
}

/// Steering mirrors the sprite as `flip_rules` says, for every combination
/// of held directions.
pub proof fn lemma_flip_rules(cur: Seq<char>, flip: bool, l: bool, r: bool, u: bool, d: bool)
    ensures
        flip_rules(cur, flip, l, r, u, d, flip_after(cur, flip, l, r, u, d)),
{
    lemma_distinct_names();
}

impl PlayerSystem {
    pub fn new() -> (s: PlayerSystem)
        ensures
            s == PlayerSystem,
    {
        PlayerSystem {}
    }

    /// Before steering: the animation that the held directions would switch
    /// `sheet` to and that it lacks (the first such, in the order of the
    /// steps), or `None` when steering can proceed.
    pub fn missing_animation(&self, input: &Input, sheet: &AnimationSheet) -> (m: Option<String>)
        requires
            input.actions@.contains_key("left"@),
            input.actions@.contains_key("right"@),
            input.actions@.contains_key("up"@),
            input.actions@.contains_key("down"@),
            input.tracks_action("left"@),
            input.tracks_action("right"@),
            input.tracks_action("up"@),
            input.tracks_action("down"@),
        ensures
            match m {
                None => first_missing(
                    sheet.current_animation@,
                    sheet.animations@.dom(),
                    input.spec_is_pressed("left"@),
                    input.spec_is_pressed("right"@),
                    input.spec_is_pressed("up"@),
                    input.spec_is_pressed("down"@),
                ) is None,
                Some(name) => first_missing(
                    sheet.current_animation@,
                    sheet.animations@.dom(),
                    input.spec_is_pressed("left"@),
                    input.spec_is_pressed("right"@),
                    input.spec_is_pressed("up"@),
                    input.spec_is_pressed("down"@),
                ) == Some(name@),
            },
            m is None <==> switches_available(
                sheet.current_animation@,
                sheet.animations@.dom(),
                input.spec_is_pressed("left"@),
                input.spec_is_pressed("right"@),
                input.spec_is_pressed("up"@),
                input.spec_is_pressed("down"@),
            ),
    {
        let right_name = String::from_str("right");
        let up_name = String::from_str("up");
        let down_name = String::from_str("down");
        let left = input.is_pressed("left");
        let right = input.is_pressed("right");
        let up = input.is_pressed("up");
        let down = input.is_pressed("down");
        let mut cur = sheet.current_animation.clone();
        if left && cur != right_name {
            if !sheet.animations.contains_key(right_name.as_str()) {
                return Some(right_name);
            }
            cur = right_name.clone();
        }
        if right && cur != right_name {
            if !sheet.animations.contains_key(right_name.as_str()) {
                return Some(right_name);
            }
            cur = right_name.clone();
        }
        if up && cur != up_name {
            if !sheet.animations.contains_key(up_name.as_str()) {
                return Some(up_name);
            }
            cur = up_name.clone();
        }
        if down && cur != down_name {
            if !sheet.animations.contains_key(down_name.as_str()) {
                return Some(down_name);
            }
        }
        None
    }

    /// One frame of steering for the player whose animations are `sheet` and
    /// whose sprite is mirrored when `flip` holds: reads the four direction
    /// actions, switches the animation as the held directions select, starts
    /// or stops it, and says how the player moves.
    pub fn steer(&self, input: &Input, sheet: &mut AnimationSheet, flip: bool) -> (s: Steering)
        requires
            input.actions@.contains_key("left"@),
            input.actions@.contains_key("right"@),
            input.actions@.contains_key("up"@),
            input.actions@.contains_key("down"@),
            input.tracks_action("left"@),
            input.tracks_action("right"@),
            input.tracks_action("up"@),
            input.tracks_action("down"@),
            switches_available(
                old(sheet).current_animation@,
                old(sheet).animations@.dom(),
                input.spec_is_pressed("left"@),
                input.spec_is_pressed("right"@),
                input.spec_is_pressed("up"@),
                input.spec_is_pressed("down"@),
            ),
        ensures
            s.left == input.spec_is_pressed("left"@),
            s.right == input.spec_is_pressed("right"@),
            s.up == input.spec_is_pressed("up"@),
            s.down == input.spec_is_pressed("down"@),
            s.moving == (s.left || s.right || s.up || s.down),
            s.flip == flip_after(old(sheet).current_animation@, flip, s.left, s.right, s.up, s.down),
            flip_rules(old(sheet).current_animation@, flip, s.left, s.right, s.up, s.down, s.flip),
            final(sheet).current_animation@ == anim_after_down(
                old(sheet).current_animation@,
                s.left,
                s.right,
                s.up,
                s.down,
            ),
            final(sheet).current_index == if animation_switched(
                old(sheet).current_animation@,
                s.left,
                s.right,
                s.up,
                s.down,
            ) {
                0
            } else {
                old(sheet).current_index
            },
            final(sheet).animations@ == old(sheet).animations@,
            final(sheet).current_animation@ != old(sheet).current_animation@ ==> final(sheet).current_index == 0,
            !s.moving ==> final(sheet).current_index == old(sheet).current_index
                && final(sheet).current_animation@ == old(sheet).current_animation@,
            final(sheet).playing == s.moving,
            old(sheet).wf() || animation_switched(old(sheet).current_animation@, s.left, s.right, s.up, s.down)
                ==> final(sheet).wf(),
    {
        let right_name = String::from_str("right");
        let up_name = String::from_str("up");
        let down_name = String::from_str("down");
        let ghost flip0 = flip;
        let ghost cur0 = sheet.current_animation@;
        let mut flip = flip;
        let mut moving = false;
        let left = input.is_pressed("left");
        if left {
            if sheet.current_animation != right_name {
                sheet.set_current_animation(right_name.as_str());
            }
            if !flip {
                flip = true;
            }
            moving = true;
        }
        let right = input.is_pressed("right");
        if right {
            if sheet.current_animation != right_name {
                sheet.set_current_animation(right_name.as_str());
            }
            if flip {
                flip = false;
            }
            moving = true;
        }
        let up = input.is_pressed("up");
        if up {
            if sheet.current_animation != up_name {
                sheet.set_current_animation(up_name.as_str());
                flip = false;
            }
            moving = true;
        }
        let down = input.is_pressed("down");
        if down {
            if sheet.current_animation != down_name {
                sheet.set_current_animation(down_name.as_str());
                flip = false;
            }
            moving = true;
        }
        sheet.playing = moving;
        proof {
            lemma_flip_rules(cur0, flip0, left, right, up, down);
            lemma_switch_restarts(cur0, left, right, up, down);
        }
        Steering { left, right, up, down, flip, moving }
    }
}

} // verus!
