use spellcaster::components::animation_sheet::AnimationSheet;
use spellcaster::components::input::Input;
use spellcaster::components::node::{Entity, Node};
use spellcaster::components::player::Player;
use spellcaster::components::screen_change::ScreenChange;
use spellcaster::components::sprite::Sprite;

fn e(id: u32) -> Entity {
    Entity { id, generation: 0 }
}

#[test]
fn screen_change_new_is_empty() {
    let c = ScreenChange::new();
    assert_eq!(c.screen, "");
    assert_eq!(c.action, "");
}

#[test]
fn screen_change_set_then_reset() {
    let mut c = ScreenChange::new();
    c.set("play".to_string(), "start".to_string());
    assert_eq!(c.screen, "play");
    assert_eq!(c.action, "start");
    let copy = c.clone();
    c.reset();
    assert_eq!(c.screen, "");
    assert_eq!(c.action, "");
    assert_eq!(copy.screen, "play");
    assert_eq!(copy.action, "start");
}

#[test]
fn screen_change_default_is_empty() {
    let c = ScreenChange::default();
    assert_eq!(c.screen, "");
    assert_eq!(c.action, "");
}

#[test]
fn sprite_new_and_clone() {
    let s = Sprite::new("hero.png");
    assert_eq!(s.frame_name, "hero.png");
    assert_eq!(s.clone().frame_name, "hero.png");
}

#[test]
fn player_new() {
    assert_eq!(Player::new(), Player);
}

#[test]
fn animation_sheet_first_animation_becomes_current() {
    let mut sheet = AnimationSheet::new();
    assert_eq!(sheet.current_animation, "");
    sheet.add_animation("walk".to_string(), vec!["w1.png".to_string(), "w2.png".to_string()]);
    sheet.add_animation("run".to_string(), vec!["r1.png".to_string()]);
    assert_eq!(sheet.current_animation, "walk");
    assert_eq!(sheet.get_current_animation(), &vec!["w1.png".to_string(), "w2.png".to_string()]);
    assert_eq!(sheet.get_current_frame(), "w1.png");
    sheet.current_index = 1;
    assert_eq!(sheet.get_current_frame(), "w2.png");
}

#[test]
fn animation_sheet_switch_restarts() {
    let mut sheet = AnimationSheet::new();
    sheet.add_animation("walk".to_string(), vec!["w1.png".to_string(), "w2.png".to_string()]);
    sheet.add_animation("run".to_string(), vec!["r1.png".to_string(), "r2.png".to_string()]);
    sheet.current_index = 1;
    sheet.set_current_animation("run");
    assert_eq!(sheet.current_animation, "run");
    assert_eq!(sheet.current_index, 0);
    assert_eq!(sheet.get_current_frame(), "r1.png");
}

#[test]
fn animation_sheet_replaces_frames() {
    let mut sheet = AnimationSheet::new();
    sheet.add_animation("walk".to_string(), vec!["a.png".to_string()]);
    sheet.add_animation("walk".to_string(), vec!["b.png".to_string()]);
    assert_eq!(sheet.get_current_frame(), "b.png");
}

fn arrows() -> Input {
    Input::new(vec![
        ("left".to_string(), vec![1, 2]),
        ("right".to_string(), vec![3]),
        ("up".to_string(), vec![4]),
        ("down".to_string(), vec![5]),
    ])
}

#[test]
fn input_starts_released() {
    let input = arrows();
    for a in ["left", "right", "up", "down"] {
        assert!(!input.is_pressed(a));
    }
    for k in 1..=5 {
        assert_eq!(input.pressed_keys.get(&k), Some(&false));
    }
    assert_eq!(input.pressed_keys.get(&9), None);
    assert!(!input.mouse_pressed);
}

#[test]
fn input_press_and_release() {
    let mut input = arrows();
    input.set_pressed(&2, true);
    assert!(input.is_pressed("left"));
    assert!(!input.is_pressed("right"));
    input.set_pressed(&1, true);
    input.set_pressed(&2, false);
    assert!(input.is_pressed("left"));
    input.set_pressed(&1, false);
    assert!(!input.is_pressed("left"));
}

#[test]
fn input_ignores_unbound_keys() {
    let mut input = arrows();
    input.set_pressed(&42, true);
    assert_eq!(input.pressed_keys.get(&42), None);
    assert_eq!(input.pressed_keys.len(), 5);
}

#[test]
fn input_later_binding_replaces_earlier() {
    let input = Input::new(vec![("jump".to_string(), vec![1]), ("jump".to_string(), vec![2])]);
    let mut input = input;
    input.set_pressed(&1, true);
    assert!(!input.is_pressed("jump"));
    input.set_pressed(&2, true);
    assert!(input.is_pressed("jump"));
}

#[test]
fn node_constructors_and_adding() {
    let n = Node::new();
    assert!(n.entities.is_empty() && n.parent.is_none() && !n.children_dirty);
    let mut n = Node::with_parent(e(7));
    assert_eq!(n.parent, Some(e(7)));
    n.add(e(1));
    assert!(n.children_dirty);
    n.add_many(vec![e(2), e(3)]);
    assert_eq!(n.entities, vec![e(1), e(2), e(3)]);
    let d = Node::default();
    assert!(d.entities.is_empty() && d.parent.is_none());
}

#[test]
fn sort_children_orders_by_depth_stably() {
    let mut n = Node::new();
    n.add_many(vec![e(1), e(2), e(3), e(4), e(5)]);
    let alive = vec![true; 5];
    let depth = vec![Some(2), None, Some(1), Some(2), Some(-3)];
    n.sort_children(&alive, &depth);
    assert_eq!(n.entities, vec![e(1), e(2), e(5), e(3), e(4)]);
    assert!(!n.children_dirty);
}

#[test]
fn sort_children_drops_dead_children() {
    let mut n = Node::new();
    n.add_many(vec![e(1), e(2), e(3)]);
    n.children_dirty = false;
    n.sort_children(&vec![true, false, true], &vec![Some(5), Some(0), Some(1)]);
    assert_eq!(n.entities, vec![e(3), e(1)]);
    assert!(!n.children_dirty);
}

#[test]
fn sort_children_keeps_order_when_clean() {
    let mut n = Node::new();
    n.add_many(vec![e(1), e(2)]);
    n.children_dirty = false;
    n.sort_children(&vec![true, true], &vec![Some(5), Some(0)]);
    assert_eq!(n.entities, vec![e(1), e(2)]);
}

#[test]
fn sort_children_twice_is_stable() {
    let mut n = Node::new();
    n.add_many(vec![e(1), e(2), e(3)]);
    n.sort_children(&vec![true; 3], &vec![Some(3), Some(1), Some(2)]);
    assert_eq!(n.entities, vec![e(2), e(3), e(1)]);
    n.children_dirty = true;
    n.sort_children(&vec![true; 3], &vec![Some(1), Some(2), Some(3)]);
    assert_eq!(n.entities, vec![e(2), e(3), e(1)]);
}

#[test]
fn animation_sheet_current_frame_checks() {
    let mut sheet = AnimationSheet::new();
    assert!(!sheet.has_current_frame());
    sheet.add_animation("walk".to_string(), vec!["w1.png".to_string()]);
    assert!(sheet.has_current_frame());
    sheet.current_index = 1;
    assert!(!sheet.has_current_frame());
}

#[test]
fn sort_children_orders_all_placed_children() {
    let mut n = Node::new();
    n.add_many(vec![e(1), e(2), e(3), e(4)]);
    n.sort_children(&vec![true; 4], &vec![Some(2), Some(0), Some(2), Some(-1)]);
    assert_eq!(n.entities, vec![e(4), e(2), e(1), e(3)]);
}

#[test]
fn sort_children_keeps_unplaced_children_in_place() {
    let mut n = Node::new();
    n.add_many(vec![e(1), e(2)]);
    n.sort_children(&vec![true, true], &vec![None, Some(5)]);
    assert_eq!(n.entities, vec![e(1), e(2)]);
    let mut n = Node::new();
    n.add_many(vec![e(1), e(2), e(3)]);
    n.sort_children(&vec![true; 3], &vec![Some(9), None, Some(1)]);
    assert_eq!(n.entities, vec![e(1), e(2), e(3)]);
}

#[test]
fn sort_children_second_pass_changes_nothing() {
    let mut n = Node::new();
    n.add_many(vec![e(1), e(2), e(3), e(4)]);
    n.sort_children(&vec![true, false, true, true], &vec![Some(3), Some(0), Some(1), Some(2)]);
    let first = n.entities.clone();
    assert_eq!(first, vec![e(3), e(4), e(1)]);
    n.sort_children(&vec![true; 3], &vec![Some(9), Some(0), Some(5)]);
    assert_eq!(n.entities, first);
    assert!(!n.children_dirty);
}

#[test]
fn input_checks_only_the_asked_action() {
    let mut input = arrows();
    input.actions.insert("jump".to_string(), vec![99]);
    input.set_pressed(&3, true);
    assert!(input.is_pressed("right"));
}

#[test]
fn input_reports_untracked_key() {
    let mut input = Input::new(vec![("jump".to_string(), vec![1, 2])]);
    assert_eq!(input.untracked_key("jump"), None);
    input.pressed_keys.remove(&2);
    assert_eq!(input.untracked_key("jump"), Some(2));
}
