use spellcaster::components::animation_sheet::AnimationSheet;
use spellcaster::components::input::Input;
use spellcaster::systems::player_system::PlayerSystem;

fn arrows() -> Input {
    Input::new(vec![
        ("left".to_string(), vec![1]),
        ("right".to_string(), vec![2]),
        ("up".to_string(), vec![3]),
        ("down".to_string(), vec![4]),
    ])
}

fn sheet() -> AnimationSheet {
    let mut s = AnimationSheet::new();
    for n in ["down", "up", "right"] {
        s.add_animation(n.to_string(), vec![format!("{}1.png", n), format!("{}2.png", n)]);
    }
    s
}

#[test]
fn idle_player_stops() {
    let input = arrows();
    let mut s = sheet();
    s.current_index = 1;
    s.playing = true;
    let r = PlayerSystem::new().steer(&input, &mut s, true);
    assert!(!r.moving && r.flip);
    assert!(!r.left && !r.right && !r.up && !r.down);
    assert_eq!(s.current_animation, "down");
    assert_eq!(s.current_index, 1);
    assert!(!s.playing);
}

#[test]
fn left_mirrors_and_shows_right() {
    let mut input = arrows();
    input.set_pressed(&1, true);
    let mut s = sheet();
    let r = PlayerSystem::new().steer(&input, &mut s, false);
    assert!(r.left && r.moving && r.flip);
    assert_eq!(s.current_animation, "right");
    assert_eq!(s.current_index, 0);
    assert!(s.playing);
}

#[test]
fn right_unmirrors() {
    let mut input = arrows();
    input.set_pressed(&2, true);
    let mut s = sheet();
    s.set_current_animation("right");
    s.current_index = 1;
    let r = PlayerSystem::new().steer(&input, &mut s, true);
    assert!(r.right && !r.flip);
    assert_eq!(s.current_index, 1);
}

#[test]
fn up_then_down_shows_down() {
    let mut input = arrows();
    input.set_pressed(&3, true);
    input.set_pressed(&4, true);
    let mut s = sheet();
    s.set_current_animation("up");
    s.current_index = 1;
    let r = PlayerSystem::new().steer(&input, &mut s, true);
    assert!(r.up && r.down && !r.flip);
    assert_eq!(s.current_animation, "down");
    assert_eq!(s.current_index, 0);
}

#[test]
fn up_keeps_mirroring_when_already_up() {
    let mut input = arrows();
    input.set_pressed(&3, true);
    let mut s = sheet();
    s.set_current_animation("up");
    let r = PlayerSystem::new().steer(&input, &mut s, true);
    assert!(r.flip);
}

#[test]
fn missing_animation_names_the_first_lacking_switch() {
    let mut input = arrows();
    input.set_pressed(&3, true);
    input.set_pressed(&4, true);
    let mut s = AnimationSheet::new();
    s.add_animation("right".to_string(), vec!["r.png".to_string()]);
    let p = PlayerSystem::new();
    assert_eq!(p.missing_animation(&input, &s), Some("up".to_string()));
    s.add_animation("up".to_string(), vec!["u.png".to_string()]);
    assert_eq!(p.missing_animation(&input, &s), Some("down".to_string()));
    s.add_animation("down".to_string(), vec!["d.png".to_string()]);
    assert_eq!(p.missing_animation(&input, &s), None);
}

#[test]
fn missing_animation_ignores_idle_directions() {
    let input = arrows();
    let mut s = AnimationSheet::new();
    s.add_animation("walk".to_string(), vec!["w.png".to_string()]);
    assert_eq!(PlayerSystem::new().missing_animation(&input, &s), None);
}
