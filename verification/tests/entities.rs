use spellcaster::entities::{
    animation_frames, animation_name, frame_file_name, is_animation_key, object_components, PropertyValue,
};

#[test]
fn frames_split_on_commas() {
    assert_eq!(animation_frames("a,b,c"), vec!["a.png", "b.png", "c.png"]);
    assert_eq!(animation_frames(""), vec![".png"]);
    assert_eq!(animation_frames("a,,b,"), vec!["a.png", ".png", "b.png", ".png"]);
    assert_eq!(animation_frames("wälk"), vec!["wälk.png"]);
}

#[test]
fn frame_file_appends_png() {
    assert_eq!(frame_file_name("hero"), "hero.png");
}

#[test]
fn animation_keys() {
    assert!(is_animation_key("animation_walk"));
    assert!(is_animation_key("animation_"));
    assert!(!is_animation_key("anim_walk"));
    assert!(!is_animation_key("frame"));
}

#[test]
fn animation_names_drop_every_marker() {
    assert_eq!(animation_name("animation_walk"), "walk");
    assert_eq!(animation_name("animation_animation_x"), "x");
    assert_eq!(animation_name("animation_a_animation_b"), "a_b");
    assert_eq!(animation_name("animanimation_ation_"), "animation_");
    assert_eq!(animation_name("plain"), "plain");
}

fn prop(k: &str, v: &str) -> (String, PropertyValue) {
    (k.to_string(), PropertyValue::StringValue(v.to_string()))
}

#[test]
fn object_with_frame_and_animation() {
    let props = vec![prop("frame", "hero.png"), prop("animation_walk", "w1,w2"), ("speed".to_string(), PropertyValue::Other)];
    let c = object_components(&props);
    assert_eq!(c.sprite.unwrap().frame_name, "hero.png");
    let sheet = c.animation.unwrap();
    assert_eq!(sheet.current_animation, "walk");
    assert_eq!(sheet.current_index, 0);
    assert!(!sheet.playing);
    assert_eq!(sheet.get_current_animation(), &vec!["w1.png".to_string(), "w2.png".to_string()]);
}

#[test]
fn object_last_animation_wins() {
    let props = vec![prop("animation_walk", "w1"), prop("animation_run", "r1"), ("animation_jump".to_string(), PropertyValue::Other)];
    let c = object_components(&props);
    assert!(c.sprite.is_none());
    let sheet = c.animation.unwrap();
    assert_eq!(sheet.current_animation, "run");
    assert!(sheet.animations.get("walk").is_none());
}

#[test]
fn object_without_components() {
    let props = vec![("frame".to_string(), PropertyValue::Other), prop("name", "tree")];
    let c = object_components(&props);
    assert!(c.sprite.is_none());
    assert!(c.animation.is_none());
}

#[test]
fn frames_split_and_join_back() {
    for list in ["a,b", "", ",", "x,,y,", "one"] {
        let pieces: Vec<String> = animation_frames(list)
            .into_iter()
            .map(|f| f[..f.len() - 4].to_string())
            .collect();
        assert!(pieces.iter().all(|p| !p.contains(',')));
        assert_eq!(pieces.join(","), list);
        assert_eq!(pieces.len(), list.matches(',').count() + 1);
    }
}
