use spellcaster::components::node::Entity;
use spellcaster::world::{draw_order, draw_order_within, entity_draws, DrawEvent, DrawStep, EntityParts, TextPart};

fn bare() -> EntityParts {
    EntityParts {
        has_transform: true,
        has_sprite: false,
        has_animation: false,
        has_color: false,
        text: None,
        has_shape: false,
        has_tile_map: false,
    }
}

fn e(id: u32) -> Entity {
    Entity { id, generation: 0 }
}

#[test]
fn entity_without_transform_is_not_drawn() {
    let mut p = bare();
    p.has_transform = false;
    p.has_sprite = true;
    p.has_tile_map = true;
    assert_eq!(entity_draws(&p), vec![]);
}

#[test]
fn entity_draws_in_component_order() {
    let mut p = bare();
    p.has_sprite = true;
    p.has_animation = true;
    p.has_color = true;
    p.text = Some(TextPart { text: "hi".to_string(), visible: true });
    p.has_shape = true;
    p.has_tile_map = true;
    assert_eq!(
        entity_draws(&p),
        vec![DrawStep::Sprite, DrawStep::Animation, DrawStep::Text, DrawStep::Shape, DrawStep::TileMap]
    );
}

#[test]
fn text_needs_colour_visibility_and_content() {
    let mut p = bare();
    p.text = Some(TextPart { text: "hi".to_string(), visible: true });
    assert_eq!(entity_draws(&p), vec![]);
    p.has_color = true;
    assert_eq!(entity_draws(&p), vec![DrawStep::Text]);
    p.text = Some(TextPart { text: "hi".to_string(), visible: false });
    assert_eq!(entity_draws(&p), vec![]);
    p.text = Some(TextPart { text: String::new(), visible: true });
    assert_eq!(entity_draws(&p), vec![]);
}

#[test]
fn draw_order_is_a_preorder_with_leaves() {
    let table = vec![(e(1), vec![e(2), e(3)]), (e(2), vec![e(4)])];
    let order = draw_order(e(1), &table, &vec![]);
    assert_eq!(
        order,
        vec![
            DrawEvent::Enter(e(1)),
            DrawEvent::Enter(e(2)),
            DrawEvent::Enter(e(4)),
            DrawEvent::Leave(e(4)),
            DrawEvent::Leave(e(2)),
            DrawEvent::Enter(e(3)),
            DrawEvent::Leave(e(3)),
            DrawEvent::Leave(e(1)),
        ]
    );
}

#[test]
fn hidden_entity_skips_its_subtree() {
    let table = vec![(e(1), vec![e(2), e(3)]), (e(2), vec![e(4)])];
    let order = draw_order(e(1), &table, &vec![e(2)]);
    assert_eq!(
        order,
        vec![DrawEvent::Enter(e(1)), DrawEvent::Enter(e(3)), DrawEvent::Leave(e(3)), DrawEvent::Leave(e(1))]
    );
    assert_eq!(draw_order(e(1), &table, &vec![e(1)]), vec![]);
}

#[test]
fn bounded_walk_reports_a_cycle() {
    let table = vec![(e(1), vec![e(2)]), (e(2), vec![e(1)])];
    assert_eq!(draw_order_within(e(1), &table, &vec![], 3), None);
    assert_eq!(
        draw_order_within(e(1), &table, &vec![e(2)], 3),
        Some(vec![DrawEvent::Enter(e(1)), DrawEvent::Leave(e(1))])
    );
}

#[test]
fn bounded_walk_needs_depth_for_every_level() {
    let table = vec![(e(1), vec![e(2)])];
    assert_eq!(draw_order_within(e(1), &table, &vec![], 1), None);
    assert_eq!(draw_order_within(e(1), &table, &vec![], 2), Some(draw_order(e(1), &table, &vec![])));
}
