use spellcaster::components::node::Entity;
use spellcaster::scene_graph::ancestry;

fn e(id: u32) -> Entity {
    Entity { id, generation: 1 }
}

#[test]
fn ancestry_walks_to_the_root() {
    let links = vec![(e(3), Some(e(2))), (e(2), Some(e(1))), (e(1), None), (e(9), Some(e(3)))];
    assert_eq!(ancestry(e(9), &links), vec![e(9), e(3), e(2), e(1)]);
    assert_eq!(ancestry(e(1), &links), vec![e(1)]);
}

#[test]
fn ancestry_stops_at_entities_without_node() {
    let links = vec![(e(3), Some(e(7)))];
    assert_eq!(ancestry(e(3), &links), vec![e(3), e(7)]);
    assert_eq!(ancestry(e(5), &links), vec![e(5)]);
}

#[test]
fn ancestry_detects_cycles() {
    let links = vec![(e(1), Some(e(2))), (e(2), Some(e(1))), (e(3), Some(e(4)))];
    assert!(!spellcaster::scene_graph::ancestry_ends(e(1), &links));
    assert!(spellcaster::scene_graph::ancestry_ends(e(3), &links));
    assert!(spellcaster::scene_graph::ancestry_ends(e(8), &links));
}
