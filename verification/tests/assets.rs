use spellcaster::assets::spritesheet::{Frame, FrameData, Meta, Size, Spritesheet};
use spellcaster::assets::spritesheet_map::SpritesheetMap;

fn frame(name: &str, x: usize) -> Frame {
    Frame {
        filename: name.to_string(),
        frame: FrameData { x, y: 0, w: 16, h: 16 },
        rotated: false,
        trimmed: false,
        sprite_source_size: FrameData { x: 0, y: 0, w: 16, h: 16 },
        source_size: Size { w: 16, h: 16 },
    }
}

fn sheet(names: &[(&str, usize)]) -> Spritesheet {
    Spritesheet {
        frames: names.iter().map(|(n, x)| frame(n, *x)).collect(),
        meta: Meta { size: Size { w: 64, h: 16 } },
    }
}

#[test]
fn frame_index_finds_first_match() {
    let s = sheet(&[("a.png", 0), ("b.png", 16), ("a.png", 32)]);
    assert_eq!(s.frame_index("a.png"), Some(0));
    assert_eq!(s.frame_index("b.png"), Some(1));
    assert_eq!(s.frame_index("c.png"), None);
}

#[test]
fn map_indexes_frames_by_sheet() {
    let mut m = SpritesheetMap::new();
    m.add_sheet("assets".to_string(), sheet(&[("hero.png", 0), ("tree.png", 16)]));
    m.add_sheet("more".to_string(), sheet(&[("rock.png", 0), ("tree.png", 48)]));
    assert_eq!(m.frame_to_sheet_name.get("hero.png"), Some(&"assets".to_string()));
    assert_eq!(m.frame_to_sheet_name.get("tree.png"), Some(&"more".to_string()));
    assert_eq!(m.frame_to_sheet_name.get("nothing.png"), None);
    let (name, s, i) = m.locate_frame("tree.png");
    assert_eq!(name, "more");
    assert_eq!(i, 1);
    assert_eq!(s.frames[i].frame.x, 48);
    assert_eq!(s.meta.size.w, 64);
}

#[test]
fn can_locate_only_indexed_frames() {
    let mut m = SpritesheetMap::new();
    assert!(!m.can_locate_frame("hero.png"));
    m.add_sheet("assets".to_string(), sheet(&[("hero.png", 0)]));
    assert!(m.can_locate_frame("hero.png"));
    assert!(!m.can_locate_frame("tree.png"));
    m.frame_to_sheet_name.insert("ghost.png".to_string(), "missing".to_string());
    assert!(!m.can_locate_frame("ghost.png"));
    m.frame_to_sheet_name.insert("lost.png".to_string(), "assets".to_string());
    assert!(!m.can_locate_frame("lost.png"));
}
