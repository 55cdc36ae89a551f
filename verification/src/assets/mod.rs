pub mod spritesheet;
pub mod spritesheet_map;
