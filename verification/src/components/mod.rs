pub mod player;
pub mod screen_change;
pub mod sprite;
pub mod node;
pub mod animation_sheet;
pub mod input;
