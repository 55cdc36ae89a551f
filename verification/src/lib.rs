//! Game logic of a small 2D sprite game: components, asset bookkeeping,
//! tile-map geometry, player steering and the screen state machine.
pub mod components;
pub mod renderer;
pub mod systems;
pub mod screen;
pub mod assets;
pub mod entities;
pub mod scene_graph;
pub mod world;
