pub mod player_system;
