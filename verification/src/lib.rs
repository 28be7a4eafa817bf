//! A desktop audio mixer's core: mixer state and profiles, the window layout
//! and its input handling, the software renderer's pixel work and image codec,
//! and the two on-disk formats.

pub mod arrival_laws;
pub mod command_palette;
pub mod domain;
pub mod format_laws;
pub mod gain;
pub mod geometry;
pub mod gesture_laws;
pub mod number;
pub mod ordered;
pub mod profile;
pub mod profile_laws;
pub mod render;
pub mod runtime;
pub mod server_laws;
pub mod settings;
pub mod shell;
pub mod shell_laws;
pub mod single;
pub mod state;
pub mod state_laws;
pub mod store;
pub mod store_laws;
pub mod text;
pub mod ui;
pub mod view;
