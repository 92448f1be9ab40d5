//! Game-logic library for a VR toy-creature sandbox: slot-stable entity
//! containers, the settings-file format, the terrain collision-mesh format and
//! the decisions of the audio and editor loops.

pub mod option_vec;
pub mod structs;
pub mod text;
pub mod option_table;
pub mod collision;
pub mod gadget;
pub mod gamestate;
pub mod audio;
pub mod render;
pub mod routines;
