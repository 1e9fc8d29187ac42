//! The logic of a task-list client for Anytype spaces: the ordered state that
//! the engine's subscription events keep up to date, the tiling layout in
//! which an object's relations are shown, the navigation history, and the
//! parsing of space invite links.
use vstd::prelude::*;

pub mod text;
pub mod id_map;
pub mod ordering;
pub mod fields;
pub mod events;
pub mod spaces;
pub mod sets;
pub mod list_objects;
pub mod relation_options;
pub mod relation;
pub mod tile_tree;
pub mod tile_laws;
pub mod history;
pub mod set_meta;
pub mod invite;
pub mod responses;
pub mod properties;
pub mod session;
pub mod dispatch;
pub mod styles;
pub mod action_bar;
pub mod actions;
pub mod property_rows;

