//! Verified core of a real-time strategy map.
#![allow(unused_imports)]

pub mod anim;
pub mod arena;
pub mod bytes;
pub mod cannon_turn;
pub mod cmap;
pub mod common;
pub mod draw_plan;
pub mod float_bits;
pub mod game_object;
pub mod grid;
pub mod map;
pub mod map_group;
pub mod map_prepare;
pub mod map_static;
pub mod map_trace;
pub mod mesh_plan;
pub mod object;
pub mod object_building;
pub mod object_cannon;
pub mod object_robot;
pub mod placements;
pub mod properties;
pub mod search;
pub mod session;
pub mod side;
pub mod sky;
pub mod sound;
pub mod terrain_fill;
pub mod text;
pub mod weapon_matrix;
