//! Verified editing logic of a fighting-game character editor.

pub mod names;
pub mod keyed;
pub mod unique;
pub mod name_index;
pub mod attacks;
pub mod moves;
pub mod cancels;
pub mod commands;
pub mod states;
pub mod flags;
pub mod keyframes;
pub mod hitboxes;
pub mod bullets;
pub mod editor;
pub mod animations;
pub mod particles;
pub mod playback;
pub mod instance;
pub mod character;
