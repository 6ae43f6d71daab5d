//! Minecraft-style text components: a tree of content, formatting and
//! interactivity, with translated messages and resolution of the parts that
//! depend on the game state.
pub mod codegen;
pub mod component;
pub mod custom;
pub mod format;
pub mod resolving;
pub mod translation;
