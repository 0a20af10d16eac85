//! A texture-atlas packer: packs textures into power-of-two atlases and
//! describes the result in JSON or plain text.

pub mod atlas;
pub mod descriptor;
pub mod document;
pub mod options;
pub mod packer;
pub mod pixels;
pub mod rectpack;
pub mod render;
pub mod sorting;
pub mod texture;
