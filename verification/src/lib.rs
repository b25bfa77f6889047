//! Rendering and refinement backbone for an agent-driven UI.
//!
//! A machine-generated, JSON-encoded "render envelope" describes one frame as
//! an ordered command list.  This crate validates such envelopes defensively,
//! rasterizes them into an RGBA pixel buffer, derives a hit-test index for the
//! clickable regions, and drives the bounded generate/render/critique
//! refinement loop.  Window-system, font, network and image-codec collaborators
//! stay outside the crate; they exchange plain values with it.

pub mod buffer;
pub mod color;
pub mod events;
pub mod hit_test;
pub mod imagedraw;
pub mod lines;
pub mod model;
pub mod parser;
pub mod poly;
pub mod renderer;
pub mod serialize;
pub mod session;
pub mod shapes;
pub mod strutil;
pub mod textdraw;
pub mod validator;
