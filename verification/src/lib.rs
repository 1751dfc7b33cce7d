//! The trovato.rs website's own logic: its colour tokens and contrast
//! annotations, the documentation mirror's manifest and link rewriting, the
//! code-block markup, and the site plugin's rendering and access decisions.

pub mod color;
pub mod docs;
pub mod highlight;
pub mod html;
pub mod json;
pub mod links;
pub mod mirror;
pub mod render;
pub mod roundtrip;
pub mod site;
pub mod text;
pub mod tokens;
