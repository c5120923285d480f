//! Turns the structure of object-oriented source code — classes, members,
//! inheritance, composition — into Mermaid class-diagram text.
//!
//! The crate works on a plain-data description of the analysed source
//! (`semantic`), builds a [`renderer::Diagram`] from it (`class_diagram`),
//! orders the diagram deterministically (`topo_order`) and serializes it
//! (`mermaid_renderer`). Parsing and name resolution are supplied by the
//! caller; everything here is pure and verified.

pub mod class_diagram;
pub mod class_helpers;
pub mod class_type_detector;
pub mod laws;
pub mod mermaid_escape;
pub mod mermaid_renderer;
pub mod output_format;
pub mod parameter_generator;
pub mod renderer;
pub mod semantic;
pub mod text;
pub mod topo_order;
pub mod type_analyzer;
pub mod utils;
