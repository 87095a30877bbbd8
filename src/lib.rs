//! A template engine with the ergonomics of JSX: markup templates are parsed
//! into elements, turned into a render tree, and written out as escaped
//! HTML. Parsing, emission, escaping and rendering carry contracts that are
//! proved.
pub mod element;
pub mod element_attribute;
pub mod element_attributes;
pub mod emit;
pub mod fragment;
pub mod html;
pub mod html_escaping;
pub mod laws;
pub mod lexer;
pub mod node;
pub mod numbers;
pub mod render;
pub mod renderable;
pub mod scope;
pub mod simple_element;
pub mod tags;
pub mod template;
pub mod text_element;

pub use fragment::Fragment;
pub use node::Node;
pub use render::{render_to_string, Render};
pub use renderable::Renderable;
pub use scope::{Scope, Value};
pub use simple_element::SimpleElement;
pub use template::{parse_template, render_template, Template, TemplateError};
pub use text_element::Raw;
