//! A small layout engine: a document tree and a stylesheet go in, a tree of
//! positioned and sized boxes comes out.

pub mod css;
pub mod css_grammar;
pub mod dom;
pub mod html;
pub mod html_grammar;
pub mod layout;
pub mod layout_laws;
pub mod painting;
pub mod scan;
pub mod style;
pub mod text;
pub mod units;
