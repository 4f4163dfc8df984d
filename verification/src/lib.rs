//! A verified text-templating engine for a static-site generator: a
//! control-block parser, an arena-held template tree, a lexically scoped
//! context chain, a registry of built-in template functions, a memoizing
//! layout resolver and a tree-walking renderer, together with the site's
//! robots.txt and sitemap.xml writers.

pub mod context;
pub mod fm;
pub mod global;
pub mod laws;
pub mod node;
pub mod parse;
pub mod paths;
pub mod registry;
pub mod render;
pub mod robots;
pub mod sitemap;
pub mod strmap;
pub mod subst;
pub mod text;
pub mod url;
pub mod wrappers;
