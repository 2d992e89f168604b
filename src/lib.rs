//! Builds a static site from posts: each post is written into a template page by resolving
//! its marker elements, and the index page's lists are expanded into one entry per post.
pub mod config;
pub mod dates;
pub mod depth;
pub mod html;
pub mod index;
pub mod posts;
pub mod resolve;
pub mod site;
pub mod slots;
pub mod tree;
