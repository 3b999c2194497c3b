//! Verified core of a static-site generator: front-matter parsing,
//! pagination and indexing, screenshot catalogs with sibling linking,
//! feed serialization, and the dependency-ordered generation plan.

pub mod blog;
pub mod feed;
pub mod pagination;
pub mod post;
pub mod sanitize;
pub mod screenshots;
pub mod site;
pub mod text;
pub mod timestamp;
