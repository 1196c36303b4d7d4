//! Resource publishing core of a static site generator: front matter splitting,
//! collection loading, pagination, tag aggregation and the output plan of a
//! resource type, with the outside work (Markdown, dates, URLs, RSS) behind
//! small trusted wrappers.

pub mod blog;
pub mod embed;
pub mod extension;
pub mod extras;
pub mod feed;
pub mod frontmatter;
pub mod images;
pub mod link_list;
pub mod pagination;
pub mod publisher;
pub mod registry;
pub mod resource;
pub mod tags;
pub mod text;
pub mod timestamp;
pub mod util;
pub mod web;
