//! The content store of a small self-hosted blog: post files with a
//! hand-written front matter are parsed, rendered from Markdown, sorted and
//! indexed by slug and by tag into an immutable snapshot that can be replaced
//! as a whole while the site keeps serving.

pub mod collection;
pub mod control;
pub mod ext;
pub mod front_matter;
pub mod markdown;
pub mod number;
pub mod post;
pub mod routes;
pub mod settings;
pub mod sorting;
pub mod text;
pub mod time;
