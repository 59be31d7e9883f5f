//! Verified core of a live Markdown/LaTeX note renderer: it turns Markdown
//! events into IncrementalDOM JavaScript, routes resource requests, and
//! decides what to do with the events the viewer window sends back.

pub mod text;
pub mod events;
pub mod incremental_dom;
pub mod paths;
pub mod markdown_parser;
pub mod markdown_handler;
pub mod filesystem_handler;
pub mod noterender;
