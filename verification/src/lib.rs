//! A terminal Markdown pager: Markdown parsing into a small event vocabulary,
//! rendering of those events into terminal lines, and `less`-style paging with
//! search over the rendered lines.

pub mod text;
pub mod pager;
pub mod parsing;
pub mod cmark;
pub mod textops;
pub mod render_model;
pub mod rendering;
pub mod table;
pub mod viewer;
pub mod terminal;
pub mod paragraphs;
pub mod nesting;
