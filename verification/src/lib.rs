//! A terminal slideshow library: text styles, themes, layouts, rendering onto a
//! terminal model, and presentation navigation, with their contracts proved.
mod text_util;

pub use text_util::str_chars;
pub mod style;
pub mod properties;
pub mod theme;
pub mod layout;
pub mod text;
pub mod operation;
pub mod presentation;
pub mod error_context;
pub mod list;
pub mod sources;
pub mod code;
pub mod terminal;
pub mod query;
pub mod printer;
pub mod options;
pub mod virt;
pub mod splash;
pub mod wrap;
pub mod text_drawer;
pub mod builder;
pub mod presenter;
pub mod resource;
pub mod theme_set;
pub mod highlighting;
pub mod diff;
pub mod images;
pub mod engine;
pub mod draw;
pub mod hyperlinks;
pub mod ansi;
pub mod separator;
pub mod table;
pub mod quote;
pub mod snippet;
pub mod modals;
pub mod front_matter;
pub mod building;
