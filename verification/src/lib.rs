pub mod action;
pub mod app;
pub mod buffer_ref;
pub mod config;
pub mod copilot;
pub mod editor;
pub mod effect;
pub mod finder;
pub mod format;
pub mod grammar;
pub mod highlight;
pub mod highlight_laws;
pub mod keys;
pub mod lsp;
pub mod mode;
pub mod number;
pub mod path;
pub mod prompt;
pub mod strmap;
pub mod syntax;
pub mod text;
pub mod text_laws;
