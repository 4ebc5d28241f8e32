pub mod text;
pub mod git;
pub mod theme;
pub mod highlight;
pub mod parse;
pub mod diff_view;
pub mod config;
pub mod watcher;
pub mod session;
pub mod explorer;
pub mod icon;
