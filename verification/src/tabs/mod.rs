//! The state behind the tool's two tabs: the download queue and the workshop editor.
pub mod download;
pub mod my_workshop;
