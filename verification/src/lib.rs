//! A document navigation engine for paging through large text files:
//! line-aligned chunks of a file, the queries a viewport needs on them,
//! and the pattern slots that colour and filter the lines shown.

pub mod text;
pub mod chunk;
pub mod document;
pub mod finder;
pub mod render;
pub mod event_source;
pub mod window;
pub mod agreement;
pub mod log_timestamp;
pub mod prompt;
pub mod bookmark;
pub mod canvas;
pub mod helper;
pub mod status_bar;
pub mod timestamp_jump;
pub mod manager;
