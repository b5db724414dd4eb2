//! The verified core of a resumable, multi-part HTTP downloader.

pub mod chunks;
pub mod clock;
pub mod disk;
pub mod engine;
pub mod headers;
pub mod metadata;
pub mod multi_part;
pub mod prompt;
pub mod recovery;
pub mod single_stream;
pub mod text;
pub mod verify;
pub mod worker;
