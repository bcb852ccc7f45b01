//! Planning and bookkeeping for turning windowed microservice call traces into
//! per-window graph files and for running operations over those files.
pub mod text;
pub mod sort;
pub mod time;
pub mod request;
pub mod windows;
pub mod names;
pub mod ops;
pub mod options;
pub mod download;
pub mod trace;
