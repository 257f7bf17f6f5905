//! Reactive preview pipeline: locating a runtime, running the toolchain and
//! classifying its output, debouncing file changes, tracking display sessions
//! and keeping the list of recently opened files.

pub mod bundler;
pub mod recent;
pub mod session;
pub mod text;
pub mod version;
pub mod watcher;
