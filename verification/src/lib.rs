//! A deterministic workload generator and a benchmark harness for comparing
//! server-side rendering backends.
//!
//! * [`workload`] makes the render inputs: tiles along a spiral, or the rows
//!   of a list.
//! * [`render`] is the capability that a backend implements, with a plain
//!   implementation to compare against.
//! * [`runner`] puts adapters through warm-up and measured trials and folds
//!   the outcomes into one summary per adapter; [`stats`] holds the
//!   statistics.
//! * [`report`] writes a report as a table or as JSON; [`text`] and
//!   [`fixed`] hold the number formats.
//! * [`pages`] are the pages of the application that the backends serve.

pub mod fixed;
pub mod pages;
pub mod render;
pub mod report;
pub mod runner;
pub mod stats;
pub mod text;
pub mod workload;
