//! Finds the most recent dated toolchain release whose manifest offers every
//! required component for a target platform.

pub mod calendar;
pub mod component;
pub mod failure;
pub mod independence;
pub mod matcher;
pub mod order;
pub mod path;
pub mod preview;
pub mod replace;
pub mod report;
pub mod resolver;
pub mod search;
pub mod text;
pub mod window;
pub mod witness;
