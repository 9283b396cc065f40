//! Navigation core of an interactive terminal pager.
//!
//! The library moves a byte cursor through a captured byte stream so that
//! every externally visible position lies on a UTF-8 scalar boundary, walks
//! forward and backward over logical (possibly soft-wrapped) lines, jumps by
//! percentage, keeps an ordered index of regular-expression matches, and
//! turns key events into typed commands through a small mode machine.

pub mod controller;
pub mod error;
pub mod input;
pub mod line_num_cache;
pub mod reader;
pub mod searcher;
pub mod string_util;
pub mod utf8_validation;
pub mod util;
