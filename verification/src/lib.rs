//! Vertebrae: the decisions of an automatic backup utility for GNU/Linux.
pub mod config;
pub mod journal;
pub mod outside;
pub mod path;
pub mod pathmap;
pub mod text;
pub mod time;
pub mod worker;
