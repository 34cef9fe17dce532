//! A compiler front end for an indentation-sensitive dialogue-script format.
//!
//! `import` reads scripts line by line into a tree of scenes, dialogue lines, commands
//! and nested choice groups (`model::dialog`), deriving each node's id from its position.
//! `export` walks finished trees: the PO localization catalog, and the stripped tree for
//! data files. `model` also holds the run's settings and the driver that plans what a run
//! writes. Every reader and writer here is stated against a mathematical model of its
//! input and output and proved.
pub mod config;
pub mod export;
pub mod import;
pub mod model;
pub mod text;
