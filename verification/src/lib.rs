//! Task-running engine: the pure parts of scheduling, labelling, progress
//! rendering, Makefile parsing and workspace layout, each with its contract.

pub mod text;
pub mod fmt;
pub mod schema;
pub mod duration;
pub mod mode;
pub mod order;
pub mod colors;
pub mod makefile;
pub mod paths;
pub mod prune;
pub mod task;
pub mod scheduler;
pub mod workspace;
pub mod heartbeat;
pub mod output;
pub mod progress;
pub mod region;
pub mod rows;
pub mod facade;
pub mod hold;
pub mod http;
pub mod graph;
pub mod dag;
pub mod visualizer;
pub mod tui;
pub mod utils;
