//! A miniature document-rendering pipeline: an HTML tokenizer, a tree
//! builder with error recovery, a cursor-based layout engine, a display-list
//! builder, and a script-snippet collector, together with the binary codec
//! used to ship documents and results across a process boundary.

pub mod display;
pub mod dom;
pub mod engine;
pub mod ipc;
pub mod layout;
pub mod logging;
pub mod scene;
pub mod script_host;
pub mod scripts;
pub mod text;
pub mod tokenizer;
pub mod tree;
